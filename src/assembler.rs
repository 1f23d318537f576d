//! The two-pass assembler: labels first, then one 16-bit word per instruction.

use vstd::prelude::*;
use crate::instructions::{AInstruction, CInstruction};
use crate::symbol_table::{
    c_word, comp_bits, dest_bits, jump_bits, predefined_aliases, SymbolTable, SymbolTableError,
    MAX_ADDRESS, START_ALIAS_ADDRESS,
};
use crate::text::lines_view;
use crate::tokenizer::{error_shape, token_shape, tokenize, tokenize_spec, ErrorShape, Token, TokenError, TokenShape};

verus! {

#[derive(Debug, Clone, PartialEq, Eq)]
pub enum ParseError {
    TokenError(TokenError),
    SymbolTableError(SymbolTableError),
    /// A token that does not become a word reached the second pass.
    NonCompilableToken(Token),
    /// A label would point past the last ROM address.
    RomOverflow(String),
}

#[derive(Debug, Clone, PartialEq, Eq)]
pub enum AssemblerError {
    ParseError(ParseError),
}

/// Why assembling fails, over sequences of characters.
pub enum AsmFailure {
    Token(ErrorShape),
    Redeclared,
    RomOverflow,
    OutOfAddresses,
    NonCompilable,
}

pub open spec fn shapes(v: Seq<Token>) -> Seq<TokenShape> {
    v.map_values(|t: Token| token_shape(t))
}

pub open spec fn failure_of(e: ParseError) -> AsmFailure {
    match e {
        ParseError::TokenError(t) => AsmFailure::Token(error_shape(t)),
        ParseError::SymbolTableError(SymbolTableError::AlreadySetErr) => AsmFailure::Redeclared,
        ParseError::SymbolTableError(SymbolTableError::OutOfAddresses) => AsmFailure::OutOfAddresses,
        ParseError::NonCompilableToken(_) => AsmFailure::NonCompilable,
        ParseError::RomOverflow(_) => AsmFailure::RomOverflow,
    }
}

/// First pass over the lines: the labels with their ROM lines, and the
/// instructions in order.
pub open spec fn pass1(lines: Seq<Seq<char>>) -> Result<(Map<Seq<char>, u16>, Seq<TokenShape>), AsmFailure>
    decreases lines.len(),
{
    if lines.len() == 0 {
        Ok((Map::empty(), Seq::empty()))
    } else {
        match pass1(lines.drop_last()) {
            Err(e) => Err(e),
            Ok((labels, toks)) => match tokenize_spec(lines.last()) {
                Err(e) => Err(AsmFailure::Token(e)),
                Ok(None) => Ok((labels, toks)),
                Ok(Some(TokenShape::Label(l))) => {
                    if toks.len() > MAX_ADDRESS {
                        Err(AsmFailure::RomOverflow)
                    } else if labels.contains_key(l) {
                        Err(AsmFailure::Redeclared)
                    } else {
                        Ok((labels.insert(l, toks.len() as u16), toks))
                    }
                },
                Ok(Some(t)) => Ok((labels, toks.push(t))),
            },
        }
    }
}

pub open spec fn or_zero(o: Option<u16>) -> u16 {
    match o {
        Some(v) => v,
        None => 0,
    }
}

/// Word of a C-instruction; an unknown field contributes no bits.
pub open spec fn encode_spec(dest: Option<Seq<char>>, comp: Seq<char>, jump: Option<Seq<char>>) -> u16 {
    c_word(
        or_zero(comp_bits(comp)),
        match dest {
            Some(d) => or_zero(dest_bits(d)),
            None => 0,
        },
        match jump {
            Some(j) => or_zero(jump_bits(j)),
            None => 0,
        },
    )
}

/// Second pass from a given variable state: aliases by name, the next free
/// address, and the words so far.
pub open spec fn pass2(
    labels: Map<Seq<char>, u16>,
    aliases: Map<Seq<char>, u16>,
    next: nat,
    toks: Seq<TokenShape>,
) -> Result<(Map<Seq<char>, u16>, nat, Seq<u16>), AsmFailure>
    decreases toks.len(),
{
    if toks.len() == 0 {
        Ok((aliases, next, Seq::empty()))
    } else {
        match pass2(labels, aliases, next, toks.drop_last()) {
            Err(e) => Err(e),
            Ok((al, nx, words)) => match toks.last() {
                TokenShape::Raw(v) => Ok((al, nx, words.push(v as u16))),
                TokenShape::Alias(n) => {
                    if al.contains_key(n) {
                        Ok((al, nx, words.push(al[n])))
                    } else if labels.contains_key(n) {
                        Ok((al, nx, words.push(labels[n])))
                    } else if nx > MAX_ADDRESS {
                        Err(AsmFailure::OutOfAddresses)
                    } else {
                        Ok((al.insert(n, nx as u16), nx + 1, words.push(nx as u16)))
                    }
                },
                TokenShape::Instr(d, c, j) => Ok((al, nx, words.push(encode_spec(d, c, j)))),
                TokenShape::Label(_) => Err(AsmFailure::NonCompilable),
            },
        }
    }
}

/// The low `n` bits of `v` as `'0'`/`'1'` characters, most significant first.
pub open spec fn bin_digits(v: nat, n: nat) -> Seq<char>
    decreases n,
{
    if n == 0 {
        Seq::empty()
    } else {
        bin_digits(v / 2, (n - 1) as nat).push(if v % 2 == 1 { '1' } else { '0' })
    }
}

pub open spec fn bin16(v: u16) -> Seq<char> {
    bin_digits(v as nat, 16)
}

/// The words of a program, when it assembles.
pub open spec fn assemble_words(lines: Seq<Seq<char>>) -> Result<Seq<u16>, AsmFailure> {
    match pass1(lines) {
        Err(e) => Err(e),
        Ok((labels, toks)) => match pass2(labels, predefined_aliases(), START_ALIAS_ADDRESS as nat, toks) {
            Err(e) => Err(e),
            Ok((_, _, words)) => Ok(words),
        },
    }
}

/// The output lines of a program, when it assembles.
pub open spec fn assemble_spec(lines: Seq<Seq<char>>) -> Result<Seq<Seq<char>>, AsmFailure> {
    match assemble_words(lines) {
        Err(e) => Err(e),
        Ok(words) => Ok(words.map_values(|w: u16| bin16(w))),
    }
}

fn bit_text(b: u16) -> (r: &'static str)
    requires
        b < 2,
    ensures
        r@ == seq![if b == 1 { '1' } else { '0' }],
{
    if b == 1 {
        proof { reveal_strlit("1"); }
        "1"
    } else {
        proof { reveal_strlit("0"); }
        "0"
    }
}

fn push_bits(out: &mut String, v: u16, n: u16)
    ensures
        final(out)@ == old(out)@ + bin_digits(v as nat, n as nat),
    decreases n,
{
    if n > 0 {
        push_bits(out, v / 2, n - 1);
        out.append(bit_text(v % 2));
        proof {
            assert(old(out)@ + bin_digits(v as nat, n as nat) =~= old(out)@ + bin_digits(
                (v / 2) as nat,
                (n - 1) as nat,
            ) + seq![if v % 2 == 1 { '1' } else { '0' }]);
        }
    }
}

/// The 16 binary digits of a word, most significant first.
pub fn bin_string(val: u16) -> (r: String)
    ensures
        r@ == bin16(val),
{
    let mut s = String::new();
    push_bits(&mut s, val, 16);
    proof {
        assert(s@ =~= bin16(val));
    }
    s
}

proof fn lemma_comp_bits_small(s: Seq<char>)
    ensures
        or_zero(comp_bits(s)) < 128,
{
}

proof fn lemma_dest_bits_small(s: Seq<char>)
    ensures
        or_zero(dest_bits(s)) < 8,
{
}

proof fn lemma_jump_bits_small(s: Seq<char>)
    ensures
        or_zero(jump_bits(s)) < 8,
{
}

/// Word of a C-instruction, its fields looked up in the tables.
pub fn encode_c_instruction(cinstr: &CInstruction, symbols: &SymbolTable) -> (r: u16)
    ensures
        r == encode_spec(cinstr.spec_dest(), cinstr.spec_comp(), cinstr.spec_jump()),
        r / 8192 == 7,
{
    proof {
        lemma_c_instruction_prefix(cinstr.spec_dest(), cinstr.spec_comp(), cinstr.spec_jump());
    }
    let comp = match symbols.get_comp_instr(cinstr.comp()) {
        Some(v) => v,
        None => 0,
    };
    let dest = match cinstr.dest() {
        Some(d) => match symbols.get_dest_instr(d.as_str()) {
            Some(v) => v,
            None => 0,
        },
        None => 0,
    };
    let jump = match cinstr.jump() {
        Some(j) => match symbols.get_jmp_instr(j.as_str()) {
            Some(v) => v,
            None => 0,
        },
        None => 0,
    };
    proof {
        lemma_comp_bits_small(cinstr.spec_comp());
        match cinstr.spec_dest() {
            Some(d) => lemma_dest_bits_small(d),
            None => {},
        }
        match cinstr.spec_jump() {
            Some(j) => lemma_jump_bits_small(j),
            None => {},
        }
    }
    0xe000 + comp * 64 + dest * 8 + jump
}

/// Scans the lines once: declares each label at the count of instructions
/// before it, and keeps the instructions.
fn first_pass(lines: &Vec<String>) -> (r: Result<(SymbolTable, Vec<Token>), ParseError>)
    ensures
        match r {
            Ok((symbols, tokens)) => {
                &&& symbols.wf()
                &&& symbols.alias_map() == predefined_aliases()
                &&& symbols.next_address() == START_ALIAS_ADDRESS as nat
                &&& pass1(lines_view(lines@)) == Ok::<_, AsmFailure>((symbols.label_map(), shapes(tokens@)))
            },
            Err(e) => pass1(lines_view(lines@)) == Err::<(Map<Seq<char>, u16>, Seq<TokenShape>), _>(failure_of(e)),
        },
{
    let mut symbols = SymbolTable::new();
    let mut tokens: Vec<Token> = Vec::new();
    let ghost lv = lines_view(lines@);
    let mut i: usize = 0;
    proof {
        assert(lv.subrange(0, 0) =~= Seq::<Seq<char>>::empty());
        assert(shapes(tokens@) =~= Seq::<TokenShape>::empty());
    }
    while i < lines.len()
        invariant
            i <= lines@.len(),
            lv == lines_view(lines@),
            symbols.wf(),
            symbols.alias_map() == predefined_aliases(),
            symbols.next_address() == START_ALIAS_ADDRESS as nat,
            pass1(lv.subrange(0, i as int)) == Ok::<_, AsmFailure>((symbols.label_map(), shapes(tokens@))),
        decreases lines@.len() - i,
    {
        proof {
            assert(lv.subrange(0, i as int + 1).drop_last() =~= lv.subrange(0, i as int));
            assert(lv.subrange(0, i as int + 1).last() == lines@[i as int]@);
        }
        match tokenize(lines[i].as_str()) {
            Err(e) => {
                proof {
                    lemma_pass1_stops(lv, i as int + 1);
                }
                return Err(ParseError::TokenError(e));
            },
            Ok(None) => {},
            Ok(Some(Token::Label(label))) => {
                if tokens.len() > MAX_ADDRESS as usize {
                    proof {
                        lemma_pass1_stops(lv, i as int + 1);
                    }
                    return Err(ParseError::RomOverflow(label));
                }
                match symbols.add_label(label, tokens.len() as u16) {
                    Err(e) => {
                        proof {
                            lemma_pass1_stops(lv, i as int + 1);
                        }
                        return Err(ParseError::SymbolTableError(e));
                    },
                    Ok(_) => {},
                }
            },
            Ok(Some(t)) => {
                let ghost before = tokens@;
                tokens.push(t);
                proof {
                    assert(shapes(tokens@) =~= shapes(before).push(token_shape(t)));
                }
            },
        }
        i = i + 1;
    }
    proof {
        assert(lv.subrange(0, i as int) =~= lv);
    }
    Ok((symbols, tokens))
}

/// Once the first pass fails on a prefix, it fails the same way on the whole.
proof fn lemma_pass1_stops(lines: Seq<Seq<char>>, k: int)
    requires
        0 <= k <= lines.len(),
        pass1(lines.subrange(0, k)) is Err,
    ensures
        pass1(lines) == pass1(lines.subrange(0, k)),
    decreases lines.len() - k,
{
    if k < lines.len() {
        assert(lines.subrange(0, k + 1).drop_last() =~= lines.subrange(0, k));
        lemma_pass1_stops(lines, k + 1);
    } else {
        assert(lines.subrange(0, k) =~= lines);
    }
}

proof fn lemma_pass2_stops(
    labels: Map<Seq<char>, u16>,
    aliases: Map<Seq<char>, u16>,
    next: nat,
    toks: Seq<TokenShape>,
    k: int,
)
    requires
        0 <= k <= toks.len(),
        pass2(labels, aliases, next, toks.subrange(0, k)) is Err,
    ensures
        pass2(labels, aliases, next, toks) == pass2(labels, aliases, next, toks.subrange(0, k)),
    decreases toks.len() - k,
{
    if k < toks.len() {
        assert(toks.subrange(0, k + 1).drop_last() =~= toks.subrange(0, k));
        lemma_pass2_stops(labels, aliases, next, toks, k + 1);
    } else {
        assert(toks.subrange(0, k) =~= toks);
    }
}

/// Second pass: one word per instruction, variables allocated on first sight.
fn convert_to_bin(symbols: SymbolTable, tokens: &Vec<Token>) -> (r: Result<Vec<u16>, ParseError>)
    requires
        symbols.wf(),
    ensures
        match r {
            Ok(words) => {
                &&& pass2(symbols.label_map(), symbols.alias_map(), symbols.next_address(), shapes(tokens@)) is Ok
                &&& pass2(symbols.label_map(), symbols.alias_map(), symbols.next_address(), shapes(tokens@))->Ok_0.2
                    == words@
            },
            Err(e) => pass2(symbols.label_map(), symbols.alias_map(), symbols.next_address(), shapes(tokens@))
                == Err::<(Map<Seq<char>, u16>, nat, Seq<u16>), _>(failure_of(e)),
        },
{
    let mut table = symbols;
    let ghost labels = symbols.label_map();
    let ghost al0 = symbols.alias_map();
    let ghost nx0 = symbols.next_address();
    let ghost ts = shapes(tokens@);
    let mut words: Vec<u16> = Vec::new();
    let mut i: usize = 0;
    while i < tokens.len()
        invariant
            i <= tokens@.len(),
            ts == shapes(tokens@),
            labels == symbols.label_map(),
            al0 == symbols.alias_map(),
            nx0 == symbols.next_address(),
            table.wf(),
            table.label_map() == labels,
            pass2(labels, al0, nx0, ts.subrange(0, i as int)) == Ok::<_, AsmFailure>(
                (table.alias_map(), table.next_address(), words@),
            ),
        decreases tokens@.len() - i,
    {
        proof {
            assert(ts.subrange(0, i as int + 1).drop_last() =~= ts.subrange(0, i as int));
            assert(ts.subrange(0, i as int + 1).last() == token_shape(tokens@[i as int]));
        }
        let word = match &tokens[i] {
            Token::AInstruction(AInstruction::RawAddr(addr)) => *addr,
            Token::AInstruction(AInstruction::Alias(alias)) => {
                if let Some(addr) = table.get_addr(alias.as_str()) {
                    addr
                } else if let Some(addr) = table.get_line_no(alias.as_str()) {
                    addr
                } else {
                    match table.add_alias(alias.clone()) {
                        Ok(addr) => addr,
                        Err(e) => {
                            proof {
                                assert(pass2(labels, al0, nx0, ts.subrange(0, i as int + 1)) == Err::<
                                    (Map<Seq<char>, u16>, nat, Seq<u16>),
                                    _,
                                >(failure_of(ParseError::SymbolTableError(e))));
                                lemma_pass2_stops(labels, al0, nx0, ts, i as int + 1);
                            }
                            return Err(ParseError::SymbolTableError(e));
                        },
                    }
                }
            },
            Token::CInstruction(cinstr) => encode_c_instruction(cinstr, &table),
            Token::Label(_) => {
                proof {
                    assert(pass2(labels, al0, nx0, ts.subrange(0, i as int + 1)) == Err::<
                        (Map<Seq<char>, u16>, nat, Seq<u16>),
                        _,
                    >(AsmFailure::NonCompilable));
                    lemma_pass2_stops(labels, al0, nx0, ts, i as int + 1);
                }
                return Err(ParseError::NonCompilableToken(tokens[i].clone()));
            },
        };
        words.push(word);
        i = i + 1;
    }
    proof {
        assert(ts.subrange(0, i as int) =~= ts);
        assert(pass2(labels, al0, nx0, ts) == Ok::<_, AsmFailure>(
            (table.alias_map(), table.next_address(), words@),
        ));
    }
    Ok(words)
}

/// Assembles the lines of a program into lines of 16 binary digits, one per
/// instruction.
pub fn parse(lines: &Vec<String>) -> (r: Result<Vec<String>, ParseError>)
    ensures
        match r {
            Ok(out) => assemble_spec(lines_view(lines@)) == Ok::<_, AsmFailure>(lines_view(out@)),
            Err(e) => assemble_spec(lines_view(lines@)) == Err::<Seq<Seq<char>>, _>(failure_of(e)),
        },
{
    let (symbols, tokens) = match first_pass(lines) {
        Ok(p) => p,
        Err(e) => return Err(e),
    };
    let words = match convert_to_bin(symbols, &tokens) {
        Ok(w) => w,
        Err(e) => return Err(e),
    };
    let mut out: Vec<String> = Vec::new();
    let mut i: usize = 0;
    while i < words.len()
        invariant
            i <= words@.len(),
            lines_view(out@) == words@.subrange(0, i as int).map_values(|w: u16| bin16(w)),
        decreases words@.len() - i,
    {
        let ghost before = out@;
        out.push(bin_string(words[i]));
        proof {
            assert(lines_view(out@) =~= lines_view(before).push(bin16(words@[i as int])));
            assert(words@.subrange(0, i as int + 1).map_values(|w: u16| bin16(w)) =~= words@.subrange(
                0,
                i as int,
            ).map_values(|w: u16| bin16(w)).push(bin16(words@[i as int])));
        }
        i = i + 1;
    }
    proof {
        assert(words@.subrange(0, i as int) =~= words@);
    }
    Ok(out)
}

/// Assembles a program; see [`parse`].
pub fn assemble(lines: &Vec<String>) -> (r: Result<Vec<String>, AssemblerError>)
    ensures
        match r {
            Ok(out) => assemble_spec(lines_view(lines@)) == Ok::<_, AsmFailure>(lines_view(out@)),
            Err(AssemblerError::ParseError(e)) => assemble_spec(lines_view(lines@)) == Err::<
                Seq<Seq<char>>,
                _,
            >(failure_of(e)),
        },
{
    match parse(lines) {
        Ok(out) => Ok(out),
        Err(e) => Err(AssemblerError::ParseError(e)),
    }
}

} // verus!

verus! {

/// Whether a line holds an A- or C-instruction.
pub open spec fn is_instruction_line(l: Seq<char>) -> bool {
    match tokenize_spec(l) {
        Ok(Some(TokenShape::Raw(_))) => true,
        Ok(Some(TokenShape::Alias(_))) => true,
        Ok(Some(TokenShape::Instr(_, _, _))) => true,
        _ => false,
    }
}

/// Number of A- and C-instructions among the lines.
pub open spec fn instruction_count(lines: Seq<Seq<char>>) -> nat
    decreases lines.len(),
{
    if lines.len() == 0 {
        0
    } else {
        instruction_count(lines.drop_last()) + if is_instruction_line(lines.last()) { 1nat } else { 0nat }
    }
}

proof fn lemma_pass1_counts(lines: Seq<Seq<char>>)
    requires
        pass1(lines) is Ok,
    ensures
        pass1(lines)->Ok_0.1.len() == instruction_count(lines),
        forall|k: int| 0 <= k < pass1(lines)->Ok_0.1.len() ==> !(pass1(lines)->Ok_0.1[k] is Label),
    decreases lines.len(),
{
    if lines.len() > 0 {
        lemma_pass1_counts(lines.drop_last());
        let toks = pass1(lines.drop_last())->Ok_0.1;
        match tokenize_spec(lines.last()) {
            Ok(Some(t)) => {
                if !(t is Label) {
                    assert forall|k: int| 0 <= k < toks.push(t).len() implies !(#[trigger] toks.push(
                        t,
                    )[k] is Label) by {
                        if k < toks.len() {
                            assert(toks.push(t)[k] == toks[k]);
                        }
                    }
                }
            },
            _ => {},
        }
    }
}

proof fn lemma_pass2_counts(
    labels: Map<Seq<char>, u16>,
    aliases: Map<Seq<char>, u16>,
    next: nat,
    toks: Seq<TokenShape>,
)
    requires
        pass2(labels, aliases, next, toks) is Ok,
    ensures
        pass2(labels, aliases, next, toks)->Ok_0.2.len() == toks.len(),
    decreases toks.len(),
{
    if toks.len() > 0 {
        lemma_pass2_counts(labels, aliases, next, toks.drop_last());
    }
}

/// An accepted program yields exactly one output line per A- or C-instruction;
/// labels, comments and blank lines yield none.
pub proof fn lemma_one_line_per_instruction(lines: Seq<Seq<char>>)
    requires
        assemble_spec(lines) is Ok,
    ensures
        assemble_spec(lines)->Ok_0.len() == instruction_count(lines),
{
    lemma_pass1_counts(lines);
    let (labels, toks) = pass1(lines)->Ok_0;
    lemma_pass2_counts(labels, predefined_aliases(), START_ALIAS_ADDRESS as nat, toks);
}

proof fn lemma_bin_digits_shape(v: nat, n: nat)
    ensures
        bin_digits(v, n).len() == n,
        forall|k: int| 0 <= k < n ==> (#[trigger] bin_digits(v, n)[k] == '0' || bin_digits(v, n)[k] == '1'),
    decreases n,
{
    if n > 0 {
        lemma_bin_digits_shape(v / 2, (n - 1) as nat);
        let p = bin_digits(v / 2, (n - 1) as nat);
        assert forall|k: int| 0 <= k < n implies (#[trigger] bin_digits(v, n)[k] == '0' || bin_digits(
            v,
            n,
        )[k] == '1') by {
            if k < n - 1 {
                assert(bin_digits(v, n)[k] == p[k]);
            }
        }
    }
}

/// Every output line of an accepted program is sixteen characters, each `0` or `1`.
pub proof fn lemma_output_is_binary(lines: Seq<Seq<char>>)
    requires
        assemble_spec(lines) is Ok,
    ensures
        forall|i: int| 0 <= i < assemble_spec(lines)->Ok_0.len() ==> {
            let l = #[trigger] assemble_spec(lines)->Ok_0[i];
            &&& l.len() == 16
            &&& forall|k: int| 0 <= k < 16 ==> l[k] == '0' || l[k] == '1'
        },
{
    let words = assemble_words(lines)->Ok_0;
    assert forall|i: int| 0 <= i < assemble_spec(lines)->Ok_0.len() implies {
        let l = #[trigger] assemble_spec(lines)->Ok_0[i];
        &&& l.len() == 16
        &&& forall|k: int| 0 <= k < 16 ==> l[k] == '0' || l[k] == '1'
    } by {
        lemma_bin_digits_shape(words[i] as nat, 16);
    }
}

/// The word of every C-instruction has `111` as its top three bits.
pub proof fn lemma_c_instruction_prefix(dest: Option<Seq<char>>, comp: Seq<char>, jump: Option<Seq<char>>)
    ensures
        encode_spec(dest, comp, jump) / 8192 == 7,
{
    lemma_comp_bits_small(comp);
    let c = or_zero(comp_bits(comp));
    let d = match dest {
        Some(x) => or_zero(dest_bits(x)),
        None => 0,
    };
    let j = match jump {
        Some(x) => or_zero(jump_bits(x)),
        None => 0,
    };
    match dest {
        Some(x) => lemma_dest_bits_small(x),
        None => {},
    }
    match jump {
        Some(x) => lemma_jump_bits_small(x),
        None => {},
    }
    assert(0xe000 + c * 64 + d * 8 + j < 0x10000) by (nonlinear_arith)
        requires
            c < 128,
            d < 8,
            j < 8,
    ;
}

proof fn lemma_pass1_keeps_label(lines: Seq<Seq<char>>, i: int, l: Seq<char>)
    requires
        0 <= i < lines.len(),
        tokenize_spec(lines[i]) == Ok::<Option<TokenShape>, ErrorShape>(Some(TokenShape::Label(l))),
        pass1(lines) is Ok,
    ensures
        pass1(lines)->Ok_0.0.contains_key(l),
    decreases lines.len(),
{
    if i < lines.len() - 1 {
        lemma_pass1_keeps_label(lines.drop_last(), i, l);
    }
}

/// A label declared a second time, whatever lies between, rejects the program
/// as a redeclaration (or with an error met before it).
pub proof fn lemma_label_redeclared(lines: Seq<Seq<char>>, i: int, j: int, l: Seq<char>)
    requires
        0 <= i < j < lines.len(),
        tokenize_spec(lines[i]) == Ok::<Option<TokenShape>, ErrorShape>(Some(TokenShape::Label(l))),
        tokenize_spec(lines[j]) == Ok::<Option<TokenShape>, ErrorShape>(Some(TokenShape::Label(l))),
    ensures
        assemble_spec(lines) is Err,
        pass1(lines.subrange(0, j)) is Ok && pass1(lines.subrange(0, j))->Ok_0.1.len() <= MAX_ADDRESS
            ==> pass1(lines) == Err::<(Map<Seq<char>, u16>, Seq<TokenShape>), _>(AsmFailure::Redeclared),
{
    let pre = lines.subrange(0, j + 1);
    assert(pre.drop_last() =~= lines.subrange(0, j));
    assert(pre.last() == lines[j]);
    if pass1(lines.subrange(0, j)) is Ok {
        lemma_pass1_keeps_label(lines.subrange(0, j), i, l);
    }
    assert(pass1(pre) is Err);
    lemma_pass1_stops(lines, j + 1);
}

/// Names that the second pass allocates as variables, in order of first sight.
pub open spec fn allocated(
    labels: Map<Seq<char>, u16>,
    aliases: Map<Seq<char>, u16>,
    next: nat,
    toks: Seq<TokenShape>,
) -> Seq<Seq<char>>
    decreases toks.len(),
{
    if toks.len() == 0 {
        Seq::empty()
    } else {
        let prev = allocated(labels, aliases, next, toks.drop_last());
        match pass2(labels, aliases, next, toks.drop_last()) {
            Ok((al, nx, _)) => match toks.last() {
                TokenShape::Alias(n) => {
                    if !al.contains_key(n) && !labels.contains_key(n) {
                        prev.push(n)
                    } else {
                        prev
                    }
                },
                _ => prev,
            },
            Err(_) => prev,
        }
    }
}

/// Variables take consecutive addresses: the `i`-th name first seen that is
/// neither a known alias nor a label gets `next + i`, and the next free address
/// moves past all of them. From a fresh table `next` is `0x0010`.
pub proof fn lemma_alias_allocation(
    labels: Map<Seq<char>, u16>,
    aliases: Map<Seq<char>, u16>,
    next: nat,
    toks: Seq<TokenShape>,
)
    requires
        pass2(labels, aliases, next, toks) is Ok,
    ensures
        ({
            let (al, nx, _) = pass2(labels, aliases, next, toks)->Ok_0;
            let names = allocated(labels, aliases, next, toks);
            &&& nx == next + names.len()
            &&& forall|i: int|
                0 <= i < names.len() ==> al.contains_key(#[trigger] names[i]) && al[names[i]] == next + i
        }),
    decreases toks.len(),
{
    if toks.len() > 0 {
        let prev = toks.drop_last();
        assert(pass2(labels, aliases, next, prev) is Ok);
        lemma_alias_allocation(labels, aliases, next, prev);
        let (al, nx, _) = pass2(labels, aliases, next, prev)->Ok_0;
        let names = allocated(labels, aliases, next, prev);
        match toks.last() {
            TokenShape::Alias(n) => {
                if !al.contains_key(n) && !labels.contains_key(n) {
                    let al2 = al.insert(n, nx as u16);
                    let names2 = names.push(n);
                    assert forall|i: int| 0 <= i < names2.len() implies al2.contains_key(
                        #[trigger] names2[i],
                    ) && al2[names2[i]] == next + i by {
                        if i < names.len() {
                            assert(names2[i] == names[i]);
                            assert(names[i] != n);
                        }
                    }
                }
            },
            _ => {},
        }
    }
}

} // verus!
