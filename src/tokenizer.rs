//! Turns one line of Hack assembly into at most one token.

use vstd::prelude::*;
use crate::instructions::{AInstruction, CInstruction};
use crate::text::{
    chars_of, dec_value, find_char, find_from, is_digit, is_digit_char, is_number_upto, parse_digits, skip_space,
    skip_space_from, trim_back, trim_end,
};

verus! {

/// Where a tokenizing error was found: the character, its 1-based column, and the line.
#[derive(Debug, Clone, PartialEq, Eq)]
pub struct CharContext {
    pub ch: char,
    pub column: usize,
    pub line: String,
}

#[derive(Debug, Clone, PartialEq, Eq)]
pub enum TokenError {
    UnclosedLabelError,
    EmptyAInstructionError,
    InvalidSymbolFirstChar(CharContext),
    InvalidSymbolChar(CharContext),
    UnexpectedCharacter(CharContext),
    MissingCmpInstruction,
}

#[derive(Debug, Clone, PartialEq, Eq)]
pub enum Token {
    Label(String),
    AInstruction(AInstruction),
    CInstruction(CInstruction),
}

/// What a token says, over sequences of characters.
pub enum TokenShape {
    Label(Seq<char>),
    Raw(nat),
    Alias(Seq<char>),
    Instr(Option<Seq<char>>, Seq<char>, Option<Seq<char>>),
}

/// What an error says; the `int` is the 0-based index of the offending character.
pub enum ErrorShape {
    Unclosed,
    EmptyA,
    FirstChar(int),
    BadChar(int),
    Unexpected(int),
    MissingComp,
}

pub open spec fn is_letter(c: char) -> bool {
    ('a' <= c && c <= 'z') || ('A' <= c && c <= 'Z')
}

/// A character that may stand in a symbol: `[A-Za-z0-9._$:]`.
pub open spec fn is_symbol_char(c: char) -> bool {
    is_letter(c) || is_digit(c) || c == '_' || c == '.' || c == '$' || c == ':'
}

/// A character that may open a symbol: `[A-Za-z._$:]`.
pub open spec fn is_symbol_start(c: char) -> bool {
    is_symbol_char(c) && !is_digit(c)
}

/// Index where a `//` comment starts at or after `i`, or the length of `s`.
pub open spec fn comment_from(s: Seq<char>, i: int) -> int
    decreases s.len() - i,
{
    if i + 1 >= s.len() {
        s.len() as int
    } else if s[i] == '/' && s[i + 1] == '/' {
        i
    } else {
        comment_from(s, i + 1)
    }
}

/// First index in `[i, hi)` that closes a label or cannot stand in one, or `hi`.
pub open spec fn label_stop_from(s: Seq<char>, i: int, hi: int) -> int
    decreases hi - i,
{
    if i >= hi {
        hi
    } else if s[i] == ')' || !is_symbol_char(s[i]) {
        i
    } else {
        label_stop_from(s, i + 1, hi)
    }
}

/// First index in `[i, hi)` that cannot stand in a symbol, or `hi`.
pub open spec fn invalid_from(s: Seq<char>, i: int, hi: int) -> int
    decreases hi - i,
{
    if i >= hi {
        hi
    } else if !is_symbol_char(s[i]) {
        i
    } else {
        invalid_from(s, i + 1, hi)
    }
}

/// A literal address: decimal digits whose value fits in 15 bits.
pub open spec fn is_u15_literal(t: Seq<char>) -> bool {
    is_number_upto(t, 32767)
}

pub open spec fn label_spec(s: Seq<char>, lo: int, hi: int) -> Result<Option<TokenShape>, ErrorShape> {
    if lo + 1 >= hi {
        Err(ErrorShape::Unclosed)
    } else if !is_symbol_start(s[lo + 1]) {
        Err(ErrorShape::FirstChar(lo + 1))
    } else {
        let p = label_stop_from(s, lo + 1, hi);
        if p >= hi {
            Err(ErrorShape::Unclosed)
        } else if s[p] != ')' {
            Err(ErrorShape::BadChar(p))
        } else if p + 1 < hi {
            Err(ErrorShape::Unexpected(p + 1))
        } else {
            Ok(Some(TokenShape::Label(s.subrange(lo + 1, p))))
        }
    }
}

pub open spec fn a_spec(s: Seq<char>, lo: int, hi: int) -> Result<Option<TokenShape>, ErrorShape> {
    let a = lo + 1;
    if is_u15_literal(s.subrange(a, hi)) {
        Ok(Some(TokenShape::Raw(dec_value(s.subrange(a, hi)))))
    } else if a >= hi {
        Err(ErrorShape::EmptyA)
    } else if !is_symbol_start(s[a]) {
        Err(ErrorShape::FirstChar(a))
    } else if invalid_from(s, a, hi) < hi {
        Err(ErrorShape::BadChar(invalid_from(s, a, hi)))
    } else {
        Ok(Some(TokenShape::Alias(s.subrange(a, hi))))
    }
}

pub open spec fn c_spec(s: Seq<char>, lo: int, hi: int) -> Result<Option<TokenShape>, ErrorShape> {
    let e = find_from(s, '=', lo, hi);
    let cs = if e < hi { e + 1 } else { lo };
    let q = find_from(s, ';', cs, hi);
    if q == cs {
        Err(ErrorShape::MissingComp)
    } else {
        Ok(
            Some(
                TokenShape::Instr(
                    if e < hi { Some(s.subrange(lo, e)) } else { None },
                    s.subrange(cs, q),
                    if q < hi { Some(s.subrange(q + 1, hi)) } else { None },
                ),
            ),
        )
    }
}

/// Start of the instruction text on a line: comments and surrounding whitespace dropped.
pub open spec fn text_start(s: Seq<char>) -> int {
    skip_space_from(s, 0, comment_from(s, 0))
}

/// End of the instruction text on a line.
pub open spec fn text_end(s: Seq<char>) -> int {
    trim_back(s, text_start(s), comment_from(s, 0))
}

/// The token of a line, by the first character of its instruction text.
pub open spec fn tokenize_spec(s: Seq<char>) -> Result<Option<TokenShape>, ErrorShape> {
    let lo = text_start(s);
    let hi = text_end(s);
    if lo >= hi {
        Ok(None)
    } else if s[lo] == '(' {
        label_spec(s, lo, hi)
    } else if s[lo] == '@' {
        a_spec(s, lo, hi)
    } else {
        c_spec(s, lo, hi)
    }
}

pub open spec fn token_shape(t: Token) -> TokenShape {
    match t {
        Token::Label(l) => TokenShape::Label(l@),
        Token::AInstruction(AInstruction::RawAddr(v)) => TokenShape::Raw(v as nat),
        Token::AInstruction(AInstruction::Alias(a)) => TokenShape::Alias(a@),
        Token::CInstruction(c) => TokenShape::Instr(c.spec_dest(), c.spec_comp(), c.spec_jump()),
    }
}

pub open spec fn error_shape(e: TokenError) -> ErrorShape {
    match e {
        TokenError::UnclosedLabelError => ErrorShape::Unclosed,
        TokenError::EmptyAInstructionError => ErrorShape::EmptyA,
        TokenError::InvalidSymbolFirstChar(c) => ErrorShape::FirstChar(c.column - 1),
        TokenError::InvalidSymbolChar(c) => ErrorShape::BadChar(c.column - 1),
        TokenError::UnexpectedCharacter(c) => ErrorShape::Unexpected(c.column - 1),
        TokenError::MissingCmpInstruction => ErrorShape::MissingComp,
    }
}

/// The context of an error names a character of `line` by its column.
pub open spec fn context_of(c: CharContext, line: Seq<char>) -> bool {
    &&& c.line@ == line
    &&& 1 <= c.column <= line.len()
    &&& c.ch == line[c.column - 1]
}

pub open spec fn error_context_ok(e: TokenError, line: Seq<char>) -> bool {
    match e {
        TokenError::InvalidSymbolFirstChar(c) => context_of(c, line),
        TokenError::InvalidSymbolChar(c) => context_of(c, line),
        TokenError::UnexpectedCharacter(c) => context_of(c, line),
        _ => true,
    }
}

pub open spec fn result_shape(r: Result<Option<Token>, TokenError>) -> Result<Option<TokenShape>, ErrorShape> {
    match r {
        Ok(Some(t)) => Ok(Some(token_shape(t))),
        Ok(None) => Ok(None),
        Err(e) => Err(error_shape(e)),
    }
}

fn is_letter_char(c: char) -> (r: bool)
    ensures
        r == is_letter(c),
{
    ('a' <= c && c <= 'z') || ('A' <= c && c <= 'Z')
}

fn is_valid_symbol(c: char) -> (r: bool)
    ensures
        r == is_symbol_char(c),
{
    is_letter_char(c) || is_digit_char(c) || c == '_' || c == '.' || c == '$' || c == ':'
}

fn is_valid_symbol_first_char(c: char) -> (r: bool)
    ensures
        r == is_symbol_start(c),
{
    is_valid_symbol(c) && !is_digit_char(c)
}

/// Index where a `//` comment starts, or the length of `s`.
fn comment_start(s: &Vec<char>) -> (r: usize)
    ensures
        r as int == comment_from(s@, 0),
        r <= s@.len(),
{
    let mut i: usize = 0;
    while i < s.len() && i < s.len() - 1 && !(s[i] == '/' && s[i + 1] == '/')
        invariant
            i <= s@.len(),
            comment_from(s@, 0) == comment_from(s@, i as int),
        decreases s@.len() - i,
    {
        i = i + 1;
    }
    if i < s.len() && i < s.len() - 1 {
        i
    } else {
        s.len()
    }
}

/// `line` with everything from the first `//` on removed.
pub fn strip_comments(line: &str) -> (r: &str)
    ensures
        r@ == line@.subrange(0, comment_from(line@, 0)),
{
    let s = chars_of(line);
    let c = comment_start(&s);
    line.substring_char(0, c)
}

fn label_stop(s: &Vec<char>, i: usize, hi: usize) -> (r: usize)
    requires
        i <= hi <= s@.len(),
    ensures
        r as int == label_stop_from(s@, i as int, hi as int),
        i <= r <= hi,
{
    let mut j = i;
    while j < hi && s[j] != ')' && is_valid_symbol(s[j])
        invariant
            i <= j <= hi <= s@.len(),
            label_stop_from(s@, i as int, hi as int) == label_stop_from(s@, j as int, hi as int),
        decreases hi - j,
    {
        j = j + 1;
    }
    j
}

fn first_invalid(s: &Vec<char>, i: usize, hi: usize) -> (r: usize)
    requires
        i <= hi <= s@.len(),
    ensures
        r as int == invalid_from(s@, i as int, hi as int),
        i <= r <= hi,
{
    let mut j = i;
    while j < hi && is_valid_symbol(s[j])
        invariant
            i <= j <= hi <= s@.len(),
            invalid_from(s@, i as int, hi as int) == invalid_from(s@, j as int, hi as int),
        decreases hi - j,
    {
        j = j + 1;
    }
    j
}

/// The value of `s[lo..hi)` when it is a literal address.
fn parse_u15(s: &Vec<char>, lo: usize, hi: usize) -> (r: Option<u16>)
    requires
        lo <= hi <= s@.len(),
    ensures
        match r {
            Some(v) => is_u15_literal(s@.subrange(lo as int, hi as int)) && v as nat == dec_value(
                s@.subrange(lo as int, hi as int),
            ),
            None => !is_u15_literal(s@.subrange(lo as int, hi as int)),
        },
{
    match parse_digits(s, lo, hi, 32767) {
        Some(v) => Some(v as u16),
        None => None,
    }
}

fn context(line: &str, s: &Vec<char>, i: usize) -> (r: CharContext)
    requires
        s@ == line@,
        i < s.len(),
    ensures
        context_of(r, line@),
        r.column == i + 1,
{
    CharContext { ch: s[i], column: i + 1, line: line.to_owned() }
}

fn sub_string(line: &str, a: usize, b: usize) -> (r: String)
    requires
        a <= b <= line@.len(),
    ensures
        r@ == line@.subrange(a as int, b as int),
{
    line.substring_char(a, b).to_owned()
}

fn extract_label(line: &str, s: &Vec<char>, lo: usize, hi: usize) -> (r: Result<Option<Token>, TokenError>)
    requires
        s@ == line@,
        lo < hi <= s@.len(),
    ensures
        result_shape(r) == label_spec(s@, lo as int, hi as int),
        r is Err ==> error_context_ok(r->Err_0, line@),
{
    if lo + 1 >= hi {
        return Err(TokenError::UnclosedLabelError);
    }
    if !is_valid_symbol_first_char(s[lo + 1]) {
        return Err(TokenError::InvalidSymbolFirstChar(context(line, s, lo + 1)));
    }
    let p = label_stop(s, lo + 1, hi);
    if p >= hi {
        Err(TokenError::UnclosedLabelError)
    } else if s[p] != ')' {
        Err(TokenError::InvalidSymbolChar(context(line, s, p)))
    } else if p + 1 < hi {
        Err(TokenError::UnexpectedCharacter(context(line, s, p + 1)))
    } else {
        Ok(Some(Token::Label(sub_string(line, lo + 1, p))))
    }
}

fn extract_a_instruction(line: &str, s: &Vec<char>, lo: usize, hi: usize) -> (r: Result<
    Option<Token>,
    TokenError,
>)
    requires
        s@ == line@,
        lo < hi <= s@.len(),
    ensures
        result_shape(r) == a_spec(s@, lo as int, hi as int),
        r is Err ==> error_context_ok(r->Err_0, line@),
{
    let a = lo + 1;
    if let Some(v) = parse_u15(s, a, hi) {
        return Ok(Some(Token::AInstruction(AInstruction::RawAddr(v))));
    }
    if a >= hi {
        Err(TokenError::EmptyAInstructionError)
    } else if !is_valid_symbol_first_char(s[a]) {
        Err(TokenError::InvalidSymbolFirstChar(context(line, s, a)))
    } else {
        let j = first_invalid(s, a, hi);
        if j < hi {
            Err(TokenError::InvalidSymbolChar(context(line, s, j)))
        } else {
            Ok(Some(Token::AInstruction(AInstruction::Alias(sub_string(line, a, hi)))))
        }
    }
}

fn extract_c_instruction(line: &str, s: &Vec<char>, lo: usize, hi: usize) -> (r: Result<
    Option<Token>,
    TokenError,
>)
    requires
        s@ == line@,
        lo < hi <= s@.len(),
    ensures
        result_shape(r) == c_spec(s@, lo as int, hi as int),
{
    let e = find_char(s, '=', lo, hi);
    let cs = if e < hi { e + 1 } else { lo };
    let q = find_char(s, ';', cs, hi);
    if q == cs {
        return Err(TokenError::MissingCmpInstruction);
    }
    let dest = if e < hi { Some(sub_string(line, lo, e)) } else { None };
    let jump = if q < hi { Some(sub_string(line, q + 1, hi)) } else { None };
    Ok(Some(Token::CInstruction(CInstruction::new(dest, sub_string(line, cs, q), jump))))
}

/// Tokenizes one line of assembly: `None` for a line with no instruction.
pub fn tokenize(line: &str) -> (r: Result<Option<Token>, TokenError>)
    ensures
        result_shape(r) == tokenize_spec(line@),
        r is Err ==> error_context_ok(r->Err_0, line@),
{
    let s = chars_of(line);
    let c = comment_start(&s);
    let lo = skip_space(&s, 0, c);
    let hi = trim_end(&s, lo, c);
    if lo >= hi {
        Ok(None)
    } else if s[lo] == '(' {
        extract_label(line, &s, lo, hi)
    } else if s[lo] == '@' {
        extract_a_instruction(line, &s, lo, hi)
    } else {
        extract_c_instruction(line, &s, lo, hi)
    }
}

} // verus!
