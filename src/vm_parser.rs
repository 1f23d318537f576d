//! Parses lines of the stack VM language into commands.

use vstd::prelude::*;
use crate::text::lines_view;
use crate::text::{chars_of, is_space, is_space_char, is_text, is_number_upto, dec_value, parse_digits, skip_space, skip_space_from};
use crate::tokenizer::comment_from;

verus! {

#[derive(Debug, PartialEq, Eq, Clone, Copy)]
pub enum Arithmetic {
    Add,
    Sub,
    Neg,
    Eq,
    Gt,
    Lt,
    And,
    Or,
    Not,
}

#[derive(PartialEq, Eq, Debug, Clone, Copy)]
pub enum Goto {
    Direct,
    Conditional,
}

#[derive(PartialEq, Eq, Debug, Clone)]
pub enum Flow {
    Goto(Goto, String),
    Call(String, u8),
    Return,
}

#[derive(PartialEq, Eq, Debug, Clone)]
pub enum Marker {
    Label(String),
    Function(String, u8),
}

#[derive(Debug, PartialEq, Eq, Clone, Copy, Hash)]
pub enum Segment {
    Argument,
    Local,
    Static,
    This,
    That,
    Pointer,
    Temp,
}

#[derive(PartialEq, Eq, Debug, Clone)]
pub enum ParsedCmd {
    Arithmetic(Arithmetic),
    Push(Segment, u16),
    PushConstant(i16),
    Pop(Segment, u16),
    Flow(Flow),
    Marker(Marker),
    Noop,
}

/// A source line together with the command it holds.
#[derive(Debug, PartialEq, Eq, Clone)]
pub struct Command {
    original: String,
    parsed: ParsedCmd,
}

#[derive(Debug, PartialEq, Eq, Clone)]
pub enum ParseError {
    UnknownCommandError(String),
    UnknownSegmentError(String),
    /// A count or an index that is not a number in range.
    InvalidMemoryLocation(String),
}

/// What a command says, over sequences of characters.
pub enum CmdShape {
    Arith(Arithmetic),
    Push(Segment, u16),
    PushConst(i16),
    Pop(Segment, u16),
    Goto(Goto, Seq<char>),
    Call(Seq<char>, u8),
    Return,
    Label(Seq<char>),
    Function(Seq<char>, u8),
    Noop,
}

pub enum VmErrorShape {
    UnknownCommand(Seq<char>),
    UnknownSegment(Seq<char>),
    InvalidLocation(Seq<char>),
}

pub open spec fn cmd_shape(c: ParsedCmd) -> CmdShape {
    match c {
        ParsedCmd::Arithmetic(a) => CmdShape::Arith(a),
        ParsedCmd::Push(s, i) => CmdShape::Push(s, i),
        ParsedCmd::PushConstant(v) => CmdShape::PushConst(v),
        ParsedCmd::Pop(s, i) => CmdShape::Pop(s, i),
        ParsedCmd::Flow(Flow::Goto(g, l)) => CmdShape::Goto(g, l@),
        ParsedCmd::Flow(Flow::Call(n, k)) => CmdShape::Call(n@, k),
        ParsedCmd::Flow(Flow::Return) => CmdShape::Return,
        ParsedCmd::Marker(Marker::Label(l)) => CmdShape::Label(l@),
        ParsedCmd::Marker(Marker::Function(n, k)) => CmdShape::Function(n@, k),
        ParsedCmd::Noop => CmdShape::Noop,
    }
}

pub open spec fn vm_error_shape(e: ParseError) -> VmErrorShape {
    match e {
        ParseError::UnknownCommandError(s) => VmErrorShape::UnknownCommand(s@),
        ParseError::UnknownSegmentError(s) => VmErrorShape::UnknownSegment(s@),
        ParseError::InvalidMemoryLocation(s) => VmErrorShape::InvalidLocation(s@),
    }
}

/// First whitespace index in `[i, hi)`, or `hi`.
pub open spec fn word_end_from(s: Seq<char>, i: int, hi: int) -> int
    decreases hi - i,
{
    if i >= hi {
        hi
    } else if is_space(s[i]) {
        i
    } else {
        word_end_from(s, i + 1, hi)
    }
}

/// The whitespace-separated words of `s[i..hi)`.
pub open spec fn words_from(s: Seq<char>, i: int, hi: int) -> Seq<Seq<char>>
    decreases hi - i,
{
    let a = skip_space_from(s, i, hi);
    if a >= hi || a < i {
        Seq::empty()
    } else {
        let b = word_end_from(s, a, hi);
        if b <= a || b > hi {
            Seq::empty()
        } else {
            seq![s.subrange(a, b)] + words_from(s, b, hi)
        }
    }
}

/// The words joined by single spaces.
pub open spec fn join_words(w: Seq<Seq<char>>) -> Seq<char>
    decreases w.len(),
{
    if w.len() == 0 {
        Seq::empty()
    } else if w.len() == 1 {
        w[0]
    } else {
        join_words(w.drop_last()) + seq![' '] + w.last()
    }
}

pub open spec fn arith_of(w: Seq<char>) -> Option<Arithmetic> {
    if w == "add"@ { Some(Arithmetic::Add) }
    else if w == "sub"@ { Some(Arithmetic::Sub) }
    else if w == "neg"@ { Some(Arithmetic::Neg) }
    else if w == "eq"@ { Some(Arithmetic::Eq) }
    else if w == "gt"@ { Some(Arithmetic::Gt) }
    else if w == "lt"@ { Some(Arithmetic::Lt) }
    else if w == "and"@ { Some(Arithmetic::And) }
    else if w == "or"@ { Some(Arithmetic::Or) }
    else if w == "not"@ { Some(Arithmetic::Not) }
    else { None }
}

pub open spec fn segment_of(w: Seq<char>) -> Option<Segment> {
    if w == "argument"@ { Some(Segment::Argument) }
    else if w == "local"@ { Some(Segment::Local) }
    else if w == "static"@ { Some(Segment::Static) }
    else if w == "this"@ { Some(Segment::This) }
    else if w == "that"@ { Some(Segment::That) }
    else if w == "pointer"@ { Some(Segment::Pointer) }
    else if w == "temp"@ { Some(Segment::Temp) }
    else { None }
}

/// An unsigned number, with an optional `+`, of value at most `max`.
pub open spec fn unsigned_value(t: Seq<char>, max: nat) -> Option<nat> {
    let d = if t.len() > 0 && t[0] == '+' { t.drop_first() } else { t };
    if is_number_upto(d, max) {
        Some(dec_value(d))
    } else {
        None
    }
}

/// A signed 16-bit number, with an optional sign.
pub open spec fn signed16_value(t: Seq<char>) -> Option<int> {
    if t.len() > 0 && t[0] == '-' {
        if is_number_upto(t.drop_first(), 32768) {
            Some(-dec_value(t.drop_first()))
        } else {
            None
        }
    } else {
        match unsigned_value(t, 32767) {
            Some(v) => Some(v as int),
            None => None,
        }
    }
}

pub open spec fn parse_words(w: Seq<Seq<char>>) -> Result<CmdShape, VmErrorShape> {
    if w.len() == 0 {
        Ok(CmdShape::Noop)
    } else if w.len() == 1 {
        if w[0] == "return"@ {
            Ok(CmdShape::Return)
        } else {
            match arith_of(w[0]) {
                Some(a) => Ok(CmdShape::Arith(a)),
                None => Err(VmErrorShape::UnknownCommand(w[0])),
            }
        }
    } else if w.len() == 2 {
        if w[0] == "label"@ {
            Ok(CmdShape::Label(w[1]))
        } else if w[0] == "if-goto"@ {
            Ok(CmdShape::Goto(Goto::Conditional, w[1]))
        } else if w[0] == "goto"@ {
            Ok(CmdShape::Goto(Goto::Direct, w[1]))
        } else {
            Err(VmErrorShape::UnknownCommand(join_words(w)))
        }
    } else if w.len() == 3 {
        if w[0] == "function"@ {
            match unsigned_value(w[2], 255) {
                Some(n) => Ok(CmdShape::Function(w[1], n as u8)),
                None => Err(VmErrorShape::InvalidLocation(w[2])),
            }
        } else if w[0] == "call"@ {
            match unsigned_value(w[2], 255) {
                Some(n) => Ok(CmdShape::Call(w[1], n as u8)),
                None => Err(VmErrorShape::InvalidLocation(w[2])),
            }
        } else if w[0] == "push"@ && w[1] == "constant"@ {
            match signed16_value(w[2]) {
                Some(v) => Ok(CmdShape::PushConst(v as i16)),
                None => Err(VmErrorShape::InvalidLocation(w[2])),
            }
        } else if w[0] == "push"@ || w[0] == "pop"@ {
            match unsigned_value(w[2], 65535) {
                None => Err(VmErrorShape::InvalidLocation(w[2])),
                Some(n) => match segment_of(w[1]) {
                    None => Err(VmErrorShape::UnknownSegment(w[1])),
                    Some(seg) => if w[0] == "push"@ {
                        Ok(CmdShape::Push(seg, n as u16))
                    } else {
                        Ok(CmdShape::Pop(seg, n as u16))
                    },
                },
            }
        } else {
            Err(VmErrorShape::UnknownCommand(join_words(w)))
        }
    } else {
        Err(VmErrorShape::UnknownCommand(join_words(w)))
    }
}

/// The command of a VM line: comment dropped, then split on whitespace.
pub open spec fn parse_line_spec(line: Seq<char>) -> Result<CmdShape, VmErrorShape> {
    parse_words(words_from(line, 0, comment_from(line, 0)))
}

pub open spec fn parse_result_shape(r: Result<ParsedCmd, ParseError>) -> Result<CmdShape, VmErrorShape> {
    match r {
        Ok(c) => Ok(cmd_shape(c)),
        Err(e) => Err(vm_error_shape(e)),
    }
}

fn word_end(s: &Vec<char>, i: usize, hi: usize) -> (r: usize)
    requires
        i <= hi <= s@.len(),
    ensures
        r as int == word_end_from(s@, i as int, hi as int),
        i <= r <= hi,
{
    let mut j = i;
    while j < hi && !is_space_char(s[j])
        invariant
            i <= j <= hi <= s@.len(),
            word_end_from(s@, i as int, hi as int) == word_end_from(s@, j as int, hi as int),
        decreases hi - j,
    {
        j = j + 1;
    }
    j
}

proof fn lemma_word_end_bounds(s: Seq<char>, i: int, hi: int)
    requires
        i <= hi,
    ensures
        i <= word_end_from(s, i, hi) <= hi,
    decreases hi - i,
{
    if i < hi && !is_space(s[i]) {
        lemma_word_end_bounds(s, i + 1, hi);
    }
}

proof fn lemma_skip_space_lands(s: Seq<char>, i: int, hi: int)
    requires
        i <= hi,
    ensures
        i <= skip_space_from(s, i, hi) <= hi,
        skip_space_from(s, i, hi) < hi ==> !is_space(s[skip_space_from(s, i, hi)]),
    decreases hi - i,
{
    if i < hi && is_space(s[i]) {
        lemma_skip_space_lands(s, i + 1, hi);
    }
}

proof fn lemma_word_end_after(s: Seq<char>, i: int, hi: int)
    requires
        i < hi,
        !is_space(s[i]),
    ensures
        i < word_end_from(s, i, hi) <= hi,
{
    lemma_word_end_bounds(s, i + 1, hi);
}

/// The whitespace-separated words of `line[0..hi)`.
fn split_words(line: &str, s: &Vec<char>, hi: usize) -> (r: Vec<String>)
    requires
        s@ == line@,
        hi <= s@.len(),
    ensures
        lines_view(r@) == words_from(s@, 0, hi as int),
{
    let mut words: Vec<String> = Vec::new();
    let mut i: usize = 0;
    while i < hi
        invariant
            s@ == line@,
            i <= hi <= s@.len(),
            words_from(s@, 0, hi as int) == lines_view(words@) + words_from(s@, i as int, hi as int),
        decreases hi - i,
    {
        let a = skip_space(s, i, hi);
        if a >= hi {
            proof {
                assert(words_from(s@, i as int, hi as int) =~= Seq::<Seq<char>>::empty());
                assert(lines_view(words@) + Seq::<Seq<char>>::empty() =~= lines_view(words@));
            }
            return words;
        }
        let b = word_end(s, a, hi);
        proof {
            lemma_skip_space_lands(s@, i as int, hi as int);
            lemma_word_end_after(s@, a as int, hi as int);
        }
        let w = line.substring_char(a, b).to_owned();
        let ghost before = words@;
        words.push(w);
        proof {
            assert(lines_view(words@) =~= lines_view(before).push(s@.subrange(a as int, b as int)));
            assert(words_from(s@, i as int, hi as int) == seq![s@.subrange(a as int, b as int)]
                + words_from(s@, b as int, hi as int));
            assert(lines_view(before) + words_from(s@, i as int, hi as int) =~= lines_view(words@)
                + words_from(s@, b as int, hi as int));
        }
        i = b;
    }
    proof {
        assert(words_from(s@, i as int, hi as int) =~= Seq::<Seq<char>>::empty());
        assert(lines_view(words@) + Seq::<Seq<char>>::empty() =~= lines_view(words@));
    }
    words
}

/// The words joined by single spaces.
fn join(words: &Vec<String>) -> (r: String)
    ensures
        r@ == join_words(lines_view(words@)),
{
    let mut out = String::new();
    let mut i: usize = 0;
    while i < words.len()
        invariant
            i <= words@.len(),
            out@ == join_words(lines_view(words@).subrange(0, i as int)),
        decreases words@.len() - i,
    {
        let ghost w = lines_view(words@);
        proof {
            assert(w.subrange(0, i as int + 1).drop_last() =~= w.subrange(0, i as int));
        }
        if i > 0 {
            proof { reveal_strlit(" "); }
            out.append(" ");
        }
        out.append(words[i].as_str());
        proof {
            if i == 0 {
                assert(out@ =~= join_words(w.subrange(0, 1)));
            }
        }
        i = i + 1;
    }
    proof {
        assert(lines_view(words@).subrange(0, i as int) =~= lines_view(words@));
    }
    out
}

fn arithmetic_of(w: &str) -> (r: Option<Arithmetic>)
    ensures
        r == arith_of(w@),
{
    let s = chars_of(w);
    if is_text(&s, "add") { Some(Arithmetic::Add) }
    else if is_text(&s, "sub") { Some(Arithmetic::Sub) }
    else if is_text(&s, "neg") { Some(Arithmetic::Neg) }
    else if is_text(&s, "eq") { Some(Arithmetic::Eq) }
    else if is_text(&s, "gt") { Some(Arithmetic::Gt) }
    else if is_text(&s, "lt") { Some(Arithmetic::Lt) }
    else if is_text(&s, "and") { Some(Arithmetic::And) }
    else if is_text(&s, "or") { Some(Arithmetic::Or) }
    else if is_text(&s, "not") { Some(Arithmetic::Not) }
    else { None }
}

fn segment_named(w: &str) -> (r: Option<Segment>)
    ensures
        r == segment_of(w@),
{
    let s = chars_of(w);
    if is_text(&s, "argument") { Some(Segment::Argument) }
    else if is_text(&s, "local") { Some(Segment::Local) }
    else if is_text(&s, "static") { Some(Segment::Static) }
    else if is_text(&s, "this") { Some(Segment::This) }
    else if is_text(&s, "that") { Some(Segment::That) }
    else if is_text(&s, "pointer") { Some(Segment::Pointer) }
    else if is_text(&s, "temp") { Some(Segment::Temp) }
    else { None }
}

fn parse_unsigned(w: &str, max: u32) -> (r: Option<u32>)
    requires
        max <= 65535,
    ensures
        match r {
            Some(v) => unsigned_value(w@, max as nat) == Some(v as nat),
            None => unsigned_value(w@, max as nat) is None,
        },
{
    let s = chars_of(w);
    let lo: usize = if s.len() > 0 && s[0] == '+' { 1 } else { 0 };
    proof {
        if lo == 1 {
            assert(s@.subrange(1, s@.len() as int) =~= w@.drop_first());
        } else {
            assert(s@.subrange(0, s@.len() as int) =~= w@);
        }
    }
    parse_digits(&s, lo, s.len(), max)
}

fn parse_signed16(w: &str) -> (r: Option<i16>)
    ensures
        match r {
            Some(v) => signed16_value(w@) == Some(v as int),
            None => signed16_value(w@) is None,
        },
{
    let s = chars_of(w);
    if s.len() > 0 && s[0] == '-' {
        proof {
            assert(s@.subrange(1, s@.len() as int) =~= w@.drop_first());
        }
        match parse_digits(&s, 1, s.len(), 32768) {
            Some(v) => Some((0 - v as i32) as i16),
            None => None,
        }
    } else {
        match parse_unsigned(w, 32767) {
            Some(v) => Some(v as i16),
            None => None,
        }
    }
}

/// Parses one VM line.
pub fn parse_line(line: &str) -> (r: Result<ParsedCmd, ParseError>)
    ensures
        parse_result_shape(r) == parse_line_spec(line@),
{
    let s = chars_of(line);
    let hi = {
        let mut i: usize = 0;
        while i < s.len() && i < s.len() - 1 && !(s[i] == '/' && s[i + 1] == '/')
            invariant
                i <= s@.len(),
                comment_from(s@, 0) == comment_from(s@, i as int),
            decreases s@.len() - i,
        {
            i = i + 1;
        }
        if i < s.len() && i < s.len() - 1 { i } else { s.len() }
    };
    let words = split_words(line, &s, hi);
    let ghost w = lines_view(words@);
    let n = words.len();
    if n == 0 {
        Ok(ParsedCmd::Noop)
    } else if n == 1 {
        let w0 = chars_of(words[0].as_str());
        if is_text(&w0, "return") {
            Ok(ParsedCmd::Flow(Flow::Return))
        } else {
            match arithmetic_of(words[0].as_str()) {
                Some(a) => Ok(ParsedCmd::Arithmetic(a)),
                None => Err(ParseError::UnknownCommandError(words[0].clone())),
            }
        }
    } else if n == 2 {
        let w0 = chars_of(words[0].as_str());
        if is_text(&w0, "label") {
            Ok(ParsedCmd::Marker(Marker::Label(words[1].clone())))
        } else if is_text(&w0, "if-goto") {
            Ok(ParsedCmd::Flow(Flow::Goto(Goto::Conditional, words[1].clone())))
        } else if is_text(&w0, "goto") {
            Ok(ParsedCmd::Flow(Flow::Goto(Goto::Direct, words[1].clone())))
        } else {
            Err(ParseError::UnknownCommandError(join(&words)))
        }
    } else if n == 3 {
        let w0 = chars_of(words[0].as_str());
        let w1 = chars_of(words[1].as_str());
        if is_text(&w0, "function") {
            match parse_unsigned(words[2].as_str(), 255) {
                Some(k) => Ok(ParsedCmd::Marker(Marker::Function(words[1].clone(), k as u8))),
                None => Err(ParseError::InvalidMemoryLocation(words[2].clone())),
            }
        } else if is_text(&w0, "call") {
            match parse_unsigned(words[2].as_str(), 255) {
                Some(k) => Ok(ParsedCmd::Flow(Flow::Call(words[1].clone(), k as u8))),
                None => Err(ParseError::InvalidMemoryLocation(words[2].clone())),
            }
        } else if is_text(&w0, "push") && is_text(&w1, "constant") {
            match parse_signed16(words[2].as_str()) {
                Some(v) => Ok(ParsedCmd::PushConstant(v)),
                None => Err(ParseError::InvalidMemoryLocation(words[2].clone())),
            }
        } else if is_text(&w0, "push") || is_text(&w0, "pop") {
            match parse_unsigned(words[2].as_str(), 65535) {
                None => Err(ParseError::InvalidMemoryLocation(words[2].clone())),
                Some(k) => match segment_named(words[1].as_str()) {
                    None => Err(ParseError::UnknownSegmentError(words[1].clone())),
                    Some(seg) => if is_text(&w0, "push") {
                        Ok(ParsedCmd::Push(seg, k as u16))
                    } else {
                        Ok(ParsedCmd::Pop(seg, k as u16))
                    },
                },
            }
        } else {
            Err(ParseError::UnknownCommandError(join(&words)))
        }
    } else {
        Err(ParseError::UnknownCommandError(join(&words)))
    }
}

impl Command {
    pub closed spec fn spec_original(&self) -> Seq<char> {
        self.original@
    }

    pub closed spec fn spec_parsed(&self) -> ParsedCmd {
        self.parsed
    }

    pub fn new(original: String, parsed_command: ParsedCmd) -> (r: Self)
        ensures
            r.spec_original() == original@,
            r.spec_parsed() == parsed_command,
    {
        Self { original, parsed: parsed_command }
    }

    pub fn original(&self) -> (r: &String)
        ensures
            r@ == self.spec_original(),
    {
        &self.original
    }

    pub fn parsed(&self) -> (r: &ParsedCmd)
        ensures
            *r == self.spec_parsed(),
    {
        &self.parsed
    }
}

/// Hands out the commands of a VM source, line by line.
pub struct Parser {
    lines: Vec<String>,
    pos: usize,
}

impl Parser {
    /// Lines of the source not handed out yet.
    pub closed spec fn remaining(&self) -> Seq<Seq<char>> {
        lines_view(self.lines@).subrange(self.pos as int, self.lines@.len() as int)
    }

    pub closed spec fn wf(&self) -> bool {
        self.pos <= self.lines@.len()
    }

    pub fn new(lines: Vec<String>) -> (r: Self)
        ensures
            r.wf(),
            r.remaining() == lines_view(lines@),
    {
        let r = Parser { lines, pos: 0 };
        proof {
            assert(r.remaining() =~= lines_view(r.lines@));
        }
        r
    }

    /// The command of the next line, `None` once every line is handed out.
    pub fn next(&mut self) -> (r: Option<Result<Command, ParseError>>)
        requires
            old(self).wf(),
        ensures
            final(self).wf(),
            old(self).remaining().len() == 0 ==> r is None && final(self).remaining() == old(self).remaining(),
            old(self).remaining().len() > 0 ==> {
                &&& final(self).remaining() == old(self).remaining().drop_first()
                &&& r is Some
                &&& match r->Some_0 {
                    Ok(c) => c.spec_original() == old(self).remaining()[0] && parse_line_spec(
                        old(self).remaining()[0],
                    ) == Ok::<_, VmErrorShape>(cmd_shape(c.spec_parsed())),
                    Err(e) => parse_line_spec(old(self).remaining()[0]) == Err::<CmdShape, _>(
                        vm_error_shape(e),
                    ),
                }
            },
    {
        if self.pos >= self.lines.len() {
            return None;
        }
        let i = self.pos;
        proof {
            assert(self.remaining()[0] == self.lines@[i as int]@);
        }
        let r = match parse_line(self.lines[i].as_str()) {
            Ok(parsed) => Ok(Command::new(self.lines[i].clone(), parsed)),
            Err(e) => Err(e),
        };
        self.pos = i + 1;
        proof {
            assert(self.remaining() =~= old(self).remaining().drop_first());
        }
        Some(r)
    }
}

} // verus!
