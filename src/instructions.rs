//! The two instruction forms of Hack assembly, as the tokenizer hands them on.

use vstd::prelude::*;

verus! {

/// Operand of an A-instruction: a literal address or a symbol to resolve.
#[derive(Debug, Clone, PartialEq, Eq)]
pub enum AInstruction {
    RawAddr(u16),
    Alias(String),
}

/// A C-instruction as written: `dest=comp;jump`, with `dest=` and `;jump` optional.
#[derive(Debug, Clone, PartialEq, Eq)]
pub struct CInstruction {
    dest: Option<String>,
    comp: String,
    jump: Option<String>,
}

pub open spec fn opt_view(o: Option<String>) -> Option<Seq<char>> {
    match o {
        Some(s) => Some(s@),
        None => None,
    }
}

impl CInstruction {
    pub closed spec fn spec_dest(&self) -> Option<Seq<char>> {
        opt_view(self.dest)
    }

    pub closed spec fn spec_comp(&self) -> Seq<char> {
        self.comp@
    }

    pub closed spec fn spec_jump(&self) -> Option<Seq<char>> {
        opt_view(self.jump)
    }

    pub fn new(dest: Option<String>, comp: String, jump: Option<String>) -> (r: CInstruction)
        ensures
            r.spec_dest() == opt_view(dest),
            r.spec_comp() == comp@,
            r.spec_jump() == opt_view(jump),
    {
        CInstruction { dest, comp, jump }
    }

    pub fn dest(&self) -> (r: Option<&String>)
        ensures
            self.spec_dest() == match r {
                Some(s) => Some(s@),
                None => None::<Seq<char>>,
            },
    {
        match &self.dest {
            Some(d) => Some(d),
            None => None,
        }
    }

    pub fn comp(&self) -> (r: &str)
        ensures
            r@ == self.spec_comp(),
    {
        self.comp.as_str()
    }

    pub fn jump(&self) -> (r: Option<&String>)
        ensures
            self.spec_jump() == match r {
                Some(s) => Some(s@),
                None => None::<Seq<char>>,
            },
    {
        match &self.jump {
            Some(j) => Some(j),
            None => None,
        }
    }
}

} // verus!
