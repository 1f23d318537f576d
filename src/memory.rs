//! Lowering of `push` and `pop` over the VM's memory segments.

use vstd::prelude::*;
use crate::text::lines_view;
use crate::label_manager::uppercase_of;
use crate::reg_mgr::{first_free_from, lemma_first_free, reg_name, RegMgr, RegMgrError};
use crate::snippets::{
    asm_a_to_alias, asm_a_to_constant, asm_d_to_alias, asm_d_to_constant, asm_d_to_mem, asm_mem_at_alias_to_d,
    asm_mem_to_d, asm_pop_d, asm_push_d, asm_set_alias, at, extend, one, pop_stack_to_d_reg,
    push_d_reg_to_stack, set_a_reg_to_address, set_a_reg_to_alias, set_a_reg_to_constant,
    set_alias, set_d_reg_to_alias, set_d_reg_to_constant, set_d_reg_to_mem, set_mem_at_alias_to_d_reg,
    set_mem_to_d_reg,
};
use crate::text::{dec_digits, push_decimal};
use crate::vm_parser::Segment;

verus! {

/// First RAM address of the `temp` segment.
pub const TMP_BASE_ADDR: u16 = 5;

/// Number of words in the `temp` segment.
pub const AVAILABLE_TMP_BLOCKS: u16 = 8;

#[derive(Debug, Clone, PartialEq, Eq)]
pub enum MemoryError {
    Temp(RegMgrError),
    /// The index lies outside the segment.
    OutOfBounds(u16, Segment),
}

/// The segments whose base address is held in a register of their own.
pub open spec fn is_based(s: Segment) -> bool {
    s == Segment::Local || s == Segment::Argument || s == Segment::This || s == Segment::That
}

pub open spec fn segment_alias(s: Segment) -> Seq<char> {
    match s {
        Segment::Local => "LCL"@,
        Segment::Argument => "ARG"@,
        Segment::This => "THIS"@,
        _ => "THAT"@,
    }
}

/// Variable that holds slot `idx` of a file's `static` segment.
pub open spec fn static_alias(namespace: Seq<char>, idx: u16) -> Seq<char> {
    namespace + seq!['.'] + dec_digits(idx as nat)
}

/// `A` points at slot `idx` of a based segment.
pub open spec fn asm_a_to_segment_idx(s: Segment, idx: u16) -> Seq<Seq<char>> {
    if idx == 0 {
        asm_a_to_alias(segment_alias(s))
    } else {
        asm_d_to_alias(segment_alias(s), None) + if idx == 1 {
            seq!["A=D+1"@]
        } else {
            seq![at(dec_digits(idx as nat)), "A=D+A"@]
        }
    }
}

/// `D` gets the address of slot `idx` of a based segment.
pub open spec fn asm_d_to_segment_idx(s: Segment, idx: int) -> Seq<Seq<char>> {
    asm_d_to_alias(segment_alias(s), Some(idx))
}

pub open spec fn pointer_segment(idx: u16) -> Segment {
    if idx == 0 { Segment::This } else { Segment::That }
}

pub open spec fn push_spec(namespace: Seq<char>, s: Segment, idx: u16) -> Result<Seq<Seq<char>>, MemoryError> {
    match s {
        Segment::Static => Ok(asm_d_to_alias(static_alias(namespace, idx), None) + asm_push_d()),
        Segment::Temp => if idx >= AVAILABLE_TMP_BLOCKS {
            Err(MemoryError::OutOfBounds(idx, s))
        } else {
            Ok(seq![at(dec_digits((TMP_BASE_ADDR + idx) as nat))] + asm_d_to_mem() + asm_push_d())
        },
        Segment::Pointer => if idx > 1 {
            Err(MemoryError::OutOfBounds(idx, s))
        } else {
            Ok(asm_d_to_alias(segment_alias(pointer_segment(idx)), None) + asm_push_d())
        },
        _ => Ok(asm_a_to_segment_idx(s, idx) + asm_d_to_mem() + asm_push_d()),
    }
}

/// Lines of a `pop`; the based segments go through the scratch register `tmp`.
pub open spec fn pop_spec(namespace: Seq<char>, s: Segment, idx: u16, tmp: Seq<char>) -> Result<Seq<Seq<char>>, MemoryError> {
    match s {
        Segment::Static => Ok(asm_pop_d() + asm_set_alias(static_alias(namespace, idx)) + asm_mem_to_d()),
        Segment::Temp => if idx >= AVAILABLE_TMP_BLOCKS {
            Err(MemoryError::OutOfBounds(idx, s))
        } else {
            Ok(asm_pop_d() + asm_a_to_constant((TMP_BASE_ADDR + idx) as int) + asm_mem_to_d())
        },
        Segment::Pointer => if idx > 1 {
            Err(MemoryError::OutOfBounds(idx, s))
        } else {
            Ok(asm_pop_d() + asm_set_alias(segment_alias(pointer_segment(idx))) + asm_mem_to_d())
        },
        _ => Ok(asm_d_to_segment_idx(s, idx as int) + asm_set_alias(tmp) + asm_mem_to_d() + asm_pop_d()
            + asm_mem_at_alias_to_d(tmp)),
    }
}

pub fn get_segment_alias(segment: &Segment) -> (r: &'static str)
    requires
        is_based(*segment),
    ensures
        r@ == segment_alias(*segment),
{
    match segment {
        Segment::Local => "LCL",
        Segment::Argument => "ARG",
        Segment::This => "THIS",
        _ => "THAT",
    }
}

pub fn set_a_reg_to_segment_idx(segment: Segment, idx: u16) -> (r: Vec<String>)
    requires
        is_based(segment),
    ensures
        lines_view(r@) == asm_a_to_segment_idx(segment, idx),
{
    let alias = get_segment_alias(&segment);
    if idx == 0 {
        set_a_reg_to_alias(alias)
    } else {
        let mut r = set_d_reg_to_alias(alias, None);
        if idx == 1 {
            extend(&mut r, one("A=D+1".to_owned()));
        } else {
            extend(&mut r, set_a_reg_to_address(idx));
            extend(&mut r, one("A=D+A".to_owned()));
        }
        r
    }
}

pub fn set_d_reg_to_segment_idx(segment: Segment, idx: u16) -> (r: Vec<String>)
    requires
        is_based(segment),
    ensures
        lines_view(r@) == asm_d_to_segment_idx(segment, idx as int),
{
    set_d_reg_to_alias(get_segment_alias(&segment), Some(idx as i64))
}

/// Writes the lowering of memory commands for one source file.
pub struct MemCmdWriter {
    namespace: String,
}

impl MemCmdWriter {
    /// Prefix of the file's static variables.
    pub closed spec fn spec_namespace(&self) -> Seq<char> {
        self.namespace@
    }

    pub fn new(namespace: &str) -> (r: Self)
        ensures
            r.spec_namespace() == uppercase_of(namespace@),
    {
        Self { namespace: crate::label_manager::upper(namespace) }
    }

    fn static_alias(&self, idx: u16) -> (r: String)
        ensures
            r@ == static_alias(self.spec_namespace(), idx),
    {
        let mut s = self.namespace.clone();
        proof { reveal_strlit("."); }
        s.append(".");
        push_decimal(&mut s, idx as u64);
        proof {
            assert(s@ =~= static_alias(self.spec_namespace(), idx));
        }
        s
    }

    /// `push constant value`.
    pub fn push_constant(&self, value: i16) -> (r: Vec<String>)
        ensures
            lines_view(r@) == asm_d_to_constant(value as int) + asm_push_d(),
    {
        let mut r = set_d_reg_to_constant(value);
        extend(&mut r, push_d_reg_to_stack());
        r
    }

    /// `push segment idx`.
    pub fn push_to_stack(&self, segment: Segment, idx: u16) -> (r: Result<Vec<String>, MemoryError>)
        ensures
            match r {
                Ok(lines) => push_spec(self.spec_namespace(), segment, idx) == Ok::<_, MemoryError>(
                    lines_view(lines@),
                ),
                Err(e) => push_spec(self.spec_namespace(), segment, idx) == Err::<Seq<Seq<char>>, _>(e),
            },
    {
        let mut r = match segment {
            Segment::Static => set_d_reg_to_alias(self.static_alias(idx).as_str(), None),
            Segment::Temp => {
                if idx >= AVAILABLE_TMP_BLOCKS {
                    return Err(MemoryError::OutOfBounds(idx, segment));
                }
                let mut r = set_a_reg_to_address(TMP_BASE_ADDR + idx);
                extend(&mut r, set_d_reg_to_mem());
                r
            },
            Segment::Pointer => {
                if idx > 1 {
                    return Err(MemoryError::OutOfBounds(idx, segment));
                }
                let s = if idx == 0 { Segment::This } else { Segment::That };
                set_d_reg_to_alias(get_segment_alias(&s), None)
            },
            _ => {
                let mut r = set_a_reg_to_segment_idx(segment, idx);
                extend(&mut r, set_d_reg_to_mem());
                r
            },
        };
        extend(&mut r, push_d_reg_to_stack());
        Ok(r)
    }

    /// `pop segment idx`; a based segment leases a scratch register for the
    /// length of the sequence.
    pub fn pop_stack_to(&self, regs: &mut RegMgr, segment: Segment, idx: u16) -> (r: Result<Vec<String>, MemoryError>)
        requires
            old(regs).wf(),
        ensures
            final(regs).wf(),
            final(regs).spec_start() == old(regs).spec_start(),
            final(regs).spec_leased() == old(regs).spec_leased(),
            ({
                let i = first_free_from(old(regs).spec_leased(), 0);
                let tmp = reg_name(old(regs).spec_start() + i as nat);
                if is_based(segment) && i >= old(regs).spec_leased().len() {
                    r == Err::<Vec<String>, MemoryError>(MemoryError::Temp(RegMgrError::NoFreeTmpSpace))
                } else {
                    match r {
                        Ok(lines) => pop_spec(self.spec_namespace(), segment, idx, tmp) == Ok::<_, MemoryError>(
                            lines_view(lines@),
                        ),
                        Err(e) => pop_spec(self.spec_namespace(), segment, idx, tmp) == Err::<Seq<Seq<char>>, _>(e),
                    }
                }
            }),
    {
        match segment {
            Segment::Static => {
                let mut r = pop_stack_to_d_reg();
                extend(&mut r, set_alias(self.static_alias(idx).as_str()));
                extend(&mut r, set_mem_to_d_reg());
                Ok(r)
            },
            Segment::Temp => {
                if idx >= AVAILABLE_TMP_BLOCKS {
                    return Err(MemoryError::OutOfBounds(idx, segment));
                }
                let mut r = pop_stack_to_d_reg();
                extend(&mut r, set_a_reg_to_constant((TMP_BASE_ADDR + idx) as i16));
                extend(&mut r, set_mem_to_d_reg());
                Ok(r)
            },
            Segment::Pointer => {
                if idx > 1 {
                    return Err(MemoryError::OutOfBounds(idx, segment));
                }
                let s = if idx == 0 { Segment::This } else { Segment::That };
                let mut r = pop_stack_to_d_reg();
                extend(&mut r, set_alias(get_segment_alias(&s)));
                extend(&mut r, set_mem_to_d_reg());
                Ok(r)
            },
            _ => {
                let ghost before = *regs;
                let tmp = match regs.next() {
                    Ok(t) => t,
                    Err(e) => return Err(MemoryError::Temp(e)),
                };
                let mut r = set_d_reg_to_segment_idx(segment, idx);
                extend(&mut r, set_alias(tmp.as_str()));
                extend(&mut r, set_mem_to_d_reg());
                extend(&mut r, pop_stack_to_d_reg());
                extend(&mut r, set_mem_at_alias_to_d_reg(tmp.as_str()));
                regs.release(tmp);
                proof {
                    lemma_first_free(before.spec_leased(), 0);
                    assert(regs.spec_leased() =~= before.spec_leased());
                }
                Ok(r)
            },
        }
    }
}

} // verus!
