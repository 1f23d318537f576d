//! Lowering of jumps, calls and returns.

use vstd::prelude::*;
use crate::text::lines_view;
use crate::label_manager::{gen_count, lm_end, lm_label, lm_top, LabelManager, LmView};
use crate::memory::{asm_d_to_segment_idx, get_segment_alias, pop_spec, set_d_reg_to_segment_idx, MemCmdWriter, MemoryError};
use crate::reg_mgr::{reg_name, RegMgr, RegMgrError};
use crate::snippets::{
    asm_a_to_alias, asm_a_to_constant, asm_d_to_a, asm_d_to_alias, asm_d_to_mem, asm_mem_to_d,
    asm_pop_d, asm_push_d, asm_set_alias, at, extend, label, one, paren, pop_stack_to_d_reg,
    push_d_reg_to_stack, set_a_reg_to_alias, set_a_reg_to_constant, set_alias, set_d_reg_to_a_reg,
    set_d_reg_to_alias, set_d_reg_to_mem, set_mem_to_d_reg,
};
use crate::vm_parser::{Flow, Goto, Segment};

verus! {

#[derive(Debug, Clone, PartialEq, Eq)]
pub enum FlowError {
    RegMgr(RegMgrError),
    Memory(MemoryError),
}

pub open spec fn asm_goto(l: Seq<char>) -> Seq<Seq<char>> {
    asm_set_alias(l) + seq!["0;JMP"@]
}

/// Pops the top and jumps to `l` when it is not zero.
pub open spec fn asm_if_goto(l: Seq<char>) -> Seq<Seq<char>> {
    asm_pop_d() + asm_set_alias(l) + seq!["D;JGT"@, "D;JLT"@]
}

/// Pushes the address a label stands for.
pub open spec fn asm_push_address(l: Seq<char>) -> Seq<Seq<char>> {
    asm_set_alias(l) + asm_d_to_a() + asm_push_d()
}

/// Pushes `LCL`, `ARG`, `THIS` and `THAT`.
pub open spec fn asm_save_frame() -> Seq<Seq<char>> {
    asm_d_to_segment_idx(Segment::Local, 0) + asm_push_d() + asm_d_to_segment_idx(Segment::Argument, 0)
        + asm_push_d() + asm_d_to_segment_idx(Segment::This, 0) + asm_push_d() + asm_d_to_segment_idx(
        Segment::That,
        0,
    ) + asm_push_d()
}

/// `ARG = SP - 5 - arg_count`.
pub open spec fn asm_reset_args(arg_count: u8) -> Seq<Seq<char>> {
    asm_d_to_alias("SP"@, Some(-(5 + arg_count))) + asm_set_alias("ARG"@) + asm_mem_to_d()
}

/// `call name arg_count`, returning to label `ret`.
pub open spec fn asm_call(name: Seq<char>, arg_count: u8, ret: Seq<char>) -> Seq<Seq<char>> {
    asm_push_address(ret) + asm_save_frame() + asm_reset_args(arg_count) + asm_d_to_alias("SP"@, None)
        + asm_set_alias("LCL"@) + asm_mem_to_d() + asm_goto(name) + seq![paren(ret)]
}

/// A segment base gets the word `steps_back` below the frame pointer in `reg`.
pub open spec fn asm_restore(reg: Seq<char>, steps_back: u8, s: Segment) -> Seq<Seq<char>> {
    (if steps_back == 1 {
        asm_set_alias(reg) + seq!["A=M-1"@]
    } else {
        asm_d_to_alias(reg, None) + asm_a_to_constant(steps_back as int) + seq!["A=D-A"@]
    }) + asm_d_to_mem() + asm_set_alias(crate::memory::segment_alias(s)) + asm_mem_to_d()
}

/// `return`, with the frame pointer kept in `lcl`, the return address in
/// `ret`, and `tmp` as scratch for the move of the result.
pub open spec fn asm_return(lcl: Seq<char>, ret: Seq<char>, tmp: Seq<char>) -> Seq<Seq<char>> {
    asm_d_to_segment_idx(Segment::Local, 0) + asm_set_alias(lcl) + asm_mem_to_d() + asm_a_to_constant(5)
        + seq!["A=D-A"@] + asm_d_to_mem() + asm_set_alias(ret) + asm_mem_to_d() + pop_spec(
        Seq::empty(),
        Segment::Argument,
        0,
        tmp,
    )->Ok_0 + asm_d_to_segment_idx(Segment::Argument, 1) + asm_set_alias("SP"@) + asm_mem_to_d()
        + asm_restore(lcl, 1, Segment::That) + asm_restore(lcl, 2, Segment::This) + asm_restore(
        lcl,
        3,
        Segment::Argument,
    ) + asm_restore(lcl, 4, Segment::Local) + asm_a_to_alias(ret) + seq!["0;JMP"@]
}

/// Name a call's return label is made unique from: `name$ret`.
pub open spec fn ret_name(name: Seq<char>) -> Seq<char> {
    name + "$ret"@
}

/// The scratch registers leased in a `return`: the first three of the range.
pub open spec fn return_spec(start: nat) -> Seq<Seq<char>> {
    asm_return(reg_name(start), reg_name(start + 1), reg_name(start + 2))
}

/// Lines of a call and the label scopes after it: the return label is
/// `prefix.name$ret.N` in the innermost scope.
pub open spec fn call_spec(name: Seq<char>, arg_count: u8, m: LmView) -> (Seq<Seq<char>>, LmView) {
    let (ret, m2) = lm_label(m, ret_name(name), true);
    (asm_call(name, arg_count, ret), m2)
}

/// Lines of a flow command and the label scopes after it; jump targets are
/// labels of the innermost scope.
pub open spec fn flow_spec(f: Flow, m: LmView, start: nat) -> (Seq<Seq<char>>, LmView) {
    match f {
        Flow::Goto(Goto::Direct, l) => (asm_goto(lm_label(m, l@, false).0), m),
        Flow::Goto(Goto::Conditional, l) => (asm_if_goto(lm_label(m, l@, false).0), m),
        Flow::Call(name, k) => call_spec(name@, k, m),
        Flow::Return => (return_spec(start), lm_end(m)),
    }
}

/// Whether a flow command can be lowered without a label counter overflowing.
pub open spec fn flow_fits(f: Flow, m: LmView) -> bool {
    match f {
        Flow::Call(name, _) => gen_count(lm_top(m), ret_name(name@)) < u64::MAX,
        _ => true,
    }
}

fn goto(label: &str) -> (r: Vec<String>)
    ensures
        lines_view(r@) == asm_goto(label@),
{
    let mut r = set_alias(label);
    extend(&mut r, one("0;JMP".to_owned()));
    r
}

fn if_goto(label: &str) -> (r: Vec<String>)
    ensures
        lines_view(r@) == asm_if_goto(label@),
{
    let mut r = pop_stack_to_d_reg();
    extend(&mut r, set_alias(label));
    extend(&mut r, one("D;JGT".to_owned()));
    extend(&mut r, one("D;JLT".to_owned()));
    r
}

fn generate_retun(label: &str) -> (r: Vec<String>)
    ensures
        lines_view(r@) == asm_push_address(label@),
{
    let mut r = set_alias(label);
    extend(&mut r, set_d_reg_to_a_reg());
    extend(&mut r, push_d_reg_to_stack());
    r
}

fn save_local_frame() -> (r: Vec<String>)
    ensures
        lines_view(r@) == asm_save_frame(),
{
    let mut r = set_d_reg_to_segment_idx(Segment::Local, 0);
    extend(&mut r, push_d_reg_to_stack());
    extend(&mut r, set_d_reg_to_segment_idx(Segment::Argument, 0));
    extend(&mut r, push_d_reg_to_stack());
    extend(&mut r, set_d_reg_to_segment_idx(Segment::This, 0));
    extend(&mut r, push_d_reg_to_stack());
    extend(&mut r, set_d_reg_to_segment_idx(Segment::That, 0));
    extend(&mut r, push_d_reg_to_stack());
    r
}

fn reset_args_for_call(arg_count: u8) -> (r: Vec<String>)
    ensures
        lines_view(r@) == asm_reset_args(arg_count),
{
    let mut r = set_d_reg_to_alias("SP", Some(-(5 + arg_count as i64)));
    extend(&mut r, set_alias("ARG"));
    extend(&mut r, set_mem_to_d_reg());
    r
}

fn call(name: &str, arg_count: u8, labels: &mut LabelManager) -> (r: Vec<String>)
    requires
        gen_count(lm_top(old(labels)@), ret_name(name@)) < u64::MAX,
    ensures
        (lines_view(r@), final(labels)@) == call_spec(name@, arg_count, old(labels)@),
{
    let mut n = name.to_owned();
    n.append("$ret");
    let ret_label = labels.generate_label(n.as_str(), true);
    let mut r = generate_retun(ret_label.as_str());
    extend(&mut r, save_local_frame());
    extend(&mut r, reset_args_for_call(arg_count));
    extend(&mut r, set_d_reg_to_alias("SP", None));
    extend(&mut r, set_alias("LCL"));
    extend(&mut r, set_mem_to_d_reg());
    extend(&mut r, goto(name));
    extend(&mut r, label(ret_label.as_str()));
    r
}

fn set_segment_addr(reg: &str, steps_back: u8, segment: Segment) -> (r: Vec<String>)
    requires
        crate::memory::is_based(segment),
    ensures
        lines_view(r@) == asm_restore(reg@, steps_back, segment),
{
    let mut r = if steps_back == 1 {
        let mut r = set_alias(reg);
        extend(&mut r, one("A=M-1".to_owned()));
        r
    } else {
        let mut r = set_d_reg_to_alias(reg, None);
        extend(&mut r, set_a_reg_to_constant(steps_back as i16));
        extend(&mut r, one("A=D-A".to_owned()));
        r
    };
    extend(&mut r, set_d_reg_to_mem());
    extend(&mut r, set_alias(get_segment_alias(&segment)));
    extend(&mut r, set_mem_to_d_reg());
    r
}

/// `return`: leases the first three scratch registers for the frame pointer,
/// the return address and the move of the result, and hands them back.
pub fn return_cmd(regs: &mut RegMgr, mem_cmd_writer: &MemCmdWriter) -> (r: Result<Vec<String>, FlowError>)
    requires
        old(regs).wf(),
        old(regs).all_free(),
        old(regs).spec_leased().len() >= 3,
    ensures
        final(regs).wf(),
        final(regs).all_free(),
        final(regs).spec_start() == old(regs).spec_start(),
        final(regs).spec_leased().len() == old(regs).spec_leased().len(),
        r is Ok,
        lines_view(r->Ok_0@) == return_spec(old(regs).spec_start()),
{
    let ghost l0 = regs.spec_leased();
    assert(crate::reg_mgr::first_free_from(l0, 0) == 0);
    let lcl = match regs.next() {
        Ok(x) => x,
        Err(e) => return Err(FlowError::RegMgr(e)),
    };
    assert(crate::reg_mgr::first_free_from(regs.spec_leased(), 0) == 1) by {
        reveal_with_fuel(crate::reg_mgr::first_free_from, 2);
    }
    let ret_add = match regs.next() {
        Ok(x) => x,
        Err(e) => return Err(FlowError::RegMgr(e)),
    };
    let ghost l2 = regs.spec_leased();
    assert(regs.spec_leased() == l0.update(0, true).update(1, true));
    assert(crate::reg_mgr::first_free_from(regs.spec_leased(), 0) == 2) by {
        reveal_with_fuel(crate::reg_mgr::first_free_from, 3);
    }
    let mut r = set_d_reg_to_segment_idx(Segment::Local, 0);
    extend(&mut r, set_alias(lcl.as_str()));
    extend(&mut r, set_mem_to_d_reg());
    extend(&mut r, set_a_reg_to_constant(5));
    extend(&mut r, one("A=D-A".to_owned()));
    extend(&mut r, set_d_reg_to_mem());
    extend(&mut r, set_alias(ret_add.as_str()));
    extend(&mut r, set_mem_to_d_reg());
    let popped = match mem_cmd_writer.pop_stack_to(regs, Segment::Argument, 0) {
        Ok(p) => p,
        Err(e) => return Err(FlowError::Memory(e)),
    };
    extend(&mut r, popped);
    extend(&mut r, set_d_reg_to_segment_idx(Segment::Argument, 1));
    extend(&mut r, set_alias("SP"));
    extend(&mut r, set_mem_to_d_reg());
    extend(&mut r, set_segment_addr(lcl.as_str(), 1, Segment::That));
    extend(&mut r, set_segment_addr(lcl.as_str(), 2, Segment::This));
    extend(&mut r, set_segment_addr(lcl.as_str(), 3, Segment::Argument));
    extend(&mut r, set_segment_addr(lcl.as_str(), 4, Segment::Local));
    extend(&mut r, set_a_reg_to_alias(ret_add.as_str()));
    extend(&mut r, one("0;JMP".to_owned()));
    regs.release(lcl);
    regs.release(ret_add);
    proof {
        assert(regs.spec_leased() =~= l0);
    }
    Ok(r)
}

/// Lowers a flow command.
pub fn flow(flow_cmd: &Flow, labels: &mut LabelManager, regs: &mut RegMgr, mem_cmd_writer: &MemCmdWriter) -> (r: Result<
    Vec<String>,
    FlowError,
>)
    requires
        flow_fits(*flow_cmd, old(labels)@),
        old(regs).wf(),
        old(regs).all_free(),
        old(regs).spec_leased().len() >= 3,
    ensures
        final(regs).wf(),
        final(regs).all_free(),
        final(regs).spec_start() == old(regs).spec_start(),
        final(regs).spec_leased().len() == old(regs).spec_leased().len(),
        r is Ok,
        (lines_view(r->Ok_0@), final(labels)@) == flow_spec(*flow_cmd, old(labels)@, old(regs).spec_start()),
{
    match flow_cmd {
        Flow::Goto(Goto::Direct, l) => Ok(goto(labels.generate_label(l.as_str(), false).as_str())),
        Flow::Goto(Goto::Conditional, l) => Ok(if_goto(labels.generate_label(l.as_str(), false).as_str())),
        Flow::Call(name, args) => Ok(call(name.as_str(), *args, labels)),
        Flow::Return => {
            labels.end_function();
            return_cmd(regs, mem_cmd_writer)
        },
    }
}

} // verus!
