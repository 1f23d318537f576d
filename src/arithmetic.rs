//! Lowering of the arithmetic, logic and comparison commands.

use vstd::prelude::*;
use crate::text::lines_view;
use crate::label_manager::{lm_static, LabelManager, LmView};
use crate::snippets::{
    asm_a_to_pointer, asm_dec_sp, asm_inc_sp, asm_pop_and_prep, asm_push_d, asm_set_alias,
    dec_stack_pointer, extend, inc_stack_pointer, label, one, paren, pop_and_prep_stack,
    push_d_reg_to_stack, set_a_reg_to_pointer, set_alias,
};
use crate::vm_parser::Arithmetic;

verus! {

pub open spec fn is_comparison(a: Arithmetic) -> bool {
    a == Arithmetic::Eq || a == Arithmetic::Gt || a == Arithmetic::Lt
}

/// The operation line of a binary or unary command.
pub open spec fn op_line(a: Arithmetic) -> Seq<char> {
    match a {
        Arithmetic::Add => "M=M+D"@,
        Arithmetic::Sub => "M=M-D"@,
        Arithmetic::And => "M=M&D"@,
        Arithmetic::Or => "M=M|D"@,
        Arithmetic::Neg => "M=-M"@,
        _ => "M=!M"@,
    }
}

/// The jump taken when a comparison holds.
pub open spec fn jump_line(a: Arithmetic) -> Seq<char> {
    match a {
        Arithmetic::Eq => "D;JEQ"@,
        Arithmetic::Gt => "D;JGT"@,
        _ => "D;JLT"@,
    }
}

/// `x op y` for the two top words, in place of them.
pub open spec fn asm_binary(a: Arithmetic) -> Seq<Seq<char>> {
    asm_pop_and_prep() + seq![op_line(a)] + asm_inc_sp()
}

/// `op x` for the top word, in place.
pub open spec fn asm_unary(a: Arithmetic) -> Seq<Seq<char>> {
    asm_dec_sp() + asm_a_to_pointer() + seq![op_line(a)] + asm_inc_sp()
}

/// `-1` in place of the two top words when `x - y` meets the comparison, else `0`.
pub open spec fn asm_compare(a: Arithmetic, true_lbl: Seq<char>, end_lbl: Seq<char>) -> Seq<Seq<char>> {
    asm_pop_and_prep() + seq!["D=M-D"@] + asm_set_alias(true_lbl) + seq![jump_line(a)] + seq![
        "D=0"@,
    ] + asm_set_alias(end_lbl) + seq!["0;JMP"@] + seq![paren(true_lbl)] + seq!["D=-1"@] + seq![
        paren(end_lbl),
    ] + asm_push_d()
}

/// Lines of an arithmetic command and the label scopes after it: a comparison
/// draws two counter labels from the file's scope.
pub open spec fn arithmetic_spec(a: Arithmetic, m: LmView) -> (Seq<Seq<char>>, LmView) {
    if a == Arithmetic::Neg || a == Arithmetic::Not {
        (asm_unary(a), m)
    } else if is_comparison(a) {
        let (t, m1) = lm_static(m);
        let (f, m2) = lm_static(m1);
        (asm_compare(a, t, f), m2)
    } else {
        (asm_binary(a), m)
    }
}

fn op_text(a: Arithmetic) -> (r: String)
    ensures
        r@ == op_line(a),
{
    match a {
        Arithmetic::Add => "M=M+D".to_owned(),
        Arithmetic::Sub => "M=M-D".to_owned(),
        Arithmetic::And => "M=M&D".to_owned(),
        Arithmetic::Or => "M=M|D".to_owned(),
        Arithmetic::Neg => "M=-M".to_owned(),
        _ => "M=!M".to_owned(),
    }
}

fn bin_math_to_asm(a: Arithmetic) -> (r: Vec<String>)
    ensures
        lines_view(r@) == asm_binary(a),
{
    let mut r = pop_and_prep_stack();
    extend(&mut r, one(op_text(a)));
    extend(&mut r, inc_stack_pointer());
    r
}

fn uni_math_to_asm(a: Arithmetic) -> (r: Vec<String>)
    ensures
        lines_view(r@) == asm_unary(a),
{
    let mut r = dec_stack_pointer();
    extend(&mut r, set_a_reg_to_pointer());
    extend(&mut r, one(op_text(a)));
    extend(&mut r, inc_stack_pointer());
    r
}

fn cmp_math_to_asm(a: Arithmetic, labels: &mut LabelManager) -> (r: Vec<String>)
    requires
        is_comparison(a),
        old(labels)@.base.id + 2 <= u64::MAX,
    ensures
        (lines_view(r@), final(labels)@) == arithmetic_spec(a, old(labels)@),
{
    let jump = match a {
        Arithmetic::Eq => "D;JEQ".to_owned(),
        Arithmetic::Gt => "D;JGT".to_owned(),
        _ => "D;JLT".to_owned(),
    };
    let true_lbl = labels.generate_static();
    let end_lbl = labels.generate_static();
    let mut r = pop_and_prep_stack();
    extend(&mut r, one("D=M-D".to_owned()));
    extend(&mut r, set_alias(true_lbl.as_str()));
    extend(&mut r, one(jump));
    extend(&mut r, one("D=0".to_owned()));
    extend(&mut r, set_alias(end_lbl.as_str()));
    extend(&mut r, one("0;JMP".to_owned()));
    extend(&mut r, label(true_lbl.as_str()));
    extend(&mut r, one("D=-1".to_owned()));
    extend(&mut r, label(end_lbl.as_str()));
    extend(&mut r, push_d_reg_to_stack());
    r
}

/// Lowers an arithmetic command; a comparison needs two more counter labels
/// in the file's scope.
pub fn arithmetic(arr: Arithmetic, labels: &mut LabelManager) -> (r: Vec<String>)
    requires
        is_comparison(arr) ==> old(labels)@.base.id + 2 <= u64::MAX,
    ensures
        (lines_view(r@), final(labels)@) == arithmetic_spec(arr, old(labels)@),
{
    match arr {
        Arithmetic::Add | Arithmetic::Sub | Arithmetic::And | Arithmetic::Or => bin_math_to_asm(arr),
        Arithmetic::Neg | Arithmetic::Not => uni_math_to_asm(arr),
        _ => cmp_math_to_asm(arr, labels),
    }
}

} // verus!
