//! Lowering of label and function declarations.

use vstd::prelude::*;
use crate::text::lines_view;
use crate::label_manager::{lm_label, lm_start, LabelManager, LmView};
use crate::memory::MemoryError;
use crate::snippets::{asm_d_to_constant, asm_push_d, extend, label, paren, push_d_reg_to_stack, set_d_reg_to_constant};
use crate::vm_parser::Marker;

verus! {

#[derive(Debug, Clone, PartialEq, Eq)]
pub enum MarkerError {
    Memory(MemoryError),
}

/// Pushes `k` zeros: a function's locals.
pub open spec fn asm_locals(k: nat) -> Seq<Seq<char>>
    decreases k,
{
    if k == 0 {
        Seq::empty()
    } else {
        asm_locals((k - 1) as nat) + asm_d_to_constant(0) + asm_push_d()
    }
}

/// Lines of a declaration and the label scopes after it: a label belongs to
/// the innermost scope; a function opens a scope of its own.
pub open spec fn marker_spec(mk: Marker, m: LmView) -> (Seq<Seq<char>>, LmView) {
    match mk {
        Marker::Label(l) => (seq![paren(lm_label(m, l@, false).0)], m),
        Marker::Function(name, k) => (seq![paren(name@)] + asm_locals(k as nat), lm_start(m, name@)),
    }
}

fn initialize_locals(local_count: u8) -> (r: Vec<String>)
    ensures
        lines_view(r@) == asm_locals(local_count as nat),
{
    let mut r: Vec<String> = Vec::new();
    let mut i: u8 = 0;
    proof {
        assert(lines_view(r@) =~= asm_locals(0));
    }
    while i < local_count
        invariant
            i <= local_count,
            lines_view(r@) == asm_locals(i as nat),
        decreases local_count - i,
    {
        extend(&mut r, set_d_reg_to_constant(0));
        extend(&mut r, push_d_reg_to_stack());
        i = i + 1;
        proof {
            assert(lines_view(r@) =~= asm_locals(i as nat));
        }
    }
    r
}

fn function(name: &str, local_count: u8) -> (r: Vec<String>)
    ensures
        lines_view(r@) == seq![paren(name@)] + asm_locals(local_count as nat),
{
    let mut r = label(name);
    extend(&mut r, initialize_locals(local_count));
    r
}

/// Lowers a declaration.
pub fn marker(marker_cmd: &Marker, labels: &mut LabelManager) -> (r: Vec<String>)
    ensures
        (lines_view(r@), final(labels)@) == marker_spec(*marker_cmd, old(labels)@),
{
    match marker_cmd {
        Marker::Label(l) => label(labels.generate_label(l.as_str(), false).as_str()),
        Marker::Function(name, local_count) => {
            let r = function(name.as_str(), *local_count);
            labels.start_function(name.as_str());
            r
        },
    }
}

} // verus!
