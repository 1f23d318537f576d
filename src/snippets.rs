//! Short assembly sequences that move values between registers, memory and
//! the stack. Each returns its lines in order.

use vstd::prelude::*;
use crate::text::lines_view;
use crate::text::{dec_digits, dec_signed, push_decimal, push_signed};

verus! {

pub open spec fn at(s: Seq<char>) -> Seq<char> {
    seq!['@'] + s
}

pub open spec fn paren(s: Seq<char>) -> Seq<char> {
    seq!['('] + s + seq![')']
}

/// The CPU registers an assignment names.
#[derive(Debug, Clone, Copy, PartialEq, Eq)]
pub enum Register {
    A,
    D,
    Mem,
}

pub open spec fn register_letter(r: Register) -> char {
    match r {
        Register::A => 'A',
        Register::D => 'D',
        Register::Mem => 'M',
    }
}

pub open spec fn asm_set_reg_to(a: Register, b: Register) -> Seq<Seq<char>> {
    seq![seq![register_letter(a), '=', register_letter(b)]]
}

pub open spec fn asm_set_alias(alias: Seq<char>) -> Seq<Seq<char>> {
    seq![at(alias)]
}

pub open spec fn asm_a_to_pointer() -> Seq<Seq<char>> {
    asm_set_reg_to(Register::A, Register::Mem)
}

pub open spec fn asm_d_to_mem() -> Seq<Seq<char>> {
    asm_set_reg_to(Register::D, Register::Mem)
}

pub open spec fn asm_mem_to_d() -> Seq<Seq<char>> {
    asm_set_reg_to(Register::Mem, Register::D)
}

pub open spec fn asm_d_to_a() -> Seq<Seq<char>> {
    asm_set_reg_to(Register::D, Register::A)
}

/// `A` points at the word an alias holds the address of.
pub open spec fn asm_a_to_alias(alias: Seq<char>) -> Seq<Seq<char>> {
    asm_set_alias(alias) + asm_a_to_pointer()
}

/// `D` gets the word at an alias, plus `relative` when given.
pub open spec fn asm_d_to_alias(alias: Seq<char>, relative: Option<int>) -> Seq<Seq<char>> {
    match relative {
        Some(k) => if k == -1 {
            asm_set_alias(alias) + seq!["D=M-1"@]
        } else if k == 1 {
            asm_set_alias(alias) + seq!["D=M+1"@]
        } else if k != 0 {
            asm_set_alias(alias) + asm_d_to_mem() + seq![at(dec_digits((if k < 0 { -k } else { k }) as nat))] + if k > 0 {
                seq!["D=D+A"@]
            } else {
                seq!["D=D-A"@]
            }
        } else {
            asm_set_alias(alias) + asm_d_to_mem()
        },
        None => asm_set_alias(alias) + asm_d_to_mem(),
    }
}

pub open spec fn asm_a_to_constant(v: int) -> Seq<Seq<char>> {
    seq![at(dec_signed(v))]
}

pub open spec fn asm_d_to_constant(v: int) -> Seq<Seq<char>> {
    if v == 0 {
        seq!["D=0"@]
    } else if v == 1 {
        seq!["D=1"@]
    } else if v == -1 {
        seq!["D=-1"@]
    } else {
        asm_a_to_constant(v) + asm_d_to_a()
    }
}

pub open spec fn asm_mem_at_alias_to_d(alias: Seq<char>) -> Seq<Seq<char>> {
    asm_a_to_alias(alias) + asm_mem_to_d()
}

pub open spec fn asm_dec_sp() -> Seq<Seq<char>> {
    seq!["@SP"@, "M=M-1"@]
}

pub open spec fn asm_inc_sp() -> Seq<Seq<char>> {
    seq!["@SP"@, "M=M+1"@]
}

/// `*SP = D; SP++`.
pub open spec fn asm_push_d() -> Seq<Seq<char>> {
    asm_a_to_alias("SP"@) + asm_mem_to_d() + asm_inc_sp()
}

/// `SP--; D = *SP`.
pub open spec fn asm_pop_d() -> Seq<Seq<char>> {
    asm_dec_sp() + asm_a_to_pointer() + asm_d_to_mem()
}

/// Pops the top into `D`, then points `A` at the new top.
pub open spec fn asm_pop_and_prep() -> Seq<Seq<char>> {
    asm_pop_d() + asm_dec_sp() + asm_a_to_pointer()
}

/// Appends `more` to `out`.
pub fn extend(out: &mut Vec<String>, more: Vec<String>)
    ensures
        lines_view(final(out)@) == lines_view(old(out)@) + lines_view(more@),
{
    let ghost m = more@;
    let mut more = more;
    out.append(&mut more);
    proof {
        assert(lines_view(out@) =~= lines_view(old(out)@) + lines_view(m));
    }
}

pub fn one(s: String) -> (r: Vec<String>)
    ensures
        lines_view(r@) == seq![s@],
{
    let mut v: Vec<String> = Vec::new();
    v.push(s);
    proof {
        assert(lines_view(v@) =~= seq![s@]);
    }
    v
}

pub fn two(s: String, t: String) -> (r: Vec<String>)
    ensures
        lines_view(r@) == seq![s@, t@],
{
    let mut v: Vec<String> = Vec::new();
    v.push(s);
    v.push(t);
    proof {
        assert(lines_view(v@) =~= seq![s@, t@]);
    }
    v
}

/// `@` followed by a name.
pub fn at_line(s: &str) -> (r: String)
    ensures
        r@ == at(s@),
{
    let mut r = String::new();
    proof { reveal_strlit("@"); }
    r.append("@");
    r.append(s);
    r
}

/// A label declaration, `(name)`.
pub fn label(name: &str) -> (r: Vec<String>)
    ensures
        lines_view(r@) == seq![paren(name@)],
{
    let mut s = String::new();
    proof {
        reveal_strlit("(");
        reveal_strlit(")");
    }
    s.append("(");
    s.append(name);
    s.append(")");
    proof {
        assert(s@ =~= paren(name@));
    }
    one(s)
}

fn register_text(r: Register) -> (t: &'static str)
    ensures
        t@ == seq![register_letter(r)],
{
    match r {
        Register::A => {
            proof { reveal_strlit("A"); }
            "A"
        },
        Register::D => {
            proof { reveal_strlit("D"); }
            "D"
        },
        Register::Mem => {
            proof { reveal_strlit("M"); }
            "M"
        },
    }
}

pub fn set_reg_to(a: Register, b: Register) -> (r: Vec<String>)
    ensures
        lines_view(r@) == asm_set_reg_to(a, b),
{
    let mut s = String::new();
    s.append(register_text(a));
    proof { reveal_strlit("="); }
    s.append("=");
    s.append(register_text(b));
    proof {
        assert(s@ =~= seq![register_letter(a), '=', register_letter(b)]);
    }
    one(s)
}

pub fn set_alias(alias: &str) -> (r: Vec<String>)
    ensures
        lines_view(r@) == asm_set_alias(alias@),
{
    one(at_line(alias))
}

pub fn set_a_reg_to_pointer() -> (r: Vec<String>)
    ensures
        lines_view(r@) == asm_a_to_pointer(),
{
    set_reg_to(Register::A, Register::Mem)
}

pub fn set_d_reg_to_mem() -> (r: Vec<String>)
    ensures
        lines_view(r@) == asm_d_to_mem(),
{
    set_reg_to(Register::D, Register::Mem)
}

pub fn set_mem_to_d_reg() -> (r: Vec<String>)
    ensures
        lines_view(r@) == asm_mem_to_d(),
{
    set_reg_to(Register::Mem, Register::D)
}

pub fn set_d_reg_to_a_reg() -> (r: Vec<String>)
    ensures
        lines_view(r@) == asm_d_to_a(),
{
    set_reg_to(Register::D, Register::A)
}

pub fn set_a_reg_to_alias(alias: &str) -> (r: Vec<String>)
    ensures
        lines_view(r@) == asm_a_to_alias(alias@),
{
    let mut r = set_alias(alias);
    extend(&mut r, set_a_reg_to_pointer());
    r
}

pub fn set_d_reg_to_alias(alias: &str, relative: Option<i64>) -> (r: Vec<String>)
    requires
        relative matches Some(k) ==> k > i64::MIN,
    ensures
        lines_view(r@) == asm_d_to_alias(
            alias@,
            match relative {
                Some(k) => Some(k as int),
                None => None,
            },
        ),
{
    let mut r = set_alias(alias);
    match relative {
        Some(k) => {
            if k == -1 {
                extend(&mut r, one("D=M-1".to_owned()));
            } else if k == 1 {
                extend(&mut r, one("D=M+1".to_owned()));
            } else if k != 0 {
                extend(&mut r, set_d_reg_to_mem());
                let m: u64 = if k < 0 { (-k) as u64 } else { k as u64 };
                let mut s = String::new();
                proof { reveal_strlit("@"); }
                s.append("@");
                push_decimal(&mut s, m);
                proof {
                    assert(s@ =~= at(dec_digits(m as nat)));
                }
                extend(&mut r, one(s));
                if k > 0 {
                    extend(&mut r, one("D=D+A".to_owned()));
                } else {
                    extend(&mut r, one("D=D-A".to_owned()));
                }
            } else {
                extend(&mut r, set_d_reg_to_mem());
            }
        },
        None => {
            extend(&mut r, set_d_reg_to_mem());
        },
    }
    r
}

pub fn set_a_reg_to_constant(value: i16) -> (r: Vec<String>)
    ensures
        lines_view(r@) == asm_a_to_constant(value as int),
{
    let mut s = String::new();
    proof { reveal_strlit("@"); }
    s.append("@");
    push_signed(&mut s, value as i64);
    proof {
        assert(s@ =~= at(dec_signed(value as int)));
    }
    one(s)
}

pub fn set_a_reg_to_address(value: u16) -> (r: Vec<String>)
    ensures
        lines_view(r@) == seq![at(dec_digits(value as nat))],
{
    let mut s = String::new();
    proof { reveal_strlit("@"); }
    s.append("@");
    push_decimal(&mut s, value as u64);
    proof {
        assert(s@ =~= at(dec_digits(value as nat)));
    }
    one(s)
}

pub fn set_d_reg_to_constant(value: i16) -> (r: Vec<String>)
    ensures
        lines_view(r@) == asm_d_to_constant(value as int),
{
    if value == 0 {
        one("D=0".to_owned())
    } else if value == 1 {
        one("D=1".to_owned())
    } else if value == -1 {
        one("D=-1".to_owned())
    } else {
        let mut r = set_a_reg_to_constant(value);
        extend(&mut r, set_d_reg_to_a_reg());
        r
    }
}

pub fn set_mem_at_alias_to_d_reg(alias: &str) -> (r: Vec<String>)
    ensures
        lines_view(r@) == asm_mem_at_alias_to_d(alias@),
{
    let mut r = set_a_reg_to_alias(alias);
    extend(&mut r, set_mem_to_d_reg());
    r
}

pub fn dec_stack_pointer() -> (r: Vec<String>)
    ensures
        lines_view(r@) == asm_dec_sp(),
{
    two("@SP".to_owned(), "M=M-1".to_owned())
}

pub fn inc_stack_pointer() -> (r: Vec<String>)
    ensures
        lines_view(r@) == asm_inc_sp(),
{
    two("@SP".to_owned(), "M=M+1".to_owned())
}

pub fn push_d_reg_to_stack() -> (r: Vec<String>)
    ensures
        lines_view(r@) == asm_push_d(),
{
    let mut r = set_a_reg_to_alias("SP");
    extend(&mut r, set_mem_to_d_reg());
    extend(&mut r, inc_stack_pointer());
    r
}

pub fn pop_stack_to_d_reg() -> (r: Vec<String>)
    ensures
        lines_view(r@) == asm_pop_d(),
{
    let mut r = dec_stack_pointer();
    extend(&mut r, set_a_reg_to_pointer());
    extend(&mut r, set_d_reg_to_mem());
    r
}

pub fn pop_and_prep_stack() -> (r: Vec<String>)
    ensures
        lines_view(r@) == asm_pop_and_prep(),
{
    let mut r = pop_stack_to_d_reg();
    extend(&mut r, dec_stack_pointer());
    extend(&mut r, set_a_reg_to_pointer());
    r
}

} // verus!
