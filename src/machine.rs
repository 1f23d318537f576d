//! A model of the Hack CPU for the instructions that calls and returns are
//! lowered to, and what running such lowered code does to the VM's frame.

use vstd::prelude::*;
use crate::flow::{
    asm_call, asm_goto, asm_push_address, asm_reset_args, asm_restore, asm_save_frame, return_spec,
};
use crate::marker::asm_locals;
use crate::memory::{asm_d_to_segment_idx, is_based, pop_spec, segment_alias};
use crate::reg_mgr::reg_name;
use crate::snippets::{
    asm_a_to_constant, asm_a_to_pointer, asm_d_to_a, asm_d_to_alias, asm_d_to_mem, asm_dec_sp, asm_inc_sp,
    asm_a_to_alias, asm_mem_at_alias_to_d, asm_mem_to_d, asm_pop_d, asm_push_d, asm_set_alias, at,
    paren,
};
use crate::vm_parser::Segment;
use crate::writer::comment_line;
use crate::text::{all_digits, dec_digits, dec_signed, dec_value, digit_char, digit_value, is_digit};

verus! {

/// The CPU's registers and its RAM.
pub struct Machine {
    pub a: int,
    pub d: int,
    pub ram: spec_fn(int) -> int,
}

pub open spec fn store(m: Machine, addr: int, v: int) -> Machine {
    Machine { ram: |x: int| if x == addr { v } else { (m.ram)(x) }, ..m }
}

/// The value an `@` instruction loads for a name: the predefined registers,
/// a decimal literal, or else what `labels` gives for it.
pub open spec fn symbol_value(s: Seq<char>, labels: spec_fn(Seq<char>) -> int) -> int {
    if s == "SP"@ {
        0
    } else if s == "LCL"@ {
        1
    } else if s == "ARG"@ {
        2
    } else if s == "THIS"@ {
        3
    } else if s == "THAT"@ {
        4
    } else if s.len() > 0 && all_digits(s) {
        dec_value(s) as int
    } else if s == reg_name(13) {
        13
    } else if s == reg_name(14) {
        14
    } else if s == reg_name(15) {
        15
    } else {
        labels(s)
    }
}

/// Value of a one-character operand of a computation.
pub open spec fn operand(m: Machine, c: char) -> int {
    if c == 'A' {
        m.a
    } else if c == 'D' {
        m.d
    } else if c == 'M' {
        (m.ram)(m.a)
    } else if c == '1' {
        1
    } else {
        0
    }
}

/// Value of a computation of the forms `x`, `-x`, `x+y` and `x-y`.
pub open spec fn compute(m: Machine, c: Seq<char>) -> int {
    if c.len() == 1 {
        operand(m, c[0])
    } else if c.len() == 2 && c[0] == '-' {
        -operand(m, c[1])
    } else if c.len() == 3 && c[1] == '+' {
        operand(m, c[0]) + operand(m, c[2])
    } else if c.len() == 3 && c[1] == '-' {
        operand(m, c[0]) - operand(m, c[2])
    } else {
        0
    }
}

/// One line: `@value` loads `A`; `X=comp` stores into the one register `X`;
/// labels and jumps change neither registers nor memory.
pub open spec fn exec_line(m: Machine, l: Seq<char>, labels: spec_fn(Seq<char>) -> int) -> Machine {
    if l.len() > 0 && l[0] == '@' {
        Machine { a: symbol_value(l.drop_first(), labels), ..m }
    } else if l.len() >= 3 && l[1] == '=' {
        let v = compute(m, l.subrange(2, l.len() as int));
        if l[0] == 'A' {
            Machine { a: v, ..m }
        } else if l[0] == 'D' {
            Machine { d: v, ..m }
        } else if l[0] == 'M' {
            store(m, m.a, v)
        } else {
            m
        }
    } else {
        m
    }
}

/// Runs `lines[i..]` in order.
pub open spec fn run_from(m: Machine, lines: Seq<Seq<char>>, i: int, labels: spec_fn(Seq<char>) -> int) -> Machine
    decreases lines.len() - i,
{
    if i < 0 || i >= lines.len() {
        m
    } else {
        run_from(exec_line(m, lines[i], labels), lines, i + 1, labels)
    }
}

/// Runs the lines in order.
pub open spec fn run(m: Machine, lines: Seq<Seq<char>>, labels: spec_fn(Seq<char>) -> int) -> Machine {
    run_from(m, lines, 0, labels)
}

proof fn lemma_run_from_concat(
    m: Machine,
    x: Seq<Seq<char>>,
    y: Seq<Seq<char>>,
    i: int,
    labels: spec_fn(Seq<char>) -> int,
)
    requires
        0 <= i <= x.len(),
    ensures
        run_from(m, x + y, i, labels) == run_from(run_from(m, x, i, labels), y, 0, labels),
    decreases x.len() - i,
{
    if i < x.len() {
        assert((x + y)[i] == x[i]);
        lemma_run_from_concat(exec_line(m, x[i], labels), x, y, i + 1, labels);
    } else {
        lemma_run_from_shift(m, x, y, 0, labels);
    }
}

proof fn lemma_run_from_shift(m: Machine, x: Seq<Seq<char>>, y: Seq<Seq<char>>, j: int, labels: spec_fn(Seq<char>) -> int)
    requires
        0 <= j <= y.len(),
    ensures
        run_from(m, x + y, x.len() + j, labels) == run_from(m, y, j, labels),
    decreases y.len() - j,
{
    if j < y.len() {
        assert((x + y)[x.len() + j] == y[j]);
        lemma_run_from_shift(exec_line(m, y[j], labels), x, y, j + 1, labels);
    }
}

pub proof fn lemma_run_concat(m: Machine, x: Seq<Seq<char>>, y: Seq<Seq<char>>, labels: spec_fn(Seq<char>) -> int)
    ensures
        run(m, x + y, labels) == run(run(m, x, labels), y, labels),
{
    lemma_run_from_concat(m, x, y, 0, labels);
}

proof fn lemma_reveal_lines()
    ensures
        "@SP"@ == seq!['@', 'S', 'P'],
        "SP"@ == seq!['S', 'P'],
        "LCL"@ == seq!['L', 'C', 'L'],
        "ARG"@ == seq!['A', 'R', 'G'],
        "THIS"@ == seq!['T', 'H', 'I', 'S'],
        "THAT"@ == seq!['T', 'H', 'A', 'T'],
        "M=M+1"@ == seq!['M', '=', 'M', '+', '1'],
        "M=M-1"@ == seq!['M', '=', 'M', '-', '1'],
        "D=M+1"@ == seq!['D', '=', 'M', '+', '1'],
        "D=M-1"@ == seq!['D', '=', 'M', '-', '1'],
        "D=D+A"@ == seq!['D', '=', 'D', '+', 'A'],
        "D=D-A"@ == seq!['D', '=', 'D', '-', 'A'],
        "A=D-A"@ == seq!['A', '=', 'D', '-', 'A'],
        "A=M-1"@ == seq!['A', '=', 'M', '-', '1'],
        "0;JMP"@ == seq!['0', ';', 'J', 'M', 'P'],
{
    reveal_strlit("@SP");
    reveal_strlit("SP");
    reveal_strlit("LCL");
    reveal_strlit("ARG");
    reveal_strlit("THIS");
    reveal_strlit("THAT");
    reveal_strlit("M=M+1");
    reveal_strlit("M=M-1");
    reveal_strlit("D=M+1");
    reveal_strlit("D=M-1");
    reveal_strlit("D=D+A");
    reveal_strlit("D=D-A");
    reveal_strlit("A=D-A");
    reveal_strlit("A=M-1");
    reveal_strlit("0;JMP");
}

proof fn lemma_run_concat_all(labels: spec_fn(Seq<char>) -> int)
    ensures
        forall|m: Machine, x: Seq<Seq<char>>, y: Seq<Seq<char>>|
            #[trigger] run(m, x + y, labels) == run(run(m, x, labels), y, labels),
{
    assert forall|m: Machine, x: Seq<Seq<char>>, y: Seq<Seq<char>>|
        #[trigger] run(m, x + y, labels) == run(run(m, x, labels), y, labels) by {
        lemma_run_concat(m, x, y, labels);
    }
}

proof fn lemma_digit_char(d: nat)
    requires
        d < 10,
    ensures
        is_digit(digit_char(d)),
        digit_value(digit_char(d)) == d,
{
}

pub proof fn lemma_dec_digits_are_digits(n: nat)
    ensures
        dec_digits(n).len() > 0,
        all_digits(dec_digits(n)),
        dec_value(dec_digits(n)) == n,
    decreases n,
{
    lemma_digit_char(n % 10);
    if n < 10 {
        let q = dec_digits(n);
        assert(q == seq![digit_char(n)]);
        assert(q.drop_last() =~= Seq::<char>::empty());
        assert(q.last() == digit_char(n));
        assert(dec_value(Seq::<char>::empty()) == 0);
        assert(dec_value(q) == dec_value(q.drop_last()) * 10 + digit_value(q.last()));
        assert forall|i: int| 0 <= i < q.len() implies is_digit(#[trigger] q[i]) by {
            assert(q[0] == digit_char(n));
        }
    } else {
        lemma_dec_digits_are_digits(n / 10);
        let p = dec_digits(n / 10);
        let q = p.push(digit_char(n % 10));
        assert(q.drop_last() =~= p);
        assert(q.last() == digit_char(n % 10));
        assert(dec_value(q) == dec_value(p) * 10 + digit_value(digit_char(n % 10)));
        assert((n / 10) * 10 + n % 10 == n);
        assert forall|i: int| 0 <= i < q.len() implies is_digit(#[trigger] q[i]) by {
            if i < p.len() {
                assert(q[i] == p[i]);
            }
        }
    }
}

/// What each instruction line of the lowering does.
proof fn lemma_line_effects(labels: spec_fn(Seq<char>) -> int)
    ensures
        forall|m: Machine, s: Seq<char>| #[trigger] exec_line(m, at(s), labels) == (Machine { a: symbol_value(s, labels), ..m }),
        forall|m: Machine| #[trigger] exec_line(m, "@SP"@, labels) == (Machine { a: 0, ..m }),
        forall|m: Machine| #[trigger] exec_line(m, "M=M+1"@, labels) == store(m, m.a, (m.ram)(m.a) + 1),
        forall|m: Machine| #[trigger] exec_line(m, "M=M-1"@, labels) == store(m, m.a, (m.ram)(m.a) - 1),
        forall|m: Machine| #[trigger] exec_line(m, "D=M+1"@, labels) == (Machine { d: (m.ram)(m.a) + 1, ..m }),
        forall|m: Machine| #[trigger] exec_line(m, "D=D-A"@, labels) == (Machine { d: m.d - m.a, ..m }),
        forall|m: Machine| #[trigger] exec_line(m, "A=D-A"@, labels) == (Machine { a: m.d - m.a, ..m }),
        forall|m: Machine| #[trigger] exec_line(m, "A=M-1"@, labels) == (Machine { a: (m.ram)(m.a) - 1, ..m }),
        forall|m: Machine| #[trigger] exec_line(m, "0;JMP"@, labels) == m,
        forall|m: Machine, s: Seq<char>| #[trigger] exec_line(m, paren(s), labels) == m,
        forall|m: Machine| #[trigger] run(m, asm_d_to_mem(), labels) == (Machine { d: (m.ram)(m.a), ..m }),
        forall|m: Machine| #[trigger] run(m, asm_a_to_pointer(), labels) == (Machine { a: (m.ram)(m.a), ..m }),
        forall|m: Machine| #[trigger] run(m, asm_mem_to_d(), labels) == store(m, m.a, m.d),
        forall|m: Machine| #[trigger] run(m, asm_d_to_a(), labels) == (Machine { d: m.a, ..m }),
{
    lemma_reveal_lines();
    assert forall|m: Machine, s: Seq<char>| #[trigger] exec_line(m, at(s), labels) == (Machine { a: symbol_value(s, labels), ..m }) by {
        assert(at(s).drop_first() =~= s);
    }
    assert(seq!['D', '=', 'M'].subrange(2, 3) =~= seq!['M']);
    assert(seq!['A', '=', 'M'].subrange(2, 3) =~= seq!['M']);
    assert(seq!['M', '=', 'D'].subrange(2, 3) =~= seq!['D']);
    assert(seq!['D', '=', 'A'].subrange(2, 3) =~= seq!['A']);
    assert("@SP"@.drop_first() =~= "SP"@);
    assert("M=M+1"@.subrange(2, 5) =~= seq!['M', '+', '1']);
    assert("M=M-1"@.subrange(2, 5) =~= seq!['M', '-', '1']);
    assert("D=M+1"@.subrange(2, 5) =~= seq!['M', '+', '1']);
    assert("D=D-A"@.subrange(2, 5) =~= seq!['D', '-', 'A']);
    assert("A=D-A"@.subrange(2, 5) =~= seq!['D', '-', 'A']);
    assert("A=M-1"@.subrange(2, 5) =~= seq!['M', '-', '1']);
    assert forall|m: Machine, s: Seq<char>| #[trigger] exec_line(m, paren(s), labels) == m by {
        assert(paren(s)[0] == '(');
    }
    reveal_with_fuel(run_from, 2);
}

/// Values that `@` loads for the names and numbers of the lowering.
proof fn lemma_symbols(labels: spec_fn(Seq<char>) -> int)
    ensures
        symbol_value("SP"@, labels) == 0,
        symbol_value("LCL"@, labels) == 1,
        symbol_value("ARG"@, labels) == 2,
        symbol_value("THIS"@, labels) == 3,
        symbol_value("THAT"@, labels) == 4,
        symbol_value(reg_name(13), labels) == 13,
        symbol_value(reg_name(14), labels) == 14,
        symbol_value(reg_name(15), labels) == 15,
        forall|n: nat| #[trigger] symbol_value(dec_digits(n), labels) == n,
        forall|v: int| v >= 0 ==> #[trigger] symbol_value(dec_signed(v), labels) == v,
{
    lemma_reveal_lines();
    reveal_with_fuel(dec_digits, 3);
    assert(dec_digits(13) =~= seq!['1', '3']);
    assert(dec_digits(14) =~= seq!['1', '4']);
    assert(dec_digits(15) =~= seq!['1', '5']);
    assert(reg_name(13) =~= seq!['R', '1', '3']);
    assert(reg_name(14) =~= seq!['R', '1', '4']);
    assert(reg_name(15) =~= seq!['R', '1', '5']);
    assert(reg_name(13)[0] != "LCL"@[0]);
    assert(reg_name(13)[0] != "ARG"@[0]);
    assert(reg_name(14)[0] != "LCL"@[0]);
    assert(reg_name(14)[0] != "ARG"@[0]);
    assert(reg_name(15)[0] != "LCL"@[0]);
    assert(reg_name(15)[0] != "ARG"@[0]);
    assert(!is_digit(reg_name(13)[0]));
    assert(!is_digit(reg_name(14)[0]));
    assert(!is_digit(reg_name(15)[0]));
    assert(reg_name(14)[2] != reg_name(13)[2]);
    assert(reg_name(15)[2] != reg_name(13)[2]);
    assert(reg_name(15)[2] != reg_name(14)[2]);
    assert("ARG"@[0] != "LCL"@[0]);
    assert("THAT"@[2] != "THIS"@[2]);
    assert forall|n: nat| #[trigger] symbol_value(dec_digits(n), labels) == n by {
        lemma_dec_digits_are_digits(n);
        let t = dec_digits(n);
        assert(is_digit(t[0]));
        assert(t != "SP"@) by { assert(!is_digit("SP"@[0])); }
        assert(t != "LCL"@) by { assert(!is_digit("LCL"@[0])); }
        assert(t != "ARG"@) by { assert(!is_digit("ARG"@[0])); }
        assert(t != "THIS"@) by { assert(!is_digit("THIS"@[0])); }
        assert(t != "THAT"@) by { assert(!is_digit("THAT"@[0])); }
    }
}

proof fn lemma_run_single(m: Machine, l: Seq<char>, labels: spec_fn(Seq<char>) -> int)
    ensures
        run(m, seq![l], labels) == exec_line(m, l, labels),
{
    reveal_with_fuel(run_from, 2);
}

proof fn lemma_run_pair(m: Machine, l1: Seq<char>, l2: Seq<char>, labels: spec_fn(Seq<char>) -> int)
    ensures
        run(m, seq![l1, l2], labels) == exec_line(exec_line(m, l1, labels), l2, labels),
{
    reveal_with_fuel(run_from, 3);
}

/// What the snippets of a call and a return do.
proof fn lemma_snippet_effects(labels: spec_fn(Seq<char>) -> int)
    ensures
        forall|m: Machine, s: Seq<char>|
            #[trigger] run(m, asm_set_alias(s), labels) == (Machine { a: symbol_value(s, labels), ..m }),
        forall|m: Machine| #[trigger] run(m, asm_inc_sp(), labels) == store(Machine { a: 0, ..m }, 0, (m.ram)(0) + 1),
        forall|m: Machine| #[trigger] run(m, asm_dec_sp(), labels) == store(Machine { a: 0, ..m }, 0, (m.ram)(0) - 1),
        forall|m: Machine, s: Seq<char>| #[trigger] run(m, asm_goto(s), labels) == (Machine { a: symbol_value(s, labels), ..m }),
        forall|m: Machine, v: int|
            v >= 0 ==> #[trigger] run(m, asm_a_to_constant(v), labels) == (Machine { a: v, ..m }),
        forall|m: Machine, s: Seq<char>|
            #[trigger] run(m, asm_d_to_alias(s, None), labels) == (Machine {
                a: symbol_value(s, labels),
                d: (m.ram)(symbol_value(s, labels)),
                ..m
            }),
        forall|m: Machine, s: Seq<char>, k: int|
            k != -1 && k != 1 && k <= 0 ==> #[trigger] run(m, asm_d_to_alias(s, Some(k)), labels) == (Machine {
                a: if k == 0 { symbol_value(s, labels) } else { -k },
                d: (m.ram)(symbol_value(s, labels)) + k,
                ..m
            }),
        forall|m: Machine, s: Seq<char>|
            #[trigger] run(m, asm_d_to_alias(s, Some(1)), labels) == (Machine {
                a: symbol_value(s, labels),
                d: (m.ram)(symbol_value(s, labels)) + 1,
                ..m
            }),
{
    lemma_line_effects(labels);
    lemma_symbols(labels);
    lemma_run_concat_all(labels);
    assert forall|m: Machine, s: Seq<char>|
        #[trigger] run(m, asm_set_alias(s), labels) == (Machine { a: symbol_value(s, labels), ..m }) by {
        lemma_run_single(m, at(s), labels);
    }
    assert forall|m: Machine| #[trigger] run(m, asm_inc_sp(), labels) == store(Machine { a: 0, ..m }, 0, (m.ram)(0) + 1) by {
        lemma_run_pair(m, "@SP"@, "M=M+1"@, labels);
    }
    assert forall|m: Machine| #[trigger] run(m, asm_dec_sp(), labels) == store(Machine { a: 0, ..m }, 0, (m.ram)(0) - 1) by {
        lemma_run_pair(m, "@SP"@, "M=M-1"@, labels);
    }
    assert forall|m: Machine, s: Seq<char>| #[trigger] run(m, asm_goto(s), labels) == (Machine { a: symbol_value(s, labels), ..m }) by {
        lemma_run_single(m, at(s), labels);
        lemma_run_single(Machine { a: symbol_value(s, labels), ..m }, "0;JMP"@, labels);
    }
    assert forall|m: Machine, v: int| v >= 0 implies #[trigger] run(m, asm_a_to_constant(v), labels) == (Machine { a: v, ..m }) by {
        lemma_run_single(m, at(dec_signed(v)), labels);
        assert(symbol_value(dec_digits(v as nat), labels) == v);
    }
    assert forall|m: Machine, s: Seq<char>, k: int|
        k != -1 && k != 1 && k <= 0 implies #[trigger] run(m, asm_d_to_alias(s, Some(k)), labels) == (Machine {
            a: if k == 0 { symbol_value(s, labels) } else { -k },
            d: (m.ram)(symbol_value(s, labels)) + k,
            ..m
        }) by {
        let m1 = Machine { a: symbol_value(s, labels), ..m };
        lemma_run_single(m, at(s), labels);
        if k < 0 {
            let m2 = Machine { d: (m.ram)(symbol_value(s, labels)), ..m1 };
            lemma_run_single(m2, at(dec_digits((-k) as nat)), labels);
            assert(symbol_value(dec_digits((-k) as nat), labels) == -k);
            lemma_run_single(Machine { a: -k, ..m2 }, "D=D-A"@, labels);
        }
    }
    assert forall|m: Machine, s: Seq<char>|
        #[trigger] run(m, asm_d_to_alias(s, Some(1)), labels) == (Machine {
            a: symbol_value(s, labels),
            d: (m.ram)(symbol_value(s, labels)) + 1,
            ..m
        }) by {
        lemma_run_single(m, at(s), labels);
        lemma_run_single(Machine { a: symbol_value(s, labels), ..m }, "D=M+1"@, labels);
    }
}

/// `*SP = D; SP++`, for a stack pointer that does not point at itself.
proof fn lemma_push_d(m: Machine, labels: spec_fn(Seq<char>) -> int)
    requires
        (m.ram)(0) != 0,
    ensures
        ({
            let sp = (m.ram)(0);
            let r = run(m, asm_push_d(), labels);
            &&& r.d == m.d
            &&& (r.ram)(0) == sp + 1
            &&& (r.ram)(sp) == m.d
            &&& forall|x: int| x != 0 && x != sp ==> #[trigger] (r.ram)(x) == (m.ram)(x)
        }),
{
    lemma_snippet_effects(labels);
    lemma_line_effects(labels);
    lemma_symbols(labels);
    lemma_run_concat(m, asm_a_to_alias("SP"@) + asm_mem_to_d(), asm_inc_sp(), labels);
    lemma_run_concat(m, asm_a_to_alias("SP"@), asm_mem_to_d(), labels);
    lemma_run_concat(m, asm_set_alias("SP"@), asm_a_to_pointer(), labels);
}

/// `SP--; D = *SP`.
proof fn lemma_pop_d(m: Machine, labels: spec_fn(Seq<char>) -> int)
    ensures
        ({
            let sp = (m.ram)(0) - 1;
            let r = run(m, asm_pop_d(), labels);
            &&& r.a == sp
            &&& (r.ram)(0) == sp
            &&& r.d == (if sp == 0 { sp } else { (m.ram)(sp) })
            &&& forall|x: int| x != 0 ==> #[trigger] (r.ram)(x) == (m.ram)(x)
        }),
{
    lemma_snippet_effects(labels);
    lemma_line_effects(labels);
    lemma_run_concat(m, asm_dec_sp() + asm_a_to_pointer(), asm_d_to_mem(), labels);
    lemma_run_concat(m, asm_dec_sp(), asm_a_to_pointer(), labels);
}

proof fn lemma_push_address(m: Machine, ret: Seq<char>, labels: spec_fn(Seq<char>) -> int)
    requires
        (m.ram)(0) != 0,
    ensures
        ({
            let sp = (m.ram)(0);
            let r = run(m, asm_push_address(ret), labels);
            &&& (r.ram)(0) == sp + 1
            &&& (r.ram)(sp) == symbol_value(ret, labels)
            &&& forall|x: int| x != 0 && x != sp ==> #[trigger] (r.ram)(x) == (m.ram)(x)
        }),
{
    lemma_snippet_effects(labels);
    lemma_line_effects(labels);
    let m1 = run(m, asm_set_alias(ret) + asm_d_to_a(), labels);
    lemma_run_concat(m, asm_set_alias(ret) + asm_d_to_a(), asm_push_d(), labels);
    lemma_run_concat(m, asm_set_alias(ret), asm_d_to_a(), labels);
    assert(m1.d == symbol_value(ret, labels) && m1.ram == m.ram);
    lemma_push_d(m1, labels);
}

/// Pushes the word a based segment's register holds.
proof fn lemma_push_base(m: Machine, s: Segment, labels: spec_fn(Seq<char>) -> int)
    requires
        is_based(s),
        (m.ram)(0) >= 16,
    ensures
        ({
            let sp = (m.ram)(0);
            let r = run(m, asm_d_to_segment_idx(s, 0) + asm_push_d(), labels);
            &&& (r.ram)(0) == sp + 1
            &&& (r.ram)(sp) == (m.ram)(symbol_value(segment_alias(s), labels))
            &&& forall|x: int| x != 0 && x != sp ==> #[trigger] (r.ram)(x) == (m.ram)(x)
        }),
{
    lemma_snippet_effects(labels);
    lemma_symbols(labels);
    lemma_run_concat(m, asm_d_to_segment_idx(s, 0), asm_push_d(), labels);
    let m1 = run(m, asm_d_to_segment_idx(s, 0), labels);
    assert(m1.ram == m.ram && m1.d == (m.ram)(symbol_value(segment_alias(s), labels)));
    lemma_push_d(m1, labels);
}

proof fn lemma_save_frame(m: Machine, labels: spec_fn(Seq<char>) -> int)
    requires
        (m.ram)(0) >= 16,
    ensures
        ({
            let sp = (m.ram)(0);
            let r = run(m, asm_save_frame(), labels);
            &&& (r.ram)(0) == sp + 4
            &&& (r.ram)(sp) == (m.ram)(1)
            &&& (r.ram)(sp + 1) == (m.ram)(2)
            &&& (r.ram)(sp + 2) == (m.ram)(3)
            &&& (r.ram)(sp + 3) == (m.ram)(4)
            &&& forall|x: int| x != 0 && !(sp <= x < sp + 4) ==> #[trigger] (r.ram)(x) == (m.ram)(x)
        }),
{
    lemma_symbols(labels);
    let p1 = asm_d_to_segment_idx(Segment::Local, 0) + asm_push_d();
    let p2 = asm_d_to_segment_idx(Segment::Argument, 0) + asm_push_d();
    let p3 = asm_d_to_segment_idx(Segment::This, 0) + asm_push_d();
    let p4 = asm_d_to_segment_idx(Segment::That, 0) + asm_push_d();
    assert(asm_save_frame() =~= p1 + p2 + p3 + p4);
    lemma_run_concat(m, p1 + p2 + p3, p4, labels);
    lemma_run_concat(m, p1 + p2, p3, labels);
    lemma_run_concat(m, p1, p2, labels);
    lemma_push_base(m, Segment::Local, labels);
    let m1 = run(m, p1, labels);
    lemma_push_base(m1, Segment::Argument, labels);
    let m2 = run(m1, p2, labels);
    lemma_push_base(m2, Segment::This, labels);
    let m3 = run(m2, p3, labels);
    lemma_push_base(m3, Segment::That, labels);
}

/// What the lowering of `call name k` does: it pushes the return address and
/// the caller's `LCL`, `ARG`, `THIS` and `THAT`, points `ARG` at the first of
/// the `k` arguments and `LCL` just past the saved frame.
pub proof fn lemma_call_effect(m: Machine, name: Seq<char>, k: u8, ret: Seq<char>, labels: spec_fn(Seq<char>) -> int)
    requires
        (m.ram)(0) >= 16 + k,
    ensures
        ({
            let sp = (m.ram)(0);
            let r = run(m, asm_call(name, k, ret), labels);
            &&& (r.ram)(0) == sp + 5
            &&& (r.ram)(1) == sp + 5
            &&& (r.ram)(2) == sp - k
            &&& (r.ram)(3) == (m.ram)(3)
            &&& (r.ram)(4) == (m.ram)(4)
            &&& (r.ram)(sp) == symbol_value(ret, labels)
            &&& (r.ram)(sp + 1) == (m.ram)(1)
            &&& (r.ram)(sp + 2) == (m.ram)(2)
            &&& (r.ram)(sp + 3) == (m.ram)(3)
            &&& (r.ram)(sp + 4) == (m.ram)(4)
            &&& forall|x: int| x > 4 && !(sp <= x < sp + 5) ==> #[trigger] (r.ram)(x) == (m.ram)(x)
        }),
{
    lemma_snippet_effects(labels);
    lemma_line_effects(labels);
    lemma_symbols(labels);
    let sp = (m.ram)(0);
    let a1 = asm_push_address(ret);
    let a2 = asm_save_frame();
    let a3 = asm_reset_args(k);
    let a4 = asm_d_to_alias("SP"@, None);
    let a5 = asm_set_alias("LCL"@);
    let a6 = asm_mem_to_d();
    let a7 = asm_goto(name);
    let a8 = seq![paren(ret)];
    lemma_run_concat(m, a1 + a2 + a3 + a4 + a5 + a6 + a7, a8, labels);
    lemma_run_concat(m, a1 + a2 + a3 + a4 + a5 + a6, a7, labels);
    lemma_run_concat(m, a1 + a2 + a3 + a4 + a5, a6, labels);
    lemma_run_concat(m, a1 + a2 + a3 + a4, a5, labels);
    lemma_run_concat(m, a1 + a2 + a3, a4, labels);
    lemma_run_concat(m, a1 + a2, a3, labels);
    lemma_run_concat(m, a1, a2, labels);
    lemma_push_address(m, ret, labels);
    let m1 = run(m, a1, labels);
    lemma_save_frame(m1, labels);
    let m2 = run(m1, a2, labels);
    assert((m2.ram)(0) == sp + 5);
    let b1 = asm_d_to_alias("SP"@, Some(-(5 + k)));
    let b2 = asm_set_alias("ARG"@);
    let b3 = asm_mem_to_d();
    lemma_run_concat(m2, b1 + b2, b3, labels);
    lemma_run_concat(m2, b1, b2, labels);
    let m3 = run(m2, a3, labels);
    assert((m3.ram)(2) == sp - k);
    let m4 = run(m3, a4, labels);
    assert(m4.d == sp + 5);
    let m6 = run(run(m4, a5, labels), a6, labels);
    assert((m6.ram)(1) == sp + 5);
    let m7 = run(m6, a7, labels);
    lemma_run_single(m7, paren(ret), labels);
}

proof fn lemma_restore(m: Machine, k: u8, s: Segment, labels: spec_fn(Seq<char>) -> int)
    requires
        is_based(s),
        1 <= k <= 4,
        (m.ram)(13) - k >= 16,
    ensures
        ({
            let r = run(m, asm_restore(reg_name(13), k, s), labels);
            let seg = symbol_value(segment_alias(s), labels);
            &&& (r.ram)(seg) == (m.ram)((m.ram)(13) - k)
            &&& forall|x: int| x != seg ==> #[trigger] (r.ram)(x) == (m.ram)(x)
        }),
{
    lemma_snippet_effects(labels);
    lemma_line_effects(labels);
    lemma_symbols(labels);
    let r13 = reg_name(13);
    let head = if k == 1 {
        asm_set_alias(r13) + seq!["A=M-1"@]
    } else {
        asm_d_to_alias(r13, None) + asm_a_to_constant(k as int) + seq!["A=D-A"@]
    };
    assert(asm_restore(r13, k, s) == head + asm_d_to_mem() + asm_set_alias(segment_alias(s)) + asm_mem_to_d());
    lemma_run_concat(m, head + asm_d_to_mem() + asm_set_alias(segment_alias(s)), asm_mem_to_d(), labels);
    lemma_run_concat(m, head + asm_d_to_mem(), asm_set_alias(segment_alias(s)), labels);
    lemma_run_concat(m, head, asm_d_to_mem(), labels);
    if k == 1 {
        lemma_run_concat(m, asm_set_alias(r13), seq!["A=M-1"@], labels);
        lemma_run_single(run(m, asm_set_alias(r13), labels), "A=M-1"@, labels);
    } else {
        lemma_run_concat(m, asm_d_to_alias(r13, None) + asm_a_to_constant(k as int), seq!["A=D-A"@], labels);
        lemma_run_concat(m, asm_d_to_alias(r13, None), asm_a_to_constant(k as int), labels);
        let m1 = run(m, asm_d_to_alias(r13, None) + asm_a_to_constant(k as int), labels);
        lemma_run_single(m1, "A=D-A"@, labels);
    }
    let m2 = run(m, head, labels);
    assert(m2.a == (m.ram)(13) - k && m2.ram == m.ram);
}

/// What the lowering of `return` does, with `R13`-`R15` as scratch: the word
/// on top of the stack goes to `*ARG`, `SP` ends just past it, and `THAT`,
/// `THIS`, `ARG`, `LCL` and the jump target come from the five words below
/// `LCL`.
pub proof fn lemma_return_effect(m: Machine, labels: spec_fn(Seq<char>) -> int)
    requires
        (m.ram)(1) - 5 >= 16,
        (m.ram)(2) >= 16,
        (m.ram)(0) - 1 >= 16,
        (m.ram)(2) < (m.ram)(1) - 4,
    ensures
        ({
            let lcl = (m.ram)(1);
            let arg = (m.ram)(2);
            let r = run(m, return_spec(13), labels);
            &&& (r.ram)(0) == arg + 1
            &&& (r.ram)(arg) == (m.ram)((m.ram)(0) - 1)
            &&& (r.ram)(1) == (m.ram)(lcl - 4)
            &&& (r.ram)(2) == (m.ram)(lcl - 3)
            &&& (r.ram)(3) == (m.ram)(lcl - 2)
            &&& (r.ram)(4) == (m.ram)(lcl - 1)
            &&& r.a == (m.ram)(lcl - 5)
        }),
{
    lemma_snippet_effects(labels);
    lemma_line_effects(labels);
    lemma_symbols(labels);
    let lcl = (m.ram)(1);
    let arg = (m.ram)(2);
    let sp = (m.ram)(0);
    let (r13, r14, r15) = (reg_name(13), reg_name(14), reg_name(15));
    let c1 = asm_d_to_segment_idx(Segment::Local, 0) + asm_set_alias(r13) + asm_mem_to_d()
        + asm_a_to_constant(5) + seq!["A=D-A"@] + asm_d_to_mem() + asm_set_alias(r14) + asm_mem_to_d();
    let pop = asm_d_to_segment_idx(Segment::Argument, 0) + asm_set_alias(r15) + asm_mem_to_d() + asm_pop_d()
        + asm_mem_at_alias_to_d(r15);
    let c3 = asm_d_to_segment_idx(Segment::Argument, 1) + asm_set_alias("SP"@) + asm_mem_to_d();
    let c4 = asm_restore(r13, 1, Segment::That) + asm_restore(r13, 2, Segment::This) + asm_restore(
        r13,
        3,
        Segment::Argument,
    ) + asm_restore(r13, 4, Segment::Local);
    let c5 = asm_a_to_alias(r14) + seq!["0;JMP"@];
    assert(pop_spec(Seq::empty(), Segment::Argument, 0, r15)->Ok_0 == pop);
    assert(return_spec(13) =~= c1 + pop + c3 + c4 + c5);
    lemma_run_concat(m, c1 + pop + c3 + c4, c5, labels);
    lemma_run_concat(m, c1 + pop + c3, c4, labels);
    lemma_run_concat(m, c1 + pop, c3, labels);
    lemma_run_concat(m, c1, pop, labels);
    // saving the frame pointer and the return address
    let d1 = asm_d_to_segment_idx(Segment::Local, 0) + asm_set_alias(r13) + asm_mem_to_d() + asm_a_to_constant(5);
    let d2 = seq!["A=D-A"@];
    let d3 = asm_d_to_mem() + asm_set_alias(r14) + asm_mem_to_d();
    assert(c1 =~= d1 + d2 + d3);
    lemma_run_concat(m, d1 + d2, d3, labels);
    lemma_run_concat(m, d1, d2, labels);
    lemma_run_concat(m, asm_d_to_segment_idx(Segment::Local, 0) + asm_set_alias(r13) + asm_mem_to_d(), asm_a_to_constant(5), labels);
    lemma_run_concat(m, asm_d_to_segment_idx(Segment::Local, 0) + asm_set_alias(r13), asm_mem_to_d(), labels);
    lemma_run_concat(m, asm_d_to_segment_idx(Segment::Local, 0), asm_set_alias(r13), labels);
    let n1 = run(m, d1, labels);
    assert(n1.a == 5 && n1.d == lcl && (n1.ram)(13) == lcl);
    lemma_run_single(n1, "A=D-A"@, labels);
    let n2 = run(n1, d2, labels);
    assert(n2.a == lcl - 5);
    lemma_run_concat(n2, asm_d_to_mem() + asm_set_alias(r14), asm_mem_to_d(), labels);
    lemma_run_concat(n2, asm_d_to_mem(), asm_set_alias(r14), labels);
    let m1 = run(m, c1, labels);
    assert((m1.ram)(13) == lcl && (m1.ram)(14) == (m.ram)(lcl - 5));
    assert(forall|x: int| x != 13 && x != 14 ==> #[trigger] (m1.ram)(x) == (m.ram)(x));
    // moving the top of the stack to *ARG
    let e1 = asm_d_to_segment_idx(Segment::Argument, 0) + asm_set_alias(r15) + asm_mem_to_d();
    lemma_run_concat(m1, e1 + asm_pop_d(), asm_mem_at_alias_to_d(r15), labels);
    lemma_run_concat(m1, e1, asm_pop_d(), labels);
    lemma_run_concat(m1, asm_d_to_segment_idx(Segment::Argument, 0) + asm_set_alias(r15), asm_mem_to_d(), labels);
    lemma_run_concat(m1, asm_d_to_segment_idx(Segment::Argument, 0), asm_set_alias(r15), labels);
    let p1 = run(m1, e1, labels);
    assert((p1.ram)(15) == arg);
    lemma_pop_d(p1, labels);
    let p2 = run(p1, asm_pop_d(), labels);
    assert(p2.d == (m.ram)(sp - 1));
    lemma_run_concat(p2, asm_a_to_alias(r15), asm_mem_to_d(), labels);
    lemma_run_concat(p2, asm_set_alias(r15), asm_a_to_pointer(), labels);
    let m2 = run(m1, pop, labels);
    assert((m2.ram)(arg) == (m.ram)(sp - 1));
    assert((m2.ram)(13) == lcl && (m2.ram)(14) == (m.ram)(lcl - 5));
    // SP = ARG + 1
    lemma_run_concat(m2, asm_d_to_segment_idx(Segment::Argument, 1) + asm_set_alias("SP"@), asm_mem_to_d(), labels);
    lemma_run_concat(m2, asm_d_to_segment_idx(Segment::Argument, 1), asm_set_alias("SP"@), labels);
    let m3 = run(m2, c3, labels);
    assert((m3.ram)(0) == arg + 1);
    // restoring the caller's segments
    let f1 = asm_restore(r13, 1, Segment::That);
    let f2 = asm_restore(r13, 2, Segment::This);
    let f3 = asm_restore(r13, 3, Segment::Argument);
    let f4 = asm_restore(r13, 4, Segment::Local);
    lemma_run_concat(m3, f1 + f2 + f3, f4, labels);
    lemma_run_concat(m3, f1 + f2, f3, labels);
    lemma_run_concat(m3, f1, f2, labels);
    lemma_restore(m3, 1, Segment::That, labels);
    let g1 = run(m3, f1, labels);
    lemma_restore(g1, 2, Segment::This, labels);
    let g2 = run(g1, f2, labels);
    lemma_restore(g2, 3, Segment::Argument, labels);
    let g3 = run(g2, f3, labels);
    lemma_restore(g3, 4, Segment::Local, labels);
    let m4 = run(m3, c4, labels);
    // jumping to the return address
    lemma_run_concat(m4, asm_a_to_alias(r14), seq!["0;JMP"@], labels);
    lemma_run_concat(m4, asm_set_alias(r14), asm_a_to_pointer(), labels);
    lemma_run_single(run(m4, asm_a_to_alias(r14), labels), "0;JMP"@, labels);
}

/// Call and return undo each other: running the lowering of `call name k`,
/// then of `function name 0`, then of `return`, from a stack that lies above
/// the registers and holds the `k` arguments, leaves `SP` one past the
/// callee's `ARG` (where the arguments started, now holding the returned
/// word), restores `LCL`, `ARG`, `THIS` and `THAT`, and jumps to the call's
/// return label.
pub proof fn lemma_call_return_round_trip(
    m: Machine,
    name: Seq<char>,
    k: u8,
    ret: Seq<char>,
    labels: spec_fn(Seq<char>) -> int,
)
    requires
        (m.ram)(0) >= 16 + k,
    ensures
        ({
            let r = run(m, asm_call(name, k, ret) + (seq![paren(name)] + asm_locals(0)) + return_spec(13), labels);
            &&& (r.ram)(0) == (m.ram)(0) - k + 1
            &&& (r.ram)(1) == (m.ram)(1)
            &&& (r.ram)(2) == (m.ram)(2)
            &&& (r.ram)(3) == (m.ram)(3)
            &&& (r.ram)(4) == (m.ram)(4)
            &&& r.a == symbol_value(ret, labels)
        }),
{
    lemma_line_effects(labels);
    let call = asm_call(name, k, ret);
    let func = seq![paren(name)] + asm_locals(0);
    lemma_run_concat(m, call + func, return_spec(13), labels);
    lemma_run_concat(m, call, func, labels);
    lemma_call_effect(m, name, k, ret, labels);
    let m1 = run(m, call, labels);
    assert(func =~= seq![paren(name)]);
    lemma_run_single(m1, paren(name), labels);
    let m2 = run(m1, func, labels);
    assert(m2 == m1);
    lemma_return_effect(m2, labels);
}

proof fn lemma_comment_line(m: Machine, c: Seq<char>, labels: spec_fn(Seq<char>) -> int)
    ensures
        run(m, seq![comment_line(c)], labels) == m,
{
    lemma_run_single(m, comment_line(c), labels);
}

/// The same round trip over what [`crate::writer::CodeWriter::write`] appends
/// for the three commands, each lowering after its `//` comment line: the
/// comments change nothing.
pub proof fn lemma_written_round_trip(
    m: Machine,
    name: Seq<char>,
    k: u8,
    ret: Seq<char>,
    comments: Seq<Seq<char>>,
    labels: spec_fn(Seq<char>) -> int,
)
    requires
        (m.ram)(0) >= 16 + k,
        comments.len() == 3,
    ensures
        ({
            let r = run(
                m,
                seq![comment_line(comments[0])] + asm_call(name, k, ret) + seq![comment_line(comments[1])]
                    + (seq![paren(name)] + asm_locals(0)) + seq![comment_line(comments[2])] + return_spec(13),
                labels,
            );
            &&& (r.ram)(0) == (m.ram)(0) - k + 1
            &&& (r.ram)(1) == (m.ram)(1)
            &&& (r.ram)(2) == (m.ram)(2)
            &&& (r.ram)(3) == (m.ram)(3)
            &&& (r.ram)(4) == (m.ram)(4)
            &&& r.a == symbol_value(ret, labels)
        }),
{
    let c0 = seq![comment_line(comments[0])];
    let c1 = seq![comment_line(comments[1])];
    let c2 = seq![comment_line(comments[2])];
    let call = asm_call(name, k, ret);
    let func = seq![paren(name)] + asm_locals(0);
    let ret_lines = return_spec(13);
    lemma_run_concat(m, c0 + call + c1 + func + c2, ret_lines, labels);
    lemma_run_concat(m, c0 + call + c1 + func, c2, labels);
    lemma_run_concat(m, c0 + call + c1, func, labels);
    lemma_run_concat(m, c0 + call, c1, labels);
    lemma_run_concat(m, c0, call, labels);
    lemma_comment_line(m, comments[0], labels);
    lemma_call_effect(m, name, k, ret, labels);
    let m1 = run(m, call, labels);
    lemma_comment_line(m1, comments[1], labels);
    lemma_line_effects(labels);
    assert(func =~= seq![paren(name)]);
    lemma_run_single(m1, paren(name), labels);
    lemma_comment_line(m1, comments[2], labels);
    lemma_return_effect(m1, labels);
}

} // verus!
