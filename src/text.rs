//! Character-level helpers shared by the assembler and the VM translator.

use vstd::prelude::*;
use vstd::std_specs::iter::IteratorSpec;

verus! {

broadcast use vstd::string::group_string_axioms;

/// The lines of a text, each as its characters.
pub open spec fn lines_view(v: Seq<String>) -> Seq<Seq<char>> {
    v.map_values(|s: String| s@)
}

/// The characters of `s`, one per element.
pub fn chars_of(s: &str) -> (r: Vec<char>)
    ensures
        r@ == s@,
{
    let mut it = s.chars();
    let mut r: Vec<char> = Vec::new();
    loop
        invariant
            it.obeys_prophetic_iter_laws(),
            it.decrease() is Some,
            r@ + it.remaining() == s@,
        ensures
            r@ == s@,
        decreases it.decrease()->0,
    {
        match it.next() {
            Some(c) => {
                r.push(c);
            },
            None => {
                break;
            },
        }
    }
    r
}

} // verus!

verus! {

/// ASCII whitespace, the separator of fields on a source line.
pub open spec fn is_space(c: char) -> bool {
    c == ' ' || c == '\t' || c == '\n' || c == '\r' || c == '\x0B' || c == '\x0C'
}

pub open spec fn is_digit(c: char) -> bool {
    '0' <= c && c <= '9'
}

pub open spec fn digit_value(c: char) -> nat {
    (c as u32 - '0' as u32) as nat
}

pub open spec fn digit_char(d: nat) -> char
    recommends
        d < 10,
{
    if d == 0 { '0' }
    else if d == 1 { '1' }
    else if d == 2 { '2' }
    else if d == 3 { '3' }
    else if d == 4 { '4' }
    else if d == 5 { '5' }
    else if d == 6 { '6' }
    else if d == 7 { '7' }
    else if d == 8 { '8' }
    else { '9' }
}

/// Decimal digits of `n`, most significant first, without leading zeros.
pub open spec fn dec_digits(n: nat) -> Seq<char>
    decreases n,
{
    if n < 10 {
        seq![digit_char(n)]
    } else {
        dec_digits(n / 10).push(digit_char(n % 10))
    }
}

/// Decimal text of a signed value: a minus sign before the digits of a negative one.
pub open spec fn dec_signed(v: int) -> Seq<char> {
    if v < 0 {
        seq!['-'] + dec_digits((-v) as nat)
    } else {
        dec_digits(v as nat)
    }
}

/// Value of a run of decimal digits.
pub open spec fn dec_value(s: Seq<char>) -> nat
    decreases s.len(),
{
    if s.len() == 0 {
        0
    } else {
        dec_value(s.drop_last()) * 10 + digit_value(s.last())
    }
}

pub open spec fn all_digits(s: Seq<char>) -> bool {
    forall|i: int| 0 <= i < s.len() ==> is_digit(#[trigger] s[i])
}

/// First index in `[i, hi)` that holds `c`, or `hi`.
pub open spec fn find_from(s: Seq<char>, c: char, i: int, hi: int) -> int
    decreases hi - i,
{
    if i >= hi {
        hi
    } else if s[i] == c {
        i
    } else {
        find_from(s, c, i + 1, hi)
    }
}

/// First index in `[i, hi)` that is not whitespace, or `hi`.
pub open spec fn skip_space_from(s: Seq<char>, i: int, hi: int) -> int
    decreases hi - i,
{
    if i >= hi {
        hi
    } else if !is_space(s[i]) {
        i
    } else {
        skip_space_from(s, i + 1, hi)
    }
}

/// End of `[lo, hi)` once trailing whitespace is dropped.
pub open spec fn trim_back(s: Seq<char>, lo: int, hi: int) -> int
    decreases hi - lo,
{
    if hi <= lo {
        lo
    } else if is_space(s[hi - 1]) {
        trim_back(s, lo, hi - 1)
    } else {
        hi
    }
}

pub fn is_space_char(c: char) -> (r: bool)
    ensures
        r == is_space(c),
{
    c == ' ' || c == '\t' || c == '\n' || c == '\r' || c == '\x0B' || c == '\x0C'
}

pub fn is_digit_char(c: char) -> (r: bool)
    ensures
        r == is_digit(c),
{
    '0' <= c && c <= '9'
}

/// Index of the first `c` in `s[i..hi)`, or `hi`.
pub fn find_char(s: &Vec<char>, c: char, i: usize, hi: usize) -> (r: usize)
    requires
        i <= hi <= s@.len(),
    ensures
        r as int == find_from(s@, c, i as int, hi as int),
        i <= r <= hi,
{
    let mut j = i;
    while j < hi && s[j] != c
        invariant
            i <= j <= hi <= s@.len(),
            find_from(s@, c, i as int, hi as int) == find_from(s@, c, j as int, hi as int),
        decreases hi - j,
    {
        j = j + 1;
    }
    j
}

/// Index of the first non-whitespace character in `s[i..hi)`, or `hi`.
pub fn skip_space(s: &Vec<char>, i: usize, hi: usize) -> (r: usize)
    requires
        i <= hi <= s@.len(),
    ensures
        r as int == skip_space_from(s@, i as int, hi as int),
        i <= r <= hi,
{
    let mut j = i;
    while j < hi && is_space_char(s[j])
        invariant
            i <= j <= hi <= s@.len(),
            skip_space_from(s@, i as int, hi as int) == skip_space_from(s@, j as int, hi as int),
        decreases hi - j,
    {
        j = j + 1;
    }
    j
}

/// End of `s[lo..hi)` without its trailing whitespace.
pub fn trim_end(s: &Vec<char>, lo: usize, hi: usize) -> (r: usize)
    requires
        lo <= hi <= s@.len(),
    ensures
        r as int == trim_back(s@, lo as int, hi as int),
        lo <= r <= hi,
{
    let mut j = hi;
    while j > lo && is_space_char(s[j - 1])
        invariant
            lo <= j <= hi <= s@.len(),
            trim_back(s@, lo as int, hi as int) == trim_back(s@, lo as int, j as int),
        decreases j,
    {
        j = j - 1;
    }
    j
}

/// The one-character text of a decimal digit.
fn digit_text(d: u64) -> (r: &'static str)
    requires
        d < 10,
    ensures
        r@ == seq![digit_char(d as nat)],
{
    if d == 0 {
        proof { reveal_strlit("0"); }
        "0"
    } else if d == 1 {
        proof { reveal_strlit("1"); }
        "1"
    } else if d == 2 {
        proof { reveal_strlit("2"); }
        "2"
    } else if d == 3 {
        proof { reveal_strlit("3"); }
        "3"
    } else if d == 4 {
        proof { reveal_strlit("4"); }
        "4"
    } else if d == 5 {
        proof { reveal_strlit("5"); }
        "5"
    } else if d == 6 {
        proof { reveal_strlit("6"); }
        "6"
    } else if d == 7 {
        proof { reveal_strlit("7"); }
        "7"
    } else if d == 8 {
        proof { reveal_strlit("8"); }
        "8"
    } else {
        proof { reveal_strlit("9"); }
        "9"
    }
}

/// Appends the decimal digits of `n` to `out`.
pub fn push_decimal(out: &mut String, n: u64)
    ensures
        final(out)@ == old(out)@ + dec_digits(n as nat),
    decreases n,
{
    if n >= 10 {
        push_decimal(out, n / 10);
    }
    out.append(digit_text(n % 10));
    proof {
        if n >= 10 {
            assert(old(out)@ + dec_digits(n as nat) =~= old(out)@ + dec_digits((n / 10) as nat)
                + seq![digit_char((n % 10) as nat)]);
        }
    }
}

/// Appends the decimal text of a signed value to `out`.
pub fn push_signed(out: &mut String, v: i64)
    ensures
        final(out)@ == old(out)@ + dec_signed(v as int),
{
    if v < 0 {
        proof { reveal_strlit("-"); }
        out.append("-");
        let m: u64 = if v == i64::MIN { 9223372036854775808u64 } else { (-v) as u64 };
        push_decimal(out, m);
        assert(final(out)@ =~= old(out)@ + dec_signed(v as int));
    } else {
        push_decimal(out, v as u64);
    }
}

/// `a` and `b` have the same characters.
pub fn same_text(a: &str, b: &str) -> (r: bool)
    ensures
        r == (a@ == b@),
{
    let x = chars_of(a);
    let y = chars_of(b);
    if x.len() != y.len() {
        return false;
    }
    let mut i: usize = 0;
    while i < x.len()
        invariant
            x@ == a@,
            y@ == b@,
            x@.len() == y@.len(),
            i <= x@.len(),
            forall|k: int| 0 <= k < i ==> x@[k] == y@[k],
        decreases x@.len() - i,
    {
        if x[i] != y[i] {
            return false;
        }
        i = i + 1;
    }
    assert(x@ =~= y@);
    true
}

/// Whether `s` is the text `lit`.
pub fn is_text(s: &Vec<char>, lit: &str) -> (r: bool)
    ensures
        r == (s@ == lit@),
{
    let t = chars_of(lit);
    if s.len() != t.len() {
        return false;
    }
    let mut i: usize = 0;
    while i < s.len()
        invariant
            t@ == lit@,
            s@.len() == t@.len(),
            i <= s@.len(),
            forall|k: int| 0 <= k < i ==> s@[k] == t@[k],
        decreases s@.len() - i,
    {
        if s[i] != t[i] {
            return false;
        }
        i = i + 1;
    }
    assert(s@ =~= t@);
    true
}

/// A run of decimal digits whose value is at most `max`.
pub open spec fn is_number_upto(t: Seq<char>, max: nat) -> bool {
    t.len() > 0 && all_digits(t) && dec_value(t) <= max
}

pub proof fn lemma_dec_value_step(t: Seq<char>, i: int)
    requires
        0 <= i < t.len(),
    ensures
        dec_value(t.subrange(0, i + 1)) == dec_value(t.subrange(0, i)) * 10 + digit_value(t[i]),
{
    assert(t.subrange(0, i + 1).drop_last() =~= t.subrange(0, i));
}

/// The value of a run of digits is at least the value of any prefix of it.
pub proof fn lemma_dec_value_prefix_grows(t: Seq<char>, k: int)
    requires
        0 <= k <= t.len(),
    ensures
        dec_value(t) >= dec_value(t.subrange(0, k)),
    decreases t.len() - k,
{
    if k < t.len() {
        lemma_dec_value_prefix_grows(t, k + 1);
        lemma_dec_value_step(t, k);
    } else {
        assert(t.subrange(0, k) =~= t);
    }
}

/// The value of `s[lo..hi)` when it is a run of digits worth at most `max`.
pub fn parse_digits(s: &Vec<char>, lo: usize, hi: usize, max: u32) -> (r: Option<u32>)
    requires
        lo <= hi <= s@.len(),
        max <= 65535,
    ensures
        match r {
            Some(v) => is_number_upto(s@.subrange(lo as int, hi as int), max as nat) && v as nat
                == dec_value(s@.subrange(lo as int, hi as int)),
            None => !is_number_upto(s@.subrange(lo as int, hi as int), max as nat),
        },
{
    let ghost t = s@.subrange(lo as int, hi as int);
    if lo == hi {
        return None;
    }
    let mut acc: u32 = 0;
    let mut i = lo;
    while i < hi
        invariant
            lo <= i <= hi <= s@.len(),
            max <= 65535,
            t == s@.subrange(lo as int, hi as int),
            forall|k: int| 0 <= k < i - lo ==> is_digit(#[trigger] t[k]),
            acc as nat == dec_value(t.subrange(0, i - lo)),
            acc <= max,
        decreases hi - i,
    {
        let c = s[i];
        if !is_digit_char(c) {
            assert(!is_digit(t[i - lo]));
            assert(!all_digits(t));
            return None;
        }
        proof {
            lemma_dec_value_step(t, i - lo);
        }
        let next = acc * 10 + (c as u32 - '0' as u32);
        if next > max {
            proof {
                lemma_dec_value_prefix_grows(t, i - lo + 1);
            }
            return None;
        }
        acc = next;
        i = i + 1;
    }
    assert(t.subrange(0, hi - lo) =~= t);
    Some(acc)
}

} // verus!
