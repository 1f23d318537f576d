//! Leases of the general-purpose scratch registers `R13`-`R15`.

use vstd::prelude::*;
use crate::text::{dec_digits, push_decimal};

verus! {

#[derive(Debug, Clone, PartialEq, Eq)]
pub enum RegMgrError {
    /// The range was empty: its start lies past its end (`start:end`).
    InvalidRange(String),
    NoFreeTmpSpace,
}

/// Name of the register at a RAM address: `R` and the decimal address.
pub open spec fn reg_name(n: nat) -> Seq<char> {
    seq!['R'] + dec_digits(n)
}

/// First index at or after `i` that is not leased, or the length.
pub open spec fn first_free_from(leased: Seq<bool>, i: int) -> int
    decreases leased.len() - i,
{
    if i >= leased.len() {
        leased.len() as int
    } else if !leased[i] {
        i
    } else {
        first_free_from(leased, i + 1)
    }
}

pub proof fn lemma_first_free(leased: Seq<bool>, i: int)
    requires
        0 <= i <= leased.len(),
    ensures
        i <= first_free_from(leased, i) <= leased.len(),
        first_free_from(leased, i) < leased.len() ==> !leased[first_free_from(leased, i)],
    decreases leased.len() - i,
{
    if i < leased.len() && leased[i] {
        lemma_first_free(leased, i + 1);
    }
}

/// A leased register; it stays reserved until handed back with [`RegMgr::release`].
#[derive(Debug, Clone, PartialEq, Eq)]
pub struct Reg {
    index: usize,
    name: String,
}

impl Reg {
    pub closed spec fn spec_index(&self) -> nat {
        self.index as nat
    }

    pub closed spec fn spec_name(&self) -> Seq<char> {
        self.name@
    }

    /// The register's name, as it stands in assembly.
    pub fn to_string(&self) -> (r: String)
        ensures
            r@ == self.spec_name(),
    {
        self.name.clone()
    }

    pub fn as_str(&self) -> (r: &str)
        ensures
            r@ == self.spec_name(),
    {
        self.name.as_str()
    }
}

/// A contiguous range of scratch registers, each free or leased.
pub struct RegMgr {
    start: u8,
    leased: Vec<bool>,
}

impl RegMgr {
    /// Address of the first register of the range.
    pub closed spec fn spec_start(&self) -> nat {
        self.start as nat
    }

    /// Which registers of the range are leased, in address order.
    pub closed spec fn spec_leased(&self) -> Seq<bool> {
        self.leased@
    }

    pub open spec fn wf(&self) -> bool {
        self.spec_start() + self.spec_leased().len() <= 256
    }

    /// No register is leased.
    pub open spec fn all_free(&self) -> bool {
        forall|i: int| 0 <= i < self.spec_leased().len() ==> !(#[trigger] self.spec_leased()[i])
    }

    /// Registers `Rstart` to `Rend`, all free.
    pub fn new(start: u8, end: u8) -> (r: Result<Self, RegMgrError>)
        ensures
            start > end ==> (r matches Err(RegMgrError::InvalidRange(s)) && s@ == dec_digits(
                start as nat,
            ) + seq![':'] + dec_digits(end as nat)),
            start <= end ==> r is Ok && r->Ok_0.wf() && r->Ok_0.spec_start() == start
                && r->Ok_0.spec_leased().len() == end - start + 1 && r->Ok_0.all_free(),
    {
        if start > end {
            let mut s = String::new();
            push_decimal(&mut s, start as u64);
            proof { reveal_strlit(":"); }
            s.append(":");
            push_decimal(&mut s, end as u64);
            proof {
                assert(s@ =~= dec_digits(start as nat) + seq![':'] + dec_digits(end as nat));
            }
            Err(RegMgrError::InvalidRange(s))
        } else {
            let mut leased: Vec<bool> = Vec::new();
            let n: usize = (end - start) as usize + 1;
            while leased.len() < n
                invariant
                    leased@.len() <= n,
                    n == end - start + 1,
                    forall|i: int| 0 <= i < leased@.len() ==> !(#[trigger] leased@[i]),
                decreases n - leased@.len(),
            {
                leased.push(false);
            }
            Ok(Self { start, leased })
        }
    }

    /// Leases the first free register of the range.
    pub fn next(&mut self) -> (r: Result<Reg, RegMgrError>)
        requires
            old(self).wf(),
        ensures
            final(self).wf(),
            final(self).spec_start() == old(self).spec_start(),
            ({
                let i = first_free_from(old(self).spec_leased(), 0);
                if i < old(self).spec_leased().len() {
                    &&& r is Ok
                    &&& r->Ok_0.spec_index() == i
                    &&& r->Ok_0.spec_name() == reg_name(old(self).spec_start() + i as nat)
                    &&& final(self).spec_leased() == old(self).spec_leased().update(i, true)
                } else {
                    &&& r == Err::<Reg, RegMgrError>(RegMgrError::NoFreeTmpSpace)
                    &&& final(self).spec_leased() == old(self).spec_leased()
                }
            }),
    {
        let mut i: usize = 0;
        while i < self.leased.len() && self.leased[i]
            invariant
                i <= self.leased@.len(),
                first_free_from(self.leased@, 0) == first_free_from(self.leased@, i as int),
            decreases self.leased@.len() - i,
        {
            i = i + 1;
        }
        if i >= self.leased.len() {
            return Err(RegMgrError::NoFreeTmpSpace);
        }
        self.leased.set(i, true);
        let mut name = String::new();
        proof { reveal_strlit("R"); }
        name.append("R");
        push_decimal(&mut name, self.start as u64 + i as u64);
        Ok(Reg { index: i, name })
    }

    /// Hands a leased register back.
    pub fn release(&mut self, reg: Reg)
        requires
            old(self).wf(),
        ensures
            final(self).wf(),
            final(self).spec_start() == old(self).spec_start(),
            final(self).spec_leased() == if reg.spec_index() < old(self).spec_leased().len() {
                old(self).spec_leased().update(reg.spec_index() as int, false)
            } else {
                old(self).spec_leased()
            },
    {
        if reg.index < self.leased.len() {
            self.leased.set(reg.index, false);
        }
    }
}

} // verus!
