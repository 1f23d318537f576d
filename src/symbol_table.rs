//! Symbols of an assembly job (predefined aliases, variables, labels) and the
//! bit tables of the C-instruction fields.

use vstd::prelude::*;
use crate::text::{chars_of, is_text, same_text};

verus! {

/// First RAM address handed to a variable.
pub const START_ALIAS_ADDRESS: u16 = 0x0010;

/// Largest address an A-instruction can load.
pub const MAX_ADDRESS: u16 = 0x7fff;

pub const SCREEN_MEM: u16 = 0x4000;

pub const KBD_MEM: u16 = 0x6000;

/// The fixed top bits of every C-instruction.
pub const START_CMP_INSTR: u16 = 0b1110000000000000;

#[derive(Debug, Clone, PartialEq, Eq)]
pub enum SymbolTableError {
    /// The alias or label is already declared.
    AlreadySetErr,
    /// No 15-bit RAM address is left for a new variable.
    OutOfAddresses,
}

/// Map of names to addresses: the latest entry for a name wins.
pub open spec fn entries_map<V>(v: Seq<(String, V)>) -> Map<Seq<char>, V>
    decreases v.len(),
{
    if v.len() == 0 {
        Map::empty()
    } else {
        entries_map(v.drop_last()).insert(v.last().0@, v.last().1)
    }
}

/// The aliases every job starts with.
pub open spec fn predefined_aliases() -> Map<Seq<char>, u16> {
    map![
        "SP"@ => 0u16, "LCL"@ => 1u16, "ARG"@ => 2u16, "THIS"@ => 3u16, "THAT"@ => 4u16,
        "R0"@ => 0u16, "R1"@ => 1u16, "R2"@ => 2u16, "R3"@ => 3u16, "R4"@ => 4u16,
        "R5"@ => 5u16, "R6"@ => 6u16, "R7"@ => 7u16, "R8"@ => 8u16, "R9"@ => 9u16,
        "R10"@ => 10u16, "R11"@ => 11u16, "R12"@ => 12u16, "R13"@ => 13u16, "R14"@ => 14u16,
        "R15"@ => 15u16, "SCREEN"@ => 0x4000u16, "KBD"@ => 0x6000u16
    ]
}

/// Bits of a jump mnemonic.
pub open spec fn jump_bits(s: Seq<char>) -> Option<u16> {
    if s == "JGT"@ { Some(0b001u16) }
    else if s == "JEQ"@ { Some(0b010u16) }
    else if s == "JGE"@ { Some(0b011u16) }
    else if s == "JLT"@ { Some(0b100u16) }
    else if s == "JNE"@ { Some(0b101u16) }
    else if s == "JLE"@ { Some(0b110u16) }
    else if s == "JMP"@ { Some(0b111u16) }
    else { None }
}

/// The seven bits `a c1 c2 c3 c4 c5 c6` of a computation mnemonic.
pub open spec fn comp_bits(s: Seq<char>) -> Option<u16> {
    if s == "0"@ { Some(0b0101010u16) }
    else if s == "1"@ { Some(0b0111111u16) }
    else if s == "-1"@ { Some(0b0111010u16) }
    else if s == "D"@ { Some(0b0001100u16) }
    else if s == "A"@ { Some(0b0110000u16) }
    else if s == "!D"@ { Some(0b0001101u16) }
    else if s == "!A"@ { Some(0b0110001u16) }
    else if s == "-D"@ { Some(0b0001111u16) }
    else if s == "-A"@ { Some(0b0110011u16) }
    else if s == "D+1"@ { Some(0b0011111u16) }
    else if s == "A+1"@ { Some(0b0110111u16) }
    else if s == "D-1"@ { Some(0b0001110u16) }
    else if s == "A-1"@ { Some(0b0110010u16) }
    else if s == "D+A"@ { Some(0b0000010u16) }
    else if s == "D-A"@ { Some(0b0010011u16) }
    else if s == "A-D"@ { Some(0b0000111u16) }
    else if s == "D&A"@ { Some(0b0000000u16) }
    else if s == "D|A"@ { Some(0b0010101u16) }
    else if s == "M"@ { Some(0b1110000u16) }
    else if s == "!M"@ { Some(0b1110001u16) }
    else if s == "-M"@ { Some(0b1110011u16) }
    else if s == "M+1"@ { Some(0b1110111u16) }
    else if s == "M-1"@ { Some(0b1110010u16) }
    else if s == "D+M"@ { Some(0b1000010u16) }
    else if s == "D-M"@ { Some(0b1010011u16) }
    else if s == "M-D"@ { Some(0b1000111u16) }
    else if s == "D&M"@ { Some(0b1000000u16) }
    else if s == "D|M"@ { Some(0b1010101u16) }
    else { None }
}

pub open spec fn is_dest_char(c: char) -> bool {
    c == 'A' || c == 'D' || c == 'M'
}

pub open spec fn flag(b: bool, v: u16) -> u16 {
    if b { v } else { 0 }
}

/// Bits of a destination: the union of `A` (`100`), `D` (`010`) and `M` (`001`)
/// over the characters present, in any order; `None` when a character is not
/// one of them or there is none.
pub open spec fn dest_bits(s: Seq<char>) -> Option<u16> {
    if s.len() == 0 || !(forall|c: char| s.contains(c) ==> is_dest_char(c)) {
        None
    } else {
        Some((flag(s.contains('A'), 4) + flag(s.contains('D'), 2) + flag(s.contains('M'), 1)) as u16)
    }
}

/// The word of a C-instruction from its field bits.
pub open spec fn c_word(comp: u16, dest: u16, jump: u16) -> u16 {
    (0xe000 + comp * 64 + dest * 8 + jump) as u16
}

proof fn lemma_entries_last<V>(v: Seq<(String, V)>, i: int, k: Seq<char>)
    requires
        0 <= i < v.len(),
        v[i].0@ == k,
        forall|j: int| i < j < v.len() ==> (#[trigger] v[j]).0@ != k,
    ensures
        entries_map(v).contains_key(k),
        entries_map(v)[k] == v[i].1,
    decreases v.len(),
{
    if i < v.len() - 1 {
        lemma_entries_last(v.drop_last(), i, k);
    }
}

proof fn lemma_entries_absent<V>(v: Seq<(String, V)>, k: Seq<char>)
    requires
        forall|j: int| 0 <= j < v.len() ==> (#[trigger] v[j]).0@ != k,
    ensures
        !entries_map(v).contains_key(k),
    decreases v.len(),
{
    if v.len() > 0 {
        lemma_entries_absent(v.drop_last(), k);
    }
}

/// Looks `name` up in `v`, the latest entry first.
pub fn lookup<V: Copy>(v: &Vec<(String, V)>, name: &str) -> (r: Option<V>)
    ensures
        r == (if entries_map(v@).contains_key(name@) {
            Some(entries_map(v@)[name@])
        } else {
            None
        }),
{
    let mut i = v.len();
    while i > 0
        invariant
            i <= v@.len(),
            forall|j: int| i <= j < v@.len() ==> (#[trigger] v@[j]).0@ != name@,
        decreases i,
    {
        if same_text(v[i - 1].0.as_str(), name) {
            proof {
                lemma_entries_last(v@, i - 1, name@);
            }
            return Some(v[i - 1].1);
        }
        i = i - 1;
    }
    proof {
        lemma_entries_absent(v@, name@);
    }
    None
}

pub struct SymbolTable {
    aliases: Vec<(String, u16)>,
    next_mem_allocation: u16,
    labels: Vec<(String, u16)>,
}

impl SymbolTable {
    /// Aliases: predefined ones and variables, by name.
    pub closed spec fn alias_map(&self) -> Map<Seq<char>, u16> {
        entries_map(self.aliases@)
    }

    /// Labels, by name, with the ROM line each points at.
    pub closed spec fn label_map(&self) -> Map<Seq<char>, u16> {
        entries_map(self.labels@)
    }

    /// Address the next variable will get.
    pub closed spec fn next_address(&self) -> nat {
        self.next_mem_allocation as nat
    }

    pub open spec fn wf(&self) -> bool {
        START_ALIAS_ADDRESS <= self.next_address() <= MAX_ADDRESS as nat + 1
    }

    pub fn new() -> (r: SymbolTable)
        ensures
            r.wf(),
            r.alias_map() == predefined_aliases(),
            r.label_map() == Map::<Seq<char>, u16>::empty(),
            r.next_address() == START_ALIAS_ADDRESS as nat,
    {
        let mut aliases: Vec<(String, u16)> = Vec::new();
        aliases.push(("SP".to_owned(), 0));
        aliases.push(("LCL".to_owned(), 1));
        aliases.push(("ARG".to_owned(), 2));
        aliases.push(("THIS".to_owned(), 3));
        aliases.push(("THAT".to_owned(), 4));
        aliases.push(("R0".to_owned(), 0));
        aliases.push(("R1".to_owned(), 1));
        aliases.push(("R2".to_owned(), 2));
        aliases.push(("R3".to_owned(), 3));
        aliases.push(("R4".to_owned(), 4));
        aliases.push(("R5".to_owned(), 5));
        aliases.push(("R6".to_owned(), 6));
        aliases.push(("R7".to_owned(), 7));
        aliases.push(("R8".to_owned(), 8));
        aliases.push(("R9".to_owned(), 9));
        aliases.push(("R10".to_owned(), 10));
        aliases.push(("R11".to_owned(), 11));
        aliases.push(("R12".to_owned(), 12));
        aliases.push(("R13".to_owned(), 13));
        aliases.push(("R14".to_owned(), 14));
        aliases.push(("R15".to_owned(), 15));
        aliases.push(("SCREEN".to_owned(), SCREEN_MEM));
        aliases.push(("KBD".to_owned(), KBD_MEM));
        let r = SymbolTable { aliases, next_mem_allocation: START_ALIAS_ADDRESS, labels: Vec::new() };
        proof {
            let v = r.aliases@;
            assert(entries_map(v) =~= predefined_aliases()) by {
                reveal_with_fuel(entries_map, 24);
            }
            assert(entries_map(r.labels@) =~= Map::<Seq<char>, u16>::empty());
        }
        r
    }

    /// Declares a variable at the next free address.
    pub fn add_alias(&mut self, alias: String) -> (r: Result<u16, SymbolTableError>)
        requires
            old(self).wf(),
        ensures
            final(self).wf(),
            final(self).label_map() == old(self).label_map(),
            old(self).alias_map().contains_key(alias@) ==> r == Err::<u16, SymbolTableError>(
                SymbolTableError::AlreadySetErr,
            ) && *final(self) == *old(self),
            !old(self).alias_map().contains_key(alias@) && old(self).next_address() > MAX_ADDRESS
                ==> r == Err::<u16, SymbolTableError>(SymbolTableError::OutOfAddresses)
                && *final(self) == *old(self),
            !old(self).alias_map().contains_key(alias@) && old(self).next_address() <= MAX_ADDRESS
                ==> r == Ok::<u16, SymbolTableError>(old(self).next_address() as u16)
                && final(self).alias_map() == old(self).alias_map().insert(
                alias@,
                old(self).next_address() as u16,
            ) && final(self).next_address() == old(self).next_address() + 1,
    {
        if lookup(&self.aliases, alias.as_str()).is_some() {
            return Err(SymbolTableError::AlreadySetErr);
        }
        if self.next_mem_allocation > MAX_ADDRESS {
            return Err(SymbolTableError::OutOfAddresses);
        }
        let location = self.next_mem_allocation;
        self.next_mem_allocation = location + 1;
        let ghost before = self.aliases@;
        self.aliases.push((alias, location));
        proof {
            assert(self.aliases@.drop_last() =~= before);
        }
        Ok(location)
    }

    /// Address of an alias, if declared.
    pub fn get_addr(&self, alias: &str) -> (r: Option<u16>)
        ensures
            r == (if self.alias_map().contains_key(alias@) {
                Some(self.alias_map()[alias@])
            } else {
                None
            }),
    {
        lookup(&self.aliases, alias)
    }

    /// Declares a label at a ROM line.
    pub fn add_label(&mut self, label: String, line_no: u16) -> (r: Result<u16, SymbolTableError>)
        requires
            old(self).wf(),
        ensures
            final(self).wf(),
            final(self).alias_map() == old(self).alias_map(),
            final(self).next_address() == old(self).next_address(),
            old(self).label_map().contains_key(label@) ==> r == Err::<u16, SymbolTableError>(
                SymbolTableError::AlreadySetErr,
            ) && *final(self) == *old(self),
            !old(self).label_map().contains_key(label@) ==> r == Ok::<u16, SymbolTableError>(
                line_no,
            ) && final(self).label_map() == old(self).label_map().insert(label@, line_no),
    {
        if lookup(&self.labels, label.as_str()).is_some() {
            return Err(SymbolTableError::AlreadySetErr);
        }
        let ghost before = self.labels@;
        self.labels.push((label, line_no));
        proof {
            assert(self.labels@.drop_last() =~= before);
        }
        Ok(line_no)
    }

    /// ROM line of a label, if declared.
    pub fn get_line_no(&self, label: &str) -> (r: Option<u16>)
        ensures
            r == (if self.label_map().contains_key(label@) {
                Some(self.label_map()[label@])
            } else {
                None
            }),
    {
        lookup(&self.labels, label)
    }

    /// Bits of a jump mnemonic, `None` if unknown.
    pub fn get_jmp_instr(&self, jmp_instr: &str) -> (r: Option<u16>)
        ensures
            r == jump_bits(jmp_instr@),
    {
        let s = chars_of(jmp_instr);
        if is_text(&s, "JGT") { Some(0b001) }
        else if is_text(&s, "JEQ") { Some(0b010) }
        else if is_text(&s, "JGE") { Some(0b011) }
        else if is_text(&s, "JLT") { Some(0b100) }
        else if is_text(&s, "JNE") { Some(0b101) }
        else if is_text(&s, "JLE") { Some(0b110) }
        else if is_text(&s, "JMP") { Some(0b111) }
        else { None }
    }

    /// Bits of a destination, `None` if a character is not `A`, `D` or `M`, or there is none.
    pub fn get_dest_instr(&self, dest_instr: &str) -> (r: Option<u16>)
        ensures
            r == dest_bits(dest_instr@),
    {
        let s = chars_of(dest_instr);
        if s.len() == 0 {
            return None;
        }
        let mut has_a = false;
        let mut has_d = false;
        let mut has_m = false;
        let mut i: usize = 0;
        while i < s.len()
            invariant
                s@ == dest_instr@,
                i <= s@.len(),
                forall|k: int| 0 <= k < i ==> is_dest_char(#[trigger] s@[k]),
                has_a == s@.subrange(0, i as int).contains('A'),
                has_d == s@.subrange(0, i as int).contains('D'),
                has_m == s@.subrange(0, i as int).contains('M'),
            decreases s@.len() - i,
        {
            let c = s[i];
            proof {
                let p = s@.subrange(0, i as int);
                let q = s@.subrange(0, i as int + 1);
                assert(q =~= p.push(c));
                assert forall|x: char| q.contains(x) <==> (p.contains(x) || x == c) by {
                    if q.contains(x) {
                        let k = choose|k: int| 0 <= k < q.len() && q[k] == x;
                        if k < p.len() {
                            assert(p[k] == x);
                        }
                    }
                    if p.contains(x) {
                        let k = choose|k: int| 0 <= k < p.len() && p[k] == x;
                        assert(q[k] == x);
                    }
                    if x == c {
                        assert(q[i as int] == x);
                    }
                }
            }
            if c == 'A' {
                has_a = true;
            } else if c == 'D' {
                has_d = true;
            } else if c == 'M' {
                has_m = true;
            } else {
                proof {
                    assert(s@[i as int] == c);
                    assert(s@.contains(c));
                    assert(!is_dest_char(c));
                    assert(!(forall|x: char| s@.contains(x) ==> is_dest_char(x)));
                }
                return None;
            }
            i = i + 1;
        }
        proof {
            assert(s@.subrange(0, s@.len() as int) =~= s@);
            assert forall|c: char| s@.contains(c) implies is_dest_char(c) by {
                let k = choose|k: int| 0 <= k < s@.len() && s@[k] == c;
                assert(is_dest_char(s@[k]));
            }
        }
        let a: u16 = if has_a { 4 } else { 0 };
        let d: u16 = if has_d { 2 } else { 0 };
        let m: u16 = if has_m { 1 } else { 0 };
        Some(a + d + m)
    }

    /// Bits of a computation mnemonic, `None` if unknown.
    pub fn get_comp_instr(&self, comp_instr: &str) -> (r: Option<u16>)
        ensures
            r == comp_bits(comp_instr@),
    {
        let s = chars_of(comp_instr);
        if is_text(&s, "0") { Some(0b0101010) }
        else if is_text(&s, "1") { Some(0b0111111) }
        else if is_text(&s, "-1") { Some(0b0111010) }
        else if is_text(&s, "D") { Some(0b0001100) }
        else if is_text(&s, "A") { Some(0b0110000) }
        else if is_text(&s, "!D") { Some(0b0001101) }
        else if is_text(&s, "!A") { Some(0b0110001) }
        else if is_text(&s, "-D") { Some(0b0001111) }
        else if is_text(&s, "-A") { Some(0b0110011) }
        else if is_text(&s, "D+1") { Some(0b0011111) }
        else if is_text(&s, "A+1") { Some(0b0110111) }
        else if is_text(&s, "D-1") { Some(0b0001110) }
        else if is_text(&s, "A-1") { Some(0b0110010) }
        else if is_text(&s, "D+A") { Some(0b0000010) }
        else if is_text(&s, "D-A") { Some(0b0010011) }
        else if is_text(&s, "A-D") { Some(0b0000111) }
        else if is_text(&s, "D&A") { Some(0b0000000) }
        else if is_text(&s, "D|A") { Some(0b0010101) }
        else if is_text(&s, "M") { Some(0b1110000) }
        else if is_text(&s, "!M") { Some(0b1110001) }
        else if is_text(&s, "-M") { Some(0b1110011) }
        else if is_text(&s, "M+1") { Some(0b1110111) }
        else if is_text(&s, "M-1") { Some(0b1110010) }
        else if is_text(&s, "D+M") { Some(0b1000010) }
        else if is_text(&s, "D-M") { Some(0b1010011) }
        else if is_text(&s, "M-D") { Some(0b1000111) }
        else if is_text(&s, "D&M") { Some(0b1000000) }
        else if is_text(&s, "D|M") { Some(0b1010101) }
        else { None }
    }
}

} // verus!

verus! {

/// The bits of a destination do not depend on the order of its characters:
/// two destinations with the same characters, counted with repetition, encode alike.
pub proof fn lemma_dest_order_irrelevant(s: Seq<char>, t: Seq<char>)
    requires
        s.to_multiset() == t.to_multiset(),
    ensures
        dest_bits(s) == dest_bits(t),
{
    assert forall|c: char| s.contains(c) <==> t.contains(c) by {
        s.to_multiset_ensures();
        t.to_multiset_ensures();
        assert(s.contains(c) <==> s.to_multiset().count(c) > 0);
        assert(t.contains(c) <==> t.to_multiset().count(c) > 0);
    }
    s.to_multiset_ensures();
    t.to_multiset_ensures();
}

} // verus!
