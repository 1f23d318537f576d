//! Unique, scope-prefixed labels for generated assembly.

use vstd::prelude::*;
use crate::symbol_table::{entries_map, lookup};
use crate::text::{dec_digits, push_decimal};

verus! {

/// What `str::to_uppercase` returns for a text.
pub uninterp spec fn uppercase_of(s: Seq<char>) -> Seq<char>;

/// Relies on `str::to_uppercase`: its result depends on the characters alone.
#[verifier::external_body]
pub(crate) fn upper(s: &str) -> (r: String)
    ensures
        r@ == uppercase_of(s@),
{
    s.to_uppercase()
}

/// A generator's state: its prefix, its counter, and how often each name was
/// made unique.
pub struct GenView {
    pub prefix: Seq<char>,
    pub id: nat,
    pub counts: Map<Seq<char>, u64>,
}

/// A generator that has handed out nothing, with the given prefix.
pub open spec fn scope_gen(prefix: Seq<char>) -> GenView {
    GenView { prefix, id: 0, counts: Map::empty() }
}

/// A file's generator: its prefix is the file name in upper case.
pub open spec fn fresh_gen(filename: Seq<char>) -> GenView {
    scope_gen(uppercase_of(filename))
}

pub open spec fn gen_create(g: GenView, name: Seq<char>) -> Seq<char> {
    g.prefix + seq!['.'] + name
}

pub open spec fn gen_count(g: GenView, name: Seq<char>) -> nat {
    let l = gen_create(g, name);
    if g.counts.contains_key(l) {
        g.counts[l] as nat
    } else {
        0
    }
}

/// The next counter label and the generator after it.
pub open spec fn gen_next(g: GenView) -> (Seq<char>, GenView) {
    (gen_create(g, dec_digits(g.id + 1)), GenView { id: g.id + 1, ..g })
}

/// `prefix.name.N`, the `N`-th label made from `name`, and the generator after it.
pub open spec fn gen_unique(g: GenView, name: Seq<char>) -> (Seq<char>, GenView) {
    let l = gen_create(g, name);
    let n = gen_count(g, name) + 1;
    (l + seq!['.'] + dec_digits(n), GenView { counts: g.counts.insert(l, n as u64), ..g })
}

pub struct LabelGenerator {
    prefix: String,
    id: u64,
    label_idx: Vec<(String, u64)>,
}

impl View for LabelGenerator {
    type V = GenView;

    closed spec fn view(&self) -> GenView {
        GenView { prefix: self.prefix@, id: self.id as nat, counts: entries_map(self.label_idx@) }
    }
}

impl LabelGenerator {
    pub fn new(prefix: &str) -> (r: Self)
        ensures
            r@ == fresh_gen(prefix@),
    {
        let r = Self { prefix: upper(prefix), id: 0, label_idx: Vec::new() };
        proof {
            assert(entries_map(r.label_idx@) =~= Map::<Seq<char>, u64>::empty());
        }
        r
    }

    /// A generator with exactly this prefix.
    pub fn with_prefix(prefix: String) -> (r: Self)
        ensures
            r@ == scope_gen(prefix@),
    {
        let r = Self { prefix, id: 0, label_idx: Vec::new() };
        proof {
            assert(entries_map(r.label_idx@) =~= Map::<Seq<char>, u64>::empty());
        }
        r
    }

    pub fn get_prefix(&self) -> (r: String)
        ensures
            r@ == self@.prefix,
    {
        self.prefix.clone()
    }

    /// `prefix.name`.
    pub fn create(&self, name: &str) -> (r: String)
        ensures
            r@ == gen_create(self@, name@),
    {
        let mut s = self.prefix.clone();
        proof { reveal_strlit("."); }
        s.append(".");
        s.append(name);
        s
    }

    /// The next counter label, `prefix.N`.
    pub fn generate(&mut self) -> (r: String)
        requires
            old(self)@.id < u64::MAX,
        ensures
            (r@, final(self)@) == gen_next(old(self)@),
    {
        self.id = self.id + 1;
        let mut s = self.prefix.clone();
        proof { reveal_strlit("."); }
        s.append(".");
        push_decimal(&mut s, self.id);
        proof {
            assert(s@ =~= gen_create(old(self)@, dec_digits(self.id as nat)));
        }
        s
    }

    /// How often `name` was made unique so far.
    pub fn unique_count(&self, name: &str) -> (r: u64)
        ensures
            r as nat == gen_count(self@, name@),
    {
        let l = self.create(name);
        match lookup(&self.label_idx, l.as_str()) {
            Some(n) => n,
            None => 0,
        }
    }

    /// `prefix.name.N`, where `N` counts the labels made from `name`.
    pub fn create_unique(&mut self, name: &str) -> (r: String)
        requires
            gen_count(old(self)@, name@) < u64::MAX,
        ensures
            (r@, final(self)@) == gen_unique(old(self)@, name@),
    {
        let label = self.create(name);
        let n = match lookup(&self.label_idx, label.as_str()) {
            Some(n) => n,
            None => 0,
        } + 1;
        let ghost before = self.label_idx@;
        self.label_idx.push((label.clone(), n));
        proof {
            assert(self.label_idx@.drop_last() =~= before);
        }
        let mut s = label;
        proof { reveal_strlit("."); }
        s.append(".");
        push_decimal(&mut s, n);
        proof {
            assert(self@.counts =~= old(self)@.counts.insert(gen_create(old(self)@, name@), n));
        }
        s
    }
}

/// The label scopes: the file's generator below the open functions' ones.
pub struct LmView {
    pub base: GenView,
    pub scopes: Seq<GenView>,
}

/// The innermost scope.
pub open spec fn lm_top(m: LmView) -> GenView {
    if m.scopes.len() == 0 {
        m.base
    } else {
        m.scopes.last()
    }
}

pub open spec fn lm_set_top(m: LmView, g: GenView) -> LmView {
    if m.scopes.len() == 0 {
        LmView { base: g, ..m }
    } else {
        LmView { scopes: m.scopes.update(m.scopes.len() - 1, g), ..m }
    }
}

pub open spec fn lm_fresh(filename: Seq<char>) -> LmView {
    LmView { base: fresh_gen(filename), scopes: Seq::empty() }
}

/// Opens the scope of a function: `parent.name$`.
pub open spec fn lm_start(m: LmView, name: Seq<char>) -> LmView {
    LmView { scopes: m.scopes.push(scope_gen(lm_top(m).prefix + seq!['.'] + name + seq!['$'])), ..m }
}

/// Closes the innermost function scope; the file's scope stays.
pub open spec fn lm_end(m: LmView) -> LmView {
    if m.scopes.len() == 0 {
        m
    } else {
        LmView { scopes: m.scopes.drop_last(), ..m }
    }
}

pub open spec fn lm_static(m: LmView) -> (Seq<char>, LmView) {
    let (l, g) = gen_next(m.base);
    (l, LmView { base: g, ..m })
}

pub open spec fn lm_label(m: LmView, name: Seq<char>, unique: bool) -> (Seq<char>, LmView) {
    if unique {
        let (l, g) = gen_unique(lm_top(m), name);
        (l, lm_set_top(m, g))
    } else {
        (gen_create(lm_top(m), name), m)
    }
}

pub struct LabelManager {
    base: LabelGenerator,
    scopes: Vec<LabelGenerator>,
}

impl View for LabelManager {
    type V = LmView;

    closed spec fn view(&self) -> LmView {
        LmView { base: self.base@, scopes: self.scopes@.map_values(|g: LabelGenerator| g@) }
    }
}

impl LabelManager {
    pub fn new(filename: &str) -> (r: Self)
        ensures
            r@ == lm_fresh(filename@),
    {
        let r = Self { base: LabelGenerator::new(filename), scopes: Vec::new() };
        proof {
            assert(r@.scopes =~= Seq::<GenView>::empty());
        }
        r
    }

    /// Starts over in the scope of a new file.
    pub fn set_filename(&mut self, filename: &str)
        ensures
            final(self)@ == lm_fresh(filename@),
    {
        self.base = LabelGenerator::new(filename);
        self.scopes = Vec::new();
        proof {
            assert(self@.scopes =~= Seq::<GenView>::empty());
        }
    }

    pub fn start_function(&mut self, function_name: &str)
        ensures
            final(self)@ == lm_start(old(self)@, function_name@),
    {
        let n = self.scopes.len();
        let parent = if n == 0 {
            self.base.get_prefix()
        } else {
            self.scopes[n - 1].get_prefix()
        };
        proof {
            if n > 0 {
                assert(self@.scopes[n - 1] == self.scopes@[n - 1]@);
            }
            assert(parent@ == lm_top(self@).prefix);
        }
        let mut p = parent;
        proof {
            reveal_strlit(".");
            reveal_strlit("$");
        }
        p.append(".");
        p.append(function_name);
        p.append("$");
        let ghost before = self.scopes@;
        proof {
            assert(p@ == lm_top(old(self)@).prefix + seq!['.'] + function_name@ + seq!['$']);
        }
        self.scopes.push(LabelGenerator::with_prefix(p));
        proof {
            assert(self@.scopes =~= old(self)@.scopes.push(
                scope_gen(lm_top(old(self)@).prefix + seq!['.'] + function_name@ + seq!['$']),
            ));
        }
    }

    pub fn end_function(&mut self)
        ensures
            final(self)@ == lm_end(old(self)@),
    {
        if self.scopes.len() > 0 {
            self.scopes.pop();
            proof {
                assert(self@.scopes =~= old(self)@.scopes.drop_last());
            }
        }
    }

    /// How many counter labels the file's scope has handed out.
    pub fn static_count(&self) -> (r: u64)
        ensures
            r as nat == self@.base.id,
    {
        self.base.id
    }

    /// The next counter label of the file's scope.
    pub fn generate_static(&mut self) -> (r: String)
        requires
            old(self)@.base.id < u64::MAX,
        ensures
            (r@, final(self)@) == lm_static(old(self)@),
    {
        self.base.generate()
    }

    pub fn unique_count(&self, label: &str) -> (r: u64)
        ensures
            r as nat == gen_count(lm_top(self@), label@),
    {
        let n = self.scopes.len();
        if n == 0 {
            self.base.unique_count(label)
        } else {
            self.scopes[n - 1].unique_count(label)
        }
    }

    /// A label of the innermost scope: `prefix.label`, or with `unique`
    /// `prefix.label.N`.
    pub fn generate_label(&mut self, label: &str, unique: bool) -> (r: String)
        requires
            unique ==> gen_count(lm_top(old(self)@), label@) < u64::MAX,
        ensures
            (r@, final(self)@) == lm_label(old(self)@, label@, unique),
    {
        let n = self.scopes.len();
        if n == 0 {
            if unique {
                self.base.create_unique(label)
            } else {
                self.base.create(label)
            }
        } else if unique {
            let mut g = self.scopes.pop().unwrap();
            let r = g.create_unique(label);
            self.scopes.push(g);
            proof {
                assert(self@.scopes =~= old(self)@.scopes.update(n - 1, g@));
            }
            r
        } else {
            self.scopes[n - 1].create(label)
        }
    }
}

} // verus!
