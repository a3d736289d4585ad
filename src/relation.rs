//! Relations: a list of variables labelling the columns, and a
//! collection of tuples with signed multiplicities.

use vstd::prelude::*;

use crate::value::{bag_of, clone_row, lemma_bag_push, row_of, Diff, Value, ValueModel, Var};

verus! {

/// Why a plan could not be compiled.
#[derive(Clone, Debug, PartialEq, Eq)]
pub enum PlanError {
    /// An attribute, a local or a global relation that is not registered.
    UnresolvedName(String),
    /// Path values and path attributes whose counts cannot be interleaved.
    ShapeMismatch,
    /// A variable that the input relation does not bind.
    UnboundVariable,
    /// A relation whose tuples do not have one value per declared variable.
    ArityMismatch,
}

/// A relation: variables labelling the columns, and the tuples with
/// their multiplicities.
#[derive(Debug)]
pub struct CollectionRelation {
    /// Variables bound to the tuple positions (empty for pull results,
    /// which are read by position).
    pub symbols: Vec<Var>,
    /// Tuples with their signed multiplicities.
    pub tuples: Vec<(Vec<Value>, Diff)>,
}

impl View for CollectionRelation {
    type V = (Seq<Var>, Seq<(Seq<ValueModel>, Diff)>);

    open spec fn view(&self) -> Self::V {
        (self.symbols@, bag_of(self.tuples@))
    }
}

/// Index of the first entry registered under `name`.
pub open spec fn first_named<T>(entries: Seq<(String, T)>, name: Seq<char>, i: int) -> bool {
    &&& 0 <= i < entries.len()
    &&& entries[i].0@ == name
    &&& forall|j: int| 0 <= j < i ==> entries[j].0@ != name
}

/// The value of the first entry registered under `name`, if any.
pub open spec fn lookup_named<T>(entries: Seq<(String, T)>, name: Seq<char>) -> Option<T> {
    if exists|i: int| first_named(entries, name, i) {
        Some(entries[choose|i: int| first_named(entries, name, i)].1)
    } else {
        None
    }
}

/// Finds the first entry registered under `name`.
pub fn find_named<'a, T>(entries: &'a Vec<(String, T)>, name: &String) -> (r: Option<&'a T>)
    ensures
        r matches Some(t) ==> lookup_named(entries@, name@) == Some(*t),
        r is None ==> lookup_named(entries@, name@) is None,
{
    let mut i: usize = 0;
    while i < entries.len()
        invariant
            i <= entries@.len(),
            forall|j: int| 0 <= j < i ==> entries@[j].0@ != name@,
        decreases entries@.len() - i,
    {
        if entries[i].0.eq(name) {
            proof {
                assert(first_named(entries@, name@, i as int));
                let k = choose|k: int| first_named(entries@, name@, k);
                assert(k == i as int);
            }
            return Some(&entries[i].1);
        }
        i = i + 1;
    }
    None
}

/// Relations defined locally to the rule being compiled, by name.
pub struct VariableMap {
    /// Named relations; the first entry under a name is the one used.
    pub entries: Vec<(String, Vec<(Vec<Value>, Diff)>)>,
}

impl VariableMap {
    /// An empty map.
    pub fn new() -> (r: VariableMap)
        ensures
            r.entries@.len() == 0,
    {
        VariableMap { entries: Vec::new() }
    }

    /// Registers a relation under `name`, after those already present.
    pub fn insert(&mut self, name: String, tuples: Vec<(Vec<Value>, Diff)>)
        ensures
            final(self).entries@ == old(self).entries@.push((name, tuples)),
    {
        self.entries.push((name, tuples));
    }

    /// The relation registered under `name`, if any.
    pub fn get(&self, name: &String) -> (r: Option<&Vec<(Vec<Value>, Diff)>>)
        ensures
            r matches Some(t) ==> lookup_named(self.entries@, name@) == Some(*t),
            r is None ==> lookup_named(self.entries@, name@) is None,
    {
        find_named(&self.entries, name)
    }
}

/// Multiplicity with its sign inverted; the most negative machine value,
/// which has no opposite, is kept as it is.
pub open spec fn negated(m: Diff) -> Diff {
    if m == Diff::MIN {
        m
    } else {
        (-m) as Diff
    }
}

/// Every row with its multiplicity negated.
pub open spec fn negate_bag(b: Seq<(Seq<ValueModel>, Diff)>) -> Seq<(Seq<ValueModel>, Diff)> {
    b.map_values(|u: (Seq<ValueModel>, Diff)| (u.0, negated(u.1)))
}

/// Copies the tuples of a collection, negating each multiplicity.
pub fn negate_tuples(tuples: &Vec<(Vec<Value>, Diff)>) -> (r: Vec<(Vec<Value>, Diff)>)
    ensures
        bag_of(r@) == negate_bag(bag_of(tuples@)),
{
    let mut r: Vec<(Vec<Value>, Diff)> = Vec::new();
    let mut i: usize = 0;
    while i < tuples.len()
        invariant
            i <= tuples@.len(),
            bag_of(r@) == negate_bag(bag_of(tuples@.subrange(0, i as int))),
        decreases tuples@.len() - i,
    {
        let m = tuples[i].1;
        let n: Diff = if m == Diff::MIN { m } else { -m };
        let row = clone_row(tuples[i].0.as_slice());
        proof {
            lemma_bag_push(r@, (row, n));
            lemma_bag_push(tuples@.subrange(0, i as int), tuples@[i as int]);
            assert(tuples@.subrange(0, i + 1) == tuples@.subrange(0, i as int).push(tuples@[i as int]));
            assert(row_of(row@) == row_of(tuples@[i as int].0@));
            let b = bag_of(tuples@.subrange(0, i as int));
            let y = (row_of(tuples@[i as int].0@), tuples@[i as int].1);
            assert(negate_bag(b.push(y)) =~= negate_bag(b).push((y.0, negated(y.1))));
        }
        r.push((row, n));
        i = i + 1;
    }
    assert(tuples@.subrange(0, tuples@.len() as int) == tuples@);
    r
}

/// Copies a collection of tuples unchanged.
pub fn copy_tuples(tuples: &Vec<(Vec<Value>, Diff)>) -> (r: Vec<(Vec<Value>, Diff)>)
    ensures
        bag_of(r@) == bag_of(tuples@),
{
    let mut r: Vec<(Vec<Value>, Diff)> = Vec::new();
    let mut i: usize = 0;
    while i < tuples.len()
        invariant
            i <= tuples@.len(),
            bag_of(r@) == bag_of(tuples@.subrange(0, i as int)),
        decreases tuples@.len() - i,
    {
        let row = clone_row(tuples[i].0.as_slice());
        proof {
            lemma_bag_push(r@, (row, tuples@[i as int].1));
            lemma_bag_push(tuples@.subrange(0, i as int), tuples@[i as int]);
            assert(tuples@.subrange(0, i + 1) == tuples@.subrange(0, i as int).push(tuples@[i as int]));
            assert(row_of(row@) == row_of(tuples@[i as int].0@));
        }
        r.push((row, tuples[i].1));
        i = i + 1;
    }
    assert(tuples@.subrange(0, tuples@.len() as int) == tuples@);
    r
}

/// Whether every tuple has exactly `n` values.
pub open spec fn all_of_arity(b: Seq<(Seq<ValueModel>, Diff)>, n: int) -> bool {
    forall|i: int| 0 <= i < b.len() ==> #[trigger] b[i].0.len() == n
}

/// Checks that every tuple has exactly `n` values.
pub fn check_arity(tuples: &Vec<(Vec<Value>, Diff)>, n: usize) -> (r: bool)
    ensures
        r == all_of_arity(bag_of(tuples@), n as int),
{
    let mut i: usize = 0;
    while i < tuples.len()
        invariant
            i <= tuples@.len(),
            forall|j: int| 0 <= j < i ==> #[trigger] bag_of(tuples@)[j].0.len() == n,
        decreases tuples@.len() - i,
    {
        if tuples[i].0.len() != n {
            assert(bag_of(tuples@)[i as int].0.len() != n);
            return false;
        }
        i = i + 1;
    }
    true
}

} // verus!
