//! Scalar values, identifiers and the rows built from them.

use vstd::prelude::*;

verus! {

/// Name of an attribute, such as `"person/name"`.
pub type Aid = String;

/// Entity identifier.
pub type Eid = u64;

/// A query variable: it only labels a column of a relation.
pub type Var = u32;

/// Signed multiplicity of a row: positive for insertions, negative
/// for retractions.
pub type Diff = isize;

/// A scalar value, as stored in tuples.
#[derive(Debug, PartialEq, Eq, Hash, PartialOrd, Ord)]
pub enum Value {
    /// An entity identifier.
    Eid(Eid),
    /// An attribute name used as a value, as in interleaved pull rows.
    Aid(Aid),
    /// A string.
    String(String),
    /// A signed integer.
    Number(i64),
    /// A boolean.
    Bool(bool),
}

/// What a `Value` means: strings are seen as character sequences.
pub enum ValueModel {
    Eid(u64),
    Aid(Seq<char>),
    String(Seq<char>),
    Number(i64),
    Bool(bool),
}

impl View for Value {
    type V = ValueModel;

    open spec fn view(&self) -> ValueModel {
        match self {
            Value::Eid(e) => ValueModel::Eid(*e),
            Value::Aid(a) => ValueModel::Aid(a@),
            Value::String(s) => ValueModel::String(s@),
            Value::Number(n) => ValueModel::Number(*n),
            Value::Bool(b) => ValueModel::Bool(*b),
        }
    }
}

impl Clone for Value {
    fn clone(&self) -> (r: Self)
        ensures
            r == *self,
    {
        match self {
            Value::Eid(e) => Value::Eid(*e),
            Value::Aid(a) => Value::Aid(a.clone()),
            Value::String(s) => Value::String(s.clone()),
            Value::Number(n) => Value::Number(*n),
            Value::Bool(b) => Value::Bool(*b),
        }
    }
}

impl Value {
    /// Structural equality of two values.
    pub fn equals(&self, other: &Value) -> (r: bool)
        ensures
            r == (self@ == other@),
    {
        match self {
            Value::Eid(a) => match other {
                Value::Eid(b) => *a == *b,
                _ => false,
            },
            Value::Aid(a) => match other {
                Value::Aid(b) => a.eq(b),
                _ => false,
            },
            Value::String(a) => match other {
                Value::String(b) => a.eq(b),
                _ => false,
            },
            Value::Number(a) => match other {
                Value::Number(b) => *a == *b,
                _ => false,
            },
            Value::Bool(a) => match other {
                Value::Bool(b) => *a == *b,
                _ => false,
            },
        }
    }
}

/// A tuple as a sequence of values.
pub open spec fn row_of(t: Seq<Value>) -> Seq<ValueModel> {
    t.map_values(|v: Value| v@)
}

/// A collection of rows with their multiplicities.
pub open spec fn bag_of(b: Seq<(Vec<Value>, Diff)>) -> Seq<(Seq<ValueModel>, Diff)> {
    b.map_values(|u: (Vec<Value>, Diff)| (row_of(u.0@), u.1))
}

/// Appending a tuple appends its row.
pub proof fn lemma_bag_push(s: Seq<(Vec<Value>, Diff)>, x: (Vec<Value>, Diff))
    ensures
        bag_of(s.push(x)) == bag_of(s).push((row_of(x.0@), x.1)),
{
    assert(bag_of(s.push(x)) =~= bag_of(s).push((row_of(x.0@), x.1)));
}

/// Copies a tuple value by value.
pub fn clone_row(t: &[Value]) -> (r: Vec<Value>)
    ensures
        r@ == t@,
{
    let mut r: Vec<Value> = Vec::new();
    let mut i: usize = 0;
    while i < t.len()
        invariant
            i <= t@.len(),
            r@ == t@.subrange(0, i as int),
        decreases t@.len() - i,
    {
        r.push(t[i].clone());
        i = i + 1;
    }
    assert(r@ =~= t@);
    r
}

} // verus!
