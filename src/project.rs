//! Projection, keeping in a chosen order the columns bound to a list of
//! variables, and union of relations projected onto the same variables.

use vstd::prelude::*;

use crate::plan::Plan;
use crate::pull::Bag;
use crate::relation::{all_of_arity, check_arity, CollectionRelation, PlanError};
use crate::value::{bag_of, lemma_bag_push, row_of, Diff, Value, Var};

verus! {

/// A plan stage keeping the columns of the given variables, in order.
#[derive(Debug, PartialEq, Eq, Hash, PartialOrd, Ord)]
pub struct Project {
    /// Variables to keep, in output order.
    pub variables: Vec<Var>,
    /// Plan for the input relation.
    pub plan: Box<Plan>,
}

/// A plan stage concatenating the relations of several plans, each
/// projected onto the same variables.
#[derive(Debug, PartialEq, Eq, Hash, PartialOrd, Ord)]
pub struct Union {
    /// Variables of the result, in output order.
    pub variables: Vec<Var>,
    /// Plans whose relations are united.
    pub plans: Vec<Plan>,
}

/// `i` is the first column bound to `v`.
pub open spec fn first_pos(syms: Seq<Var>, v: Var, i: int) -> bool {
    &&& 0 <= i < syms.len()
    &&& syms[i] == v
    &&& forall|j: int| 0 <= j < i ==> syms[j] != v
}

/// The first column bound to `v`.
pub open spec fn pos(syms: Seq<Var>, v: Var) -> int {
    choose|i: int| first_pos(syms, v, i)
}

/// Every variable is bound to some column.
pub open spec fn all_bound(syms: Seq<Var>, vars: Seq<Var>) -> bool {
    forall|k: int| 0 <= k < vars.len() ==> syms.contains(#[trigger] vars[k])
}

/// Each row reduced to the columns of `vars`, in that order.
pub open spec fn project_bag(b: Bag, syms: Seq<Var>, vars: Seq<Var>) -> Bag {
    b.map_values(
        |u: (Seq<crate::value::ValueModel>, Diff)|
            (Seq::new(vars.len(), |k: int| u.0[pos(syms, vars[k])]), u.1),
    )
}

proof fn lemma_first_pos(syms: Seq<Var>, v: Var, i: int)
    requires
        first_pos(syms, v, i),
    ensures
        pos(syms, v) == i,
{
    let k = choose|k: int| first_pos(syms, v, k);
    assert(first_pos(syms, v, k));
    if k < i {
        assert(syms[k] != v);
    } else if i < k {
        assert(syms[i] != v);
    }
}

/// The first column bound to `v`, if any.
fn position(syms: &Vec<Var>, v: Var) -> (r: Option<usize>)
    ensures
        r matches Some(i) ==> first_pos(syms@, v, i as int),
        r is None ==> !syms@.contains(v),
{
    let mut i: usize = 0;
    while i < syms.len()
        invariant
            i <= syms@.len(),
            forall|j: int| 0 <= j < i ==> syms@[j] != v,
        decreases syms@.len() - i,
    {
        if syms[i] == v {
            return Some(i);
        }
        i = i + 1;
    }
    None
}

/// The first column of each variable, when all are bound.
pub fn positions(syms: &Vec<Var>, vars: &Vec<Var>) -> (r: Option<Vec<usize>>)
    ensures
        r is Some <==> all_bound(syms@, vars@),
        r matches Some(p) ==> p@.len() == vars@.len() && forall|k: int|
            0 <= k < vars@.len() ==> first_pos(syms@, vars@[k], #[trigger] p@[k] as int),
{
    let mut p: Vec<usize> = Vec::new();
    let mut k: usize = 0;
    while k < vars.len()
        invariant
            k <= vars@.len(),
            p@.len() == k,
            forall|j: int| 0 <= j < k ==> first_pos(syms@, vars@[j], #[trigger] p@[j] as int),
        decreases vars@.len() - k,
    {
        match position(syms, vars[k]) {
            Some(i) => {
                p.push(i);
            },
            None => {
                assert(!syms@.contains(vars@[k as int]));
                return None;
            },
        }
        k = k + 1;
    }
    assert forall|j: int| 0 <= j < vars@.len() implies syms@.contains(#[trigger] vars@[j]) by {
        assert(first_pos(syms@, vars@[j], p@[j] as int));
        assert(syms@[p@[j] as int] == vars@[j]);
    }
    Some(p)
}

/// Reduces every tuple to the columns at positions `p`.
pub fn project_tuples(
    tuples: &Vec<(Vec<Value>, Diff)>,
    syms: &Vec<Var>,
    vars: &Vec<Var>,
    p: &Vec<usize>,
) -> (r: Vec<(Vec<Value>, Diff)>)
    requires
        all_of_arity(bag_of(tuples@), syms@.len() as int),
        p@.len() == vars@.len(),
        forall|k: int| 0 <= k < vars@.len() ==> first_pos(syms@, vars@[k], #[trigger] p@[k] as int),
    ensures
        bag_of(r@) == project_bag(bag_of(tuples@), syms@, vars@),
{
    let ghost target = project_bag(bag_of(tuples@), syms@, vars@);
    let mut r: Vec<(Vec<Value>, Diff)> = Vec::new();
    let mut i: usize = 0;
    while i < tuples.len()
        invariant
            i <= tuples@.len(),
            all_of_arity(bag_of(tuples@), syms@.len() as int),
            p@.len() == vars@.len(),
            forall|k: int| 0 <= k < vars@.len() ==> first_pos(syms@, vars@[k], #[trigger] p@[k] as int),
            target == project_bag(bag_of(tuples@), syms@, vars@),
            bag_of(r@) == target.subrange(0, i as int),
        decreases tuples@.len() - i,
    {
        let t = &tuples[i].0;
        assert(bag_of(tuples@)[i as int].0.len() == syms@.len());
        let mut row: Vec<Value> = Vec::new();
        let mut k: usize = 0;
        while k < p.len()
            invariant
                k <= p@.len(),
                p@.len() == vars@.len(),
                t@.len() == syms@.len(),
                forall|k2: int|
                    0 <= k2 < vars@.len() ==> first_pos(syms@, vars@[k2], #[trigger] p@[k2] as int),
                row@.len() == k,
                forall|j: int| 0 <= j < k ==> #[trigger] row@[j] == t@[p@[j] as int],
            decreases p@.len() - k,
        {
            assert(first_pos(syms@, vars@[k as int], p@[k as int] as int));
            row.push(t[p[k]].clone());
            k = k + 1;
        }
        proof {
            assert forall|j: int| 0 <= j < vars@.len() implies pos(syms@, #[trigger] vars@[j]) == p@[j] as int by {
                lemma_first_pos(syms@, vars@[j], p@[j] as int);
            }
            assert(row_of(row@) =~= target[i as int].0);
            lemma_bag_push(r@, (row, tuples@[i as int].1));
        }
        r.push((row, tuples[i].1));
        i = i + 1;
        assert(bag_of(r@) =~= target.subrange(0, i as int));
    }
    assert(target.subrange(0, tuples@.len() as int) =~= target);
    r
}

/// A relation projected onto `vars`, or why it cannot be.
pub open spec fn projected(input: (Seq<Var>, Bag), vars: Seq<Var>) -> Result<Bag, PlanError> {
    if !all_bound(input.0, vars) {
        Err(PlanError::UnboundVariable)
    } else if !all_of_arity(input.1, input.0.len() as int) {
        Err(PlanError::ArityMismatch)
    } else {
        Ok(project_bag(input.1, input.0, vars))
    }
}

/// Projects a relation's tuples onto `vars`.
pub fn project_relation(input: &CollectionRelation, vars: &Vec<Var>) -> (r: Result<
    Vec<(Vec<Value>, Diff)>,
    PlanError,
>)
    ensures
        match r {
            Ok(t) => projected(input@, vars@) == Ok::<Bag, PlanError>(bag_of(t@)),
            Err(e) => projected(input@, vars@) == Err::<Bag, PlanError>(e),
        },
{
    let p = match positions(&input.symbols, vars) {
        Some(p) => p,
        None => {
            return Err(PlanError::UnboundVariable);
        },
    };
    if !check_arity(&input.tuples, input.symbols.len()) {
        return Err(PlanError::ArityMismatch);
    }
    Ok(project_tuples(&input.tuples, &input.symbols, vars, &p))
}

} // verus!
