//! Facts relating several plans or several compilations.

use vstd::prelude::*;

use crate::context::ImplContext;
use crate::plan::{
    eval, eval_level, eval_paths, eval_union, level_deps, paths_deps, plan_deps, pull_all, union_deps,
    Plan, RelationModel,
};
use crate::pull::{names_of, PullLevel};
use crate::relation::lookup_named;
use crate::relation::{negate_bag, negated, PlanError};
use crate::pull::Bag;
use crate::value::{Aid, Diff, Eid, Value, ValueModel, Var};

verus! {

/// Total multiplicity of `row` in a collection.
pub open spec fn weight(b: Bag, row: Seq<ValueModel>) -> int
    decreases b.len(),
{
    if b.len() == 0 {
        0
    } else {
        weight(b.drop_last(), row) + if b.last().0 == row {
            b.last().1 as int
        } else {
            0
        }
    }
}

/// Negating a collection twice gives it back.
pub proof fn lemma_negate_bag_twice(b: Bag)
    ensures
        negate_bag(negate_bag(b)) == b,
{
    assert forall|i: int| 0 <= i < b.len() implies #[trigger] negate_bag(negate_bag(b))[i] == b[i] by {
        let m = b[i].1;
        assert(negated(negated(m)) == m);
    }
    assert(negate_bag(negate_bag(b)) =~= b);
}

/// Negation applied twice to a plan yields the plan's own relation: the
/// same variables, and every tuple with its multiplicity restored.
pub proof fn lemma_negate_twice<I: ImplContext>(
    p: Plan,
    locals: Seq<(String, Vec<(Vec<Value>, Diff)>)>,
    ctx: I,
)
    ensures
        eval(Plan::Negate(Box::new(Plan::Negate(Box::new(p)))), locals, ctx) == eval(p, locals, ctx),
{
    let q = Plan::Negate(Box::new(p));
    let q2 = Plan::Negate(Box::new(q));
    match eval(p, locals, ctx) {
        Ok(r) => {
            assert(eval(q, locals, ctx) == Ok::<RelationModel, PlanError>((r.0, negate_bag(r.1))));
            assert(eval(q2, locals, ctx) == Ok::<RelationModel, PlanError>(
                (r.0, negate_bag(negate_bag(r.1))),
            ));
            lemma_negate_bag_twice(r.1);
        },
        Err(e) => {
            assert(eval(q, locals, ctx) == Err::<RelationModel, PlanError>(e));
            assert(eval(q2, locals, ctx) == Err::<RelationModel, PlanError>(e));
        },
    }
}

/// Weight of `[e0]` among the entities with value `v`, and of `[v]`
/// among the values of entity `e0`: both count the tuples `[e0 v]`.
pub open spec fn pair_weight(b: Bag, e0: Eid, v: ValueModel) -> int
    decreases b.len(),
{
    if b.len() == 0 {
        0
    } else {
        let u = b.last();
        pair_weight(b.drop_last(), e0, v) + if u.0.len() >= 2 && u.0[0] == ValueModel::Eid(e0)
            && u.0[1] == v {
            u.1 as int
        } else {
            0
        }
    }
}

proof fn lemma_selections_count_pairs(b: Bag, e0: Eid, v: ValueModel)
    ensures
        weight(crate::plan::select_value(b, v), seq![ValueModel::Eid(e0)]) == pair_weight(b, e0, v),
        weight(crate::plan::select_entity(b, e0), seq![v]) == pair_weight(b, e0, v),
    decreases b.len(),
{
    if b.len() > 0 {
        lemma_selections_count_pairs(b.drop_last(), e0, v);
        let u = b.last();
        let sv = crate::plan::select_value(b.drop_last(), v);
        let se = crate::plan::select_entity(b.drop_last(), e0);
        assert(sv.push((seq![u.0[0]], u.1)).drop_last() =~= sv);
        assert(se.push((seq![u.0[1]], u.1)).drop_last() =~= se);
        if u.0.len() >= 2 {
            if seq![u.0[0]] == seq![ValueModel::Eid(e0)] {
                assert(seq![u.0[0]][0] == u.0[0]);
            }
            if seq![u.0[1]] == seq![v] {
                assert(seq![u.0[1]][0] == u.0[1]);
            }
        }
    }
}

/// The patterns `[?e a v]` and `[e0 a ?v]` read the same triples: both
/// compile or neither does, and the multiplicity of `[e0]` in the first
/// equals that of `[v]` in the second.
pub proof fn lemma_match_round_trip<I: ImplContext>(
    s1: Var,
    s2: Var,
    a: Aid,
    v: Value,
    e0: Eid,
    locals: Seq<(String, Vec<(Vec<Value>, Diff)>)>,
    ctx: I,
)
    ensures
        eval(Plan::MatchAV(s1, a, v), locals, ctx) is Ok <==> eval(
            Plan::MatchEA(e0, a, s2),
            locals,
            ctx,
        ) is Ok,
        eval(Plan::MatchAV(s1, a, v), locals, ctx) matches Ok(r1) ==> eval(
            Plan::MatchEA(e0, a, s2),
            locals,
            ctx,
        ) matches Ok(r2) && weight(r1.1, seq![ValueModel::Eid(e0)]) == weight(r2.1, seq![v@]),
{
    match ctx.global_spec(a@) {
        Some(t) => {
            lemma_selections_count_pairs(crate::value::bag_of(t@), e0, v@);
        },
        None => {},
    }
}

/// Attribute names that a plan resolves through the environment.
pub open spec fn plan_attrs(p: Plan) -> Set<Seq<char>>
    decreases p,
{
    match p {
        Plan::Project(pr) => plan_attrs(*pr.plan),
        Plan::Union(u) => union_attrs(u.plans@),
        Plan::Negate(c) => plan_attrs(*c),
        Plan::MatchA(_, a, _) => set![a@],
        Plan::MatchEA(_, a, _) => set![a@],
        Plan::MatchAV(_, a, _) => set![a@],
        Plan::RuleExpr(_, _) => Set::empty(),
        Plan::NameExpr(_, _) => Set::empty(),
        Plan::Pull(pull) => paths_attrs(pull.paths@),
        Plan::PullLevel(l) => level_attrs(l),
    }
}

/// Attribute names of any of the plans.
pub open spec fn union_attrs(ps: Seq<Plan>) -> Set<Seq<char>>
    decreases ps,
{
    if ps.len() == 0 {
        Set::empty()
    } else {
        union_attrs(ps.drop_last()) + plan_attrs(ps.last())
    }
}

/// Attribute names of a pull level: those of its input, and those pulled.
pub open spec fn level_attrs(l: PullLevel) -> Set<Seq<char>>
    decreases l,
{
    plan_attrs(*l.plan) + names_of(l.pull_attributes@).to_set()
}

/// Attribute names of any of the paths.
pub open spec fn paths_attrs(ps: Seq<PullLevel>) -> Set<Seq<char>>
    decreases ps,
{
    if ps.len() == 0 {
        Set::empty()
    } else {
        paths_attrs(ps.drop_last()) + level_attrs(ps.last())
    }
}

/// Two settings resolve the given relation names alike.
pub open spec fn same_relations<I: ImplContext>(
    names: Set<Seq<char>>,
    l1: Seq<(String, Vec<(Vec<Value>, Diff)>)>,
    c1: I,
    l2: Seq<(String, Vec<(Vec<Value>, Diff)>)>,
    c2: I,
) -> bool {
    forall|n: Seq<char>|
        #[trigger] names.contains(n) ==> lookup_named(l1, n) == lookup_named(l2, n)
            && c1.global_spec(n) == c2.global_spec(n)
}

/// Two environments resolve the given attribute names alike.
pub open spec fn same_attributes<I: ImplContext>(attrs: Set<Seq<char>>, c1: I, c2: I) -> bool {
    forall|a: Seq<char>|
        #[trigger] attrs.contains(a) ==> c1.global_spec(a) == c2.global_spec(a)
            && c1.forward_spec(a) == c2.forward_spec(a)
}

proof fn lemma_same_relations_within<I: ImplContext>(
    small: Set<Seq<char>>,
    big: Set<Seq<char>>,
    l1: Seq<(String, Vec<(Vec<Value>, Diff)>)>,
    c1: I,
    l2: Seq<(String, Vec<(Vec<Value>, Diff)>)>,
    c2: I,
)
    requires
        small.subset_of(big),
        same_relations(big, l1, c1, l2, c2),
    ensures
        same_relations(small, l1, c1, l2, c2),
{
    assert forall|n: Seq<char>| #[trigger] small.contains(n) implies lookup_named(l1, n)
        == lookup_named(l2, n) && c1.global_spec(n) == c2.global_spec(n) by {
        assert(big.contains(n));
    }
}

proof fn lemma_same_attributes_within<I: ImplContext>(
    small: Set<Seq<char>>,
    big: Set<Seq<char>>,
    c1: I,
    c2: I,
)
    requires
        small.subset_of(big),
        same_attributes(big, c1, c2),
    ensures
        same_attributes(small, c1, c2),
{
    assert forall|a: Seq<char>| #[trigger] small.contains(a) implies c1.global_spec(a)
        == c2.global_spec(a) && c1.forward_spec(a) == c2.forward_spec(a) by {
        assert(big.contains(a));
    }
}

/// A dependency that resolves nowhere makes the compilation fail.
pub proof fn lemma_missing_dependency_fails<I: ImplContext>(
    p: Plan,
    n: Seq<char>,
    locals: Seq<(String, Vec<(Vec<Value>, Diff)>)>,
    ctx: I,
)
    requires
        plan_deps(p).contains(n),
        lookup_named(locals, n) is None,
        ctx.global_spec(n) is None,
    ensures
        eval(p, locals, ctx) is Err,
    decreases p,
{
    match p {
        Plan::Project(pr) => {
            lemma_missing_dependency_fails(*pr.plan, n, locals, ctx);
        },
        Plan::Union(u) => {
            lemma_missing_dependency_fails_union(u.plans@, u.variables@, n, locals, ctx);
        },
        Plan::Negate(c) => {
            lemma_missing_dependency_fails(*c, n, locals, ctx);
        },
        Plan::Pull(pull) => {
            lemma_missing_dependency_fails_paths(pull.paths@, n, locals, ctx);
        },
        Plan::PullLevel(l) => {
            assert(plan_deps(p) == level_deps(l));
            assert(level_deps(l) == plan_deps(*l.plan));
            lemma_missing_dependency_fails(*l.plan, n, locals, ctx);
            assert(eval_level(l, locals, ctx) is Err);
        },
        Plan::RuleExpr(_, m) => {
            assert(set![m@].contains(n));
            assert(m@ == n);
        },
        Plan::NameExpr(_, m) => {
            assert(set![m@].contains(n));
            assert(m@ == n);
        },
        _ => {},
    }
}

proof fn lemma_missing_dependency_fails_paths<I: ImplContext>(
    ps: Seq<PullLevel>,
    n: Seq<char>,
    locals: Seq<(String, Vec<(Vec<Value>, Diff)>)>,
    ctx: I,
)
    requires
        paths_deps(ps).contains(n),
        lookup_named(locals, n) is None,
        ctx.global_spec(n) is None,
    ensures
        eval_paths(ps, locals, ctx) is Err,
    decreases ps,
{
    if ps.len() > 0 {
        if paths_deps(ps.drop_last()).contains(n) {
            lemma_missing_dependency_fails_paths(ps.drop_last(), n, locals, ctx);
        } else {
            let l = ps.last();
            assert(level_deps(l).contains(n));
            lemma_missing_dependency_fails(*l.plan, n, locals, ctx);
            assert(eval_level(l, locals, ctx) is Err);
        }
    }
}

proof fn lemma_missing_dependency_fails_union<I: ImplContext>(
    ps: Seq<Plan>,
    vars: Seq<Var>,
    n: Seq<char>,
    locals: Seq<(String, Vec<(Vec<Value>, Diff)>)>,
    ctx: I,
)
    requires
        union_deps(ps).contains(n),
        lookup_named(locals, n) is None,
        ctx.global_spec(n) is None,
    ensures
        eval_union(ps, vars, locals, ctx) is Err,
    decreases ps,
{
    if ps.len() > 0 {
        if union_deps(ps.drop_last()).contains(n) {
            lemma_missing_dependency_fails_union(ps.drop_last(), vars, n, locals, ctx);
        } else {
            lemma_missing_dependency_fails(ps.last(), n, locals, ctx);
        }
    }
}

proof fn lemma_dependencies_suffice_union<I: ImplContext>(
    ps: Seq<Plan>,
    vars: Seq<Var>,
    l1: Seq<(String, Vec<(Vec<Value>, Diff)>)>,
    c1: I,
    l2: Seq<(String, Vec<(Vec<Value>, Diff)>)>,
    c2: I,
)
    requires
        same_relations(union_deps(ps), l1, c1, l2, c2),
        same_attributes(union_attrs(ps), c1, c2),
    ensures
        eval_union(ps, vars, l1, c1) == eval_union(ps, vars, l2, c2),
    decreases ps,
{
    if ps.len() > 0 {
        let (a, b) = (ps.drop_last(), ps.last());
        lemma_same_relations_within(union_deps(a), union_deps(ps), l1, c1, l2, c2);
        lemma_same_relations_within(plan_deps(b), union_deps(ps), l1, c1, l2, c2);
        lemma_same_attributes_within(union_attrs(a), union_attrs(ps), c1, c2);
        lemma_same_attributes_within(plan_attrs(b), union_attrs(ps), c1, c2);
        lemma_dependencies_suffice_union(a, vars, l1, c1, l2, c2);
        lemma_dependencies_suffice(b, l1, c1, l2, c2);
    }
}

proof fn lemma_pull_all_frame<I: ImplContext>(
    paths: Bag,
    pa: Seq<Seq<char>>,
    attrs: Seq<Aid>,
    c1: I,
    c2: I,
)
    requires
        same_attributes(names_of(attrs).to_set(), c1, c2),
    ensures
        pull_all(paths, pa, attrs, c1) == pull_all(paths, pa, attrs, c2),
    decreases attrs.len(),
{
    if attrs.len() > 0 {
        let rest = attrs.drop_last();
        assert forall|a: Seq<char>| #[trigger] names_of(rest).to_set().contains(a) implies names_of(
            attrs,
        ).to_set().contains(a) by {
            let i = choose|i: int| 0 <= i < names_of(rest).len() && names_of(rest)[i] == a;
            assert(names_of(attrs)[i] == a);
        }
        lemma_pull_all_frame(paths, pa, rest, c1, c2);
        let k = attrs.len() - 1;
        assert(names_of(attrs)[k] == attrs.last()@);
        assert(names_of(attrs).to_set().contains(attrs.last()@));
    }
}

/// Compilation reads the local relations and the environment only
/// through the plan's dependencies and attribute names: two settings
/// that agree on those give the same result, whatever else they hold.
pub proof fn lemma_dependencies_suffice<I: ImplContext>(
    p: Plan,
    l1: Seq<(String, Vec<(Vec<Value>, Diff)>)>,
    c1: I,
    l2: Seq<(String, Vec<(Vec<Value>, Diff)>)>,
    c2: I,
)
    requires
        same_relations(plan_deps(p), l1, c1, l2, c2),
        same_attributes(plan_attrs(p), c1, c2),
    ensures
        eval(p, l1, c1) == eval(p, l2, c2),
    decreases p,
{
    match p {
        Plan::Project(pr) => {
            lemma_dependencies_suffice(*pr.plan, l1, c1, l2, c2);
        },
        Plan::Union(u) => {
            lemma_dependencies_suffice_union(u.plans@, u.variables@, l1, c1, l2, c2);
        },
        Plan::Negate(c) => {
            lemma_dependencies_suffice(*c, l1, c1, l2, c2);
        },
        Plan::MatchA(_, a, _) => {
            assert(plan_attrs(p).contains(a@));
        },
        Plan::MatchEA(_, a, _) => {
            assert(plan_attrs(p).contains(a@));
        },
        Plan::MatchAV(_, a, _) => {
            assert(plan_attrs(p).contains(a@));
        },
        Plan::RuleExpr(_, n) => {
            assert(plan_deps(p).contains(n@));
        },
        Plan::NameExpr(_, n) => {
            assert(plan_deps(p).contains(n@));
        },
        Plan::Pull(pull) => {
            lemma_dependencies_suffice_paths(pull.paths@, l1, c1, l2, c2);
        },
        Plan::PullLevel(l) => {
            lemma_dependencies_suffice_level(l, l1, c1, l2, c2);
        },
    }
}

proof fn lemma_dependencies_suffice_level<I: ImplContext>(
    l: PullLevel,
    l1: Seq<(String, Vec<(Vec<Value>, Diff)>)>,
    c1: I,
    l2: Seq<(String, Vec<(Vec<Value>, Diff)>)>,
    c2: I,
)
    requires
        same_relations(level_deps(l), l1, c1, l2, c2),
        same_attributes(level_attrs(l), c1, c2),
    ensures
        eval_level(l, l1, c1) == eval_level(l, l2, c2),
    decreases l,
{
    let pulled = names_of(l.pull_attributes@).to_set();
    lemma_same_attributes_within(plan_attrs(*l.plan), level_attrs(l), c1, c2);
    lemma_same_attributes_within(pulled, level_attrs(l), c1, c2);
    lemma_dependencies_suffice(*l.plan, l1, c1, l2, c2);
    match eval(*l.plan, l1, c1) {
        Ok(input) => {
            lemma_pull_all_frame(input.1, names_of(l.path_attributes@), l.pull_attributes@, c1, c2);
        },
        Err(_) => {},
    }
}

proof fn lemma_dependencies_suffice_paths<I: ImplContext>(
    ps: Seq<PullLevel>,
    l1: Seq<(String, Vec<(Vec<Value>, Diff)>)>,
    c1: I,
    l2: Seq<(String, Vec<(Vec<Value>, Diff)>)>,
    c2: I,
)
    requires
        same_relations(paths_deps(ps), l1, c1, l2, c2),
        same_attributes(paths_attrs(ps), c1, c2),
    ensures
        eval_paths(ps, l1, c1) == eval_paths(ps, l2, c2),
    decreases ps,
{
    if ps.len() > 0 {
        let (a, b) = (ps.drop_last(), ps.last());
        lemma_same_relations_within(paths_deps(a), paths_deps(ps), l1, c1, l2, c2);
        lemma_same_relations_within(level_deps(b), paths_deps(ps), l1, c1, l2, c2);
        lemma_same_attributes_within(paths_attrs(a), paths_attrs(ps), c1, c2);
        lemma_same_attributes_within(level_attrs(b), paths_attrs(ps), c1, c2);
        lemma_dependencies_suffice_paths(ps.drop_last(), l1, c1, l2, c2);
        lemma_dependencies_suffice_level(ps.last(), l1, c1, l2, c2);
    }
}

} // verus!
