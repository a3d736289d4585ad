//! Query plans: their dependencies, and what each plan computes from
//! the local relations and the environment.

use vstd::prelude::*;

use crate::context::ImplContext;
use crate::project::{project_relation, projected, Project, Union};
use crate::pull::{
    all_fit, check_shapes, interleave_bag, interleave_tuples, join_into, join_paths, names_of,
    pairs_of, Bag, Pull, PullLevel,
};
use crate::relation::{
    all_of_arity, check_arity, copy_tuples, lookup_named, negate_bag, negate_tuples,
    CollectionRelation, PlanError, VariableMap,
};
use crate::value::{bag_of, lemma_bag_push, row_of, Aid, Diff, Eid, Value, ValueModel, Var};

verus! {

/// A thing that can be implemented as a relation.
pub trait Implementable {
    /// Names of the other relations that must be available before this
    /// one is implemented. Attributes are not listed.
    fn dependencies(&self) -> Vec<String>;

    /// Implements the thing as a relation.
    fn implement<I: ImplContext>(&self, local_arrangements: &VariableMap, context: &I) -> Result<
        CollectionRelation,
        PlanError,
    >;
}

/// Possible query plans.
#[derive(Debug, PartialEq, Eq, Hash, PartialOrd, Ord)]
pub enum Plan {
    /// Projection onto some of the child's variables.
    Project(Project),
    /// Union of relations projected onto the same variables.
    Union(Union),
    /// Negation of the child's multiplicities.
    Negate(Box<Plan>),
    /// Data pattern of the form `[?e a ?v]`.
    MatchA(Var, Aid, Var),
    /// Data pattern of the form `[e a ?v]`.
    MatchEA(Eid, Aid, Var),
    /// Data pattern of the form `[?e a v]`.
    MatchAV(Var, Aid, Value),
    /// Sources data from a query-local relation.
    RuleExpr(Vec<Var>, String),
    /// Sources data from a published relation.
    NameExpr(Vec<Var>, String),
    /// Pull expression.
    Pull(Pull),
    /// Single-level pull expression.
    PullLevel(PullLevel),
}

/// Names of the local or global relations that a plan reads; attribute
/// names are not among them.
pub open spec fn plan_deps(p: Plan) -> Set<Seq<char>>
    decreases p,
{
    match p {
        Plan::Project(pr) => plan_deps(*pr.plan),
        Plan::Union(u) => union_deps(u.plans@),
        Plan::Negate(c) => plan_deps(*c),
        Plan::MatchA(_, _, _) => Set::empty(),
        Plan::MatchEA(_, _, _) => Set::empty(),
        Plan::MatchAV(_, _, _) => Set::empty(),
        Plan::RuleExpr(_, n) => set![n@],
        Plan::NameExpr(_, n) => set![n@],
        Plan::Pull(pull) => paths_deps(pull.paths@),
        Plan::PullLevel(l) => level_deps(l),
    }
}

/// Names read by a pull level: those of its input plan.
pub open spec fn level_deps(l: PullLevel) -> Set<Seq<char>>
    decreases l,
{
    plan_deps(*l.plan)
}

/// Names read by any of the paths.
pub open spec fn paths_deps(ps: Seq<PullLevel>) -> Set<Seq<char>>
    decreases ps,
{
    if ps.len() == 0 {
        Set::empty()
    } else {
        paths_deps(ps.drop_last()) + level_deps(ps.last())
    }
}

/// Names read by any of the plans.
pub open spec fn union_deps(ps: Seq<Plan>) -> Set<Seq<char>>
    decreases ps,
{
    if ps.len() == 0 {
        Set::empty()
    } else {
        union_deps(ps.drop_last()) + plan_deps(ps.last())
    }
}

/// The set of names in a list.
pub open spec fn name_set(v: Seq<String>) -> Set<Seq<char>> {
    v.map_values(|s: String| s@).to_set()
}

/// Tuples `[e v]` of entity `e`, as single-value tuples `[v]`.
pub open spec fn select_entity(b: Bag, e: Eid) -> Bag
    decreases b.len(),
{
    if b.len() == 0 {
        seq![]
    } else {
        let rest = select_entity(b.drop_last(), e);
        let u = b.last();
        if u.0.len() >= 2 && u.0[0] == ValueModel::Eid(e) {
            rest.push((seq![u.0[1]], u.1))
        } else {
            rest
        }
    }
}

/// Tuples `[e v]` with value `v`, as single-value tuples `[e]`.
pub open spec fn select_value(b: Bag, v: ValueModel) -> Bag
    decreases b.len(),
{
    if b.len() == 0 {
        seq![]
    } else {
        let rest = select_value(b.drop_last(), v);
        let u = b.last();
        if u.0.len() >= 2 && u.0[1] == v {
            rest.push((seq![u.0[0]], u.1))
        } else {
            rest
        }
    }
}

/// A relation as seen by contracts: its variables and its rows.
pub type RelationModel = (Seq<Var>, Bag);

/// The relation that a plan yields, or why it cannot be compiled.
pub open spec fn eval<I: ImplContext>(
    p: Plan,
    locals: Seq<(String, Vec<(Vec<Value>, Diff)>)>,
    ctx: I,
) -> Result<RelationModel, PlanError>
    decreases p,
{
    match p {
        Plan::Project(pr) => match eval(*pr.plan, locals, ctx) {
            Err(e) => Err(e),
            Ok(input) => match projected(input, pr.variables@) {
                Ok(b) => Ok((pr.variables@, b)),
                Err(e) => Err(e),
            },
        },
        Plan::Union(u) => match eval_union(u.plans@, u.variables@, locals, ctx) {
            Ok(b) => Ok((u.variables@, b)),
            Err(e) => Err(e),
        },
        Plan::Negate(c) => match eval(*c, locals, ctx) {
            Ok(r) => Ok((r.0, negate_bag(r.1))),
            Err(e) => Err(e),
        },
        Plan::MatchA(s1, a, s2) => match ctx.global_spec(a@) {
            Some(t) => Ok((seq![s1, s2], bag_of(t@))),
            None => Err(PlanError::UnresolvedName(a)),
        },
        Plan::MatchEA(e, a, s) => match ctx.global_spec(a@) {
            Some(t) => Ok((seq![s], select_entity(bag_of(t@), e))),
            None => Err(PlanError::UnresolvedName(a)),
        },
        Plan::MatchAV(s, a, v) => match ctx.global_spec(a@) {
            Some(t) => Ok((seq![s], select_value(bag_of(t@), v@))),
            None => Err(PlanError::UnresolvedName(a)),
        },
        Plan::RuleExpr(syms, n) => match lookup_named(locals, n@) {
            Some(t) => if all_of_arity(bag_of(t@), syms@.len() as int) {
                Ok((syms@, bag_of(t@)))
            } else {
                Err(PlanError::ArityMismatch)
            },
            None => Err(PlanError::UnresolvedName(n)),
        },
        Plan::NameExpr(syms, n) => match ctx.global_spec(n@) {
            Some(t) => if all_of_arity(bag_of(t@), syms@.len() as int) {
                Ok((syms@, bag_of(t@)))
            } else {
                Err(PlanError::ArityMismatch)
            },
            None => Err(PlanError::UnresolvedName(n)),
        },
        Plan::Pull(pull) => match eval_paths(pull.paths@, locals, ctx) {
            Ok(b) => Ok((seq![], b)),
            Err(e) => Err(e),
        },
        Plan::PullLevel(l) => eval_level(l, locals, ctx),
    }
}

/// The rows of all plans projected onto `vars`, in plan order, or the
/// first error.
pub open spec fn eval_union<I: ImplContext>(
    ps: Seq<Plan>,
    vars: Seq<Var>,
    locals: Seq<(String, Vec<(Vec<Value>, Diff)>)>,
    ctx: I,
) -> Result<Bag, PlanError>
    decreases ps,
{
    if ps.len() == 0 {
        Ok(seq![])
    } else {
        match eval_union(ps.drop_last(), vars, locals, ctx) {
            Err(e) => Err(e),
            Ok(b) => match eval(ps.last(), locals, ctx) {
                Err(e) => Err(e),
                Ok(input) => match projected(input, vars) {
                    Ok(r) => Ok(b + r),
                    Err(e) => Err(e),
                },
            },
        }
    }
}

/// Rows pulled for each attribute in turn, or the first attribute that
/// has no forward index.
pub open spec fn pull_all<I: ImplContext>(
    paths: Bag,
    pa: Seq<Seq<char>>,
    attrs: Seq<Aid>,
    ctx: I,
) -> Result<Bag, PlanError>
    decreases attrs.len(),
{
    if attrs.len() == 0 {
        Ok(seq![])
    } else {
        match pull_all(paths, pa, attrs.drop_last(), ctx) {
            Err(e) => Err(e),
            Ok(b) => match ctx.forward_spec(attrs.last()@) {
                None => Err(PlanError::UnresolvedName(attrs.last())),
                Some(ix) => Ok(b + join_paths(paths, pa, attrs.last()@, pairs_of(ix@))),
            },
        }
    }
}

/// The relation that a pull level yields.
pub open spec fn eval_level<I: ImplContext>(
    l: PullLevel,
    locals: Seq<(String, Vec<(Vec<Value>, Diff)>)>,
    ctx: I,
) -> Result<RelationModel, PlanError>
    decreases l,
{
    match eval(*l.plan, locals, ctx) {
        Err(e) => Err(e),
        Ok(input) => if l.pull_attributes@.len() == 0 && l.path_attributes@.len() == 0 {
            Ok(input)
        } else if !all_fit(input.1, l.path_attributes@.len() as int) {
            Err(PlanError::ShapeMismatch)
        } else if l.pull_attributes@.len() == 0 {
            Ok((seq![], interleave_bag(input.1, names_of(l.path_attributes@))))
        } else {
            match pull_all(input.1, names_of(l.path_attributes@), l.pull_attributes@, ctx) {
                Ok(b) => Ok((seq![], b)),
                Err(e) => Err(e),
            }
        },
    }
}

/// The rows of all paths, in path order, or the first error.
pub open spec fn eval_paths<I: ImplContext>(
    ps: Seq<PullLevel>,
    locals: Seq<(String, Vec<(Vec<Value>, Diff)>)>,
    ctx: I,
) -> Result<Bag, PlanError>
    decreases ps,
{
    if ps.len() == 0 {
        Ok(seq![])
    } else {
        match eval_paths(ps.drop_last(), locals, ctx) {
            Err(e) => Err(e),
            Ok(b) => match eval_level(ps.last(), locals, ctx) {
                Ok(r) => Ok(b + r.1),
                Err(e) => Err(e),
            },
        }
    }
}

/// A compilation result as seen by contracts.
pub open spec fn result_model(r: Result<CollectionRelation, PlanError>) -> Result<RelationModel, PlanError> {
    match r {
        Ok(rel) => Ok(rel@),
        Err(e) => Err(e),
    }
}

/// Once the attributes up to `k` fail, all of them fail the same way.
proof fn lemma_pull_all_stops<I: ImplContext>(
    paths: Bag,
    pa: Seq<Seq<char>>,
    attrs: Seq<Aid>,
    k: int,
    ctx: I,
)
    requires
        0 <= k <= attrs.len(),
        pull_all(paths, pa, attrs.subrange(0, k), ctx) is Err,
    ensures
        pull_all(paths, pa, attrs, ctx) == pull_all(paths, pa, attrs.subrange(0, k), ctx),
    decreases attrs.len() - k,
{
    if k < attrs.len() {
        assert(attrs.subrange(0, k + 1).drop_last() =~= attrs.subrange(0, k));
        lemma_pull_all_stops(paths, pa, attrs, k + 1, ctx);
    } else {
        assert(attrs.subrange(0, k) =~= attrs);
    }
}

/// Once the paths up to `k` fail, all of them fail the same way.
proof fn lemma_eval_paths_stops<I: ImplContext>(
    ps: Seq<PullLevel>,
    k: int,
    locals: Seq<(String, Vec<(Vec<Value>, Diff)>)>,
    ctx: I,
)
    requires
        0 <= k <= ps.len(),
        eval_paths(ps.subrange(0, k), locals, ctx) is Err,
    ensures
        eval_paths(ps, locals, ctx) == eval_paths(ps.subrange(0, k), locals, ctx),
    decreases ps.len() - k,
{
    if k < ps.len() {
        assert(ps.subrange(0, k + 1).drop_last() =~= ps.subrange(0, k));
        lemma_eval_paths_stops(ps, k + 1, locals, ctx);
    } else {
        assert(ps.subrange(0, k) =~= ps);
    }
}

/// Once the plans up to `k` fail, all of them fail the same way.
proof fn lemma_eval_union_stops<I: ImplContext>(
    ps: Seq<Plan>,
    vars: Seq<Var>,
    k: int,
    locals: Seq<(String, Vec<(Vec<Value>, Diff)>)>,
    ctx: I,
)
    requires
        0 <= k <= ps.len(),
        eval_union(ps.subrange(0, k), vars, locals, ctx) is Err,
    ensures
        eval_union(ps, vars, locals, ctx) == eval_union(ps.subrange(0, k), vars, locals, ctx),
    decreases ps.len() - k,
{
    if k < ps.len() {
        assert(ps.subrange(0, k + 1).drop_last() =~= ps.subrange(0, k));
        lemma_eval_union_stops(ps, vars, k + 1, locals, ctx);
    } else {
        assert(ps.subrange(0, k) =~= ps);
    }
}

/// Appends names to a list.
fn extend_names(out: &mut Vec<String>, more: Vec<String>)
    ensures
        name_set(final(out)@) == name_set(old(out)@) + name_set(more@),
{
    let ghost start = name_set(out@);
    let mut k: usize = 0;
    while k < more.len()
        invariant
            k <= more@.len(),
            name_set(out@) == start + name_set(more@.subrange(0, k as int)),
        decreases more@.len() - k,
    {
        let n = more[k].clone();
        proof {
            let f = |s: String| s@;
            assert(out@.push(n).map_values(f) =~= out@.map_values(f).push(n@));
            out@.map_values(f).lemma_push_to_set_commute(n@);
            let sub = more@.subrange(0, k as int);
            assert(more@.subrange(0, k + 1) =~= sub.push(more@[k as int]));
            assert(sub.push(n).map_values(f) =~= sub.map_values(f).push(n@));
            sub.map_values(f).lemma_push_to_set_commute(n@);
            assert(start + name_set(sub).insert(n@) =~= (start + name_set(sub)).insert(n@));
        }
        out.push(n);
        k = k + 1;
    }
    assert(more@.subrange(0, more@.len() as int) == more@);
}

/// Copies a list of variables.
fn copy_vars(v: &Vec<Var>) -> (r: Vec<Var>)
    ensures
        r@ == v@,
{
    let r = v.clone();
    assert(r@ =~= v@);
    r
}

/// Tuples `[e v]` of entity `e`, as tuples `[v]`.
fn select_entity_tuples(t: &Vec<(Vec<Value>, Diff)>, e: Eid) -> (r: Vec<(Vec<Value>, Diff)>)
    ensures
        bag_of(r@) == select_entity(bag_of(t@), e),
{
    let ghost tb = bag_of(t@);
    let mut r: Vec<(Vec<Value>, Diff)> = Vec::new();
    let mut i: usize = 0;
    while i < t.len()
        invariant
            i <= t@.len(),
            tb == bag_of(t@),
            bag_of(r@) == select_entity(tb.subrange(0, i as int), e),
        decreases t@.len() - i,
    {
        let row = &t[i].0;
        assert(tb.subrange(0, i + 1).drop_last() =~= tb.subrange(0, i as int));
        assert(tb[i as int].0 == row_of(row@));
        if row.len() >= 2 {
            let hit = match &row[0] {
                Value::Eid(x) => *x == e,
                _ => false,
            };
            if hit {
                let one: Vec<Value> = vec![row[1].clone()];
                proof {
                    lemma_bag_push(r@, (one, t@[i as int].1));
                    assert(row_of(one@) =~= seq![row@[1]@]);
                }
                r.push((one, t[i].1));
            }
        }
        i = i + 1;
    }
    assert(tb.subrange(0, t@.len() as int) == tb);
    r
}

/// Tuples `[e v]` with value `v`, as tuples `[e]`.
fn select_value_tuples(t: &Vec<(Vec<Value>, Diff)>, v: &Value) -> (r: Vec<(Vec<Value>, Diff)>)
    ensures
        bag_of(r@) == select_value(bag_of(t@), v@),
{
    let ghost tb = bag_of(t@);
    let mut r: Vec<(Vec<Value>, Diff)> = Vec::new();
    let mut i: usize = 0;
    while i < t.len()
        invariant
            i <= t@.len(),
            tb == bag_of(t@),
            bag_of(r@) == select_value(tb.subrange(0, i as int), v@),
        decreases t@.len() - i,
    {
        let row = &t[i].0;
        assert(tb.subrange(0, i + 1).drop_last() =~= tb.subrange(0, i as int));
        assert(tb[i as int].0 == row_of(row@));
        if row.len() >= 2 && row[1].equals(v) {
            let one: Vec<Value> = vec![row[0].clone()];
            proof {
                lemma_bag_push(r@, (one, t@[i as int].1));
                assert(row_of(one@) =~= seq![row@[0]@]);
            }
            r.push((one, t[i].1));
        }
        i = i + 1;
    }
    assert(tb.subrange(0, t@.len() as int) == tb);
    r
}

impl Plan {
    /// Names of the local or global relations that must be resolvable
    /// before this plan is implemented. Attributes are not listed.
    pub fn dependencies(&self) -> (r: Vec<String>)
        ensures
            name_set(r@) == plan_deps(*self),
        decreases self,
    {
        match self {
            Plan::Project(pr) => pr.plan.dependencies(),
            Plan::Union(u) => u.dependencies(),
            Plan::Negate(c) => c.dependencies(),
            Plan::RuleExpr(_, n) => {
                let r = vec![n.clone()];
                proof {
                    let f = |s: String| s@;
                    assert(r@.map_values(f) =~= Seq::<Seq<char>>::empty().push(n@));
                    Seq::<Seq<char>>::empty().lemma_push_to_set_commute(n@);
                    assert(Seq::<Seq<char>>::empty().to_set() =~= Set::empty());
                    assert(Set::<Seq<char>>::empty().insert(n@) =~= set![n@]);
                }
                r
            },
            Plan::NameExpr(_, n) => {
                let r = vec![n.clone()];
                proof {
                    let f = |s: String| s@;
                    assert(r@.map_values(f) =~= Seq::<Seq<char>>::empty().push(n@));
                    Seq::<Seq<char>>::empty().lemma_push_to_set_commute(n@);
                    assert(Seq::<Seq<char>>::empty().to_set() =~= Set::empty());
                    assert(Set::<Seq<char>>::empty().insert(n@) =~= set![n@]);
                }
                r
            },
            Plan::Pull(pull) => pull.dependencies(),
            Plan::PullLevel(l) => l.dependencies(),
            _ => {
                let r: Vec<String> = Vec::new();
                assert(name_set(r@) =~= Set::empty());
                r
            },
        }
    }

    /// Implements the plan as a relation, from the relations local to the
    /// rule and the environment. Fails on the first name that is not
    /// registered, and on tuples whose shape does not fit.
    pub fn implement<I: ImplContext>(&self, local_arrangements: &VariableMap, context: &I) -> (r:
        Result<CollectionRelation, PlanError>)
        ensures
            result_model(r) == eval(*self, local_arrangements.entries@, *context),
        decreases self,
    {
        match self {
            Plan::Project(pr) => match pr.plan.implement(local_arrangements, context) {
                Err(e) => Err(e),
                Ok(input) => match project_relation(&input, &pr.variables) {
                    Ok(tuples) => Ok(CollectionRelation { symbols: copy_vars(&pr.variables), tuples }),
                    Err(e) => Err(e),
                },
            },
            Plan::Union(u) => u.implement(local_arrangements, context),
            Plan::Negate(c) => match c.implement(local_arrangements, context) {
                Ok(rel) => {
                    let tuples = negate_tuples(&rel.tuples);
                    Ok(CollectionRelation { symbols: rel.symbols, tuples })
                },
                Err(e) => Err(e),
            },
            Plan::MatchA(s1, a, s2) => match context.global_arrangement(a) {
                Some(t) => {
                    let symbols: Vec<Var> = vec![*s1, *s2];
                    assert(symbols@ =~= seq![*s1, *s2]);
                    Ok(CollectionRelation { symbols, tuples: copy_tuples(t) })
                },
                None => Err(PlanError::UnresolvedName(a.clone())),
            },
            Plan::MatchEA(e, a, s1) => match context.global_arrangement(a) {
                Some(t) => {
                    let symbols: Vec<Var> = vec![*s1];
                    assert(symbols@ =~= seq![*s1]);
                    Ok(CollectionRelation { symbols, tuples: select_entity_tuples(t, *e) })
                },
                None => Err(PlanError::UnresolvedName(a.clone())),
            },
            Plan::MatchAV(s1, a, v) => match context.global_arrangement(a) {
                Some(t) => {
                    let symbols: Vec<Var> = vec![*s1];
                    assert(symbols@ =~= seq![*s1]);
                    Ok(CollectionRelation { symbols, tuples: select_value_tuples(t, v) })
                },
                None => Err(PlanError::UnresolvedName(a.clone())),
            },
            Plan::RuleExpr(syms, n) => match local_arrangements.get(n) {
                Some(t) => if check_arity(t, syms.len()) {
                    Ok(CollectionRelation { symbols: copy_vars(syms), tuples: copy_tuples(t) })
                } else {
                    Err(PlanError::ArityMismatch)
                },
                None => Err(PlanError::UnresolvedName(n.clone())),
            },
            Plan::NameExpr(syms, n) => match context.global_arrangement(n) {
                Some(t) => if check_arity(t, syms.len()) {
                    Ok(CollectionRelation { symbols: copy_vars(syms), tuples: copy_tuples(t) })
                } else {
                    Err(PlanError::ArityMismatch)
                },
                None => Err(PlanError::UnresolvedName(n.clone())),
            },
            Plan::Pull(pull) => pull.implement(local_arrangements, context),
            Plan::PullLevel(l) => l.implement(local_arrangements, context),
        }
    }
}

impl PullLevel {
    /// Names of the relations read by the input plan.
    pub fn dependencies(&self) -> (r: Vec<String>)
        ensures
            name_set(r@) == level_deps(*self),
        decreases self,
    {
        self.plan.dependencies()
    }

    /// Pulls the requested attributes for the entity ending each input
    /// path. Result rows are read by position: the symbol list is empty
    /// unless the input passes through unchanged.
    pub fn implement<I: ImplContext>(&self, local_arrangements: &VariableMap, context: &I) -> (r:
        Result<CollectionRelation, PlanError>)
        ensures
            result_model(r) == eval_level(*self, local_arrangements.entries@, *context),
        decreases self,
    {
        let input = match self.plan.implement(local_arrangements, context) {
            Ok(rel) => rel,
            Err(e) => {
                return Err(e);
            },
        };
        if self.pull_attributes.len() == 0 && self.path_attributes.len() == 0 {
            return Ok(input);
        }
        if !check_shapes(&input.tuples, self.path_attributes.len()) {
            return Err(PlanError::ShapeMismatch);
        }
        if self.pull_attributes.len() == 0 {
            let tuples = interleave_tuples(&input.tuples, &self.path_attributes);
            return Ok(CollectionRelation { symbols: Vec::new(), tuples });
        }
        let ghost pb = bag_of(input.tuples@);
        let ghost pa = names_of(self.path_attributes@);
        let mut out: Vec<(Vec<Value>, Diff)> = Vec::new();
        let mut k: usize = 0;
        assert(bag_of(out@) =~= Seq::empty());
        while k < self.pull_attributes.len()
            invariant
                k <= self.pull_attributes@.len(),
                eval(*self.plan, local_arrangements.entries@, *context) == Ok::<
                    RelationModel,
                    PlanError,
                >(input@),
                pb == bag_of(input.tuples@),
                pa == names_of(self.path_attributes@),
                all_fit(pb, self.path_attributes@.len() as int),
                pull_all(pb, pa, self.pull_attributes@.subrange(0, k as int), *context) == Ok::<
                    Bag,
                    PlanError,
                >(bag_of(out@)),
            decreases self.pull_attributes@.len() - k,
        {
            let a = &self.pull_attributes[k];
            proof {
                let sub = self.pull_attributes@.subrange(0, k + 1);
                assert(sub.drop_last() =~= self.pull_attributes@.subrange(0, k as int));
                assert(sub.last() == *a);
            }
            match context.forward_index(a) {
                None => {
                    let name = a.clone();
                    proof {
                        let sub = self.pull_attributes@.subrange(0, k + 1);
                        assert(sub.drop_last() =~= self.pull_attributes@.subrange(0, k as int));
                        assert(context.forward_spec(sub.last()@) is None);
                        assert(pull_all(pb, pa, sub, *context) == Err::<Bag, PlanError>(
                            PlanError::UnresolvedName(name),
                        ));
                        lemma_pull_all_stops(pb, pa, self.pull_attributes@, k + 1, *context);
                        assert(pull_all(pb, pa, self.pull_attributes@, *context) == Err::<Bag, PlanError>(
                            PlanError::UnresolvedName(name),
                        ));
                    }
                    return Err(PlanError::UnresolvedName(name));
                },
                Some(index) => {
                    join_into(&input.tuples, &self.path_attributes, a, index, &mut out);
                },
            }
            k = k + 1;
        }
        assert(self.pull_attributes@.subrange(0, self.pull_attributes@.len() as int)
            == self.pull_attributes@);
        Ok(CollectionRelation { symbols: Vec::new(), tuples: out })
    }
}

impl Pull {
    /// Names of the relations read by any of the paths.
    pub fn dependencies(&self) -> (r: Vec<String>)
        ensures
            name_set(r@) == paths_deps(self.paths@),
        decreases self,
    {
        let mut out: Vec<String> = Vec::new();
        let mut i: usize = 0;
        assert(name_set(out@) =~= Set::empty());
        while i < self.paths.len()
            invariant
                i <= self.paths@.len(),
                name_set(out@) == paths_deps(self.paths@.subrange(0, i as int)),
            decreases self.paths@.len() - i,
        {
            proof {
                let sub = self.paths@.subrange(0, i + 1);
                assert(sub.drop_last() =~= self.paths@.subrange(0, i as int));
                assert(sub.last() == self.paths@[i as int]);
            }
            let more = self.paths[i].dependencies();
            extend_names(&mut out, more);
            i = i + 1;
        }
        assert(self.paths@.subrange(0, self.paths@.len() as int) == self.paths@);
        out
    }

    /// Implements every path and concatenates their rows, in path order.
    pub fn implement<I: ImplContext>(&self, local_arrangements: &VariableMap, context: &I) -> (r:
        Result<CollectionRelation, PlanError>)
        ensures
            result_model(r) == match eval_paths(self.paths@, local_arrangements.entries@, *context) {
                Ok(b) => Ok((Seq::<Var>::empty(), b)),
                Err(e) => Err(e),
            },
        decreases self,
    {
        let mut out: Vec<(Vec<Value>, Diff)> = Vec::new();
        let mut i: usize = 0;
        assert(bag_of(out@) =~= Seq::empty());
        while i < self.paths.len()
            invariant
                i <= self.paths@.len(),
                eval_paths(self.paths@.subrange(0, i as int), local_arrangements.entries@, *context)
                    == Ok::<Bag, PlanError>(bag_of(out@)),
            decreases self.paths@.len() - i,
        {
            proof {
                let sub = self.paths@.subrange(0, i + 1);
                assert(sub.drop_last() =~= self.paths@.subrange(0, i as int));
                assert(sub.last() == self.paths@[i as int]);
            }
            match self.paths[i].implement(local_arrangements, context) {
                Err(e) => {
                    proof {
                        lemma_eval_paths_stops(self.paths@, i + 1, local_arrangements.entries@, *context);
                    }
                    return Err(e);
                },
                Ok(rel) => {
                    let mut more = rel.tuples;
                    let ghost before = bag_of(out@);
                    let ghost added = bag_of(more@);
                    out.append(&mut more);
                    assert(bag_of(out@) =~= before + added);
                },
            }
            i = i + 1;
        }
        assert(self.paths@.subrange(0, self.paths@.len() as int) == self.paths@);
        let symbols: Vec<Var> = Vec::new();
        assert(symbols@ =~= Seq::<Var>::empty());
        Ok(CollectionRelation { symbols, tuples: out })
    }
}

impl Union {
    /// Names of the relations read by any of the plans.
    pub fn dependencies(&self) -> (r: Vec<String>)
        ensures
            name_set(r@) == union_deps(self.plans@),
        decreases self,
    {
        let mut out: Vec<String> = Vec::new();
        let mut i: usize = 0;
        assert(name_set(out@) =~= Set::empty());
        while i < self.plans.len()
            invariant
                i <= self.plans@.len(),
                name_set(out@) == union_deps(self.plans@.subrange(0, i as int)),
            decreases self.plans@.len() - i,
        {
            proof {
                let sub = self.plans@.subrange(0, i + 1);
                assert(sub.drop_last() =~= self.plans@.subrange(0, i as int));
                assert(sub.last() == self.plans@[i as int]);
            }
            let more = self.plans[i].dependencies();
            extend_names(&mut out, more);
            i = i + 1;
        }
        assert(self.plans@.subrange(0, self.plans@.len() as int) == self.plans@);
        out
    }

    /// Implements every plan, projects each relation onto the union's
    /// variables and concatenates the rows, in plan order.
    pub fn implement<I: ImplContext>(&self, local_arrangements: &VariableMap, context: &I) -> (r:
        Result<CollectionRelation, PlanError>)
        ensures
            result_model(r) == match eval_union(
                self.plans@,
                self.variables@,
                local_arrangements.entries@,
                *context,
            ) {
                Ok(b) => Ok((self.variables@, b)),
                Err(e) => Err(e),
            },
        decreases self,
    {
        let ghost vars = self.variables@;
        let ghost locals = local_arrangements.entries@;
        let mut out: Vec<(Vec<Value>, Diff)> = Vec::new();
        let mut i: usize = 0;
        assert(bag_of(out@) =~= Seq::empty());
        while i < self.plans.len()
            invariant
                i <= self.plans@.len(),
                vars == self.variables@,
                locals == local_arrangements.entries@,
                eval_union(self.plans@.subrange(0, i as int), vars, locals, *context) == Ok::<
                    Bag,
                    PlanError,
                >(bag_of(out@)),
            decreases self.plans@.len() - i,
        {
            proof {
                let sub = self.plans@.subrange(0, i + 1);
                assert(sub.drop_last() =~= self.plans@.subrange(0, i as int));
                assert(sub.last() == self.plans@[i as int]);
            }
            let input = match self.plans[i].implement(local_arrangements, context) {
                Err(e) => {
                    proof {
                        lemma_eval_union_stops(self.plans@, vars, i + 1, locals, *context);
                    }
                    return Err(e);
                },
                Ok(rel) => rel,
            };
            match project_relation(&input, &self.variables) {
                Err(e) => {
                    proof {
                        lemma_eval_union_stops(self.plans@, vars, i + 1, locals, *context);
                    }
                    return Err(e);
                },
                Ok(more) => {
                    let mut more = more;
                    let ghost before = bag_of(out@);
                    let ghost added = bag_of(more@);
                    out.append(&mut more);
                    assert(bag_of(out@) =~= before + added);
                },
            }
            i = i + 1;
        }
        assert(self.plans@.subrange(0, self.plans@.len() as int) == self.plans@);
        Ok(CollectionRelation { symbols: copy_vars(&self.variables), tuples: out })
    }
}

impl Implementable for Plan {
    fn dependencies(&self) -> Vec<String> {
        Plan::dependencies(self)
    }

    fn implement<I: ImplContext>(&self, local_arrangements: &VariableMap, context: &I) -> Result<
        CollectionRelation,
        PlanError,
    > {
        Plan::implement(self, local_arrangements, context)
    }
}

impl Implementable for PullLevel {
    fn dependencies(&self) -> Vec<String> {
        PullLevel::dependencies(self)
    }

    fn implement<I: ImplContext>(&self, local_arrangements: &VariableMap, context: &I) -> Result<
        CollectionRelation,
        PlanError,
    > {
        PullLevel::implement(self, local_arrangements, context)
    }
}

impl Implementable for Union {
    fn dependencies(&self) -> Vec<String> {
        Union::dependencies(self)
    }

    fn implement<I: ImplContext>(&self, local_arrangements: &VariableMap, context: &I) -> Result<
        CollectionRelation,
        PlanError,
    > {
        Union::implement(self, local_arrangements, context)
    }
}

impl Implementable for Pull {
    fn dependencies(&self) -> Vec<String> {
        Pull::dependencies(self)
    }

    fn implement<I: ImplContext>(&self, local_arrangements: &VariableMap, context: &I) -> Result<
        CollectionRelation,
        PlanError,
    > {
        Pull::implement(self, local_arrangements, context)
    }
}

} // verus!
