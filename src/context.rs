//! The environment through which plans resolve rules, published
//! relations and attribute indices.

use vstd::prelude::*;

use crate::plan::Plan;
use crate::relation::{find_named, lookup_named};
use crate::value::{bag_of, lemma_bag_push, row_of, Diff, Value, ValueModel};

verus! {

/// A named rule: the plan that defines it.
#[derive(Debug)]
pub struct Rule {
    /// Name under which the rule is registered.
    pub name: String,
    /// Plan computing the rule's relation.
    pub plan: Plan,
}

/// Lookups of named state needed while implementing plans. Each lookup
/// gives `None` when nothing is registered under the name.
pub trait ImplContext {
    /// The rule registered under `name`.
    spec fn rule_spec(&self, name: Seq<char>) -> Option<Rule>;

    /// The published relation (or base attribute, as `[e v]` tuples)
    /// registered under `name`.
    spec fn global_spec(&self, name: Seq<char>) -> Option<Vec<(Vec<Value>, Diff)>>;

    /// The attribute `name` as `(entity, value)` pairs.
    spec fn forward_spec(&self, name: Seq<char>) -> Option<Vec<(Value, Value)>>;

    /// The attribute `name` as `(value, entity)` pairs.
    spec fn reverse_spec(&self, name: Seq<char>) -> Option<Vec<(Value, Value)>>;

    /// Returns the rule registered under `name`.
    fn rule(&self, name: &String) -> (r: Option<&Rule>)
        ensures
            r matches Some(x) ==> self.rule_spec(name@) == Some(*x),
            r is None ==> self.rule_spec(name@) is None,
    ;

    /// Returns the published relation registered under `name`.
    fn global_arrangement(&self, name: &String) -> (r: Option<&Vec<(Vec<Value>, Diff)>>)
        ensures
            r matches Some(x) ==> self.global_spec(name@) == Some(*x),
            r is None ==> self.global_spec(name@) is None,
    ;

    /// Returns the attribute `name` arranged from entity to value.
    fn forward_index(&self, name: &String) -> (r: Option<&Vec<(Value, Value)>>)
        ensures
            r matches Some(x) ==> self.forward_spec(name@) == Some(*x),
            r is None ==> self.forward_spec(name@) is None,
    ;

    /// Returns the attribute `name` arranged from value to entity.
    fn reverse_index(&self, name: &String) -> (r: Option<&Vec<(Value, Value)>>)
        ensures
            r matches Some(x) ==> self.reverse_spec(name@) == Some(*x),
            r is None ==> self.reverse_spec(name@) is None,
    ;
}

/// The `[e v]` tuples of an attribute's facts, each counted once.
pub open spec fn fact_bag(facts: Seq<(Value, Value)>) -> Seq<(Seq<ValueModel>, Diff)> {
    facts.map_values(|f: (Value, Value)| (seq![f.0@, f.1@], 1isize))
}

/// The facts with entity and value swapped.
pub open spec fn swapped(facts: Seq<(Value, Value)>) -> Seq<(ValueModel, ValueModel)> {
    facts.map_values(|f: (Value, Value)| (f.1@, f.0@))
}

/// An environment held in memory: the first registration of a name wins.
pub struct Environment {
    /// Registered rules.
    pub rules: Vec<(String, Rule)>,
    /// Published relations and base attributes, as tuples.
    pub relations: Vec<(String, Vec<(Vec<Value>, Diff)>)>,
    /// Attributes as `(entity, value)` pairs.
    pub forward: Vec<(String, Vec<(Value, Value)>)>,
    /// Attributes as `(value, entity)` pairs.
    pub reverse: Vec<(String, Vec<(Value, Value)>)>,
}

impl ImplContext for Environment {
    open spec fn rule_spec(&self, name: Seq<char>) -> Option<Rule> {
        lookup_named(self.rules@, name)
    }

    open spec fn global_spec(&self, name: Seq<char>) -> Option<Vec<(Vec<Value>, Diff)>> {
        lookup_named(self.relations@, name)
    }

    open spec fn forward_spec(&self, name: Seq<char>) -> Option<Vec<(Value, Value)>> {
        lookup_named(self.forward@, name)
    }

    open spec fn reverse_spec(&self, name: Seq<char>) -> Option<Vec<(Value, Value)>> {
        lookup_named(self.reverse@, name)
    }

    fn rule(&self, name: &String) -> (r: Option<&Rule>) {
        find_named(&self.rules, name)
    }

    fn global_arrangement(&self, name: &String) -> (r: Option<&Vec<(Vec<Value>, Diff)>>) {
        find_named(&self.relations, name)
    }

    fn forward_index(&self, name: &String) -> (r: Option<&Vec<(Value, Value)>>) {
        find_named(&self.forward, name)
    }

    fn reverse_index(&self, name: &String) -> (r: Option<&Vec<(Value, Value)>>) {
        find_named(&self.reverse, name)
    }
}

impl Environment {
    /// An environment with nothing registered.
    pub fn new() -> (r: Environment)
        ensures
            r.rules@.len() == 0,
            r.relations@.len() == 0,
            r.forward@.len() == 0,
            r.reverse@.len() == 0,
    {
        Environment { rules: Vec::new(), relations: Vec::new(), forward: Vec::new(), reverse: Vec::new() }
    }

    /// Registers a rule under its name.
    pub fn add_rule(&mut self, rule: Rule)
        ensures
            final(self).rules@.len() == old(self).rules@.len() + 1,
            final(self).rules@.drop_last() == old(self).rules@,
            final(self).rules@.last().0 == rule.name,
            final(self).relations == old(self).relations,
            final(self).forward == old(self).forward,
            final(self).reverse == old(self).reverse,
    {
        let name = rule.name.clone();
        self.rules.push((name, rule));
    }

    /// Publishes a relation under `name`.
    pub fn add_relation(&mut self, name: String, tuples: Vec<(Vec<Value>, Diff)>)
        ensures
            final(self).relations@ == old(self).relations@.push((name, tuples)),
            final(self).rules == old(self).rules,
            final(self).forward == old(self).forward,
            final(self).reverse == old(self).reverse,
    {
        self.relations.push((name, tuples));
    }

    /// Registers attribute `name` with its `(entity, value)` facts: as a
    /// relation of `[e v]` tuples, and as forward and reverse indices.
    pub fn add_attribute(&mut self, name: String, facts: Vec<(Value, Value)>)
        ensures
            final(self).relations@.len() == old(self).relations@.len() + 1,
            final(self).relations@.drop_last() == old(self).relations@,
            final(self).relations@.last().0 == name,
            bag_of(final(self).relations@.last().1@) == fact_bag(facts@),
            final(self).forward@ == old(self).forward@.push((name, facts)),
            final(self).reverse@.len() == old(self).reverse@.len() + 1,
            final(self).reverse@.drop_last() == old(self).reverse@,
            final(self).reverse@.last().0 == name,
            swapped(final(self).reverse@.last().1@) == facts@.map_values(
                |f: (Value, Value)| (f.0@, f.1@),
            ),
            final(self).rules == old(self).rules,
    {
        let ghost before_relations = self.relations@;
        let ghost before_reverse = self.reverse@;
        let mut tuples: Vec<(Vec<Value>, Diff)> = Vec::new();
        let mut back: Vec<(Value, Value)> = Vec::new();
        let mut i: usize = 0;
        while i < facts.len()
            invariant
                i <= facts@.len(),
                bag_of(tuples@) == fact_bag(facts@.subrange(0, i as int)),
                swapped(back@) == facts@.subrange(0, i as int).map_values(
                    |f: (Value, Value)| (f.0@, f.1@),
                ),
            decreases facts@.len() - i,
        {
            let e = facts[i].0.clone();
            let v = facts[i].1.clone();
            let row: Vec<Value> = vec![e.clone(), v.clone()];
            proof {
                assert(row_of(row@) =~= seq![facts@[i as int].0@, facts@[i as int].1@]);
                lemma_bag_push(tuples@, (row, 1isize));
                assert(facts@.subrange(0, i + 1) == facts@.subrange(0, i as int).push(facts@[i as int]));
                assert(bag_of(tuples@.push((row, 1isize))) =~= fact_bag(facts@.subrange(0, i + 1)));
                assert(swapped(back@.push((v, e))) =~= swapped(back@).push((e@, v@)));
                let g = |f: (Value, Value)| (f.0@, f.1@);
                assert(facts@.subrange(0, i + 1).map_values(g) =~= facts@.subrange(0, i as int).map_values(g).push(g(facts@[i as int])));
                assert(swapped(back@.push((v, e))) =~= facts@.subrange(0, i + 1).map_values(
                    |f: (Value, Value)| (f.0@, f.1@),
                ));
            }
            tuples.push((row, 1));
            back.push((v, e));
            i = i + 1;
        }
        assert(facts@.subrange(0, facts@.len() as int) == facts@);
        let n2 = name.clone();
        let n3 = name.clone();
        self.relations.push((name, tuples));
        self.forward.push((n2, facts));
        self.reverse.push((n3, back));
        assert(self.relations@.drop_last() =~= before_relations);
        assert(self.reverse@.drop_last() =~= before_reverse);
    }
}

} // verus!
