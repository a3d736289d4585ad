use declarative_dataflow::{
    Environment, ImplContext, Implementable, Plan, PlanError, Pull, PullLevel, Rule, Value,
    VariableMap,
};

fn s(x: &str) -> String {
    x.to_string()
}

fn level(plan: Plan, pull: &[&str], path: &[&str]) -> PullLevel {
    PullLevel {
        variables: vec![],
        plan: Box::new(plan),
        pull_attributes: pull.iter().map(|a| s(a)).collect(),
        path_attributes: path.iter().map(|a| s(a)).collect(),
    }
}

fn sorted(mut v: Vec<String>) -> Vec<String> {
    v.sort();
    v.dedup();
    v
}

#[test]
fn pull_level_retrieves_one_attribute() {
    let mut env = Environment::new();
    env.add_attribute(s("name"), vec![(Value::Eid(1), Value::String(s("Alice")))]);
    let mut locals = VariableMap::new();
    locals.insert(s("entities"), vec![(vec![Value::Eid(1)], 1)]);
    let plan = Plan::PullLevel(level(Plan::RuleExpr(vec![0], s("entities")), &["name"], &[]));
    let rel = plan.implement(&locals, &env).unwrap();
    assert!(rel.symbols.is_empty());
    assert_eq!(
        rel.tuples,
        vec![(vec![Value::Eid(1), Value::Aid(s("name")), Value::String(s("Alice"))], 1)]
    );
}

#[test]
fn pull_concatenates_paths() {
    let mut env = Environment::new();
    env.add_attribute(s("a"), vec![(Value::Eid(5), Value::Number(1))]);
    env.add_attribute(s("b"), vec![(Value::Eid(5), Value::Number(2))]);
    let mut locals = VariableMap::new();
    locals.insert(s("p"), vec![(vec![Value::Eid(5)], 1)]);
    let pull = Pull {
        variables: vec![],
        paths: vec![
            level(Plan::RuleExpr(vec![0], s("p")), &["a"], &[]),
            level(Plan::RuleExpr(vec![0], s("p")), &["b"], &[]),
        ],
    };
    let rel = Plan::Pull(pull).implement(&locals, &env).unwrap();
    assert_eq!(rel.tuples.len(), 2);
    let first = (vec![Value::Eid(5), Value::Aid(s("a")), Value::Number(1)], 1);
    let second = (vec![Value::Eid(5), Value::Aid(s("b")), Value::Number(2)], 1);
    assert!(rel.tuples.contains(&first));
    assert!(rel.tuples.contains(&second));
}

#[test]
fn unresolved_attribute_is_an_error() {
    let env = Environment::new();
    let locals = VariableMap::new();
    let r = Plan::MatchA(0, s("missing-attr"), 1).implement(&locals, &env);
    assert_eq!(r.unwrap_err(), PlanError::UnresolvedName(s("missing-attr")));
}

#[test]
fn match_patterns_read_the_same_triples() {
    let mut env = Environment::new();
    env.add_attribute(
        s("attr"),
        vec![
            (Value::Eid(1), Value::String(s("x"))),
            (Value::Eid(2), Value::String(s("x"))),
            (Value::Eid(1), Value::String(s("y"))),
        ],
    );
    let locals = VariableMap::new();
    let by_value = Plan::MatchAV(0, s("attr"), Value::String(s("x")))
        .implement(&locals, &env)
        .unwrap();
    assert_eq!(by_value.symbols, vec![0]);
    assert_eq!(
        by_value.tuples,
        vec![(vec![Value::Eid(1)], 1), (vec![Value::Eid(2)], 1)]
    );
    let by_entity = Plan::MatchEA(1, s("attr"), 3).implement(&locals, &env).unwrap();
    assert_eq!(by_entity.symbols, vec![3]);
    assert_eq!(
        by_entity.tuples,
        vec![(vec![Value::String(s("x"))], 1), (vec![Value::String(s("y"))], 1)]
    );
    let both = Plan::MatchA(4, s("attr"), 5).implement(&locals, &env).unwrap();
    assert_eq!(both.symbols, vec![4, 5]);
    assert_eq!(both.tuples.len(), 3);
}

#[test]
fn negating_twice_restores_multiplicities() {
    let env = Environment::new();
    let mut locals = VariableMap::new();
    locals.insert(s("r"), vec![(vec![Value::Number(1)], 3), (vec![Value::Number(2)], -1)]);
    let base = Plan::RuleExpr(vec![0], s("r"));
    let once = Plan::Negate(Box::new(Plan::RuleExpr(vec![0], s("r"))));
    let twice = Plan::Negate(Box::new(Plan::Negate(Box::new(Plan::RuleExpr(vec![0], s("r"))))));
    let once = once.implement(&locals, &env).unwrap();
    assert_eq!(
        once.tuples,
        vec![(vec![Value::Number(1)], -3), (vec![Value::Number(2)], 1)]
    );
    let twice = twice.implement(&locals, &env).unwrap();
    let base = base.implement(&locals, &env).unwrap();
    assert_eq!(twice.tuples, base.tuples);
    assert_eq!(twice.symbols, vec![0]);
}

#[test]
fn negating_the_most_negative_multiplicity_keeps_it() {
    let env = Environment::new();
    let mut locals = VariableMap::new();
    locals.insert(s("r"), vec![(vec![Value::Bool(true)], isize::MIN)]);
    let rel = Plan::Negate(Box::new(Plan::RuleExpr(vec![0], s("r"))))
        .implement(&locals, &env)
        .unwrap();
    assert_eq!(rel.tuples, vec![(vec![Value::Bool(true)], isize::MIN)]);
}

#[test]
fn dependencies_list_relation_names_only() {
    assert!(Plan::MatchA(0, s("a"), 1).dependencies().is_empty());
    assert!(Plan::MatchEA(3, s("a"), 1).dependencies().is_empty());
    assert!(Plan::MatchAV(0, s("a"), Value::Number(4)).dependencies().is_empty());
    assert_eq!(Plan::RuleExpr(vec![0], s("r")).dependencies(), vec![s("r")]);
    assert_eq!(Plan::NameExpr(vec![0], s("q")).dependencies(), vec![s("q")]);
    let neg = Plan::Negate(Box::new(Plan::NameExpr(vec![0], s("q"))));
    assert_eq!(neg.dependencies(), vec![s("q")]);
    let pull = Plan::Pull(Pull {
        variables: vec![],
        paths: vec![
            level(Plan::NameExpr(vec![0], s("x")), &["a"], &[]),
            level(Plan::RuleExpr(vec![0], s("y")), &["b"], &[]),
        ],
    });
    assert_eq!(sorted(pull.dependencies()), vec![s("x"), s("y")]);
    let lvl = level(Plan::RuleExpr(vec![0], s("z")), &["a"], &[]);
    assert_eq!(lvl.dependencies(), vec![s("z")]);
}

#[test]
fn dependencies_are_exactly_what_compilation_needs() {
    let pull = Plan::Pull(Pull {
        variables: vec![],
        paths: vec![
            level(Plan::NameExpr(vec![0], s("x")), &[], &[]),
            level(Plan::RuleExpr(vec![0], s("y")), &[], &[]),
        ],
    });
    let mut env = Environment::new();
    env.add_relation(s("x"), vec![(vec![Value::Eid(1)], 1)]);
    let mut locals = VariableMap::new();
    assert_eq!(
        pull.implement(&locals, &env).unwrap_err(),
        PlanError::UnresolvedName(s("y"))
    );
    locals.insert(s("y"), vec![(vec![Value::Eid(2)], 1)]);
    let rel = pull.implement(&locals, &env).unwrap();
    assert_eq!(rel.tuples, vec![(vec![Value::Eid(1)], 1), (vec![Value::Eid(2)], 1)]);
    let env = Environment::new();
    assert_eq!(
        pull.implement(&locals, &env).unwrap_err(),
        PlanError::UnresolvedName(s("x"))
    );
}

#[test]
fn rule_expression_checks_arity() {
    let env = Environment::new();
    let mut locals = VariableMap::new();
    locals.insert(s("r"), vec![(vec![Value::Eid(1)], 1)]);
    let r = Plan::RuleExpr(vec![0, 1], s("r")).implement(&locals, &env);
    assert_eq!(r.unwrap_err(), PlanError::ArityMismatch);
    let ok = Plan::RuleExpr(vec![7], s("r")).implement(&locals, &env).unwrap();
    assert_eq!(ok.symbols, vec![7]);
}

#[test]
fn name_expression_reads_published_relation() {
    let mut env = Environment::new();
    env.add_relation(s("q"), vec![(vec![Value::Eid(1), Value::Number(2)], 2)]);
    let locals = VariableMap::new();
    let rel = Plan::NameExpr(vec![3, 4], s("q")).implement(&locals, &env).unwrap();
    assert_eq!(rel.symbols, vec![3, 4]);
    assert_eq!(rel.tuples, vec![(vec![Value::Eid(1), Value::Number(2)], 2)]);
    let bad = Plan::NameExpr(vec![3], s("q")).implement(&locals, &env);
    assert_eq!(bad.unwrap_err(), PlanError::ArityMismatch);
    let missing = Plan::NameExpr(vec![3], s("nope")).implement(&locals, &env);
    assert_eq!(missing.unwrap_err(), PlanError::UnresolvedName(s("nope")));
}

#[test]
fn rule_expression_missing_local_is_an_error() {
    let mut env = Environment::new();
    env.add_relation(s("r"), vec![]);
    let locals = VariableMap::new();
    let r = Plan::RuleExpr(vec![0], s("r")).implement(&locals, &env);
    assert_eq!(r.unwrap_err(), PlanError::UnresolvedName(s("r")));
}

#[test]
fn pull_level_without_attributes_passes_input_through() {
    let env = Environment::new();
    let mut locals = VariableMap::new();
    locals.insert(s("p"), vec![(vec![Value::Eid(1), Value::Eid(2)], 1)]);
    let plan = Plan::PullLevel(level(Plan::RuleExpr(vec![0, 1], s("p")), &[], &[]));
    let rel = plan.implement(&locals, &env).unwrap();
    assert_eq!(rel.symbols, vec![0, 1]);
    assert_eq!(rel.tuples, vec![(vec![Value::Eid(1), Value::Eid(2)], 1)]);
}

#[test]
fn pull_level_labels_paths() {
    let env = Environment::new();
    let mut locals = VariableMap::new();
    locals.insert(s("p"), vec![(vec![Value::Eid(1), Value::Eid(2)], 1)]);
    let plan = Plan::PullLevel(level(Plan::RuleExpr(vec![0, 1], s("p")), &[], &["parent/child"]));
    let rel = plan.implement(&locals, &env).unwrap();
    assert!(rel.symbols.is_empty());
    assert_eq!(
        rel.tuples,
        vec![(vec![Value::Eid(1), Value::Aid(s("parent/child")), Value::Eid(2)], 1)]
    );
}

#[test]
fn pull_level_nested_path_with_attribute() {
    let mut env = Environment::new();
    env.add_attribute(
        s("child/name"),
        vec![
            (Value::Eid(2), Value::String(s("Bob"))),
            (Value::Eid(3), Value::String(s("Eve"))),
        ],
    );
    let mut locals = VariableMap::new();
    locals.insert(s("p"), vec![(vec![Value::Eid(1), Value::Eid(2)], 2)]);
    let plan = Plan::PullLevel(level(
        Plan::RuleExpr(vec![0, 1], s("p")),
        &["child/name"],
        &["parent/child"],
    ));
    let rel = plan.implement(&locals, &env).unwrap();
    assert_eq!(
        rel.tuples,
        vec![(
            vec![
                Value::Eid(1),
                Value::Aid(s("parent/child")),
                Value::Eid(2),
                Value::Aid(s("child/name")),
                Value::String(s("Bob")),
            ],
            2
        )]
    );
}

#[test]
fn pull_level_shape_mismatch_is_an_error() {
    let env = Environment::new();
    let mut locals = VariableMap::new();
    locals.insert(s("p"), vec![(vec![Value::Eid(1), Value::Eid(2), Value::Eid(3)], 1)]);
    let plan = Plan::PullLevel(level(Plan::RuleExpr(vec![0, 1, 2], s("p")), &[], &["a"]));
    assert_eq!(plan.implement(&locals, &env).unwrap_err(), PlanError::ShapeMismatch);
}

#[test]
fn pull_level_missing_forward_index_is_an_error() {
    let mut env = Environment::new();
    env.add_attribute(s("a"), vec![]);
    let mut locals = VariableMap::new();
    locals.insert(s("p"), vec![(vec![Value::Eid(1)], 1)]);
    let plan = Plan::PullLevel(level(Plan::RuleExpr(vec![0], s("p")), &["a", "gone"], &[]));
    assert_eq!(
        plan.implement(&locals, &env).unwrap_err(),
        PlanError::UnresolvedName(s("gone"))
    );
}

#[test]
fn environment_lookups() {
    let mut env = Environment::new();
    env.add_attribute(s("a"), vec![(Value::Eid(1), Value::Number(9))]);
    env.add_rule(Rule { name: s("r"), plan: Plan::MatchA(0, s("a"), 1) });
    let fwd = env.forward_index(&s("a")).unwrap();
    assert_eq!(fwd, &vec![(Value::Eid(1), Value::Number(9))]);
    let rev = env.reverse_index(&s("a")).unwrap();
    assert_eq!(rev, &vec![(Value::Number(9), Value::Eid(1))]);
    let global = env.global_arrangement(&s("a")).unwrap();
    assert_eq!(global, &vec![(vec![Value::Eid(1), Value::Number(9)], 1)]);
    assert_eq!(env.rule(&s("r")).unwrap().name, s("r"));
    assert!(env.rule(&s("other")).is_none());
    assert!(env.forward_index(&s("b")).is_none());
}

#[test]
fn variable_map_first_registration_wins() {
    let mut locals = VariableMap::new();
    locals.insert(s("r"), vec![(vec![Value::Eid(1)], 1)]);
    locals.insert(s("r"), vec![(vec![Value::Eid(2)], 1)]);
    assert_eq!(locals.get(&s("r")).unwrap(), &vec![(vec![Value::Eid(1)], 1)]);
    assert!(locals.get(&s("x")).is_none());
}

#[test]
fn value_equality_is_structural() {
    assert!(Value::Eid(1).equals(&Value::Eid(1)));
    assert!(!Value::Eid(1).equals(&Value::Number(1)));
    assert!(Value::Aid(s("a")).equals(&Value::Aid(s("a"))));
    assert!(!Value::Aid(s("a")).equals(&Value::String(s("a"))));
}
