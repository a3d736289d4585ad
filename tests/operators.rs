use declarative_dataflow::{Environment, Plan, PlanError, Project, Union, Value, VariableMap};

fn s(x: &str) -> String {
    x.to_string()
}

fn pairs() -> VariableMap {
    let mut locals = VariableMap::new();
    locals.insert(
        s("r"),
        vec![
            (vec![Value::Eid(1), Value::Number(10)], 1),
            (vec![Value::Eid(2), Value::Number(20)], -2),
        ],
    );
    locals
}

#[test]
fn project_reorders_and_drops_columns() {
    let env = Environment::new();
    let plan = Plan::Project(Project {
        variables: vec![1, 0],
        plan: Box::new(Plan::RuleExpr(vec![0, 1], s("r"))),
    });
    let rel = plan.implement(&pairs(), &env).unwrap();
    assert_eq!(rel.symbols, vec![1, 0]);
    assert_eq!(
        rel.tuples,
        vec![
            (vec![Value::Number(10), Value::Eid(1)], 1),
            (vec![Value::Number(20), Value::Eid(2)], -2),
        ]
    );
    let plan = Plan::Project(Project {
        variables: vec![1],
        plan: Box::new(Plan::RuleExpr(vec![0, 1], s("r"))),
    });
    let rel = plan.implement(&pairs(), &env).unwrap();
    assert_eq!(rel.tuples, vec![(vec![Value::Number(10)], 1), (vec![Value::Number(20)], -2)]);
}

#[test]
fn project_onto_unbound_variable_is_an_error() {
    let env = Environment::new();
    let plan = Plan::Project(Project {
        variables: vec![5],
        plan: Box::new(Plan::RuleExpr(vec![0, 1], s("r"))),
    });
    assert_eq!(plan.implement(&pairs(), &env).unwrap_err(), PlanError::UnboundVariable);
}

#[test]
fn union_projects_and_concatenates() {
    let mut env = Environment::new();
    env.add_relation(s("q"), vec![(vec![Value::Number(30), Value::Eid(3)], 1)]);
    let plan = Plan::Union(Union {
        variables: vec![0],
        plans: vec![
            Plan::RuleExpr(vec![0, 1], s("r")),
            Plan::NameExpr(vec![1, 0], s("q")),
        ],
    });
    let deps = plan.dependencies();
    assert_eq!(deps, vec![s("r"), s("q")]);
    let rel = plan.implement(&pairs(), &env).unwrap();
    assert_eq!(rel.symbols, vec![0]);
    assert_eq!(
        rel.tuples,
        vec![
            (vec![Value::Eid(1)], 1),
            (vec![Value::Eid(2)], -2),
            (vec![Value::Eid(3)], 1),
        ]
    );
}

#[test]
fn union_fails_on_first_unresolved_plan() {
    let env = Environment::new();
    let plan = Plan::Union(Union {
        variables: vec![0],
        plans: vec![
            Plan::RuleExpr(vec![0, 1], s("r")),
            Plan::NameExpr(vec![0], s("missing")),
        ],
    });
    assert_eq!(
        plan.implement(&pairs(), &env).unwrap_err(),
        PlanError::UnresolvedName(s("missing"))
    );
}

#[test]
fn empty_union_is_empty() {
    let env = Environment::new();
    let plan = Plan::Union(Union { variables: vec![0], plans: vec![] });
    let rel = plan.implement(&pairs(), &env).unwrap();
    assert!(rel.tuples.is_empty());
    assert!(plan.dependencies().is_empty());
}
