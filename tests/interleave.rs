use declarative_dataflow::{interleave, pull_row, PlanError, Value};

fn aid(s: &str) -> String {
    s.to_string()
}

#[test]
fn interleave_without_values_gives_nothing() {
    let r = interleave(&[], &[aid("a"), aid("b")]);
    assert_eq!(r, Ok(vec![]));
}

#[test]
fn interleave_without_attributes_keeps_values() {
    let values = vec![Value::Eid(1), Value::Eid(2)];
    let r = interleave(&values, &[]);
    assert_eq!(r, Ok(values));
}

#[test]
fn interleave_one_more_value_than_attributes() {
    let values = vec![Value::Eid(1), Value::Eid(2)];
    let r = interleave(&values, &[aid("parent/child")]).unwrap();
    assert_eq!(r, vec![Value::Eid(1), Value::Aid(aid("parent/child")), Value::Eid(2)]);
    assert_eq!(r.len(), 3);
}

#[test]
fn interleave_as_many_values_as_attributes() {
    let values = vec![Value::Eid(1), Value::Eid(2)];
    let r = interleave(&values, &[aid("a"), aid("b")]).unwrap();
    assert_eq!(
        r,
        vec![Value::Eid(1), Value::Aid(aid("a")), Value::Eid(2), Value::Aid(aid("b"))]
    );
}

#[test]
fn interleave_rejects_counts_that_do_not_fit() {
    let values = vec![Value::Eid(1), Value::Eid(2), Value::Eid(3)];
    assert_eq!(interleave(&values, &[aid("a")]), Err(PlanError::ShapeMismatch));
    let values = vec![Value::Eid(1)];
    assert_eq!(interleave(&values, &[aid("a"), aid("b")]), Err(PlanError::ShapeMismatch));
}

#[test]
fn pull_row_appends_attribute_and_value() {
    let path = vec![Value::Eid(7)];
    let r = pull_row(&path, &[], &aid("name"), &Value::String("Alice".to_string())).unwrap();
    assert_eq!(
        r,
        vec![Value::Eid(7), Value::Aid(aid("name")), Value::String("Alice".to_string())]
    );
}
