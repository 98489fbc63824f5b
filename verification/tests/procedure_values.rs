use candle_memory::error::GraphError;
use candle_memory::procedural::{Condition, ConditionType, Step, StepStatus};
use serde_json::Value;

fn s(t: &str) -> Value {
    Value::String(t.to_string())
}

fn object(entries: &[(&str, Value)]) -> Value {
    let mut m = serde_json::Map::new();
    for (k, v) in entries {
        m.insert(k.to_string(), v.clone());
    }
    Value::Object(m)
}

fn conversion(r: Result<Condition, GraphError>) -> String {
    match r {
        Err(GraphError::ConversionError(m)) => m,
        other => panic!("unexpected {:?}", other),
    }
}

fn step_conversion(r: Result<Step, GraphError>) -> String {
    match r {
        Err(GraphError::ConversionError(m)) => m,
        other => panic!("unexpected {:?}", other),
    }
}

#[test]
fn condition_value_roundtrip() {
    let c = Condition::postcondition("c1", "file written", s("exists(out)"), true);
    let v = c.to_value();
    assert_eq!(
        v,
        object(&[
            ("id", s("c1")),
            ("condition_type", s("postcondition")),
            ("description", s("file written")),
            ("expression", s("exists(out)")),
            ("required", Value::Bool(true)),
        ])
    );
    let back = Condition::from_value(&v).unwrap();
    assert_eq!(back.id, "c1");
    assert_eq!(back.condition_type, ConditionType::Postcondition);
    assert_eq!(back.description, "file written");
    assert_eq!(back.expression, s("exists(out)"));
    assert!(back.required);
}

#[test]
fn condition_reading_defaults_and_case() {
    let v = object(&[
        ("id", s("c2")),
        ("condition_type", s("INVARIANT")),
        ("description", s("")),
        ("expression", Value::Null),
        ("required", s("yes")),
    ]);
    let c = Condition::from_value(&v).unwrap();
    assert_eq!(c.condition_type, ConditionType::Invariant);
    assert!(!c.required);
}

#[test]
fn condition_reading_errors() {
    assert_eq!(
        conversion(Condition::from_value(&s("x"))),
        "Failed to deserialize as object: invalid type: string \"x\", expected a map"
    );
    assert_eq!(conversion(Condition::from_value(&object(&[]))), "Missing id in condition");
    assert!(conversion(Condition::from_value(&object(&[("id", Value::from(3u32))]))).starts_with("Invalid id format: "));
    assert_eq!(
        conversion(Condition::from_value(&object(&[("id", s("c"))]))),
        "Missing condition_type in condition"
    );
    match Condition::from_value(&object(&[("id", s("c")), ("condition_type", s("maybe"))])) {
        Err(GraphError::ValidationError(m)) => assert_eq!(m, "Invalid condition type: maybe"),
        other => panic!("unexpected {:?}", other),
    }
    assert_eq!(
        conversion(Condition::from_value(&object(&[("id", s("c")), ("condition_type", s("invariant"))]))),
        "Missing description in condition"
    );
    assert_eq!(
        conversion(Condition::from_value(&object(&[
            ("id", s("c")),
            ("condition_type", s("invariant")),
            ("description", s("d")),
        ]))),
        "Missing expression in condition"
    );
}

#[test]
fn step_value_roundtrip() {
    let step = Step::new("s1", "fetch", "download the file", 2, s("GET"))
        .with_status(StepStatus::Completed)
        .with_condition(Condition::prerequisite("c1", "online", Value::Bool(true), true))
        .with_condition(Condition::postcondition("c2", "stored", Value::Null, false))
        .with_dependency("s0")
        .with_result(Value::from(200u32))
        .with_metadata("attempts", Value::from(1u32));
    let v = step.to_value();
    let back = Step::from_value(&v).unwrap();
    assert_eq!(back.id, "s1");
    assert_eq!(back.name, "fetch");
    assert_eq!(back.description, "download the file");
    assert_eq!(back.order, 2);
    assert_eq!(back.action, s("GET"));
    assert_eq!(back.status, StepStatus::Completed);
    assert_eq!(back.conditions.len(), 2);
    assert_eq!(back.conditions[1].id, "c2");
    assert_eq!(back.conditions[1].condition_type, ConditionType::Postcondition);
    assert_eq!(back.dependencies, vec!["s0".to_string()]);
    assert_eq!(back.result, Some(Value::from(200u32)));
    assert!(back.error.is_none());
    assert_eq!(back.metadata.get("attempts"), Some(&Value::from(1u32)));
    assert_eq!(v["status"], s("completed"));
    assert!(v.get("error").is_none());
}

#[test]
fn step_reading_defaults_and_dropped_conditions() {
    let v = object(&[
        ("id", s("s")),
        ("name", s("n")),
        ("description", s("d")),
        ("order", Value::from(7u32)),
        ("action", Value::Null),
        ("conditions", Value::Array(vec![s("not a condition"), Condition::invariant_condition("c", "", Value::Null, true).to_value()])),
        ("error", s("boom")),
    ]);
    let step = Step::from_value(&v).unwrap();
    assert_eq!(step.status, StepStatus::Pending);
    assert_eq!(step.conditions.len(), 1);
    assert_eq!(step.conditions[0].condition_type, ConditionType::Invariant);
    assert!(step.dependencies.is_empty());
    assert!(step.result.is_none());
    assert_eq!(step.error.as_deref(), Some("boom"));
    assert_eq!(step.metadata.len(), 0);
}

#[test]
fn step_reading_errors() {
    assert_eq!(step_conversion(Step::from_value(&object(&[]))), "Missing id in step");
    assert_eq!(step_conversion(Step::from_value(&object(&[("id", s("s"))]))), "Missing name in step");
    assert_eq!(
        step_conversion(Step::from_value(&object(&[("id", s("s")), ("name", s("n"))]))),
        "Missing description in step"
    );
    let base = [("id", s("s")), ("name", s("n")), ("description", s("d"))];
    assert_eq!(step_conversion(Step::from_value(&object(&base))), "Missing order in step");
    let mut with_bad_order = base.to_vec();
    with_bad_order.push(("order", s("first")));
    assert!(step_conversion(Step::from_value(&object(&with_bad_order))).starts_with("Invalid order format: "));
    let mut without_action = base.to_vec();
    without_action.push(("order", Value::from(1u32)));
    assert_eq!(step_conversion(Step::from_value(&object(&without_action))), "Missing action in step");
    let mut bad_status = without_action.clone();
    bad_status.push(("action", Value::Null));
    bad_status.push(("status", s("sleeping")));
    match Step::from_value(&object(&bad_status)) {
        Err(GraphError::ValidationError(m)) => assert_eq!(m, "Invalid step status: sleeping"),
        other => panic!("unexpected {:?}", other),
    }
}
