use rule_engine::condition::Condition;
use rule_engine::engine::RuleExecutor;
use rule_engine::error::RuleEngineError;
use rule_engine::value::{Value, ValueMap};

fn s(text: &str) -> Value {
    Value::String(text.to_string())
}

fn fl(x: f64) -> Value {
    Value::Float(x.to_bits())
}

fn facts_of(pairs: Vec<(&str, Value)>) -> ValueMap {
    let mut m = ValueMap::new();
    for (k, v) in pairs {
        m.insert(k.to_string(), v);
    }
    m
}

fn eq(field: &str, value: Value) -> Condition {
    Condition::Equals { field: field.to_string(), value }
}

fn gt(field: &str, value: Value) -> Condition {
    Condition::GreaterThan { field: field.to_string(), value }
}

fn lt(field: &str, value: Value) -> Condition {
    Condition::LessThan { field: field.to_string(), value }
}

fn has(field: &str, value: Value) -> Condition {
    Condition::Contains { field: field.to_string(), value }
}

fn eval(c: &Condition, facts: &ValueMap) -> Result<bool, RuleEngineError> {
    RuleExecutor::new().evaluate_condition(c, facts)
}

fn amount_facts(x: i64) -> ValueMap {
    facts_of(vec![("amount", Value::Int(x))])
}

#[test]
fn greater_than_has_no_off_by_one() {
    let engine = RuleExecutor::new();
    let c = gt("amount", Value::Int(10000));
    assert!(matches!(engine.evaluate_condition(&c, &amount_facts(10001)), Ok(true)));
    assert!(matches!(engine.evaluate_condition(&c, &amount_facts(10000)), Ok(false)));
    assert!(matches!(engine.evaluate_condition(&c, &amount_facts(9999)), Ok(false)));
    assert!(matches!(engine.evaluate_condition(&c, &amount_facts(i64::MAX)), Ok(true)));
    assert!(matches!(engine.evaluate_condition(&c, &amount_facts(i64::MIN)), Ok(false)));
}

#[test]
fn missing_field_is_an_evaluation_error() {
    let engine = RuleExecutor::new();
    let c = Condition::Equals { field: "currency".to_string(), value: Value::Null };
    match engine.evaluate_condition(&c, &amount_facts(1)) {
        Err(RuleEngineError::EvaluationError(m)) => assert_eq!(m, "字段不存在: currency"),
        other => panic!("unexpected: {:?}", other),
    }
}

#[test]
fn equals_does_not_coerce_numbers() {
    let f = facts_of(vec![("n", Value::Int(5)), ("x", fl(5.0))]);
    assert!(matches!(eval(&eq("n", fl(5.0)), &f), Ok(false)));
    assert!(matches!(eval(&eq("x", Value::Int(5)), &f), Ok(false)));
    assert!(matches!(eval(&eq("n", Value::Int(5)), &f), Ok(true)));
    assert!(matches!(eval(&eq("x", fl(5.0)), &f), Ok(true)));
}

#[test]
fn mixed_comparison_widens_the_integer() {
    let f = facts_of(vec![("n", Value::Int(5)), ("x", fl(5.0)), ("y", fl(4.5))]);
    assert!(matches!(eval(&gt("n", fl(5.0)), &f), Ok(false)));
    assert!(matches!(eval(&gt("x", Value::Int(5)), &f), Ok(false)));
    assert!(matches!(eval(&lt("n", fl(5.0)), &f), Ok(false)));
    assert!(matches!(eval(&lt("x", Value::Int(5)), &f), Ok(false)));
    assert!(matches!(eval(&gt("n", fl(4.5)), &f), Ok(true)));
    assert!(matches!(eval(&lt("y", Value::Int(5)), &f), Ok(true)));
    assert!(matches!(eval(&gt("y", Value::Int(4)), &f), Ok(true)));
    assert!(matches!(eval(&gt("x", fl(4.5)), &f), Ok(true)));
    assert!(matches!(eval(&lt("x", fl(4.5)), &f), Ok(false)));
    // 2^53 + 1 widens to 2^53, so it is not greater than 2^53 as binary64.
    let big = facts_of(vec![("b", Value::Int(9007199254740993))]);
    assert!(matches!(eval(&gt("b", fl(9007199254740992.0)), &big), Ok(false)));
    assert!(matches!(eval(&gt("b", Value::Int(9007199254740992)), &big), Ok(true)));
}

#[test]
fn less_than_on_integers_is_exact() {
    let f = facts_of(vec![("n", Value::Int(-3))]);
    assert!(matches!(eval(&lt("n", Value::Int(-2)), &f), Ok(true)));
    assert!(matches!(eval(&lt("n", Value::Int(-3)), &f), Ok(false)));
    assert!(matches!(eval(&lt("n", Value::Int(-4)), &f), Ok(false)));
}

#[test]
fn comparing_what_is_no_number_is_a_type_mismatch() {
    let f = facts_of(vec![("a", s("x")), ("b", Value::Bool(true)), ("n", Value::Int(1))]);
    match eval(&gt("a", s("w")), &f) {
        Err(RuleEngineError::TypeMismatch(m)) => assert_eq!(m, "无法比较 String 和 String"),
        other => panic!("unexpected: {:?}", other),
    }
    assert!(matches!(eval(&lt("b", Value::Bool(false)), &f), Err(RuleEngineError::TypeMismatch(_))));
    match eval(&lt("n", Value::Null), &f) {
        Err(RuleEngineError::TypeMismatch(m)) => assert_eq!(m, "无法比较 Int 和 Null"),
        other => panic!("unexpected: {:?}", other),
    }
}

#[test]
fn empty_and_is_true_empty_or_is_false() {
    let f = ValueMap::new();
    assert!(matches!(eval(&Condition::And(vec![]), &f), Ok(true)));
    assert!(matches!(eval(&Condition::Or(vec![]), &f), Ok(false)));
}

#[test]
fn and_stops_at_the_first_false() {
    let f = facts_of(vec![("n", Value::Int(1)), ("t", s("text"))]);
    let c = Condition::And(vec![gt("n", Value::Int(5)), gt("t", s("a"))]);
    assert!(matches!(eval(&c, &f), Ok(false)));
    let d = Condition::And(vec![gt("n", Value::Int(0)), gt("t", s("a"))]);
    assert!(matches!(eval(&d, &f), Err(RuleEngineError::TypeMismatch(_))));
    let e = Condition::And(vec![gt("t", s("a")), gt("n", Value::Int(5))]);
    assert!(matches!(eval(&e, &f), Err(RuleEngineError::TypeMismatch(_))));
}

#[test]
fn or_stops_at_the_first_true_or_error() {
    let f = facts_of(vec![("n", Value::Int(1)), ("t", s("text"))]);
    let c = Condition::Or(vec![gt("n", Value::Int(0)), gt("t", s("a"))]);
    assert!(matches!(eval(&c, &f), Ok(true)));
    let d = Condition::Or(vec![gt("t", s("a")), gt("n", Value::Int(0))]);
    assert!(matches!(eval(&d, &f), Err(RuleEngineError::TypeMismatch(_))));
    let e = Condition::Or(vec![gt("n", Value::Int(5)), eq("missing", Value::Null)]);
    assert!(matches!(eval(&e, &f), Err(RuleEngineError::EvaluationError(_))));
    let g = Condition::Or(vec![gt("n", Value::Int(5)), lt("n", Value::Int(0))]);
    assert!(matches!(eval(&g, &f), Ok(false)));
}

#[test]
fn not_negates_and_hands_errors_on() {
    let f = facts_of(vec![("n", Value::Int(1))]);
    assert!(matches!(eval(&Condition::Not(Box::new(gt("n", Value::Int(0)))), &f), Ok(false)));
    assert!(matches!(eval(&Condition::Not(Box::new(gt("n", Value::Int(1)))), &f), Ok(true)));
    assert!(matches!(
        eval(&Condition::Not(Box::new(eq("gone", Value::Null))), &f),
        Err(RuleEngineError::EvaluationError(_))
    ));
}

#[test]
fn every_leaf_fails_on_a_missing_field() {
    let f = ValueMap::new();
    for c in [eq("f", Value::Null), gt("f", Value::Int(1)), lt("f", Value::Int(1)), has("f", s("x"))] {
        match eval(&c, &f) {
            Err(RuleEngineError::EvaluationError(m)) => assert_eq!(m, "字段不存在: f"),
            other => panic!("unexpected: {:?}", other),
        }
    }
}

#[test]
fn contains_on_a_list_is_membership() {
    let tags = Value::List(vec![s("a"), s("x"), Value::Int(3)]);
    let f = facts_of(vec![("tags", tags), ("none", Value::List(vec![]))]);
    assert!(matches!(eval(&has("tags", s("x")), &f), Ok(true)));
    assert!(matches!(eval(&has("tags", s("X")), &f), Ok(false)));
    assert!(matches!(eval(&has("tags", s("")), &f), Ok(false)));
    assert!(matches!(eval(&has("tags", Value::Int(3)), &f), Ok(true)));
    assert!(matches!(eval(&has("tags", fl(3.0)), &f), Ok(false)));
    assert!(matches!(eval(&has("none", s("x")), &f), Ok(false)));
}

#[test]
fn contains_on_a_string_is_a_substring_test() {
    let f = facts_of(vec![("t", s("high-risk-1"))]);
    assert!(matches!(eval(&has("t", s("risk")), &f), Ok(true)));
    assert!(matches!(eval(&has("t", s("")), &f), Ok(true)));
    assert!(matches!(eval(&has("t", s("high-risk-1")), &f), Ok(true)));
    assert!(matches!(eval(&has("t", s("risk-2")), &f), Ok(false)));
    match eval(&has("t", Value::Int(1)), &f) {
        Err(RuleEngineError::TypeMismatch(m)) => assert_eq!(m, "Contains操作需要字符串"),
        other => panic!("unexpected: {:?}", other),
    }
}

#[test]
fn contains_on_a_boolean_is_a_type_mismatch() {
    let f = facts_of(vec![("b", Value::Bool(true)), ("n", Value::Int(1)), ("z", Value::Null)]);
    match eval(&has("b", s("x")), &f) {
        Err(RuleEngineError::TypeMismatch(m)) => assert_eq!(m, "字段 b 不支持contains操作"),
        other => panic!("unexpected: {:?}", other),
    }
    assert!(matches!(eval(&has("n", Value::Int(1)), &f), Err(RuleEngineError::TypeMismatch(_))));
    assert!(matches!(eval(&has("z", Value::Null), &f), Err(RuleEngineError::TypeMismatch(_))));
}
