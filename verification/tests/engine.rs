use rule_engine::action::{Action, Collaborators, Effect, RuleContext};
use rule_engine::condition::Condition;
use rule_engine::engine::RuleExecutor;
use rule_engine::error::RuleEngineError;
use rule_engine::rule::{Rule, RuleBuilder};
use rule_engine::value::{Value, ValueMap};

fn s(text: &str) -> Value {
    Value::String(text.to_string())
}

fn facts_of(pairs: Vec<(&str, Value)>) -> ValueMap {
    let mut m = ValueMap::new();
    for (k, v) in pairs {
        m.insert(k.to_string(), v);
    }
    m
}

fn set(field: &str, value: Value) -> Action {
    Action::UpdateField { field: field.to_string(), value }
}

fn writer(id: &str, priority: u32, value: Value) -> Rule {
    RuleBuilder::new(id, id).priority(priority).action(set("x", value)).build()
}

#[test]
fn lower_priority_runs_later_and_writes_last() {
    let mut engine = RuleExecutor::new();
    engine.add_rule(writer("high", 100, s("from 100")));
    engine.add_rule(writer("low", 80, s("from 80")));
    let out = engine.execute(&ValueMap::new()).unwrap();
    assert_eq!(out.get("x"), Some(&s("from 80")));

    let mut swapped = RuleExecutor::new();
    swapped.add_rule(writer("low", 80, s("from 80")));
    swapped.add_rule(writer("high", 100, s("from 100")));
    let out = swapped.execute(&ValueMap::new()).unwrap();
    assert_eq!(out.get("x"), Some(&s("from 80")));
}

#[test]
fn run_order_is_descending_and_stable() {
    let mut engine = RuleExecutor::new();
    for (id, p) in [("a", 50u32), ("b", 90), ("c", 50), ("d", 10), ("e", 90), ("f", 50)] {
        engine.add_rule(RuleBuilder::new(id, id).priority(p).build());
    }
    let mut context = RuleContext::new(ValueMap::new());
    engine.run(&mut context).unwrap();
    let order: Vec<String> = context
        .effects
        .iter()
        .map(|e| match e {
            Effect::RuleTriggered { id, .. } => id.clone(),
            other => panic!("unexpected: {:?}", other),
        })
        .collect();
    assert_eq!(order, vec!["b", "e", "a", "c", "f", "d"]);
}

#[test]
fn disabled_rules_neither_evaluate_nor_act() {
    let mut engine = RuleExecutor::new();
    engine.add_rule(
        RuleBuilder::new("off", "off")
            .priority(1000)
            .enabled(false)
            .condition(Condition::Equals { field: "absent".to_string(), value: Value::Null })
            .action(set("x", Value::Int(1)))
            .build(),
    );
    engine.add_rule(writer("on", 1, Value::Int(2)));
    let mut context = RuleContext::new(ValueMap::new());
    engine.run(&mut context).unwrap();
    assert_eq!(context.outputs.len(), 1);
    assert_eq!(context.outputs.get("x"), Some(&Value::Int(2)));
    assert_eq!(context.effects.len(), 1);

    let mut only = RuleExecutor::new();
    only.add_rule(writer("on", 1, Value::Int(2)));
    assert_eq!(only.execute(&ValueMap::new()).unwrap(), engine.execute(&ValueMap::new()).unwrap());
}

#[test]
fn end_to_end_high_risk_transaction() {
    let rule = RuleBuilder::new("rule1", "high risk")
        .priority(100)
        .condition(Condition::And(vec![
            Condition::GreaterThan { field: "amount".to_string(), value: Value::Int(10000) },
            Condition::Equals { field: "currency".to_string(), value: s("USD") },
            Condition::Or(vec![
                Condition::Equals { field: "country".to_string(), value: s("high-risk-1") },
                Condition::Equals { field: "country".to_string(), value: s("high-risk-2") },
            ]),
        ]))
        .action(Action::Log { message: "high risk transaction".to_string() })
        .action(set("flag", Value::Bool(true)))
        .build();
    let mut engine = RuleExecutor::new();
    engine.add_rule(rule);
    let facts = facts_of(vec![
        ("amount", Value::Int(15000)),
        ("currency", s("USD")),
        ("country", s("high-risk-1")),
    ]);
    let out = engine.execute(&facts).unwrap();
    let mut expected = ValueMap::new();
    expected.insert("flag".to_string(), Value::Bool(true));
    assert_eq!(out, expected);
    assert_eq!(out.len(), 1);

    let calm = facts_of(vec![
        ("amount", Value::Int(15000)),
        ("currency", s("EUR")),
        ("country", s("high-risk-1")),
    ]);
    assert!(engine.execute(&calm).unwrap().is_empty());
}

#[test]
fn conditions_read_the_facts_not_the_outputs() {
    let mut engine = RuleExecutor::new();
    engine.add_rule(writer("first", 10, Value::Int(1)));
    engine.add_rule(
        RuleBuilder::new("second", "second")
            .priority(5)
            .condition(Condition::Equals { field: "x".to_string(), value: Value::Int(1) })
            .action(set("y", Value::Int(2)))
            .build(),
    );
    assert!(matches!(
        engine.execute(&ValueMap::new()),
        Err(RuleEngineError::EvaluationError(_))
    ));
    let out = engine.execute(&facts_of(vec![("x", Value::Int(0))])).unwrap();
    assert_eq!(out.get("x"), Some(&Value::Int(1)));
    assert_eq!(out.get("y"), None);
}

#[test]
fn an_error_ends_the_run_and_keeps_what_was_done() {
    let mut engine = RuleExecutor::new();
    engine.add_rule(writer("first", 30, Value::Int(1)));
    engine.add_rule(
        RuleBuilder::new("broken", "broken")
            .priority(20)
            .condition(Condition::GreaterThan { field: "t".to_string(), value: Value::Int(1) })
            .build(),
    );
    engine.add_rule(
        RuleBuilder::new("last", "last").priority(10).action(set("z", Value::Int(3))).build(),
    );
    let facts = facts_of(vec![("t", s("text"))]);
    assert!(matches!(engine.execute(&facts), Err(RuleEngineError::TypeMismatch(_))));
    let mut context = RuleContext::new(facts);
    assert!(matches!(engine.run(&mut context), Err(RuleEngineError::TypeMismatch(_))));
    assert_eq!(context.outputs.get("x"), Some(&Value::Int(1)));
    assert_eq!(context.outputs.get("z"), None);
    assert_eq!(context.facts.get("t"), Some(&s("text")));
}

#[test]
fn no_state_survives_between_runs() {
    let mut engine = RuleExecutor::new();
    engine.add_rule(
        RuleBuilder::new("r", "r")
            .condition(Condition::Equals { field: "go".to_string(), value: Value::Bool(true) })
            .action(set("done", Value::Bool(true)))
            .build(),
    );
    let yes = facts_of(vec![("go", Value::Bool(true))]);
    let no = facts_of(vec![("go", Value::Bool(false))]);
    assert_eq!(engine.execute(&yes).unwrap().len(), 1);
    assert!(engine.execute(&no).unwrap().is_empty());
    assert_eq!(engine.execute(&yes).unwrap().len(), 1);
}

#[test]
fn store_operations() {
    let mut engine = RuleExecutor::new();
    assert_eq!(engine.len(), 0);
    engine.add_rules(vec![writer("a", 1, Value::Int(1)), writer("b", 2, Value::Int(2))]);
    assert_eq!(engine.len(), 2);
    assert_eq!(engine.find_rule("a").unwrap().priority, 1);
    engine.add_rule(writer("a", 7, Value::Int(7)));
    assert_eq!(engine.len(), 2);
    assert_eq!(engine.find_rule("a").unwrap().priority, 7);
    engine.remove_rule("a");
    assert_eq!(engine.len(), 1);
    assert!(engine.find_rule("a").is_none());
    assert_eq!(engine.find_rule("b").unwrap().priority, 2);
    engine.remove_rule("unknown");
    assert_eq!(engine.len(), 1);
    engine.update_rule(writer("b", 9, Value::Int(9)));
    assert_eq!(engine.len(), 1);
    assert_eq!(engine.find_rule("b").unwrap().priority, 9);
    engine.update_rule(writer("new", 3, Value::Int(3)));
    assert_eq!(engine.len(), 2);
    assert_eq!(engine.find_rule("new").unwrap().priority, 3);
    let out = engine.execute(&ValueMap::new()).unwrap();
    assert_eq!(out.get("x"), Some(&Value::Int(3)));
}

#[test]
fn the_last_rule_under_an_id_wins() {
    let first = RuleBuilder::new("a", "first").action(set("x", Value::Int(1))).build();
    let second = RuleBuilder::new("a", "second").action(set("y", Value::Int(2))).build();
    let mut engine = RuleExecutor::new();
    engine.add_rule(first.clone());
    engine.add_rule(second.clone());
    assert_eq!(engine.len(), 1);
    assert_eq!(engine.find_rule("a").unwrap().name, "second");
    let out = engine.execute(&ValueMap::new()).unwrap();
    let mut expected = ValueMap::new();
    expected.insert("y".to_string(), Value::Int(2));
    assert_eq!(out, expected);

    let mut batch = RuleExecutor::new();
    batch.add_rules(vec![first, writer("b", 1, Value::Int(9)), second]);
    assert_eq!(batch.len(), 2);
    assert_eq!(batch.find_rule("a").unwrap().name, "second");
    let out = batch.execute(&ValueMap::new()).unwrap();
    assert_eq!(out.len(), 2);
    assert_eq!(out.get("x"), Some(&Value::Int(9)));
    assert_eq!(out.get("y"), Some(&Value::Int(2)));
}

#[test]
fn a_replacing_rule_goes_to_the_end_of_the_store() {
    let mut engine = RuleExecutor::new();
    engine.add_rule(writer("a", 5, Value::Int(1)));
    engine.add_rule(writer("b", 5, Value::Int(2)));
    let out = engine.execute(&ValueMap::new()).unwrap();
    assert_eq!(out.get("x"), Some(&Value::Int(2)));
    engine.add_rule(writer("a", 5, Value::Int(3)));
    assert_eq!(engine.len(), 2);
    let out = engine.execute(&ValueMap::new()).unwrap();
    assert_eq!(out.get("x"), Some(&Value::Int(3)));
}

#[test]
fn a_failing_service_ends_the_run() {
    let mut engine = RuleExecutor::new();
    engine.add_rule(
        RuleBuilder::new("r", "r")
            .action(set("before", Value::Int(1)))
            .action(Action::CallExternalService {
                endpoint: "/fraud-detection".to_string(),
                payload: ValueMap::new(),
            })
            .action(set("after", Value::Int(2)))
            .build(),
    );
    let mut down = Collaborators::new();
    down.fail_service("/fraud-detection".to_string(), "timeout".to_string());
    let mut context = RuleContext::with_collaborators(ValueMap::new(), down);
    match engine.run(&mut context) {
        Err(RuleEngineError::ActionFailed(m)) => assert_eq!(m, "timeout"),
        other => panic!("unexpected: {:?}", other),
    }
    assert_eq!(context.outputs.get("before"), Some(&Value::Int(1)));
    assert_eq!(context.outputs.get("after"), None);
    assert_eq!(context.outputs.get("_fraud-detection_response"), None);

    let out = engine.execute(&ValueMap::new()).unwrap();
    assert_eq!(out.get("_fraud-detection_response"), Some(&s("SUCCESS")));
    assert_eq!(out.get("after"), Some(&Value::Int(2)));
}
