use rule_engine::action::{Action, Collaborators, Effect, RuleContext};
use rule_engine::engine::RuleExecutor;
use rule_engine::error::RuleEngineError;
use rule_engine::executor::response_key_of;
use rule_engine::rule::{RuleBuilder, DEFAULT_PRIORITY};
use rule_engine::condition::Condition;
use rule_engine::value::{Value, ValueMap};

fn s(text: &str) -> Value {
    Value::String(text.to_string())
}

fn set(field: &str, value: Value) -> Action {
    Action::UpdateField { field: field.to_string(), value }
}

#[test]
fn log_changes_no_output() {
    let engine = RuleExecutor::new();
    let mut context = RuleContext::new(ValueMap::new());
    engine.execute_action(&Action::Log { message: "hello".to_string() }, &mut context).unwrap();
    assert!(context.outputs.is_empty());
    assert_eq!(context.effects.len(), 1);
    assert!(matches!(&context.effects[0], Effect::Log { message } if message == "hello"));
}

#[test]
fn update_field_overwrites() {
    let engine = RuleExecutor::new();
    let mut context = RuleContext::new(ValueMap::new());
    engine.execute_action(&set("f", Value::Int(1)), &mut context).unwrap();
    engine.execute_action(&set("g", Value::Int(5)), &mut context).unwrap();
    engine.execute_action(&set("f", s("two")), &mut context).unwrap();
    assert_eq!(context.outputs.len(), 2);
    assert_eq!(context.outputs.get("f"), Some(&s("two")));
    assert_eq!(context.outputs.get("g"), Some(&Value::Int(5)));
    assert!(context.effects.is_empty());
}

#[test]
fn response_key_replaces_every_slash() {
    assert_eq!(response_key_of("/fraud-detection"), "_fraud-detection_response");
    assert_eq!(response_key_of("/a/b//c"), "_a_b__c_response");
    assert_eq!(response_key_of("plain"), "plain_response");
    assert_eq!(response_key_of(""), "_response");
}

#[test]
fn service_call_records_the_answer() {
    let engine = RuleExecutor::new();
    let mut payload = ValueMap::new();
    payload.insert("amount".to_string(), Value::Int(15000));
    let action =
        Action::CallExternalService { endpoint: "/api/check".to_string(), payload: payload.clone() };
    let mut context = RuleContext::new(ValueMap::new());
    engine.execute_action(&action, &mut context).unwrap();
    assert_eq!(context.outputs.len(), 1);
    assert_eq!(context.outputs.get("_api_check_response"), Some(&s("SUCCESS")));
    match &context.effects[0] {
        Effect::ServiceCall { endpoint, payload: sent } => {
            assert_eq!(endpoint, "/api/check");
            assert_eq!(sent, &payload);
        }
        other => panic!("unexpected: {:?}", other),
    }
}

#[test]
fn send_event_changes_no_output_and_may_fail() {
    let engine = RuleExecutor::new();
    let mut data = ValueMap::new();
    data.insert("rule".to_string(), s("discount"));
    let action = Action::SendEvent { event_type: "promotion_applied".to_string(), data };
    let mut context = RuleContext::new(ValueMap::new());
    engine.execute_action(&action, &mut context).unwrap();
    assert!(context.outputs.is_empty());
    assert!(matches!(&context.effects[0], Effect::Event { event_type, .. } if event_type == "promotion_applied"));

    let mut broken = Collaborators::new();
    broken.fail_publisher("promotion_applied".to_string(), "bus down".to_string());
    assert_eq!(broken.publisher_failure("promotion_applied").map(|r| r.as_str()), Some("bus down"));
    assert!(broken.publisher_failure("other").is_none());
    assert!(broken.service_failure("promotion_applied").is_none());
    let mut context = RuleContext::with_collaborators(ValueMap::new(), broken);
    match engine.execute_action(&action, &mut context) {
        Err(RuleEngineError::ActionFailed(m)) => assert_eq!(m, "bus down"),
        other => panic!("unexpected: {:?}", other),
    }
    assert_eq!(context.effects.len(), 1);
}

#[test]
fn a_later_reason_replaces_an_earlier_one() {
    let mut c = Collaborators::new();
    c.fail_service("/a".to_string(), "first".to_string());
    c.fail_service("/b".to_string(), "other".to_string());
    c.fail_service("/a".to_string(), "second".to_string());
    assert_eq!(c.service_failure("/a").map(|r| r.as_str()), Some("second"));
    assert_eq!(c.service_failure("/b").map(|r| r.as_str()), Some("other"));
}

#[test]
fn composite_runs_in_order_and_stops_at_a_failure() {
    let engine = RuleExecutor::new();
    let nested = Action::Composite(vec![
        set("a", Value::Int(1)),
        Action::Composite(vec![set("a", Value::Int(2)), set("b", Value::Int(3))]),
        Action::Composite(vec![]),
        set("c", Value::Int(4)),
    ]);
    let mut context = RuleContext::new(ValueMap::new());
    engine.execute_action(&nested, &mut context).unwrap();
    assert_eq!(context.outputs.get("a"), Some(&Value::Int(2)));
    assert_eq!(context.outputs.get("b"), Some(&Value::Int(3)));
    assert_eq!(context.outputs.get("c"), Some(&Value::Int(4)));

    let failing = Action::Composite(vec![
        set("a", Value::Int(1)),
        Action::Composite(vec![
            Action::CallExternalService { endpoint: "/down".to_string(), payload: ValueMap::new() },
            set("b", Value::Int(2)),
        ]),
        set("c", Value::Int(3)),
    ]);
    let mut collaborators = Collaborators::new();
    collaborators.fail_service("/down".to_string(), "refused".to_string());
    let mut context = RuleContext::with_collaborators(ValueMap::new(), collaborators);
    assert!(matches!(
        engine.execute_action(&failing, &mut context),
        Err(RuleEngineError::ActionFailed(_))
    ));
    assert_eq!(context.outputs.len(), 1);
    assert_eq!(context.outputs.get("a"), Some(&Value::Int(1)));
}

#[test]
fn builder_defaults_and_steps() {
    let plain = RuleBuilder::new("id-1", "a name").build();
    assert_eq!(plain.id, "id-1");
    assert_eq!(plain.name, "a name");
    assert_eq!(plain.description, None);
    assert_eq!(plain.priority, 50);
    assert_eq!(DEFAULT_PRIORITY, 50);
    assert!(plain.enabled);
    assert!(plain.actions.is_empty());
    assert!(matches!(&plain.condition, Condition::And(cs) if cs.is_empty()));

    let full = RuleBuilder::new("id-2", "n")
        .description("what it does")
        .priority(7)
        .condition(Condition::Or(vec![]))
        .action(set("a", Value::Int(1)))
        .action(Action::Log { message: "m".to_string() })
        .enabled(false)
        .build();
    assert_eq!(full.description.as_deref(), Some("what it does"));
    assert_eq!(full.priority, 7);
    assert!(!full.enabled);
    assert_eq!(full.actions.len(), 2);
    assert!(matches!(&full.actions[0], Action::UpdateField { field, .. } if field == "a"));
    assert!(matches!(&full.actions[1], Action::Log { .. }));
    assert!(matches!(&full.condition, Condition::Or(_)));
    let copy = full.clone();
    assert_eq!(copy.id, "id-2");
    assert_eq!(copy.actions.len(), 2);
}

#[test]
fn errors_describe_themselves() {
    let e = RuleEngineError::EvaluationError("字段不存在: f".to_string());
    assert_eq!(e.detail(), "字段不存在: f");
    assert_eq!(e.describe(), "条件评估错误: 字段不存在: f");
    assert_eq!(RuleEngineError::ParseError("p".to_string()).describe(), "规则解析错误: p");
    assert_eq!(RuleEngineError::ExecutionError("x".to_string()).describe(), "规则执行错误: x");
    assert_eq!(RuleEngineError::InvalidRuleFormat("i".to_string()).describe(), "无效规则格式: i");
    assert_eq!(RuleEngineError::TypeMismatch("t".to_string()).describe(), "数据类型不匹配: t");
    assert_eq!(RuleEngineError::ActionFailed("a".to_string()).describe(), "动作执行失败: a");
}
