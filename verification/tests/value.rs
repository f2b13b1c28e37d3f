use rule_engine::value::{Value, ValueMap};

fn s(text: &str) -> Value {
    Value::String(text.to_string())
}

#[test]
fn map_insert_get_and_overwrite() {
    let mut m = ValueMap::new();
    assert!(m.is_empty());
    assert_eq!(m.len(), 0);
    m.insert("a".to_string(), Value::Int(1));
    m.insert("b".to_string(), Value::Bool(true));
    assert_eq!(m.len(), 2);
    assert_eq!(m.get("a"), Some(&Value::Int(1)));
    assert_eq!(m.get("b"), Some(&Value::Bool(true)));
    assert_eq!(m.get("c"), None);
    assert!(m.contains_key("a"));
    assert!(!m.contains_key("A"));
    m.insert("a".to_string(), Value::Int(2));
    assert_eq!(m.len(), 2);
    assert_eq!(m.get("a"), Some(&Value::Int(2)));
}

#[test]
fn map_remove_takes_only_the_name() {
    let mut m = ValueMap::new();
    m.insert("a".to_string(), Value::Int(1));
    m.insert("b".to_string(), Value::Int(2));
    m.insert("c".to_string(), Value::Int(3));
    m.remove("b");
    assert_eq!(m.len(), 2);
    assert_eq!(m.get("a"), Some(&Value::Int(1)));
    assert_eq!(m.get("b"), None);
    assert_eq!(m.get("c"), Some(&Value::Int(3)));
    m.remove("missing");
    assert_eq!(m.len(), 2);
}

#[test]
fn map_entries_come_in_order() {
    let mut m = ValueMap::new();
    m.insert("x".to_string(), Value::Int(1));
    m.insert("y".to_string(), Value::Int(2));
    let (k0, v0) = m.entry(0).unwrap();
    assert_eq!(k0, "x");
    assert_eq!(v0, &Value::Int(1));
    let (k1, v1) = m.entry(1).unwrap();
    assert_eq!(k1, "y");
    assert_eq!(v1, &Value::Int(2));
    assert!(m.entry(2).is_none());
}

#[test]
fn equality_is_exact_about_variants() {
    assert_eq!(Value::Int(5), Value::Int(5));
    assert_ne!(Value::Int(5), Value::Int(6));
    assert_ne!(Value::Int(5), Value::Float(5.0f64.to_bits()));
    assert_ne!(Value::Float(5.0f64.to_bits()), Value::Int(5));
    assert_ne!(Value::Int(1), Value::Bool(true));
    assert_ne!(Value::Null, Value::Bool(false));
    assert_eq!(Value::Null, Value::Null);
    assert_eq!(s("USD"), s("USD"));
    assert_ne!(s("USD"), s("usd"));
    assert_ne!(s("5"), Value::Int(5));
}

#[test]
fn equality_of_binary64_follows_ieee() {
    assert_eq!(Value::Float(0.15f64.to_bits()), Value::Float(0.15f64.to_bits()));
    assert_eq!(Value::Float(0.0f64.to_bits()), Value::Float((-0.0f64).to_bits()));
    assert_ne!(Value::Float(f64::NAN.to_bits()), Value::Float(f64::NAN.to_bits()));
}

#[test]
fn equality_of_lists_and_mappings_is_structural() {
    let a = Value::List(vec![Value::Int(1), s("x"), Value::List(vec![Value::Null])]);
    let b = Value::List(vec![Value::Int(1), s("x"), Value::List(vec![Value::Null])]);
    let c = Value::List(vec![Value::Int(1), s("x")]);
    let d = Value::List(vec![s("x"), Value::Int(1), Value::List(vec![Value::Null])]);
    assert_eq!(a, b);
    assert_ne!(a, c);
    assert_ne!(a, d);

    let mut m1 = ValueMap::new();
    m1.insert("k".to_string(), Value::Int(1));
    m1.insert("l".to_string(), s("v"));
    let mut m2 = ValueMap::new();
    m2.insert("l".to_string(), s("v"));
    m2.insert("k".to_string(), Value::Int(1));
    assert_eq!(m1, m2);
    assert_eq!(Value::Mapping(m1.clone()), Value::Mapping(m2.clone()));
    m2.insert("k".to_string(), Value::Int(2));
    assert_ne!(m1, m2);
    let mut m3 = ValueMap::new();
    m3.insert("k".to_string(), Value::Int(1));
    m3.insert("other".to_string(), s("v"));
    assert_ne!(m1, m3);
    m3.remove("other");
    assert_ne!(m1, m3);
}

#[test]
fn clone_is_deep() {
    let mut inner = ValueMap::new();
    inner.insert("n".to_string(), Value::List(vec![Value::Int(7), s("z")]));
    let v = Value::List(vec![Value::Mapping(inner), Value::Float(2.5f64.to_bits())]);
    let w = v.clone();
    assert_eq!(v, w);
}
