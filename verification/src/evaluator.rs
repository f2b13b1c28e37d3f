//! The evaluator: decides a condition on the facts.

use vstd::prelude::*;
use vstd::string::StringExecFns;

use crate::binary64;
use crate::condition::{
    cannot_compare_message, cannot_contain_message, evaluate, evaluate_all, evaluate_any,
    greater_than, holds_item, kind_name, less_than, missing_field_message, Condition,
};
use crate::engine::RuleExecutor;
use crate::error::{ErrorView, RuleEngineError};
use crate::text::contains_text;
use crate::value::{values_eq, values_equal, Value, ValueMap};

verus! {

/// What a result of the evaluator is, over the error's view.
pub open spec fn verdict(r: Result<bool, RuleEngineError>) -> Result<bool, ErrorView> {
    match r {
        Ok(b) => Ok(b),
        Err(e) => Err(e@),
    }
}

fn kind_of(v: &Value) -> (r: &'static str)
    ensures
        r@ == kind_name(v@),
{
    match v {
        Value::String(_) => "String",
        Value::Int(_) => "Int",
        Value::Float(_) => "Float",
        Value::Bool(_) => "Bool",
        Value::List(_) => "List",
        Value::Mapping(_) => "Map",
        Value::Null => "Null",
    }
}

fn missing_field(field: &str) -> (e: RuleEngineError)
    ensures
        e@ == ErrorView::EvaluationError(missing_field_message(field@)),
{
    RuleEngineError::EvaluationError("字段不存在: ".to_owned().concat(field))
}

fn cannot_compare(fact: &Value, literal: &Value) -> (e: RuleEngineError)
    ensures
        e@ == ErrorView::TypeMismatch(cannot_compare_message(fact@, literal@)),
{
    RuleEngineError::TypeMismatch(
        "无法比较 ".to_owned().concat(kind_of(fact)).concat(" 和 ").concat(kind_of(literal)),
    )
}

fn cannot_contain(field: &str) -> (e: RuleEngineError)
    ensures
        e@ == ErrorView::TypeMismatch(cannot_contain_message(field@)),
{
    RuleEngineError::TypeMismatch("字段 ".to_owned().concat(field).concat(" 不支持contains操作"))
}

/// Decides `fact > literal` for two numbers.
fn is_greater(fact: &Value, literal: &Value) -> (r: Option<bool>)
    ensures
        r == greater_than(fact@, literal@),
{
    match (fact, literal) {
        (Value::Int(a), Value::Int(b)) => Some(*a > *b),
        (Value::Float(a), Value::Float(b)) => Some(binary64::exceeds(*a, *b)),
        (Value::Float(a), Value::Int(b)) => Some(binary64::exceeds(*a, binary64::widen(*b))),
        (Value::Int(a), Value::Float(b)) => Some(binary64::exceeds(binary64::widen(*a), *b)),
        _ => None,
    }
}

/// Decides `fact < literal` for two numbers.
fn is_less(fact: &Value, literal: &Value) -> (r: Option<bool>)
    ensures
        r == less_than(fact@, literal@),
{
    match (fact, literal) {
        (Value::Int(a), Value::Int(b)) => Some(*a < *b),
        (Value::Float(a), Value::Float(b)) => Some(binary64::precedes(*a, *b)),
        (Value::Float(a), Value::Int(b)) => Some(binary64::precedes(*a, binary64::widen(*b))),
        (Value::Int(a), Value::Float(b)) => Some(binary64::precedes(binary64::widen(*a), *b)),
        _ => None,
    }
}

/// Decides whether some item of the list equals the value.
fn list_holds(items: &Vec<Value>, value: &Value) -> (r: bool)
    ensures
        r == holds_item(Value::List(*items)@->List_0, value@),
{
    let ghost views = Value::List(*items)@->List_0;
    let mut i: usize = 0;
    while i < items.len()
        invariant
            i <= items@.len(),
            views == Value::List(*items)@->List_0,
            views.len() == items@.len(),
            forall|j: int| 0 <= j < items@.len() ==> (#[trigger] views[j]) == items@[j]@,
            forall|j: int| 0 <= j < i ==> !values_equal(#[trigger] views[j], value@),
        decreases items@.len() - i,
    {
        if values_eq(&items[i], value) {
            assert(values_equal(views[i as int], value@));
            return true;
        }
        i = i + 1;
    }
    false
}

impl RuleExecutor {
    /// Evaluates a condition on the facts.
    ///
    /// A leaf looks its field up by its exact name and fails where the
    /// facts do not hold it. `And` and `Or` go through their conditions
    /// from left to right and stop at the first that decides: a false one
    /// for `And`, a true one for `Or`, an error for both.
    #[verifier::loop_isolation(false)]
    pub fn evaluate_condition(&self, condition: &Condition, facts: &ValueMap) -> (r: Result<
        bool,
        RuleEngineError,
    >)
        ensures
            verdict(r) == evaluate(condition@, facts@),
        decreases condition,
    {
        match condition {
            Condition::Equals { field, value } => {
                match facts.get(field.as_str()) {
                    None => Err(missing_field(field.as_str())),
                    Some(fact) => Ok(values_eq(fact, value)),
                }
            },
            Condition::GreaterThan { field, value } => {
                match facts.get(field.as_str()) {
                    None => Err(missing_field(field.as_str())),
                    Some(fact) => match is_greater(fact, value) {
                        Some(b) => Ok(b),
                        None => Err(cannot_compare(fact, value)),
                    },
                }
            },
            Condition::LessThan { field, value } => {
                match facts.get(field.as_str()) {
                    None => Err(missing_field(field.as_str())),
                    Some(fact) => match is_less(fact, value) {
                        Some(b) => Ok(b),
                        None => Err(cannot_compare(fact, value)),
                    },
                }
            },
            Condition::Contains { field, value } => {
                match facts.get(field.as_str()) {
                    None => Err(missing_field(field.as_str())),
                    Some(fact) => match fact {
                        Value::String(whole) => match value {
                            Value::String(part) => Ok(
                                contains_text(whole.as_str(), part.as_str()),
                            ),
                            _ => Err(
                                RuleEngineError::TypeMismatch(
                                    "Contains操作需要字符串".to_owned(),
                                ),
                            ),
                        },
                        Value::List(items) => Ok(list_holds(items, value)),
                        _ => Err(cannot_contain(field.as_str())),
                    },
                }
            },
            Condition::And(conditions) => {
                let ghost views = condition@->And_0;
                assert(views.skip(0) =~= views);
                let mut i: usize = 0;
                while i < conditions.len()
                    invariant
                        i <= conditions@.len(),
                        views.len() == conditions@.len(),
                        forall|j: int|
                            0 <= j < conditions@.len() ==> (#[trigger] views[j])
                                == conditions@[j]@,
                        evaluate_all(views, facts@) == evaluate_all(views.skip(i as int), facts@),
                    decreases conditions@.len() - i,
                {
                    let ghost rest = views.skip(i as int);
                    assert(rest[0] == views[i as int]);
                    assert(rest.drop_first() =~= views.skip(i + 1));
                    match self.evaluate_condition(&conditions[i], facts) {
                        Err(e) => {
                            return Err(e);
                        },
                        Ok(false) => {
                            return Ok(false);
                        },
                        Ok(true) => {},
                    }
                    i = i + 1;
                }
                assert(views.skip(i as int).len() == 0);
                Ok(true)
            },
            Condition::Or(conditions) => {
                let ghost views = condition@->Or_0;
                assert(views.skip(0) =~= views);
                let mut i: usize = 0;
                while i < conditions.len()
                    invariant
                        i <= conditions@.len(),
                        views.len() == conditions@.len(),
                        forall|j: int|
                            0 <= j < conditions@.len() ==> (#[trigger] views[j])
                                == conditions@[j]@,
                        evaluate_any(views, facts@) == evaluate_any(views.skip(i as int), facts@),
                    decreases conditions@.len() - i,
                {
                    let ghost rest = views.skip(i as int);
                    assert(rest[0] == views[i as int]);
                    assert(rest.drop_first() =~= views.skip(i + 1));
                    match self.evaluate_condition(&conditions[i], facts) {
                        Err(e) => {
                            return Err(e);
                        },
                        Ok(true) => {
                            return Ok(true);
                        },
                        Ok(false) => {},
                    }
                    i = i + 1;
                }
                assert(views.skip(i as int).len() == 0);
                Ok(false)
            },
            Condition::Not(inner) => {
                match self.evaluate_condition(inner, facts) {
                    Ok(b) => Ok(!b),
                    Err(e) => Err(e),
                }
            },
        }
    }
}

} // verus!
