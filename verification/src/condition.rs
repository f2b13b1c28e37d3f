//! Conditions: boolean expressions over the facts, and what they evaluate to.

use vstd::prelude::*;

use crate::binary64;
use crate::error::ErrorView;
use crate::text::is_substring;
use crate::value::{values_equal, Value, ValueView};

verus! {

/// A boolean expression over the facts.
#[derive(Debug)]
pub enum Condition {
    /// The fact under `field` equals `value`.
    Equals { field: String, value: Value },
    /// The fact under `field` is a number greater than the number `value`.
    GreaterThan { field: String, value: Value },
    /// The fact under `field` is a number less than the number `value`.
    LessThan { field: String, value: Value },
    /// The fact under `field` is a string in which `value` occurs, or a
    /// list that holds `value`.
    Contains { field: String, value: Value },
    /// All of the conditions hold.
    And(Vec<Condition>),
    /// One of the conditions holds.
    Or(Vec<Condition>),
    /// The condition does not hold.
    Not(Box<Condition>),
}

/// What a [`Condition`] is: the same expression over sequences of
/// characters and the values' views.
pub enum ConditionView {
    Equals { field: Seq<char>, value: ValueView },
    GreaterThan { field: Seq<char>, value: ValueView },
    LessThan { field: Seq<char>, value: ValueView },
    Contains { field: Seq<char>, value: ValueView },
    And(Seq<ConditionView>),
    Or(Seq<ConditionView>),
    Not(Box<ConditionView>),
}

/// The view of a condition: of each field its characters, of each literal
/// its view, of a combination the views of its conditions in order.
pub open spec fn condition_view(c: Condition) -> ConditionView
    decreases c,
{
    match c {
        Condition::Equals { field, value } => ConditionView::Equals { field: field@, value: value@ },
        Condition::GreaterThan { field, value } => ConditionView::GreaterThan {
            field: field@,
            value: value@,
        },
        Condition::LessThan { field, value } => ConditionView::LessThan {
            field: field@,
            value: value@,
        },
        Condition::Contains { field, value } => ConditionView::Contains {
            field: field@,
            value: value@,
        },
        Condition::And(conditions) => ConditionView::And(
            Seq::new(
                conditions@.len(),
                |i: int|
                    if 0 <= i < conditions@.len() {
                        condition_view(conditions@[i])
                    } else {
                        ConditionView::And(Seq::empty())
                    },
            ),
        ),
        Condition::Or(conditions) => ConditionView::Or(
            Seq::new(
                conditions@.len(),
                |i: int|
                    if 0 <= i < conditions@.len() {
                        condition_view(conditions@[i])
                    } else {
                        ConditionView::And(Seq::empty())
                    },
            ),
        ),
        Condition::Not(inner) => ConditionView::Not(Box::new(condition_view(*inner))),
    }
}

impl View for Condition {
    type V = ConditionView;

    open spec fn view(&self) -> ConditionView {
        condition_view(*self)
    }
}

/// Copies a condition, with all that it holds.
#[verifier::loop_isolation(false)]
pub fn clone_condition(c: &Condition) -> (r: Condition)
    ensures
        r@ == c@,
    decreases c,
{
    match c {
        Condition::Equals { field, value } => Condition::Equals {
            field: field.clone(),
            value: value.clone(),
        },
        Condition::GreaterThan { field, value } => Condition::GreaterThan {
            field: field.clone(),
            value: value.clone(),
        },
        Condition::LessThan { field, value } => Condition::LessThan {
            field: field.clone(),
            value: value.clone(),
        },
        Condition::Contains { field, value } => Condition::Contains {
            field: field.clone(),
            value: value.clone(),
        },
        Condition::And(conditions) => {
            let copies = clone_conditions(conditions);
            let r = Condition::And(copies);
            assert(r@->And_0 =~= c@->And_0);
            r
        },
        Condition::Or(conditions) => {
            let copies = clone_conditions(conditions);
            let r = Condition::Or(copies);
            assert(r@->Or_0 =~= c@->Or_0);
            r
        },
        Condition::Not(inner) => Condition::Not(Box::new(clone_condition(inner))),
    }
}

/// Copies a list of conditions, item by item.
#[verifier::loop_isolation(false)]
fn clone_conditions(conditions: &Vec<Condition>) -> (r: Vec<Condition>)
    ensures
        r@.len() == conditions@.len(),
        forall|j: int| 0 <= j < r@.len() ==> (#[trigger] r@[j])@ == conditions@[j]@,
    decreases conditions,
{
    let mut out: Vec<Condition> = Vec::new();
    let mut i: usize = 0;
    while i < conditions.len()
        invariant
            i <= conditions@.len(),
            out@.len() == i,
            forall|j: int| 0 <= j < i ==> (#[trigger] out@[j])@ == conditions@[j]@,
        decreases conditions@.len() - i,
    {
        out.push(clone_condition(&conditions[i]));
        i = i + 1;
    }
    out
}

impl Clone for Condition {
    fn clone(&self) -> (r: Self)
        ensures
            r@ == self@,
    {
        clone_condition(self)
    }
}

/// The facts of one run: each field's value under the field's name.
pub type Facts = Map<Seq<char>, ValueView>;

/// The name of a value's variant, as messages give it.
pub open spec fn kind_name(v: ValueView) -> Seq<char> {
    match v {
        ValueView::String(_) => "String"@,
        ValueView::Int(_) => "Int"@,
        ValueView::Float(_) => "Float"@,
        ValueView::Bool(_) => "Bool"@,
        ValueView::List(_) => "List"@,
        ValueView::Mapping(_) => "Map"@,
        ValueView::Null => "Null"@,
    }
}

/// The message of the error for a field that the facts do not hold.
pub open spec fn missing_field_message(field: Seq<char>) -> Seq<char> {
    "字段不存在: "@ + field
}

/// The message of the error for a comparison of two values that are not
/// both numbers.
pub open spec fn cannot_compare_message(fact: ValueView, literal: ValueView) -> Seq<char> {
    "无法比较 "@ + kind_name(fact) + " 和 "@ + kind_name(literal)
}

/// The message of the error for a search in a string for what is no string.
pub open spec fn needs_string_message() -> Seq<char> {
    "Contains操作需要字符串"@
}

/// The message of the error for a search in what is neither a string nor a
/// list.
pub open spec fn cannot_contain_message(field: Seq<char>) -> Seq<char> {
    "字段 "@ + field + " 不支持contains操作"@
}

/// The integer, widened to binary64.
pub open spec fn widened(i: int) -> u64 {
    binary64::from_int(i) as u64
}

/// `fact > literal` for two numbers: integers by their values, binary64
/// numbers as IEEE 754 orders them, and an integer beside a binary64 number
/// after widening the integer. `None` where either is no number.
pub open spec fn greater_than(fact: ValueView, literal: ValueView) -> Option<bool> {
    match (fact, literal) {
        (ValueView::Int(a), ValueView::Int(b)) => Some(a > b),
        (ValueView::Float(a), ValueView::Float(b)) => Some(binary64::greater(a, b)),
        (ValueView::Float(a), ValueView::Int(b)) => Some(binary64::greater(a, widened(b))),
        (ValueView::Int(a), ValueView::Float(b)) => Some(binary64::greater(widened(a), b)),
        _ => None,
    }
}

/// `fact < literal` for two numbers, as [`greater_than`] has `>`.
pub open spec fn less_than(fact: ValueView, literal: ValueView) -> Option<bool> {
    match (fact, literal) {
        (ValueView::Int(a), ValueView::Int(b)) => Some(a < b),
        (ValueView::Float(a), ValueView::Float(b)) => Some(binary64::less(a, b)),
        (ValueView::Float(a), ValueView::Int(b)) => Some(binary64::less(a, widened(b))),
        (ValueView::Int(a), ValueView::Float(b)) => Some(binary64::less(widened(a), b)),
        _ => None,
    }
}

/// Whether some item of the list equals the value.
pub open spec fn holds_item(items: Seq<ValueView>, value: ValueView) -> bool {
    exists|i: int| 0 <= i < items.len() && values_equal(#[trigger] items[i], value)
}

/// What the fact under `field` contains of `literal`: for a string fact and
/// a string literal, whether the literal occurs in the fact; for a list
/// fact, whether an item equals the literal; else a type mismatch.
pub open spec fn contains(field: Seq<char>, fact: ValueView, literal: ValueView) -> Result<
    bool,
    ErrorView,
> {
    match fact {
        ValueView::String(whole) => match literal {
            ValueView::String(part) => Ok(is_substring(part, whole)),
            _ => Err(ErrorView::TypeMismatch(needs_string_message())),
        },
        ValueView::List(items) => Ok(holds_item(items, literal)),
        _ => Err(ErrorView::TypeMismatch(cannot_contain_message(field))),
    }
}

/// What a condition evaluates to on the facts: its truth, or the first
/// error met on the way, going through sub-conditions from left to right
/// and no further than the first that decides.
pub open spec fn evaluate(c: ConditionView, facts: Facts) -> Result<bool, ErrorView>
    decreases c,
{
    match c {
        ConditionView::Equals { field, value } => {
            if !facts.dom().contains(field) {
                Err(ErrorView::EvaluationError(missing_field_message(field)))
            } else {
                Ok(values_equal(facts[field], value))
            }
        },
        ConditionView::GreaterThan { field, value } => {
            if !facts.dom().contains(field) {
                Err(ErrorView::EvaluationError(missing_field_message(field)))
            } else {
                match greater_than(facts[field], value) {
                    Some(b) => Ok(b),
                    None => Err(
                        ErrorView::TypeMismatch(cannot_compare_message(facts[field], value)),
                    ),
                }
            }
        },
        ConditionView::LessThan { field, value } => {
            if !facts.dom().contains(field) {
                Err(ErrorView::EvaluationError(missing_field_message(field)))
            } else {
                match less_than(facts[field], value) {
                    Some(b) => Ok(b),
                    None => Err(
                        ErrorView::TypeMismatch(cannot_compare_message(facts[field], value)),
                    ),
                }
            }
        },
        ConditionView::Contains { field, value } => {
            if !facts.dom().contains(field) {
                Err(ErrorView::EvaluationError(missing_field_message(field)))
            } else {
                contains(field, facts[field], value)
            }
        },
        ConditionView::And(conditions) => evaluate_all(conditions, facts),
        ConditionView::Or(conditions) => evaluate_any(conditions, facts),
        ConditionView::Not(inner) => match evaluate(*inner, facts) {
            Ok(b) => Ok(!b),
            Err(e) => Err(e),
        },
    }
}

/// A conjunction: true for no conditions; else the first condition's
/// error, or false if it is false, and if it is true what the rest comes
/// to.
pub open spec fn evaluate_all(conditions: Seq<ConditionView>, facts: Facts) -> Result<bool, ErrorView>
    decreases conditions,
{
    if conditions.len() == 0 {
        Ok(true)
    } else {
        match evaluate(conditions[0], facts) {
            Ok(true) => evaluate_all(conditions.drop_first(), facts),
            Ok(false) => Ok(false),
            Err(e) => Err(e),
        }
    }
}

/// A disjunction: false for no conditions; else the first condition's
/// error, or true if it is true, and if it is false what the rest comes to.
pub open spec fn evaluate_any(conditions: Seq<ConditionView>, facts: Facts) -> Result<bool, ErrorView>
    decreases conditions,
{
    if conditions.len() == 0 {
        Ok(false)
    } else {
        match evaluate(conditions[0], facts) {
            Ok(true) => Ok(true),
            Ok(false) => evaluate_any(conditions.drop_first(), facts),
            Err(e) => Err(e),
        }
    }
}

} // verus!
