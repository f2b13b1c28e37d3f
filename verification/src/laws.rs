//! What holds of the engine on all inputs.

use vstd::prelude::*;

use crate::action::{perform, perform_all, ActionView, ContextView, EffectView};
use crate::condition::{
    cannot_contain_message, evaluate, evaluate_all, evaluate_any, greater_than, holds_item,
    less_than, missing_field_message, widened, ConditionView, Facts,
};
use crate::engine::{
    distinct_ids, fire, fire_all, index, lemma_filter_push, lemma_with_rule_distinct, not_named,
    run, with_rule,
};
use crate::error::ErrorView;
use crate::priority::{
    at_least, below, by_priority, descending, exactly, lemma_by_priority_descending,
    lemma_filter_commutes, lemma_filter_drops, lemma_filter_first, lemma_filter_keeps,
    lemma_place_at, lemma_slot, slot,
};
use crate::rule::RuleView;
use crate::value::{values_equal, ValueView};

verus! {

/// The rules that are enabled.
pub open spec fn enabled() -> spec_fn(RuleView) -> bool {
    |r: RuleView| r.enabled
}

/// Whether a condition is a leaf that reads the field.
pub open spec fn reads_field(c: ConditionView, field: Seq<char>) -> bool {
    match c {
        ConditionView::Equals { field: f, .. } => f == field,
        ConditionView::GreaterThan { field: f, .. } => f == field,
        ConditionView::LessThan { field: f, .. } => f == field,
        ConditionView::Contains { field: f, .. } => f == field,
        _ => false,
    }
}

/// Equality of values does not depend on the side a value stands on.
pub proof fn law_equality_is_symmetric(a: ValueView, b: ValueView)
    ensures
        values_equal(a, b) == values_equal(b, a),
    decreases a,
{
    match (a, b) {
        (ValueView::List(x), ValueView::List(y)) => {
            if x.len() == y.len() {
                assert forall|i: int| 0 <= i < x.len() implies values_equal(x[i], y[i])
                    == values_equal(y[i], x[i]) by {
                    law_equality_is_symmetric(x[i], y[i]);
                }
            }
        },
        (ValueView::Mapping(x), ValueView::Mapping(y)) => {
            if x.dom() =~= y.dom() {
                assert forall|k: Seq<char>| x.dom().contains(k) implies values_equal(x[k], y[k])
                    == values_equal(y[k], x[k]) by {
                    law_equality_is_symmetric(x[k], y[k]);
                }
            }
        },
        _ => {},
    }
}

/// An integer fact is greater than an integer literal exactly when its
/// value is the greater one, and less exactly when its value is the lesser
/// one: there is no rounding and no margin.
pub proof fn law_integers_compare_exactly(facts: Facts, field: Seq<char>, x: int, y: int)
    requires
        facts.dom().contains(field),
        facts[field] == ValueView::Int(x),
    ensures
        evaluate(ConditionView::GreaterThan { field, value: ValueView::Int(y) }, facts) == Ok::<
            bool,
            ErrorView,
        >(x > y),
        evaluate(ConditionView::LessThan { field, value: ValueView::Int(y) }, facts) == Ok::<
            bool,
            ErrorView,
        >(x < y),
{
}

/// Equality never takes an integer for a binary64 number, whatever the two
/// hold; so a fact of the one kind never equals a literal of the other.
pub proof fn law_equality_does_not_coerce(facts: Facts, field: Seq<char>, x: int, bits: u64)
    requires
        facts.dom().contains(field),
    ensures
        !values_equal(ValueView::Int(x), ValueView::Float(bits)),
        !values_equal(ValueView::Float(bits), ValueView::Int(x)),
        facts[field] == ValueView::Int(x) ==> evaluate(
            ConditionView::Equals { field, value: ValueView::Float(bits) },
            facts,
        ) == Ok::<bool, ErrorView>(false),
        facts[field] == ValueView::Float(bits) ==> evaluate(
            ConditionView::Equals { field, value: ValueView::Int(x) },
            facts,
        ) == Ok::<bool, ErrorView>(false),
{
}

/// An integer beside the binary64 number that it widens to is neither
/// greater nor less, on whichever side it stands.
pub proof fn law_widened_integer_is_level(x: int)
    ensures
        greater_than(ValueView::Int(x), ValueView::Float(widened(x))) == Some(false),
        greater_than(ValueView::Float(widened(x)), ValueView::Int(x)) == Some(false),
        less_than(ValueView::Int(x), ValueView::Float(widened(x))) == Some(false),
        less_than(ValueView::Float(widened(x)), ValueView::Int(x)) == Some(false),
{
}

/// A conjunction of no conditions holds, and a disjunction of none does
/// not, on any facts.
pub proof fn law_empty_combinations(facts: Facts)
    ensures
        evaluate(ConditionView::And(Seq::empty()), facts) == Ok::<bool, ErrorView>(true),
        evaluate(ConditionView::Or(Seq::empty()), facts) == Ok::<bool, ErrorView>(false),
{
    assert(evaluate_all(Seq::empty(), facts) == Ok::<bool, ErrorView>(true));
    assert(evaluate_any(Seq::empty(), facts) == Ok::<bool, ErrorView>(false));
}

/// A conjunction is decided by its first condition that is not true: the
/// conditions behind it are not evaluated, so an error that one of them
/// would raise is not raised.
pub proof fn law_and_stops_at_first_decision(conditions: Seq<ConditionView>, k: int, facts: Facts)
    requires
        0 <= k < conditions.len(),
        forall|j: int|
            0 <= j < k ==> evaluate(#[trigger] conditions[j], facts) == Ok::<bool, ErrorView>(
                true,
            ),
        evaluate(conditions[k], facts) != Ok::<bool, ErrorView>(true),
    ensures
        evaluate(ConditionView::And(conditions), facts) == evaluate(conditions[k], facts),
    decreases k,
{
    if k > 0 {
        let rest = conditions.drop_first();
        assert forall|j: int| 0 <= j < k - 1 implies evaluate(#[trigger] rest[j], facts) == Ok::<
            bool,
            ErrorView,
        >(true) by {
            assert(rest[j] == conditions[j + 1]);
        }
        assert(rest[k - 1] == conditions[k]);
        law_and_stops_at_first_decision(rest, k - 1, facts);
        assert(evaluate(conditions[0], facts) == Ok::<bool, ErrorView>(true));
        assert(evaluate_all(conditions, facts) == evaluate_all(rest, facts));
    } else {
        assert(evaluate_all(conditions, facts) == evaluate(conditions[0], facts));
    }
}

/// A disjunction is decided by its first condition that is not false: the
/// conditions behind it are not evaluated.
pub proof fn law_or_stops_at_first_decision(conditions: Seq<ConditionView>, k: int, facts: Facts)
    requires
        0 <= k < conditions.len(),
        forall|j: int|
            0 <= j < k ==> evaluate(#[trigger] conditions[j], facts) == Ok::<bool, ErrorView>(
                false,
            ),
        evaluate(conditions[k], facts) != Ok::<bool, ErrorView>(false),
    ensures
        evaluate(ConditionView::Or(conditions), facts) == evaluate(conditions[k], facts),
    decreases k,
{
    if k > 0 {
        let rest = conditions.drop_first();
        assert forall|j: int| 0 <= j < k - 1 implies evaluate(#[trigger] rest[j], facts) == Ok::<
            bool,
            ErrorView,
        >(false) by {
            assert(rest[j] == conditions[j + 1]);
        }
        assert(rest[k - 1] == conditions[k]);
        law_or_stops_at_first_decision(rest, k - 1, facts);
        assert(evaluate(conditions[0], facts) == Ok::<bool, ErrorView>(false));
        assert(evaluate_any(conditions, facts) == evaluate_any(rest, facts));
    } else {
        assert(evaluate_any(conditions, facts) == evaluate(conditions[0], facts));
    }
}

/// A conjunction whose conditions are all true is true, and a disjunction
/// whose conditions are all false is false.
pub proof fn law_undecided_combinations(conditions: Seq<ConditionView>, facts: Facts)
    ensures
        (forall|j: int|
            0 <= j < conditions.len() ==> evaluate(#[trigger] conditions[j], facts) == Ok::<
                bool,
                ErrorView,
            >(true)) ==> evaluate(ConditionView::And(conditions), facts) == Ok::<bool, ErrorView>(
            true,
        ),
        (forall|j: int|
            0 <= j < conditions.len() ==> evaluate(#[trigger] conditions[j], facts) == Ok::<
                bool,
                ErrorView,
            >(false)) ==> evaluate(ConditionView::Or(conditions), facts) == Ok::<bool, ErrorView>(
            false,
        ),
    decreases conditions.len(),
{
    if conditions.len() > 0 {
        let rest = conditions.drop_first();
        law_undecided_combinations(rest, facts);
        assert(forall|j: int| 0 <= j < rest.len() ==> rest[j] == conditions[j + 1]);
        if evaluate(conditions[0], facts) == Ok::<bool, ErrorView>(true) {
            assert(evaluate_all(conditions, facts) == evaluate_all(rest, facts));
        }
        if evaluate(conditions[0], facts) == Ok::<bool, ErrorView>(false) {
            assert(evaluate_any(conditions, facts) == evaluate_any(rest, facts));
        }
    } else {
        assert(evaluate_all(conditions, facts) == Ok::<bool, ErrorView>(true));
        assert(evaluate_any(conditions, facts) == Ok::<bool, ErrorView>(false));
    }
}

/// A leaf that reads a field which the facts do not hold raises an
/// evaluation error that names the field; it is never taken for false.
pub proof fn law_missing_field_is_an_error(c: ConditionView, field: Seq<char>, facts: Facts)
    requires
        reads_field(c, field),
        !facts.dom().contains(field),
    ensures
        evaluate(c, facts) == Err::<bool, ErrorView>(
            ErrorView::EvaluationError(missing_field_message(field)),
        ),
{
}

/// A negation fails as its condition fails, and else holds exactly when
/// its condition does not.
pub proof fn law_negation(c: ConditionView, facts: Facts)
    ensures
        evaluate(ConditionView::Not(Box::new(c)), facts) == match evaluate(c, facts) {
            Ok(b) => Ok::<bool, ErrorView>(!b),
            Err(e) => Err(e),
        },
{
}

/// A list fact contains a string exactly when one of its items is that
/// string; a fact that is neither a string nor a list, such as a boolean,
/// contains nothing and raises a type mismatch.
pub proof fn law_containment(facts: Facts, field: Seq<char>, literal: ValueView)
    requires
        facts.dom().contains(field),
    ensures
        facts[field] matches ValueView::List(items) ==> evaluate(
            ConditionView::Contains { field, value: literal },
            facts,
        ) == Ok::<bool, ErrorView>(holds_item(items, literal)),
        facts[field] matches ValueView::List(items) ==> (literal matches ValueView::String(_)
            ==> (holds_item(items, literal) <==> items.contains(literal))),
        !(facts[field] is String) && !(facts[field] is List) ==> evaluate(
            ConditionView::Contains { field, value: literal },
            facts,
        ) == Err::<bool, ErrorView>(ErrorView::TypeMismatch(cannot_contain_message(field))),
{
    if let ValueView::List(items) = facts[field] {
        if let ValueView::String(text) = literal {
            if holds_item(items, literal) {
                let i = choose|i: int| 0 <= i < items.len() && values_equal(items[i], literal);
                assert(items[i] == literal);
            }
            if items.contains(literal) {
                let i = choose|i: int| 0 <= i < items.len() && items[i] == literal;
                assert(values_equal(items[i], literal));
            }
        }
    }
}

/// An action leaves the facts and the collaborators of its context as
/// they were, and takes back no effect that was asked for before it.
pub proof fn law_actions_keep_the_facts(action: ActionView, context: ContextView)
    ensures
        perform(action, context).context.facts == context.facts,
        perform(action, context).context.collaborators == context.collaborators,
        context.effects.is_prefix_of(perform(action, context).context.effects),
    decreases action,
{
    match action {
        ActionView::Composite(actions) => {
            law_action_lists_keep_the_facts(actions, context);
        },
        _ => {},
    }
}

/// A list of actions leaves the facts and the collaborators of its
/// context as they were, and takes back no effect.
pub proof fn law_action_lists_keep_the_facts(actions: Seq<ActionView>, context: ContextView)
    ensures
        perform_all(actions, context).context.facts == context.facts,
        perform_all(actions, context).context.collaborators == context.collaborators,
        context.effects.is_prefix_of(perform_all(actions, context).context.effects),
    decreases actions,
{
    if actions.len() > 0 {
        law_actions_keep_the_facts(actions[0], context);
        let first = perform(actions[0], context);
        if first.error is None {
            law_action_lists_keep_the_facts(actions.drop_first(), first.context);
        }
    }
}

/// Firing a list of rules leaves the facts and the collaborators as they
/// were.
pub proof fn lemma_firing_keeps_the_facts(rules: Seq<RuleView>, context: ContextView)
    ensures
        fire_all(rules, context).context.facts == context.facts,
        fire_all(rules, context).context.collaborators == context.collaborators,
    decreases rules.len(),
{
    if rules.len() > 0 {
        let rule = rules[0];
        law_action_lists_keep_the_facts(
            rule.actions,
            context.emit(EffectView::RuleTriggered { name: rule.name, id: rule.id }),
        );
        let first = fire(rule, context);
        if first.error is None {
            lemma_firing_keeps_the_facts(rules.drop_first(), first.context);
        }
    }
}

/// A run leaves the facts as they were: every rule's condition is
/// evaluated on the facts that the run began with, whatever the rules
/// before it have put into the outputs.
pub proof fn law_runs_keep_the_facts(rules: Seq<RuleView>, context: ContextView)
    ensures
        run(rules, context).context.facts == context.facts,
        run(rules, context).context.collaborators == context.collaborators,
{
    lemma_firing_keeps_the_facts(by_priority(rules), context);
}

/// The rules run in descending order of priority.
pub proof fn law_higher_priority_runs_first(rules: Seq<RuleView>)
    ensures
        descending(by_priority(rules)),
{
    lemma_by_priority_descending(rules);
}

/// What the rules of one priority are after a rule went in at a position
/// behind which every rule has a lower priority than it.
proof fn lemma_insert_among_equals(rules: Seq<RuleView>, rule: RuleView, pos: int, p: nat)
    requires
        0 <= pos <= rules.len(),
        forall|j: int| pos <= j < rules.len() ==> (#[trigger] rules[j]).priority < rule.priority,
    ensures
        rules.insert(pos, rule).filter(exactly(p)) == if rule.priority == p {
            rules.filter(exactly(p)).push(rule)
        } else {
            rules.filter(exactly(p))
        },
{
    let head = rules.take(pos);
    let tail = rules.skip(pos);
    let keep = exactly(p);
    assert(rules =~= head + tail);
    assert(rules.insert(pos, rule) =~= head.push(rule) + tail);
    Seq::filter_distributes_over_add(head, tail, keep);
    Seq::filter_distributes_over_add(head.push(rule), tail, keep);
    lemma_filter_push(head, rule, keep);
    if rule.priority == p {
        lemma_filter_drops(tail, keep);
        assert(head.filter(keep) + Seq::<RuleView>::empty() =~= head.filter(keep));
        assert(head.filter(keep).push(rule) + Seq::<RuleView>::empty() =~= head.filter(
            keep,
        ).push(rule));
    }
}

/// The rules of one priority run in the order in which the store holds
/// them.
pub proof fn law_equal_priorities_keep_their_order(rules: Seq<RuleView>, p: nat)
    ensures
        by_priority(rules).filter(exactly(p)) == rules.filter(exactly(p)),
    decreases rules.len(),
{
    if rules.len() == 0 {
        lemma_filter_drops(rules, exactly(p));
    } else {
        let init = rules.drop_last();
        let last = rules.last();
        let before = by_priority(init);
        let pos = slot(before, last.priority);
        law_equal_priorities_keep_their_order(init, p);
        assert(init.push(last) =~= rules);
        lemma_filter_push(init, last, exactly(p));
        assert(0 <= pos <= before.len() && by_priority(rules) == before.insert(pos, last)
            && forall|j: int|
            pos <= j < before.len() ==> (#[trigger] before[j]).priority < last.priority) by {
            lemma_by_priority_descending(init);
            lemma_slot(before, last.priority);
            lemma_place_at(before, last, pos);
        }
        lemma_insert_among_equals(before, last, pos, p);
    }
}

/// The rules that run are the rules of the store, each as often as the
/// store holds it.
pub proof fn law_every_rule_runs_once(rules: Seq<RuleView>)
    ensures
        by_priority(rules).to_multiset() == rules.to_multiset(),
    decreases rules.len(),
{
    broadcast use vstd::seq_lib::group_to_multiset_ensures;

    if rules.len() > 0 {
        let init = rules.drop_last();
        let last = rules.last();
        let before = by_priority(init);
        law_every_rule_runs_once(init);
        lemma_by_priority_descending(init);
        lemma_slot(before, last.priority);
        let pos = slot(before, last.priority);
        lemma_place_at(before, last, pos);
        assert(init.push(last) =~= rules);
    } else {
        assert(rules =~= Seq::<RuleView>::empty());
    }
}

/// Sorting by priority and leaving out the rules that are not enabled can
/// be done in either order.
pub proof fn lemma_enabled_rules_by_priority(rules: Seq<RuleView>)
    ensures
        by_priority(rules.filter(enabled())) == by_priority(rules).filter(enabled()),
    decreases rules.len(),
{
    reveal(Seq::filter);
    if rules.len() > 0 {
        let init = rules.drop_last();
        let last = rules.last();
        let before = by_priority(init);
        let p = last.priority;
        lemma_enabled_rules_by_priority(init);
        lemma_filter_commutes(before, enabled(), at_least(p));
        lemma_filter_commutes(before, enabled(), below(p));
        Seq::filter_distributes_over_add(
            before.filter(at_least(p)).push(last),
            before.filter(below(p)),
            enabled(),
        );
        lemma_filter_push(before.filter(at_least(p)), last, enabled());
        if last.enabled {
            assert(init.filter(enabled()).push(last).drop_last() =~= init.filter(enabled()));
        } else {
            lemma_by_priority_descending(init);
            lemma_slot(before, p);
            lemma_place_at(before, last, slot(before, p));
            Seq::filter_distributes_over_add(
                before.filter(at_least(p)),
                before.filter(below(p)),
                enabled(),
            );
            assert(before.take(slot(before, p)) + before.skip(slot(before, p)) =~= before);
        }
    }
}

/// Firing a list of rules and firing the enabled ones among them come to
/// the same.
pub proof fn lemma_firing_skips_disabled_rules(rules: Seq<RuleView>, context: ContextView)
    ensures
        fire_all(rules.filter(enabled()), context) == fire_all(rules, context),
    decreases rules.len(),
{
    if rules.len() == 0 {
        reveal(Seq::filter);
    } else {
        let rest = rules.drop_first();
        lemma_filter_first(rules, enabled());
        if rules[0].enabled {
            let kept = seq![rules[0]] + rest.filter(enabled());
            assert(kept[0] == rules[0]);
            assert(kept.drop_first() =~= rest.filter(enabled()));
            let first = fire(rules[0], context);
            if first.error is None {
                lemma_firing_skips_disabled_rules(rest, first.context);
            }
        } else {
            lemma_firing_skips_disabled_rules(rest, context);
        }
    }
}

/// A rule that is not enabled has no part in a run, whatever its priority,
/// its condition and its actions: the run comes to what it comes to
/// without the rule.
pub proof fn law_disabled_rules_do_nothing(rules: Seq<RuleView>, context: ContextView)
    ensures
        run(rules, context) == run(rules.filter(enabled()), context),
{
    lemma_enabled_rules_by_priority(rules);
    lemma_firing_skips_disabled_rules(by_priority(rules), context);
}

/// A store of one rule runs that rule.
proof fn lemma_single_rule(rule: RuleView)
    ensures
        by_priority(seq![rule]) == seq![rule],
{
    let none = Seq::<RuleView>::empty();
    assert(seq![rule].drop_last() =~= none);
    assert(by_priority(none) == none);
    lemma_place_at(none, rule, 0);
    assert(none.insert(0, rule) =~= seq![rule]);
}

/// Of two rules, the one of higher priority runs first, in whichever
/// order the store holds them.
pub proof fn law_two_rules_by_priority(high: RuleView, low: RuleView)
    requires
        high.priority > low.priority,
    ensures
        by_priority(seq![high, low]) == seq![high, low],
        by_priority(seq![low, high]) == seq![high, low],
{
    lemma_single_rule(high);
    lemma_single_rule(low);
    assert(seq![high, low].drop_last() =~= seq![high]);
    assert(seq![low, high].drop_last() =~= seq![low]);
    lemma_place_at(seq![high], low, 1);
    lemma_place_at(seq![low], high, 0);
    assert(seq![high].insert(1, low) =~= seq![high, low]);
    assert(seq![low].insert(0, high) =~= seq![high, low]);
}

/// Where two enabled rules whose conditions hold each put a value under
/// the same name, the outputs hold the value of the rule of lower priority:
/// it runs after the other and writes last. The order in which the store
/// holds the two makes no difference.
pub proof fn law_lower_priority_writes_last(
    high: RuleView,
    low: RuleView,
    field: Seq<char>,
    first: ValueView,
    second: ValueView,
    context: ContextView,
)
    requires
        high.enabled,
        low.enabled,
        high.priority > low.priority,
        evaluate(high.condition, context.facts) == Ok::<bool, ErrorView>(true),
        evaluate(low.condition, context.facts) == Ok::<bool, ErrorView>(true),
        high.actions == seq![ActionView::UpdateField { field, value: first }],
        low.actions == seq![ActionView::UpdateField { field, value: second }],
    ensures
        run(seq![high, low], context) == run(seq![low, high], context),
        run(seq![high, low], context).error is None,
        run(seq![high, low], context).context.outputs == context.outputs.insert(
            field,
            second,
        ),
{
    law_two_rules_by_priority(high, low);
    let sorted = seq![high, low];
    let after_high = fire(high, context);
    assert(high.actions.drop_first() =~= Seq::<ActionView>::empty());
    assert(low.actions.drop_first() =~= Seq::<ActionView>::empty());
    reveal_with_fuel(perform_all, 2);
    assert(after_high.error is None);
    assert(after_high.context.facts == context.facts);
    assert(sorted.drop_first() =~= seq![low]);
    assert(seq![low].drop_first() =~= Seq::<RuleView>::empty());
    reveal_with_fuel(fire_all, 3);
    let after_low = fire(low, after_high.context);
    assert(after_low.error is None);
    assert(fire_all(sorted, context) == after_low);
    assert(after_low.context.outputs =~= context.outputs.insert(field, second));
}

/// The last rule to come in under an id is the one that the store holds:
/// a rule that comes in after another of its id leaves the store as if the
/// other had never come in.
pub proof fn law_last_write_wins(rules: Seq<RuleView>, earlier: RuleView, later: RuleView)
    requires
        earlier.id == later.id,
    ensures
        with_rule(with_rule(rules, earlier), later) == with_rule(rules, later),
{
    let keep = not_named(later.id);
    let kept = rules.filter(keep);
    lemma_filter_push(kept, earlier, keep);
    assert forall|j: int| 0 <= j < kept.len() implies keep(#[trigger] kept[j]) by {
        rules.lemma_filter_pred(keep, j);
    }
    lemma_filter_keeps(kept, keep);
}

/// A store of distinct ids stays one whatever rule comes in, and then
/// holds the rule that came in and no other of its id.
pub proof fn law_ids_stay_distinct(rules: Seq<RuleView>, rule: RuleView)
    requires
        distinct_ids(rules),
    ensures
        distinct_ids(with_rule(rules, rule)),
        with_rule(rules, rule).last() == rule,
        forall|j: int|
            0 <= j < with_rule(rules, rule).len() - 1 ==> (#[trigger] with_rule(
                rules,
                rule,
            )[j]).id != rule.id,
{
    lemma_with_rule_distinct(rules, rule);
}

/// In a store of distinct ids the lookup holds the store: each rule stands
/// in the lookup under its id, and the lookup holds no other id.
pub proof fn law_lookup_holds_the_store(rules: Seq<RuleView>)
    requires
        distinct_ids(rules),
    ensures
        forall|i: int|
            0 <= i < rules.len() ==> index(rules).dom().contains((#[trigger] rules[i]).id)
                && index(rules)[rules[i].id] == rules[i],
        forall|id: Seq<char>|
            index(rules).dom().contains(id) ==> exists|i: int|
                0 <= i < rules.len() && (#[trigger] rules[i]).id == id,
    decreases rules.len(),
{
    if rules.len() > 0 {
        let init = rules.drop_last();
        let last = rules.last();
        assert(distinct_ids(init)) by {
            assert forall|i: int, j: int| 0 <= i < j < init.len() implies init[i].id
                != init[j].id by {
                assert(init[i] == rules[i] && init[j] == rules[j]);
            }
        }
        law_lookup_holds_the_store(init);
        assert forall|i: int| 0 <= i < rules.len() implies index(rules).dom().contains(
            (#[trigger] rules[i]).id,
        ) && index(rules)[rules[i].id] == rules[i] by {
            if i < rules.len() - 1 {
                assert(init[i] == rules[i]);
                assert(rules[i].id != last.id);
            }
        }
        assert forall|id: Seq<char>| index(rules).dom().contains(id) implies exists|i: int|
            0 <= i < rules.len() && (#[trigger] rules[i]).id == id by {
            if id == last.id {
                assert(rules[rules.len() - 1].id == id);
            } else {
                let i = choose|i: int| 0 <= i < init.len() && (#[trigger] init[i]).id == id;
                assert(rules[i].id == id);
            }
        }
    }
}

} // verus!
