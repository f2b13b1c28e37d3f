//! The engine: a store of rules, and the run that fires them on the facts.

use vstd::prelude::*;

use crate::action::{
    perform_all, CollaboratorsView, ContextView, Effect, EffectView, RuleContext, Step,
};
use crate::condition::evaluate;
use crate::error::RuleEngineError;
use crate::executor::{emit, failure};
use crate::priority::{
    by_priority, descending, lemma_filter_drops, lemma_filter_keeps, lemma_place_at,
};
use crate::rule::{Rule, RuleView};
use crate::value::ValueMap;

verus! {

/// The views of a list of rules, in order.
pub open spec fn rules_view(rules: Seq<Rule>) -> Seq<RuleView> {
    Seq::new(rules.len(), |i: int| rules[i]@)
}

/// The rules that do not go by the id.
pub open spec fn not_named(id: Seq<char>) -> spec_fn(RuleView) -> bool {
    |r: RuleView| r.id != id
}

/// The lookup of rules by id: each id gives the last rule of the list that
/// goes by it.
pub open spec fn index(rules: Seq<RuleView>) -> Map<Seq<char>, RuleView>
    decreases rules.len(),
{
    if rules.len() == 0 {
        Map::empty()
    } else {
        index(rules.drop_last()).insert(rules.last().id, rules.last())
    }
}

/// What one rule does to a context. A rule that is not enabled does
/// nothing, and its condition is not looked at. Else the condition is
/// evaluated on the context's facts: an error ends the run, with the
/// context as it is; where the condition is false nothing happens; where
/// it is true the notice that the rule fired is asked for and the actions
/// are done in order, up to the first that fails.
pub open spec fn fire(rule: RuleView, context: ContextView) -> Step {
    if !rule.enabled {
        Step { context, error: None }
    } else {
        match evaluate(rule.condition, context.facts) {
            Err(e) => Step { context, error: Some(e) },
            Ok(false) => Step { context, error: None },
            Ok(true) => perform_all(
                rule.actions,
                context.emit(EffectView::RuleTriggered { name: rule.name, id: rule.id }),
            ),
        }
    }
}

/// What a list of rules does to a context: each in turn, on what the one
/// before it left, up to the first error.
pub open spec fn fire_all(rules: Seq<RuleView>, context: ContextView) -> Step
    decreases rules.len(),
{
    if rules.len() == 0 {
        Step { context, error: None }
    } else {
        let first = fire(rules[0], context);
        if first.error is Some {
            first
        } else {
            fire_all(rules.drop_first(), first.context)
        }
    }
}

/// A run of the stored rules on a context: the rules fire in descending
/// order of priority, those of one priority in the order of the store.
pub open spec fn run(rules: Seq<RuleView>, context: ContextView) -> Step {
    fire_all(by_priority(rules), context)
}

/// What a filter makes of a sequence with one more item.
pub proof fn lemma_filter_push<A>(s: Seq<A>, x: A, pred: spec_fn(A) -> bool)
    ensures
        s.push(x).filter(pred) == if pred(x) {
            s.filter(pred).push(x)
        } else {
            s.filter(pred)
        },
{
    reveal(Seq::filter);
    assert(s.push(x).drop_last() =~= s);
}

/// Taking the rules of an id out of the list takes the id out of the
/// lookup and leaves the rest of it.
pub proof fn lemma_index_without(rules: Seq<RuleView>, id: Seq<char>)
    ensures
        index(rules.filter(not_named(id))) == index(rules).remove(id),
    decreases rules.len(),
{
    reveal(Seq::filter);
    if rules.len() == 0 {
        assert(index(rules).remove(id) =~= Map::<Seq<char>, RuleView>::empty());
    } else {
        let init = rules.drop_last();
        let last = rules.last();
        lemma_index_without(init, id);
        if last.id != id {
            assert(init.filter(not_named(id)).push(last).drop_last() =~= init.filter(
                not_named(id),
            ));
            assert(index(init).remove(id).insert(last.id, last) =~= index(init).insert(
                last.id,
                last,
            ).remove(id));
        } else {
            assert(index(init).remove(id) =~= index(init).insert(last.id, last).remove(id));
        }
    }
}

/// Whether no two rules of the list go by one id.
pub open spec fn distinct_ids(rules: Seq<RuleView>) -> bool {
    forall|i: int, j: int| 0 <= i < j < rules.len() ==> rules[i].id != rules[j].id
}

/// The list after a rule came in: the rule stands at the end, and a rule
/// that went by its id before has left.
pub open spec fn with_rule(rules: Seq<RuleView>, rule: RuleView) -> Seq<RuleView> {
    rules.filter(not_named(rule.id)).push(rule)
}

/// The list after rules came in, one after the other.
pub open spec fn with_rules(rules: Seq<RuleView>, incoming: Seq<RuleView>) -> Seq<RuleView>
    decreases incoming.len(),
{
    if incoming.len() == 0 {
        rules
    } else {
        with_rules(with_rule(rules, incoming[0]), incoming.drop_first())
    }
}

/// In a list of distinct ids, taking out the rules of an id takes out the
/// one rule that goes by it, and leaves the ids distinct.
pub proof fn lemma_without_at(rules: Seq<RuleView>, id: Seq<char>, at: int)
    requires
        distinct_ids(rules),
        0 <= at < rules.len(),
        rules[at].id == id,
    ensures
        rules.filter(not_named(id)) == rules.remove(at),
        distinct_ids(rules.remove(at)),
{
    let keep = not_named(id);
    let head = rules.take(at);
    let this = seq![rules[at]];
    let tail = rules.skip(at + 1);
    assert(rules =~= head + this + tail);
    Seq::filter_distributes_over_add(head + this, tail, keep);
    Seq::filter_distributes_over_add(head, this, keep);
    assert forall|j: int| 0 <= j < head.len() implies keep(#[trigger] head[j]) by {
        assert(head[j] == rules[j]);
    }
    assert forall|j: int| 0 <= j < tail.len() implies keep(#[trigger] tail[j]) by {
        assert(tail[j] == rules[at + 1 + j]);
    }
    lemma_filter_keeps(head, keep);
    lemma_filter_drops(this, keep);
    lemma_filter_keeps(tail, keep);
    assert(head + Seq::<RuleView>::empty() + tail =~= rules.remove(at));
    let rest = rules.remove(at);
    assert forall|i: int, j: int| 0 <= i < j < rest.len() implies rest[i].id != rest[j].id by {
        let oi = if i < at {
            i
        } else {
            i + 1
        };
        let oj = if j < at {
            j
        } else {
            j + 1
        };
        assert(rest[i] == rules[oi] && rest[j] == rules[oj]);
    }
}

/// A rule that comes into a list of distinct ids leaves the ids distinct.
pub proof fn lemma_with_rule_distinct(rules: Seq<RuleView>, rule: RuleView)
    requires
        distinct_ids(rules),
    ensures
        distinct_ids(with_rule(rules, rule)),
{
    let keep = not_named(rule.id);
    let kept = rules.filter(keep);
    if exists|at: int| 0 <= at < rules.len() && #[trigger] rules[at].id == rule.id {
        let at = choose|at: int| 0 <= at < rules.len() && #[trigger] rules[at].id == rule.id;
        lemma_without_at(rules, rule.id, at);
    } else {
        lemma_filter_keeps(rules, keep);
    }
    let after = kept.push(rule);
    assert forall|i: int, j: int| 0 <= i < j < after.len() implies after[i].id
        != after[j].id by {
        if j == kept.len() {
            rules.lemma_filter_pred(keep, i);
            assert(after[i] == kept[i]);
        } else {
            assert(after[i] == kept[i] && after[j] == kept[j]);
        }
    }
}

/// A store of rules that can be run on facts.
///
/// The store is a list in which no two rules go by one id: a rule that
/// comes in under an id of the store takes the place of the rule that went
/// by it, at the end of the list. The order of the list decides between
/// rules of one priority. The lookup by id, [`index`], is read off the
/// list, so the two never differ.
#[derive(Debug)]
pub struct RuleExecutor {
    rules: Vec<Rule>,
}

impl View for RuleExecutor {
    type V = Seq<RuleView>;

    closed spec fn view(&self) -> Seq<RuleView> {
        rules_view(self.rules@)
    }
}

impl RuleExecutor {
    /// No two rules of the store go by one id.
    #[verifier::type_invariant]
    pub closed spec fn wf(self) -> bool {
        distinct_ids(rules_view(self.rules@))
    }

    /// An engine with no rules.
    pub fn new() -> (r: Self)
        ensures
            r@ == Seq::<RuleView>::empty(),
    {
        let r = RuleExecutor { rules: Vec::new() };
        assert(r@ =~= Seq::<RuleView>::empty());
        r
    }

    /// The number of rules in the store.
    pub fn len(&self) -> (n: usize)
        ensures
            n == self@.len(),
            distinct_ids(self@),
    {
        proof {
            use_type_invariant(self);
        }
        self.rules.len()
    }

    /// Where in the store the rule of the id stands.
    fn position(&self, rule_id: &str) -> (r: Option<usize>)
        ensures
            match r {
                Some(i) => i < self@.len() && self@[i as int].id == rule_id@,
                None => forall|j: int| 0 <= j < self@.len() ==> (#[trigger] self@[j]).id != rule_id@,
            },
    {
        let wanted = rule_id.to_owned();
        let mut i: usize = 0;
        while i < self.rules.len()
            invariant
                i <= self.rules@.len(),
                wanted@ == rule_id@,
                forall|j: int| 0 <= j < i ==> (#[trigger] self@[j]).id != rule_id@,
            decreases self.rules@.len() - i,
        {
            if self.rules[i].id == wanted {
                return Some(i);
            }
            i = i + 1;
        }
        None
    }

    /// Adds a rule at the end of the store. A rule that went by its id
    /// before leaves the store: the last rule to come in under an id is the
    /// one that the store and the lookup hold.
    pub fn add_rule(&mut self, rule: Rule)
        ensures
            final(self)@ == with_rule(old(self)@, rule@),
            distinct_ids(final(self)@),
            index(final(self)@) == index(old(self)@).insert(rule@.id, rule@),
    {
        let ghost before = self@;
        let ghost coming = rule@;
        proof {
            use_type_invariant(&*self);
        }
        self.remove_rule(rule.id.as_str());
        let ghost kept = self@;
        let mut rules: Vec<Rule> = Vec::new();
        core::mem::swap(&mut self.rules, &mut rules);
        rules.push(rule);
        proof {
            assert(rules_view(rules@) =~= kept.push(coming));
            lemma_with_rule_distinct(before, coming);
        }
        core::mem::swap(&mut self.rules, &mut rules);
        proof {
            assert(self@.drop_last() =~= kept);
            assert(index(before).remove(coming.id).insert(coming.id, coming) =~= index(
                before,
            ).insert(coming.id, coming));
        }
    }

    /// Adds the rules to the store, one after the other in their order, each
    /// as [`add_rule`](Self::add_rule) adds it.
    pub fn add_rules(&mut self, rules: Vec<Rule>)
        ensures
            final(self)@ == with_rules(old(self)@, rules_view(rules@)),
            distinct_ids(final(self)@),
    {
        let ghost incoming = rules_view(rules@);
        let mut rest = rules;
        proof {
            use_type_invariant(&*self);
        }
        while rest.len() > 0
            invariant
                with_rules(old(self)@, incoming) == with_rules(self@, rules_view(rest@)),
                distinct_ids(self@),
            decreases rest@.len(),
        {
            let ghost waiting = rules_view(rest@);
            let rule = rest.remove(0);
            proof {
                assert(waiting[0] == rule@);
                assert(waiting.drop_first() =~= rules_view(rest@));
            }
            self.add_rule(rule);
        }
    }

    /// Takes the rule of the id out of the store, and with it the id out of
    /// the lookup. A store that holds no rule of the id stays as it is.
    pub fn remove_rule(&mut self, rule_id: &str)
        ensures
            final(self)@ == old(self)@.filter(not_named(rule_id@)),
            distinct_ids(final(self)@),
            index(final(self)@) == index(old(self)@).remove(rule_id@),
    {
        let ghost before = self@;
        proof {
            use_type_invariant(&*self);
            lemma_index_without(before, rule_id@);
        }
        match self.position(rule_id) {
            None => {
                proof {
                    lemma_filter_keeps(before, not_named(rule_id@));
                }
            },
            Some(i) => {
                let mut rules: Vec<Rule> = Vec::new();
                core::mem::swap(&mut self.rules, &mut rules);
                let _ = rules.remove(i);
                proof {
                    assert(rules_view(rules@) =~= before.remove(i as int));
                    lemma_without_at(before, rule_id@, i as int);
                }
                core::mem::swap(&mut self.rules, &mut rules);
            },
        }
    }

    /// Puts the rule in the place of the one of its id: that one leaves the
    /// store, and the rule goes to its end. Where the store holds no rule
    /// of the id, the rule is added.
    pub fn update_rule(&mut self, rule: Rule)
        ensures
            final(self)@ == with_rule(old(self)@, rule@),
            distinct_ids(final(self)@),
            index(final(self)@) == index(old(self)@).insert(rule@.id, rule@),
    {
        let ghost before = self@;
        let ghost keep = not_named(rule@.id);
        self.remove_rule(rule.id.as_str());
        proof {
            let kept = self@;
            assert forall|j: int| 0 <= j < kept.len() implies keep(#[trigger] kept[j]) by {
                before.lemma_filter_pred(keep, j);
            }
            lemma_filter_keeps(kept, keep);
            assert(index(before).remove(rule@.id).insert(rule@.id, rule@) =~= index(
                before,
            ).insert(rule@.id, rule@));
        }
        self.add_rule(rule);
    }

    /// Looks a rule up by its id.
    pub fn find_rule(&self, rule_id: &str) -> (r: Option<&Rule>)
        ensures
            match r {
                Some(rule) => index(self@).dom().contains(rule_id@) && index(self@)[rule_id@]
                    == rule@,
                None => !index(self@).dom().contains(rule_id@),
            },
    {
        let ghost views = self@;
        let wanted = rule_id.to_owned();
        let mut i: usize = self.rules.len();
        assert(views.take(i as int) =~= views);
        while i > 0
            invariant
                i <= self.rules@.len(),
                views == self@,
                wanted@ == rule_id@,
                index(views).dom().contains(rule_id@) == index(
                    views.take(i as int),
                ).dom().contains(rule_id@),
                index(views).dom().contains(rule_id@) ==> index(views)[rule_id@] == index(
                    views.take(i as int),
                )[rule_id@],
            decreases i,
        {
            i = i - 1;
            assert(views.take(i + 1).drop_last() =~= views.take(i as int));
            assert(views.take(i + 1).last() == views[i as int]);
            if self.rules[i].id == wanted {
                return Some(&self.rules[i]);
            }
        }
        None
    }

    /// The positions of the rules in the store, in the order in which the
    /// rules run.
    fn firing_order(&self) -> (order: Vec<usize>)
        ensures
            order@.len() == self.rules@.len(),
            forall|k: int| 0 <= k < order@.len() ==> (#[trigger] order@[k]) < self.rules@.len(),
            Seq::new(order@.len(), |k: int| self.rules@[order@[k] as int]@) == by_priority(
                self@,
            ),
    {
        let ghost views = self@;
        let mut order: Vec<usize> = Vec::new();
        let mut n: usize = 0;
        proof {
            assert(views.take(0) =~= Seq::<RuleView>::empty());
            assert(Seq::new(order@.len(), |k: int| self.rules@[order@[k] as int]@) =~= by_priority(
                views.take(0),
            ));
        }
        while n < self.rules.len()
            invariant
                n <= self.rules@.len(),
                views == self@,
                order@.len() == n,
                forall|k: int| 0 <= k < order@.len() ==> (#[trigger] order@[k]) < n,
                Seq::new(order@.len(), |k: int| self.rules@[order@[k] as int]@) == by_priority(
                    views.take(n as int),
                ),
                descending(by_priority(views.take(n as int))),
            decreases self.rules@.len() - n,
        {
            let ghost arranged = by_priority(views.take(n as int));
            let ghost before = order@;
            let priority: u32 = self.rules[n].priority;
            let mut pos: usize = 0;
            while pos < order.len() && self.rules[order[pos]].priority >= priority
                invariant
                    pos <= order@.len(),
                    order@ == before,
                    order@.len() == n,
                    n < self.rules@.len(),
                    forall|k: int| 0 <= k < order@.len() ==> (#[trigger] order@[k]) < n,
                    arranged == Seq::new(
                        order@.len(),
                        |k: int| self.rules@[order@[k] as int]@,
                    ),
                    forall|j: int| 0 <= j < pos ==> (#[trigger] arranged[j]).priority >= priority,
                decreases order@.len() - pos,
            {
                pos = pos + 1;
            }
            proof {
                let rule = views[n as int];
                assert(rule.priority == priority);
                assert forall|j: int| pos <= j < arranged.len() implies (
                #[trigger] arranged[j]).priority < rule.priority by {
                    assert(arranged[pos as int].priority < priority);
                }
                lemma_place_at(arranged, rule, pos as int);
                assert(views.take(n + 1).drop_last() =~= views.take(n as int));
                assert(views.take(n + 1).last() == rule);
            }
            order.insert(pos, n);
            proof {
                assert(Seq::new(order@.len(), |k: int| self.rules@[order@[k] as int]@)
                    =~= arranged.insert(pos as int, views[n as int]));
            }
            n = n + 1;
        }
        proof {
            assert(views.take(n as int) =~= views);
        }
        order
    }

    /// Fires one rule in the context.
    pub fn fire_rule(&self, rule: &Rule, context: &mut RuleContext) -> (r: Result<
        (),
        RuleEngineError,
    >)
        ensures
            final(context)@ == fire(rule@, old(context)@).context,
            failure(r) == fire(rule@, old(context)@).error,
    {
        if !rule.enabled {
            return Ok(());
        }
        match self.evaluate_condition(&rule.condition, &context.facts) {
            Err(e) => Err(e),
            Ok(false) => Ok(()),
            Ok(true) => {
                emit(
                    context,
                    Effect::RuleTriggered { name: rule.name.clone(), id: rule.id.clone() },
                );
                self.execute_actions(&rule.actions, context)
            },
        }
    }

    /// Runs the stored rules in the context.
    ///
    /// The rules fire in descending order of priority, those of one
    /// priority in the order of the store, each on the context's facts.
    /// The first error ends the run; the context then holds what was done
    /// before it.
    pub fn run(&self, context: &mut RuleContext) -> (r: Result<(), RuleEngineError>)
        ensures
            final(context)@ == run(self@, old(context)@).context,
            failure(r) == run(self@, old(context)@).error,
    {
        let order = self.firing_order();
        let ghost sorted = by_priority(self@);
        let mut k: usize = 0;
        assert(sorted.skip(0) =~= sorted);
        while k < order.len()
            invariant
                k <= order@.len(),
                order@.len() == self.rules@.len(),
                forall|j: int|
                    0 <= j < order@.len() ==> (#[trigger] order@[j]) < self.rules@.len(),
                sorted == by_priority(self@),
                sorted == Seq::new(order@.len(), |j: int| self.rules@[order@[j] as int]@),
                fire_all(sorted, old(context)@) == fire_all(sorted.skip(k as int), context@),
            decreases order@.len() - k,
        {
            let ghost rest = sorted.skip(k as int);
            assert(rest[0] == sorted[k as int]);
            assert(rest.drop_first() =~= sorted.skip(k + 1));
            match self.fire_rule(&self.rules[order[k]], context) {
                Err(e) => {
                    return Err(e);
                },
                Ok(_) => {},
            }
            k = k + 1;
        }
        assert(sorted.skip(k as int).len() == 0);
        Ok(())
    }

    /// Runs the stored rules on the facts, with collaborators that all
    /// succeed, and gives the outputs that the rules' actions built up, or
    /// the error that ended the run.
    pub fn execute(&self, facts: &ValueMap) -> (r: Result<ValueMap, RuleEngineError>)
        ensures
            ({
                let step = run(self@, ContextView::fresh(facts@, CollaboratorsView::reliable()));
                match r {
                    Ok(outputs) => step.error is None && outputs@ == step.context.outputs,
                    Err(e) => step.error == Some(e@),
                }
            }),
    {
        let mut context = RuleContext::new(facts.clone());
        assert(context@ =~= ContextView::fresh(facts@, CollaboratorsView::reliable()));
        match self.run(&mut context) {
            Ok(_) => Ok(context.outputs),
            Err(e) => Err(e),
        }
    }
}

} // verus!
