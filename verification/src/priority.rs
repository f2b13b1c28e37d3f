//! The order in which rules run: by descending priority, rules of one
//! priority in the order in which the store holds them.

use vstd::prelude::*;

use crate::rule::RuleView;

verus! {

/// The rules of at least the priority `p`.
pub open spec fn at_least(p: nat) -> spec_fn(RuleView) -> bool {
    |r: RuleView| r.priority >= p
}

/// The rules of a priority below `p`.
pub open spec fn below(p: nat) -> spec_fn(RuleView) -> bool {
    |r: RuleView| r.priority < p
}

/// The rules of exactly the priority `p`.
pub open spec fn exactly(p: nat) -> spec_fn(RuleView) -> bool {
    |r: RuleView| r.priority == p
}

/// Whether no rule stands before one of higher priority.
pub open spec fn descending(rules: Seq<RuleView>) -> bool {
    forall|i: int, j: int| 0 <= i < j < rules.len() ==> rules[i].priority >= rules[j].priority
}

/// The rules with one more: it goes behind the rules of its own priority
/// and of higher ones, and before those of lower ones.
pub open spec fn place(rules: Seq<RuleView>, rule: RuleView) -> Seq<RuleView> {
    rules.filter(at_least(rule.priority)).push(rule) + rules.filter(below(rule.priority))
}

/// The rules in the order in which they run: each rule of the store, from
/// the first to the last, placed among those before it.
pub open spec fn by_priority(rules: Seq<RuleView>) -> Seq<RuleView>
    decreases rules.len(),
{
    if rules.len() == 0 {
        Seq::empty()
    } else {
        place(by_priority(rules.drop_last()), rules.last())
    }
}

/// How many rules at the head of the list have at least the priority `p`.
pub open spec fn slot(rules: Seq<RuleView>, p: nat) -> int
    decreases rules.len(),
{
    if rules.len() == 0 || rules[0].priority < p {
        0
    } else {
        1 + slot(rules.drop_first(), p)
    }
}

/// A filter keeps a sequence whose items it all accepts.
pub proof fn lemma_filter_keeps<A>(s: Seq<A>, pred: spec_fn(A) -> bool)
    requires
        forall|i: int| 0 <= i < s.len() ==> pred(#[trigger] s[i]),
    ensures
        s.filter(pred) == s,
    decreases s.len(),
{
    reveal(Seq::filter);
    if s.len() > 0 {
        lemma_filter_keeps(s.drop_last(), pred);
        assert(s.drop_last().push(s.last()) =~= s);
    }
}

/// A filter empties a sequence whose items it all refuses.
pub proof fn lemma_filter_drops<A>(s: Seq<A>, pred: spec_fn(A) -> bool)
    requires
        forall|i: int| 0 <= i < s.len() ==> !pred(#[trigger] s[i]),
    ensures
        s.filter(pred) == Seq::<A>::empty(),
    decreases s.len(),
{
    reveal(Seq::filter);
    if s.len() > 0 {
        lemma_filter_drops(s.drop_last(), pred);
    }
}

/// A filter goes through a sequence from its first item on.
pub proof fn lemma_filter_first<A>(s: Seq<A>, pred: spec_fn(A) -> bool)
    requires
        s.len() > 0,
    ensures
        s.filter(pred) == if pred(s[0]) {
            seq![s[0]] + s.drop_first().filter(pred)
        } else {
            s.drop_first().filter(pred)
        },
{
    let head = seq![s[0]];
    assert(head + s.drop_first() =~= s);
    Seq::filter_distributes_over_add(head, s.drop_first(), pred);
    if pred(s[0]) {
        lemma_filter_keeps(head, pred);
    } else {
        lemma_filter_drops(head, pred);
    }
    assert(Seq::<A>::empty() + s.drop_first().filter(pred) =~= s.drop_first().filter(pred));
}

/// Two filters, one after the other, in either order.
pub proof fn lemma_filter_commutes<A>(s: Seq<A>, p: spec_fn(A) -> bool, q: spec_fn(A) -> bool)
    ensures
        s.filter(p).filter(q) == s.filter(q).filter(p),
    decreases s.len(),
{
    reveal(Seq::filter);
    if s.len() > 0 {
        let init = s.drop_last();
        let x = s.last();
        lemma_filter_commutes(init, p, q);
        if p(x) {
            assert(init.filter(p).push(x).drop_last() =~= init.filter(p));
        }
        if q(x) {
            assert(init.filter(q).push(x).drop_last() =~= init.filter(q));
        }
    }
}

/// In a descending list the slot for a priority parts the rules of at
/// least that priority from those below it.
pub proof fn lemma_slot(rules: Seq<RuleView>, p: nat)
    requires
        descending(rules),
    ensures
        0 <= slot(rules, p) <= rules.len(),
        forall|j: int| 0 <= j < slot(rules, p) ==> (#[trigger] rules[j]).priority >= p,
        forall|j: int| slot(rules, p) <= j < rules.len() ==> (#[trigger] rules[j]).priority < p,
    decreases rules.len(),
{
    if rules.len() == 0 || rules[0].priority < p {
    } else {
        let rest = rules.drop_first();
        assert(descending(rest)) by {
            assert forall|i: int, j: int| 0 <= i < j < rest.len() implies rest[i].priority
                >= rest[j].priority by {
                assert(rest[i] == rules[i + 1] && rest[j] == rules[j + 1]);
            }
        }
        lemma_slot(rest, p);
        assert forall|j: int| 0 <= j < slot(rules, p) implies (#[trigger] rules[j]).priority
            >= p by {
            if j > 0 {
                assert(rules[j] == rest[j - 1]);
            }
        }
        assert forall|j: int| slot(rules, p) <= j < rules.len() implies (
        #[trigger] rules[j]).priority < p by {
            assert(rules[j] == rest[j - 1]);
        }
    }
}

/// Placing a rule in a descending list inserts it at the position that
/// parts the rules of at least its priority from those below it, and
/// leaves the list descending.
pub proof fn lemma_place_at(rules: Seq<RuleView>, rule: RuleView, pos: int)
    requires
        descending(rules),
        0 <= pos <= rules.len(),
        forall|j: int| 0 <= j < pos ==> (#[trigger] rules[j]).priority >= rule.priority,
        forall|j: int| pos <= j < rules.len() ==> (#[trigger] rules[j]).priority < rule.priority,
    ensures
        rules.filter(at_least(rule.priority)) == rules.take(pos),
        rules.filter(below(rule.priority)) == rules.skip(pos),
        place(rules, rule) == rules.insert(pos, rule),
        descending(place(rules, rule)),
{
    let head = rules.take(pos);
    let tail = rules.skip(pos);
    let p = rule.priority;
    assert(head + tail =~= rules);
    Seq::filter_distributes_over_add(head, tail, at_least(p));
    Seq::filter_distributes_over_add(head, tail, below(p));
    lemma_filter_keeps(head, at_least(p));
    lemma_filter_drops(tail, at_least(p));
    lemma_filter_drops(head, below(p));
    lemma_filter_keeps(tail, below(p));
    assert(head + Seq::<RuleView>::empty() =~= head);
    assert(Seq::<RuleView>::empty() + tail =~= tail);
    assert(rules.insert(pos, rule) =~= head.push(rule) + tail);
    let placed = place(rules, rule);
    assert forall|i: int, j: int| 0 <= i < j < placed.len() implies placed[i].priority
        >= placed[j].priority by {
        if i < pos {
            assert(placed[i] == rules[i]);
        } else if i > pos {
            assert(placed[i] == rules[i - 1]);
        }
        if j < pos {
            assert(placed[j] == rules[j]);
        } else if j > pos {
            assert(placed[j] == rules[j - 1]);
        }
    }
}

/// The rules run in descending order of priority.
pub proof fn lemma_by_priority_descending(rules: Seq<RuleView>)
    ensures
        descending(by_priority(rules)),
        by_priority(rules).len() == rules.len(),
    decreases rules.len(),
{
    if rules.len() > 0 {
        let before = by_priority(rules.drop_last());
        lemma_by_priority_descending(rules.drop_last());
        lemma_slot(before, rules.last().priority);
        lemma_place_at(before, rules.last(), slot(before, rules.last().priority));
    }
}

} // verus!
