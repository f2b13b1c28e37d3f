//! Rules, and a builder for them.

use vstd::prelude::*;

use crate::action::{actions_view, clone_actions, Action, ActionView};
use crate::condition::{Condition, ConditionView};

verus! {

/// A condition with the actions to run when it holds.
#[derive(Debug)]
pub struct Rule {
    /// The name by which the engine's store knows the rule.
    pub id: String,
    pub name: String,
    pub description: Option<String>,
    /// Rules of higher priority run first.
    pub priority: u32,
    pub condition: Condition,
    /// The actions, in the order in which they run.
    pub actions: Vec<Action>,
    /// A rule that is not enabled is passed over.
    pub enabled: bool,
}

/// What a [`Rule`] is.
pub struct RuleView {
    pub id: Seq<char>,
    pub name: Seq<char>,
    pub description: Option<Seq<char>>,
    pub priority: nat,
    pub condition: ConditionView,
    pub actions: Seq<ActionView>,
    pub enabled: bool,
}

impl View for Rule {
    type V = RuleView;

    open spec fn view(&self) -> RuleView {
        RuleView {
            id: self.id@,
            name: self.name@,
            description: match self.description {
                Some(d) => Some(d@),
                None => None,
            },
            priority: self.priority as nat,
            condition: self.condition@,
            actions: actions_view(self.actions@),
            enabled: self.enabled,
        }
    }
}

impl Clone for Rule {
    /// Copies the rule, with all that it holds.
    fn clone(&self) -> (r: Self)
        ensures
            r@ == self@,
    {
        Rule {
            id: self.id.clone(),
            name: self.name.clone(),
            description: match &self.description {
                Some(d) => Some(d.clone()),
                None => None,
            },
            priority: self.priority,
            condition: self.condition.clone(),
            actions: clone_actions(&self.actions),
            enabled: self.enabled,
        }
    }
}

/// The priority of a rule that was given none.
pub const DEFAULT_PRIORITY: u32 = 50;

/// Builds a [`Rule`] step by step.
#[derive(Debug)]
pub struct RuleBuilder {
    rule: Rule,
}

impl View for RuleBuilder {
    type V = RuleView;

    closed spec fn view(&self) -> RuleView {
        self.rule@
    }
}

impl RuleBuilder {
    /// Starts a rule with the given id and name: enabled, of the default
    /// priority, with no description, no actions, and a condition that
    /// always holds.
    pub fn new(id: &str, name: &str) -> (r: Self)
        ensures
            r@ == (RuleView {
                id: id@,
                name: name@,
                description: None,
                priority: DEFAULT_PRIORITY as nat,
                condition: ConditionView::And(Seq::empty()),
                actions: Seq::empty(),
                enabled: true,
            }),
    {
        let r = RuleBuilder {
            rule: Rule {
                id: id.to_owned(),
                name: name.to_owned(),
                description: None,
                priority: DEFAULT_PRIORITY,
                condition: Condition::And(Vec::new()),
                actions: Vec::new(),
                enabled: true,
            },
        };
        proof {
            assert(r@.actions =~= Seq::empty());
            assert(r@.condition->And_0 =~= Seq::empty());
        }
        r
    }

    /// Gives the rule a description.
    pub fn description(self, description: &str) -> (r: Self)
        ensures
            r@ == (RuleView { description: Some(description@), ..self@ }),
    {
        let mut rule = self.rule;
        rule.description = Some(description.to_owned());
        RuleBuilder { rule }
    }

    /// Sets the rule's priority.
    pub fn priority(self, priority: u32) -> (r: Self)
        ensures
            r@ == (RuleView { priority: priority as nat, ..self@ }),
    {
        let mut rule = self.rule;
        rule.priority = priority;
        RuleBuilder { rule }
    }

    /// Sets the rule's condition.
    pub fn condition(self, condition: Condition) -> (r: Self)
        ensures
            r@ == (RuleView { condition: condition@, ..self@ }),
    {
        let mut rule = self.rule;
        rule.condition = condition;
        RuleBuilder { rule }
    }

    /// Adds an action after those that the rule has.
    pub fn action(self, action: Action) -> (r: Self)
        ensures
            r@ == (RuleView { actions: self@.actions.push(action@), ..self@ }),
    {
        let mut rule = self.rule;
        let ghost before = rule.actions@;
        rule.actions.push(action);
        proof {
            assert(actions_view(rule.actions@) =~= actions_view(before).push(action@));
        }
        RuleBuilder { rule }
    }

    /// Enables the rule or disables it.
    pub fn enabled(self, enabled: bool) -> (r: Self)
        ensures
            r@ == (RuleView { enabled: enabled, ..self@ }),
    {
        let mut rule = self.rule;
        rule.enabled = enabled;
        RuleBuilder { rule }
    }

    /// The rule as built.
    pub fn build(self) -> (r: Rule)
        ensures
            r@ == self@,
    {
        self.rule
    }
}

} // verus!
