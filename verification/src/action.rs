//! Actions: what a rule asks for when its condition holds, the context in
//! which they run, and what running them comes to.

use vstd::prelude::*;

use crate::error::ErrorView;
use crate::text::substitute;
use crate::value::{Value, ValueMap, ValueView};

verus! {

/// What a rule asks for when its condition holds.
#[derive(Debug)]
pub enum Action {
    /// Emit a message.
    Log { message: String },
    /// Put a value into the outputs, under a name.
    UpdateField { field: String, value: Value },
    /// Call an external service, and record that it answered.
    CallExternalService { endpoint: String, payload: ValueMap },
    /// Publish an event.
    SendEvent { event_type: String, data: ValueMap },
    /// Run the actions one after the other.
    Composite(Vec<Action>),
}

/// What an [`Action`] is, over sequences, maps and the values' views.
pub enum ActionView {
    Log { message: Seq<char> },
    UpdateField { field: Seq<char>, value: ValueView },
    CallExternalService { endpoint: Seq<char>, payload: Map<Seq<char>, ValueView> },
    SendEvent { event_type: Seq<char>, data: Map<Seq<char>, ValueView> },
    Composite(Seq<ActionView>),
}

/// The view of an action: of each string its characters, of each value
/// and payload its view, of a composite the views of its actions in order.
pub open spec fn action_view(a: Action) -> ActionView
    decreases a,
{
    match a {
        Action::Log { message } => ActionView::Log { message: message@ },
        Action::UpdateField { field, value } => ActionView::UpdateField {
            field: field@,
            value: value@,
        },
        Action::CallExternalService { endpoint, payload } => ActionView::CallExternalService {
            endpoint: endpoint@,
            payload: payload@,
        },
        Action::SendEvent { event_type, data } => ActionView::SendEvent {
            event_type: event_type@,
            data: data@,
        },
        Action::Composite(actions) => ActionView::Composite(
            Seq::new(
                actions@.len(),
                |i: int|
                    if 0 <= i < actions@.len() {
                        action_view(actions@[i])
                    } else {
                        ActionView::Composite(Seq::empty())
                    },
            ),
        ),
    }
}

impl View for Action {
    type V = ActionView;

    open spec fn view(&self) -> ActionView {
        action_view(*self)
    }
}

/// The views of a list of actions, in order.
pub open spec fn actions_view(actions: Seq<Action>) -> Seq<ActionView> {
    Seq::new(actions.len(), |i: int| actions[i]@)
}

/// Copies an action, with all that it holds.
pub fn clone_action(a: &Action) -> (r: Action)
    ensures
        r@ == a@,
    decreases a,
{
    match a {
        Action::Log { message } => Action::Log { message: message.clone() },
        Action::UpdateField { field, value } => Action::UpdateField {
            field: field.clone(),
            value: value.clone(),
        },
        Action::CallExternalService { endpoint, payload } => Action::CallExternalService {
            endpoint: endpoint.clone(),
            payload: payload.clone(),
        },
        Action::SendEvent { event_type, data } => Action::SendEvent {
            event_type: event_type.clone(),
            data: data.clone(),
        },
        Action::Composite(actions) => {
            let copies = clone_actions(actions);
            let r = Action::Composite(copies);
            assert(r@->Composite_0 =~= a@->Composite_0);
            r
        },
    }
}

/// Copies a list of actions, item by item.
#[verifier::loop_isolation(false)]
pub fn clone_actions(actions: &Vec<Action>) -> (r: Vec<Action>)
    ensures
        actions_view(r@) == actions_view(actions@),
        r@.len() == actions@.len(),
        forall|j: int| 0 <= j < r@.len() ==> (#[trigger] r@[j])@ == actions@[j]@,
    decreases actions,
{
    let mut out: Vec<Action> = Vec::new();
    let mut i: usize = 0;
    while i < actions.len()
        invariant
            i <= actions@.len(),
            out@.len() == i,
            forall|j: int| 0 <= j < i ==> (#[trigger] out@[j])@ == actions@[j]@,
        decreases actions@.len() - i,
    {
        out.push(clone_action(&actions[i]));
        i = i + 1;
    }
    assert(actions_view(out@) =~= actions_view(actions@));
    out
}

impl Clone for Action {
    fn clone(&self) -> (r: Self)
        ensures
            r@ == self@,
    {
        clone_action(self)
    }
}

/// Something that a run asks of the world outside: the engine records
/// each such request, in the order in which the run makes them.
#[derive(Debug)]
pub enum Effect {
    /// The notice that a rule's condition held and its actions run next.
    RuleTriggered { name: String, id: String },
    /// A message to the log.
    Log { message: String },
    /// A call of an external service.
    ServiceCall { endpoint: String, payload: ValueMap },
    /// An event to publish.
    Event { event_type: String, data: ValueMap },
}

/// What an [`Effect`] is, over sequences, maps and the values' views.
pub enum EffectView {
    RuleTriggered { name: Seq<char>, id: Seq<char> },
    Log { message: Seq<char> },
    ServiceCall { endpoint: Seq<char>, payload: Map<Seq<char>, ValueView> },
    Event { event_type: Seq<char>, data: Map<Seq<char>, ValueView> },
}

impl View for Effect {
    type V = EffectView;

    open spec fn view(&self) -> EffectView {
        match *self {
            Effect::RuleTriggered { name, id } => EffectView::RuleTriggered {
                name: name@,
                id: id@,
            },
            Effect::Log { message } => EffectView::Log { message: message@ },
            Effect::ServiceCall { endpoint, payload } => EffectView::ServiceCall {
                endpoint: endpoint@,
                payload: payload@,
            },
            Effect::Event { event_type, data } => EffectView::Event {
                event_type: event_type@,
                data: data@,
            },
        }
    }
}

/// The views of a list of effects, in order.
pub open spec fn effects_view(effects: Seq<Effect>) -> Seq<EffectView> {
    Seq::new(effects.len(), |i: int| effects[i]@)
}

/// The signals of the collaborators that a run is given: the external
/// services and event types that fail, each with the reason it gives. A
/// service or an event type that is not named here succeeds.
#[derive(Debug)]
pub struct Collaborators {
    services: Vec<(String, String)>,
    publishers: Vec<(String, String)>,
}

/// What [`Collaborators`] are: for each failing endpoint and each failing
/// event type, the reason.
pub struct CollaboratorsView {
    pub failing_services: Map<Seq<char>, Seq<char>>,
    pub failing_publishers: Map<Seq<char>, Seq<char>>,
}

impl CollaboratorsView {
    /// Collaborators that all succeed.
    pub open spec fn reliable() -> CollaboratorsView {
        CollaboratorsView { failing_services: Map::empty(), failing_publishers: Map::empty() }
    }
}

/// The reasons under their names, a later entry for a name replacing an
/// earlier one.
pub open spec fn reasons(entries: Seq<(String, String)>) -> Map<Seq<char>, Seq<char>>
    decreases entries.len(),
{
    if entries.len() == 0 {
        Map::empty()
    } else {
        reasons(entries.drop_last()).insert(entries.last().0@, entries.last().1@)
    }
}

impl View for Collaborators {
    type V = CollaboratorsView;

    closed spec fn view(&self) -> CollaboratorsView {
        CollaboratorsView {
            failing_services: reasons(self.services@),
            failing_publishers: reasons(self.publishers@),
        }
    }
}

/// Looks a name up among the reasons: the latest entry for it, if any.
fn find_reason<'a>(entries: &'a Vec<(String, String)>, key: &str) -> (r: Option<&'a String>)
    ensures
        match r {
            Some(reason) => reasons(entries@).dom().contains(key@) && reasons(entries@)[key@]
                == reason@,
            None => !reasons(entries@).dom().contains(key@),
        },
{
    let wanted = key.to_owned();
    let mut i: usize = entries.len();
    assert(entries@.take(i as int) =~= entries@);
    while i > 0
        invariant
            i <= entries@.len(),
            wanted@ == key@,
            reasons(entries@).dom().contains(key@) == reasons(
                entries@.take(i as int),
            ).dom().contains(key@),
            reasons(entries@).dom().contains(key@) ==> reasons(entries@)[key@] == reasons(
                entries@.take(i as int),
            )[key@],
        decreases i,
    {
        i = i - 1;
        assert(entries@.take(i + 1).drop_last() =~= entries@.take(i as int));
        assert(entries@.take(i + 1).last() == entries@[i as int]);
        if entries[i].0 == wanted {
            return Some(&entries[i].1);
        }
    }
    None
}

impl Collaborators {
    /// Collaborators that all succeed.
    pub fn new() -> (r: Self)
        ensures
            r@ == CollaboratorsView::reliable(),
    {
        Collaborators { services: Vec::new(), publishers: Vec::new() }
    }

    /// Lets the service at the endpoint fail, with the reason.
    pub fn fail_service(&mut self, endpoint: String, reason: String)
        ensures
            final(self)@ == (CollaboratorsView {
                failing_services: old(self)@.failing_services.insert(endpoint@, reason@),
                ..old(self)@
            }),
    {
        let ghost before = self.services@;
        self.services.push((endpoint, reason));
        assert(self.services@.drop_last() =~= before);
    }

    /// Lets the publisher of the event type fail, with the reason.
    pub fn fail_publisher(&mut self, event_type: String, reason: String)
        ensures
            final(self)@ == (CollaboratorsView {
                failing_publishers: old(self)@.failing_publishers.insert(event_type@, reason@),
                ..old(self)@
            }),
    {
        let ghost before = self.publishers@;
        self.publishers.push((event_type, reason));
        assert(self.publishers@.drop_last() =~= before);
    }

    /// The signal of the service at the endpoint: the reason of its
    /// failure, or `None` where it succeeds.
    pub fn service_failure(&self, endpoint: &str) -> (r: Option<&String>)
        ensures
            match r {
                Some(reason) => self@.failing_services.dom().contains(endpoint@)
                    && self@.failing_services[endpoint@] == reason@,
                None => !self@.failing_services.dom().contains(endpoint@),
            },
    {
        find_reason(&self.services, endpoint)
    }

    /// The signal of the publisher of the event type: the reason of its
    /// failure, or `None` where it succeeds.
    pub fn publisher_failure(&self, event_type: &str) -> (r: Option<&String>)
        ensures
            match r {
                Some(reason) => self@.failing_publishers.dom().contains(event_type@)
                    && self@.failing_publishers[event_type@] == reason@,
                None => !self@.failing_publishers.dom().contains(event_type@),
            },
    {
        find_reason(&self.publishers, event_type)
    }
}

/// The context of one run: the facts it reads, the outputs it builds up,
/// the effects it has asked for, and the collaborators' signals.
#[derive(Debug)]
pub struct RuleContext {
    pub facts: ValueMap,
    pub outputs: ValueMap,
    pub effects: Vec<Effect>,
    pub collaborators: Collaborators,
}

/// What a [`RuleContext`] is.
pub struct ContextView {
    pub facts: Map<Seq<char>, ValueView>,
    pub outputs: Map<Seq<char>, ValueView>,
    pub effects: Seq<EffectView>,
    pub collaborators: CollaboratorsView,
}

impl View for RuleContext {
    type V = ContextView;

    open spec fn view(&self) -> ContextView {
        ContextView {
            facts: self.facts@,
            outputs: self.outputs@,
            effects: effects_view(self.effects@),
            collaborators: self.collaborators@,
        }
    }
}

impl ContextView {
    /// The context at the start of a run on the facts.
    pub open spec fn fresh(
        facts: Map<Seq<char>, ValueView>,
        collaborators: CollaboratorsView,
    ) -> ContextView {
        ContextView { facts, outputs: Map::empty(), effects: Seq::empty(), collaborators }
    }

    /// The context after one more effect was asked for.
    pub open spec fn emit(self, effect: EffectView) -> ContextView {
        ContextView { effects: self.effects.push(effect), ..self }
    }

    /// The context after a value was put into the outputs, under a name.
    pub open spec fn put(self, field: Seq<char>, value: ValueView) -> ContextView {
        ContextView { outputs: self.outputs.insert(field, value), ..self }
    }
}

impl RuleContext {
    /// The context for a run on the facts, with collaborators that all
    /// succeed.
    pub fn new(facts: ValueMap) -> (r: Self)
        ensures
            r@ == ContextView::fresh(facts@, CollaboratorsView::reliable()),
    {
        let r = RuleContext {
            facts,
            outputs: ValueMap::new(),
            effects: Vec::new(),
            collaborators: Collaborators::new(),
        };
        assert(r@.effects =~= Seq::<EffectView>::empty());
        r
    }

    /// The context for a run on the facts, with the given collaborators.
    pub fn with_collaborators(facts: ValueMap, collaborators: Collaborators) -> (r: Self)
        ensures
            r@ == ContextView::fresh(facts@, collaborators@),
    {
        let r = RuleContext {
            facts,
            outputs: ValueMap::new(),
            effects: Vec::new(),
            collaborators,
        };
        assert(r@.effects =~= Seq::<EffectView>::empty());
        r
    }
}

impl Default for RuleContext {
    /// The context for a run on no facts.
    fn default() -> (r: Self)
        ensures
            r@ == ContextView::fresh(Map::empty(), CollaboratorsView::reliable()),
    {
        RuleContext::new(ValueMap::new())
    }
}

/// A context after some work, with the error that ended the work, if one
/// did.
pub struct Step {
    pub context: ContextView,
    pub error: Option<ErrorView>,
}

/// The name of the output that records a service's answer: the endpoint
/// with each `/` replaced by `_`, then `_response`.
pub open spec fn response_key(endpoint: Seq<char>) -> Seq<char> {
    substitute(endpoint, '/', "_"@) + "_response"@
}

/// The value that records that a service answered.
pub open spec fn success_marker() -> ValueView {
    ValueView::String("SUCCESS"@)
}

/// What an action does to a context.
///
/// A log message is asked for and changes nothing else. An update puts its
/// value into the outputs, over what was there. A service call is asked
/// for; where the service fails the action fails with the service's
/// reason, else the success marker is put under the endpoint's response
/// key. An event is asked for; where its publisher fails the action fails
/// with the publisher's reason. A composite does its actions in order and
/// stops at the first that fails.
pub open spec fn perform(action: ActionView, context: ContextView) -> Step
    decreases action,
{
    match action {
        ActionView::Log { message } => Step {
            context: context.emit(EffectView::Log { message }),
            error: None,
        },
        ActionView::UpdateField { field, value } => Step {
            context: context.put(field, value),
            error: None,
        },
        ActionView::CallExternalService { endpoint, payload } => {
            let asked = context.emit(EffectView::ServiceCall { endpoint, payload });
            if context.collaborators.failing_services.dom().contains(endpoint) {
                Step {
                    context: asked,
                    error: Some(
                        ErrorView::ActionFailed(context.collaborators.failing_services[endpoint]),
                    ),
                }
            } else {
                Step { context: asked.put(response_key(endpoint), success_marker()), error: None }
            }
        },
        ActionView::SendEvent { event_type, data } => {
            let asked = context.emit(EffectView::Event { event_type, data });
            if context.collaborators.failing_publishers.dom().contains(event_type) {
                Step {
                    context: asked,
                    error: Some(
                        ErrorView::ActionFailed(
                            context.collaborators.failing_publishers[event_type],
                        ),
                    ),
                }
            } else {
                Step { context: asked, error: None }
            }
        },
        ActionView::Composite(actions) => perform_all(actions, context),
    }
}

/// What a list of actions does to a context: each in turn, on what the one
/// before it left, up to the first that fails.
pub open spec fn perform_all(actions: Seq<ActionView>, context: ContextView) -> Step
    decreases actions,
{
    if actions.len() == 0 {
        Step { context, error: None }
    } else {
        let first = perform(actions[0], context);
        if first.error is Some {
            first
        } else {
            perform_all(actions.drop_first(), first.context)
        }
    }
}

} // verus!
