//! The executor: carries out an action in a run's context.

use vstd::prelude::*;
use vstd::string::StringExecFns;

use crate::action::{
    actions_view, effects_view, perform, perform_all, response_key, Action, Effect, RuleContext,
};
use crate::engine::RuleExecutor;
use crate::error::{ErrorView, RuleEngineError};
use crate::text::replace_char;
use crate::value::Value;

verus! {

/// The error of a result that carries no value, over the error's view.
pub open spec fn failure(r: Result<(), RuleEngineError>) -> Option<ErrorView> {
    match r {
        Ok(_) => None,
        Err(e) => Some(e@),
    }
}

/// Records that the run asks for the effect.
pub fn emit(context: &mut RuleContext, effect: Effect)
    ensures
        final(context)@ == old(context)@.emit(effect@),
{
    let ghost before = context.effects@;
    context.effects.push(effect);
    assert(effects_view(context.effects@) =~= effects_view(before).push(effect@));
}

/// Builds the name of the output that records a service's answer.
pub fn response_key_of(endpoint: &str) -> (r: String)
    ensures
        r@ == response_key(endpoint@),
{
    replace_char(endpoint, '/', "_").concat("_response")
}

impl RuleExecutor {
    /// Carries out an action in the context.
    ///
    /// The context is left as the action, or the part of it that ran
    /// before a failure, has made it; the facts and the collaborators stay
    /// as they were.
    #[verifier::loop_isolation(false)]
    pub fn execute_action(&self, action: &Action, context: &mut RuleContext) -> (r: Result<
        (),
        RuleEngineError,
    >)
        ensures
            final(context)@ == perform(action@, old(context)@).context,
            failure(r) == perform(action@, old(context)@).error,
        decreases action,
    {
        match action {
            Action::Log { message } => {
                emit(context, Effect::Log { message: message.clone() });
                Ok(())
            },
            Action::UpdateField { field, value } => {
                context.outputs.insert(field.clone(), value.clone());
                Ok(())
            },
            Action::CallExternalService { endpoint, payload } => {
                emit(
                    context,
                    Effect::ServiceCall { endpoint: endpoint.clone(), payload: payload.clone() },
                );
                match context.collaborators.service_failure(endpoint.as_str()) {
                    Some(reason) => Err(RuleEngineError::ActionFailed(reason.clone())),
                    None => {
                        context.outputs.insert(
                            response_key_of(endpoint.as_str()),
                            Value::String("SUCCESS".to_owned()),
                        );
                        Ok(())
                    },
                }
            },
            Action::SendEvent { event_type, data } => {
                emit(
                    context,
                    Effect::Event { event_type: event_type.clone(), data: data.clone() },
                );
                match context.collaborators.publisher_failure(event_type.as_str()) {
                    Some(reason) => Err(RuleEngineError::ActionFailed(reason.clone())),
                    None => Ok(()),
                }
            },
            Action::Composite(actions) => {
                assert(action@->Composite_0 =~= actions_view(actions@));
                self.execute_actions(actions, context)
            },
        }
    }

    /// Carries out the actions in the context, one after the other, up to
    /// the first that fails.
    #[verifier::loop_isolation(false)]
    pub fn execute_actions(&self, actions: &Vec<Action>, context: &mut RuleContext) -> (r:
        Result<(), RuleEngineError>)
        ensures
            final(context)@ == perform_all(actions_view(actions@), old(context)@).context,
            failure(r) == perform_all(actions_view(actions@), old(context)@).error,
        decreases actions,
    {
        let ghost views = actions_view(actions@);
        assert(views.skip(0) =~= views);
        let mut i: usize = 0;
        while i < actions.len()
            invariant
                i <= actions@.len(),
                perform_all(views, old(context)@) == perform_all(views.skip(i as int), context@),
            decreases actions@.len() - i,
        {
            let ghost rest = views.skip(i as int);
            assert(rest[0] == views[i as int]);
            assert(rest.drop_first() =~= views.skip(i + 1));
            match self.execute_action(&actions[i], context) {
                Err(e) => {
                    return Err(e);
                },
                Ok(_) => {},
            }
            i = i + 1;
        }
        assert(views.skip(i as int).len() == 0);
        Ok(())
    }
}

} // verus!
