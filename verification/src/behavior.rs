use vstd::prelude::*;

verus! {

/// Chooses an action from what an agent can see.
pub trait Policy<Context, Action> {
    fn decide(&mut self, context: &Context) -> Option<Action>;
}

/// Says when a run is over.
pub trait TerminationCondition<State> {
    fn is_terminal(&self, state: &State) -> bool;
}

/// Calls a user's closure once. Where the closure's precondition holds, the
/// result is one that its postcondition allows; nothing else is claimed.
#[verifier::external_body]
fn call_decide<Context, Action, Decide: FnMut(&Context) -> Option<Action>>(
    decide: &mut Decide,
    context: &Context,
) -> (action: Option<Action>)
    ensures
        call_requires(*old(decide), (context,)) ==> call_ensures(*old(decide), (context,), action),
{
    decide(context)
}

/// Calls a user's closure once. Where the closure's precondition holds, the
/// result is one that its postcondition allows; nothing else is claimed.
#[verifier::external_body]
fn call_condition<State, Condition: Fn(&State) -> bool>(
    condition: &Condition,
    state: &State,
) -> (terminal: bool)
    ensures
        call_requires(*condition, (state,)) ==> call_ensures(*condition, (state,), terminal),
{
    condition(state)
}

/// Any closure from a context to an optional action is a policy.
impl<Context, Action, Decide> Policy<Context, Action> for Decide where
    Decide: FnMut(&Context) -> Option<Action>,
 {
    fn decide(&mut self, context: &Context) -> (action: Option<Action>)
        ensures
            call_requires(*old(self), (context,)) ==> call_ensures(*old(self), (context,), action),
    {
        call_decide(self, context)
    }
}

/// Any closure from a state to a `bool` is a termination condition.
impl<State, Condition> TerminationCondition<State> for Condition where
    Condition: Fn(&State) -> bool,
 {
    fn is_terminal(&self, state: &State) -> (terminal: bool)
        ensures
            call_requires(*self, (state,)) ==> call_ensures(*self, (state,), terminal),
    {
        call_condition(self, state)
    }
}

} // verus!
