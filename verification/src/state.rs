//! The per-pass state machine of a network instance. The numeric work of a
//! pass (floating-point activation and gradient arithmetic) happens outside
//! this crate; the legality of each step is decided here, so that backward
//! propagation without a prior forward pass is refused with a state error.

use vstd::prelude::*;

use crate::tags::NetworkError;

verus! {

/// Where a network instance stands in its forward/backward cycle.
#[derive(Clone, Copy, PartialEq, Eq, Structural, Debug)]
pub enum PassState {
    /// Built or reset: no valid activations yet.
    Uninitialized,
    /// A forward pass has produced valid activations for the latest input.
    Forwarded,
    /// A backward pass has produced valid deltas and gradients for the
    /// latest input/target pair.
    Backpropagated,
}

/// One step a driver may attempt on a network instance.
#[derive(Clone, Copy, PartialEq, Eq, Structural, Debug)]
pub enum PassEvent {
    /// A forward propagation over a fresh input.
    Forward,
    /// A backward propagation against a target.
    Backward,
    /// The explicit reset before an independent cycle.
    Reset,
}

/// The state reached by taking `event` from `state`. A forward pass is legal
/// from any state and a reset always returns to the initial state, while a
/// backward pass is legal only directly after a forward pass; anything else
/// fails with [`NetworkError::State`] and the state is unchanged.
pub fn next_pass_state(state: PassState, event: PassEvent) -> (r: Result<PassState, NetworkError>)
    ensures
        event == PassEvent::Forward ==> r == Ok::<PassState, NetworkError>(PassState::Forwarded),
        event == PassEvent::Reset ==> r == Ok::<PassState, NetworkError>(PassState::Uninitialized),
        event == PassEvent::Backward && state == PassState::Forwarded ==> r == Ok::<
            PassState,
            NetworkError,
        >(PassState::Backpropagated),
        event == PassEvent::Backward && state != PassState::Forwarded ==> r == Err::<
            PassState,
            NetworkError,
        >(NetworkError::State),
{
    match event {
        PassEvent::Forward => Ok(PassState::Forwarded),
        PassEvent::Reset => Ok(PassState::Uninitialized),
        PassEvent::Backward => match state {
            PassState::Forwarded => Ok(PassState::Backpropagated),
            _ => Err(NetworkError::State),
        },
    }
}

} // verus!
