//! Core execution model: deterministic state transitions, and values whose
//! access is serialized.

use vstd::prelude::*;

use std::sync::Arc;

use tokio::sync::Mutex;

use crate::types::Error;

verus! {

/// A deterministic state transition function.
pub trait StateMachine {
    /// State held by the machine.
    type State;
    /// Event applied to the state.
    type Event;

    /// What `transition` computes from `state` and `event`: the transition is
    /// pure, so this is a function of the machine, the state and the event
    /// alone. Every machine defines it.
    spec fn transition_result(&self, state: Self::State, event: Self::Event) -> Result<Self::State, Error>;

    /// Computes the next state from the current one and an event.
    fn transition(&self, state: &Self::State, event: Self::Event) -> (r: Result<Self::State, Error>)
        ensures
            r == self.transition_result(*state, event),
    ;
}

/// A tokio mutex, which hands out exclusive access to its value in turn.
#[verifier::external_type_specification]
#[verifier::external_body]
#[verifier::reject_recursive_types(T)]
pub struct ExMutex<T: ?Sized>(Mutex<T>);

/// tokio's `Mutex::new`: a new, unlocked mutex holding `value`; nothing is
/// claimed of it, since Verus sees it as opaque.
#[verifier::external_body]
fn new_mutex<T>(value: T) -> (m: Mutex<T>) {
    Mutex::new(value)
}

/// A value whose access is serialized: only one holder may operate on it at a time.
#[derive(Debug, Clone)]
#[verifier::reject_recursive_types(T)]
pub struct Owned<T> {
    inner: Arc<Mutex<T>>,
}

impl<T> Owned<T> {
    /// The shared lock around the value.
    pub closed spec fn lock_spec(&self) -> Arc<Mutex<T>> {
        self.inner
    }

    /// Wraps a value for serialized access.
    pub fn new(value: T) -> (o: Self) {
        Owned { inner: Arc::new(new_mutex(value)) }
    }

    /// The shared lock through which holders take turns on the value.
    pub fn lock(&self) -> (l: &Arc<Mutex<T>>)
        ensures
            *l == self.lock_spec(),
    {
        &self.inner
    }
}

} // verus!
