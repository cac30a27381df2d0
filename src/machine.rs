use vstd::prelude::*;

verus! {

/// A machine that moves from state to state; `None` when it stops.
pub trait StateMachine<S> {
    fn step(&self, state: S) -> Option<S>;
}

} // verus!
