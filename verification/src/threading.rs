use std::sync::{mpsc, Arc, RwLock};
use vstd::prelude::*;

verus! {

/// `std::sync::RwLock`, carried through as an opaque value.
#[verifier::external_type_specification]
#[verifier::external_body]
#[verifier::reject_recursive_types(T)]
pub struct ExRwLock<T: ?Sized>(RwLock<T>);

/// `std::sync::mpsc::Receiver`, carried through as an opaque value.
#[verifier::external_type_specification]
#[verifier::external_body]
#[verifier::reject_recursive_types(T)]
pub struct ExReceiver<T>(mpsc::Receiver<T>);

/// What a worker thread owns: its configuration, the state it shares with
/// its handle, its private state, and the receiving end of its input queue.
#[verifier::reject_recursive_types(T)]
#[verifier::reject_recursive_types(S)]
pub struct WorkerThread<C, T, S, I> {
    pub config: C,
    pub state: Arc<RwLock<S>>,
    pub internal_state: I,
    pub input_rx: mpsc::Receiver<T>,
}

impl<C, T, S, I> WorkerThread<C, T, S, I> {
    pub fn new(config: C, state: Arc<RwLock<S>>, internal_state: I, input_rx: mpsc::Receiver<T>) -> (w: Self)
        ensures
            w.config == config,
            w.state == state,
            w.internal_state == internal_state,
            w.input_rx == input_rx,
    {
        Self { config, internal_state, state, input_rx }
    }
}

} // verus!
