//! The actor at the top of the spawn hierarchy.

use crate::actor::Actor;
use crate::context::Context;
use std::sync::Arc;
use vstd::prelude::*;

verus! {

/// The parent of every actor that was spawned without one. It handles every
/// message by doing nothing.
pub struct RootActor;

impl<M, S> Actor<M, S> for RootActor {
    fn new() -> Arc<RootActor> {
        Arc::new(RootActor)
    }

    fn receive(&self, _message: M, _context: Context<RootActor, S>) {
    }
}

} // verus!
