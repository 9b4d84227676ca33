//! What a payload and an actor have to be.

use crate::context::Context;
use std::sync::Arc;
use vstd::prelude::*;

verus! {

/// A payload: any value that can be copied and handed to another thread.
/// Every such type is a payload; there is nothing to implement.
pub trait Message: Clone + Send + Sync + 'static {

}

impl<T> Message for T where T: Clone + Send + Sync + 'static {

}

/// The behaviour of an actor with payloads of type `M`, in a system that
/// handlers reach through a handle of type `S`.
///
/// An instance is shared, and two of its messages may be handled at the same
/// time: state that `receive` changes is the instance's own to guard.
pub trait Actor<M, S>: Send + Sync + 'static + Sized {
    /// A new instance, ready to be shared.
    fn new() -> Arc<Self>;

    /// Handles one message. Through `context` the handler may send further
    /// messages, spawn actors or shut the system down.
    fn receive(&self, message: M, context: Context<Self, S>);
}

} // verus!
