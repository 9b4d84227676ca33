//! What workers take from the dispatch queue, what they report, and what
//! they hand to a handler.

use crate::actor::Actor;
use crate::actor_ref::ActorRef;
use crate::context::Context;
use std::sync::Arc;
use vstd::prelude::*;

verus! {

/// What a worker tells the owner of the system.
#[derive(Debug, Clone, Copy, PartialEq, Eq, Structural)]
pub enum SystemMessage {
    /// The worker with this number has stopped.
    Died(usize),
}

/// What a worker finds in the dispatch queue.
pub enum ThreadMessage<A> {
    /// The worker with this number is to stop.
    Die(usize),
    /// The mailbox of this actor may hold an envelope.
    Actor(ActorRef<A>),
}

/// Where a worker stands. `Died` is final.
#[derive(Debug, Clone, Copy, PartialEq, Eq, Structural)]
pub enum WorkerState {
    /// The worker takes messages from the dispatch queue.
    Running,
    /// The worker has claimed its death order and takes nothing more.
    Died,
}

/// One message taken from a mailbox, with all that its handler is told: the
/// receiving actor and the actor to answer to.
pub struct Delivery<A, M> {
    /// The actor whose handler is to be called.
    pub me: ActorRef<A>,
    /// The actor in whose name the message was sent, if any.
    pub sender: Option<ActorRef<A>>,
    /// The payload.
    pub message: M,
}

/// What a worker has to do after it has dealt with a message from the
/// dispatch queue.
pub enum Dispatch<A, M> {
    /// The message was the worker's own death order. Its death is reported
    /// and it takes nothing more.
    Exit,
    /// The message was the death order of another worker and went back to
    /// the end of the dispatch queue.
    Forwarded,
    /// The message was a ticket for a mailbox that held nothing.
    Skipped,
    /// The message was a ticket, and this is the oldest envelope of its
    /// mailbox: the actor's handler is to be called with it.
    Deliver(Delivery<A, M>),
}

impl<A, M> Delivery<A, M> {
    /// Takes the delivery apart for a handler that reaches the system
    /// through `system`: the instance to call, the message, and the context
    /// of the call.
    pub fn into_parts<S>(self, system: S) -> (parts: (Arc<A>, M, Context<A, S>))
        ensures
            parts.0 == self.me.inner,
            parts.1 == self.message,
            parts.2 == (Context { system, sender: self.sender, me: self.me }),
    {
        let actor = self.me.inner.clone();
        (actor, self.message, Context::new(system, self.me, self.sender))
    }

    /// Calls the receiving actor's handler with the message and the context
    /// that [`Delivery::into_parts`] gives. What the handler does is its own
    /// affair: nothing is promised of it.
    pub fn deliver<S>(self, system: S) where A: Actor<M, S> {
        let (actor, message, context) = self.into_parts(system);
        actor.receive(message, context);
    }
}

} // verus!
