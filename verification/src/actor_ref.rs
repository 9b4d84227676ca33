//! The identity of an actor, and a message on its way to one.

use std::sync::Arc;
use vstd::prelude::*;

verus! {

/// The handle by which an actor is addressed: its identifier and the shared
/// instance that handles its messages. Copies of a handle address the same
/// actor; its mailbox and its children are kept by the system under `pid`.
pub struct ActorRef<A> {
    /// The actor's 128-bit identifier.
    pub pid: u128,
    /// The instance that receives the actor's messages.
    pub inner: Arc<A>,
}

/// A message in a mailbox, with the actor to answer to, if any.
pub struct Envelope<A, M> {
    /// What is sent.
    pub message: InnerMessage<M>,
    /// The actor in whose name it is sent, if any.
    pub sender: Option<ActorRef<A>>,
}

/// What an envelope carries.
pub enum InnerMessage<M> {
    /// A payload for the receiving actor's handler.
    Message(M),
}

impl<A> ActorRef<A> {
    /// The handle of the actor `pid` whose messages `actor` handles.
    pub fn new(pid: u128, actor: Arc<A>) -> (r: ActorRef<A>)
        ensures
            r.pid == pid,
            r.inner == actor,
    {
        ActorRef { pid, inner: actor }
    }
}

impl<A> PartialEq for ActorRef<A> {
    /// Two handles are equal when they address the same actor, whatever
    /// instance each of them holds.
    fn eq(&self, other: &ActorRef<A>) -> (same: bool) {
        self.pid == other.pid
    }
}

impl<A> vstd::std_specs::cmp::PartialEqSpecImpl for ActorRef<A> {
    open spec fn obeys_eq_spec() -> bool {
        true
    }

    open spec fn eq_spec(&self, other: &ActorRef<A>) -> bool {
        self.pid == other.pid
    }
}

impl<A> Clone for ActorRef<A> {
    /// Another handle to the same actor and the same instance.
    fn clone(&self) -> (r: ActorRef<A>)
        ensures
            r == *self,
    {
        ActorRef { pid: self.pid, inner: self.inner.clone() }
    }
}

} // verus!
