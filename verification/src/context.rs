//! What a handler is given besides the message.

use crate::actor_ref::ActorRef;
use vstd::prelude::*;

verus! {

/// The surroundings of one handler call: a handle `system` to the running
/// system, the receiving actor `me`, and the actor to answer to, if the
/// message named one.
pub struct Context<A, S> {
    /// The handle through which the handler sends, spawns and terminates.
    pub system: S,
    /// The actor in whose name the message was sent, if any.
    pub sender: Option<ActorRef<A>>,
    /// The actor whose handler is called.
    pub me: ActorRef<A>,
}

impl<A, S> Context<A, S> {
    /// The context of a call of the handler of `me`.
    pub fn new(system: S, me: ActorRef<A>, sender: Option<ActorRef<A>>) -> (c: Context<A, S>)
        ensures
            c.system == system,
            c.me == me,
            c.sender == sender,
    {
        Context { system, sender, me }
    }
}

} // verus!
