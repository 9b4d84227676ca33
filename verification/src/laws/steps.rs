//! The turns of the workers and the other things that happen to a system,
//! and what all of them keep.

use crate::actor_ref::ActorRef;
use crate::dispatch::{Dispatch, ThreadMessage};
use crate::state::{SystemState, lemma_count_running_update};
use vstd::prelude::*;

verus! {

/// One turn of the worker `w`: it takes the oldest message from the dispatch
/// queue and deals with it. With an empty queue it waits, and nothing changes.
pub open spec fn step<A, M>(s: SystemState<A, M>, w: int) -> SystemState<A, M> {
    if s.tickets.len() == 0 {
        s
    } else {
        s.take_ticket().dispatch(w, s.tickets[0])
    }
}

/// What the worker `w` has to do after that turn; `None` where it waits.
pub open spec fn step_answer<A, M>(s: SystemState<A, M>, w: int) -> Option<Dispatch<A, M>> {
    if s.tickets.len() == 0 {
        None
    } else {
        Some(s.take_ticket().answer(w, s.tickets[0]))
    }
}

/// Entering a child in a registry keeps a system well formed.
pub proof fn lemma_adopt_keeps_wf<A, M>(s: SystemState<A, M>, parent: u128, child: ActorRef<A>)
    requires
        s.wf(),
    ensures
        s.adopt(parent, child).wf(),
{
    let adopted = s.adopt(parent, child);
    assert forall|p: u128, c: u128| #[trigger]
        adopted.children[p].contains_key(c) implies adopted.children[p][c].pid == c by {
        if p == parent && c == child.pid {
        } else {
            assert(s.children[p].contains_key(c));
        }
    }
    assert forall|p: u128| #[trigger] adopted.children[p].dom().finite() by {
        assert(s.children[p].dom().finite());
    }
}

/// A running worker that deals with a message leaves the system well formed.
pub proof fn lemma_dispatch_keeps_wf<A, M>(s: SystemState<A, M>, w: int, msg: ThreadMessage<A>)
    requires
        s.wf(),
        s.running(w),
    ensures
        s.dispatch(w, msg).wf(),
{
    match msg {
        ThreadMessage::Die(id) => {
            if id == w {
                lemma_count_running_update(s.workers, w);
            }
        },
        ThreadMessage::Actor(to) => {},
    }
}

/// A turn of a running worker leaves the system well formed.
pub proof fn lemma_step_keeps_wf<A, M>(s: SystemState<A, M>, w: int)
    requires
        s.wf(),
        s.running(w),
    ensures
        step(s, w).wf(),
{
    if s.tickets.len() > 0 {
        lemma_dispatch_keeps_wf(s.take_ticket(), w, s.tickets[0]);
    }
}

/// `Died` is final: whatever is sent, spawned, ordered, taken or counted, and
/// whatever a running worker deals with, a worker that is not running does
/// not run again.
pub proof fn lemma_died_is_final<A, M>(
    s: SystemState<A, M>,
    w: int,
    v: int,
    msg: ThreadMessage<A>,
    sender: Option<ActorRef<A>>,
    to: ActorRef<A>,
    message: M,
    parent: u128,
)
    requires
        !s.running(w),
    ensures
        !s.tell(sender, to, message).running(w),
        !s.adopt(parent, to).running(w),
        !s.terminate().running(w),
        !s.take_ticket().running(w),
        !s.run().running(w),
        s.running(v) ==> !s.dispatch(v, msg).running(w),
        s.running(v) ==> !step(s, v).running(w),
{
}

/// No ticket waits forever behind another: each turn of a running worker,
/// whatever it takes, moves every other message in the dispatch queue one
/// place towards the head.
pub proof fn lemma_step_advances_queue<A, M>(s: SystemState<A, M>, w: int, place: int)
    requires
        s.wf(),
        s.running(w),
        0 < place < s.tickets.len(),
    ensures
        step(s, w).tickets.len() >= s.tickets.len() - 1,
        step(s, w).tickets[place - 1] == s.tickets[place],
{
}

/// A death order that no running worker can claim never blocks the queue:
/// the worker that takes it puts it back at the end, behind every other
/// message, and changes nothing else.
pub proof fn lemma_foreign_order_goes_to_the_end<A, M>(s: SystemState<A, M>, w: int, id: usize)
    requires
        s.wf(),
        s.running(w),
        s.tickets.len() > 0,
        s.tickets[0] == ThreadMessage::<A>::Die(id),
        id != w,
    ensures
        step_answer(s, w) == Some(Dispatch::<A, M>::Forwarded),
        step(s, w) == (SystemState {
            tickets: s.tickets.drop_first().push(ThreadMessage::Die(id)),
            ..s
        }),
{
}

/// Something that happens to a system.
pub enum Event<A, M> {
    /// A message is sent.
    Tell { sender: Option<ActorRef<A>>, to: ActorRef<A>, message: M },
    /// An actor is spawned; nothing happens if its parent has a child with
    /// its identifier.
    Spawn { parent: u128, child: ActorRef<A> },
    /// A worker has a turn; nothing happens if it is not running.
    Turn { worker: int },
    /// The owner counts the waiting death reports.
    Count,
    /// The workers are ordered to stop.
    Terminate,
}

/// The state after `event` has happened to `s`.
pub open spec fn after_event<A, M>(s: SystemState<A, M>, event: Event<A, M>) -> SystemState<A, M> {
    match event {
        Event::Tell { sender, to, message } => s.tell(sender, to, message),
        Event::Spawn { parent, child } => if s.children[parent].contains_key(child.pid) {
            s
        } else {
            s.adopt(parent, child)
        },
        Event::Turn { worker } => if s.running(worker) {
            step(s, worker)
        } else {
            s
        },
        Event::Count => s.run(),
        Event::Terminate => s.terminate(),
    }
}

/// The state after `events` have happened to `s` one after the other.
pub open spec fn after_events<A, M>(
    s: SystemState<A, M>,
    events: Seq<Event<A, M>>,
) -> SystemState<A, M>
    decreases events.len(),
{
    if events.len() == 0 {
        s
    } else {
        after_event(after_events(s, events.drop_last()), events.last())
    }
}

/// Nothing that happens changes the number of workers.
pub proof fn lemma_events_keep_length<A, M>(s: SystemState<A, M>, events: Seq<Event<A, M>>)
    requires
        s.wf(),
    ensures
        after_events(s, events).workers.len() == s.workers.len(),
        after_events(s, events).wf(),
    decreases events.len(),
{
    if events.len() > 0 {
        lemma_events_keep_length(s, events.drop_last());
        let mid = after_events(s, events.drop_last());
        match events.last() {
            Event::Spawn { parent, child } => {
                lemma_adopt_keeps_wf(mid, parent, child);
            },
            Event::Turn { worker } => {
                if mid.running(worker) {
                    lemma_step_keeps_wf(mid, worker);
                }
            },
            _ => {},
        }
    }
}

} // verus!
