//! What becomes of a message that was sent.

use crate::actor_ref::ActorRef;
use crate::dispatch::{Delivery, Dispatch, ThreadMessage};
use crate::laws::shutdown::{
    lemma_count_none_running,
    lemma_init_is_wf,
    lemma_lone_worker_exits,
    lemma_no_worker_stops_unasked,
    retire,
    solo,
    without_terminate,
};
use crate::laws::steps::{
    Event,
    after_events,
    lemma_adopt_keeps_wf,
    lemma_events_keep_length,
    lemma_step_keeps_wf,
    step,
};
use crate::state::{SystemState, death_orders};
use vstd::prelude::*;

verus! {

/// The state after the running worker `w` has dealt with `n` tickets for the
/// actor `to`, one after the other.
pub open spec fn serve<A, M>(
    s: SystemState<A, M>,
    w: int,
    to: ActorRef<A>,
    n: nat,
) -> SystemState<A, M>
    decreases n,
{
    if n == 0 {
        s
    } else {
        serve(s, w, to, (n - 1) as nat).dispatch(w, ThreadMessage::Actor(to))
    }
}

/// Serving `n` tickets for an actor takes the `n` oldest envelopes off its
/// mailbox, or all of them if there are fewer, and changes nothing else.
pub proof fn lemma_serve_takes_oldest<A, M>(s: SystemState<A, M>, w: int, to: ActorRef<A>, n: nat)
    requires
        s.wf(),
    ensures
        serve(s, w, to, n) == (SystemState {
            mailboxes: s.mailboxes.insert(
                to.pid,
                if n <= s.mailboxes[to.pid].len() {
                    s.mailboxes[to.pid].skip(n as int)
                } else {
                    Seq::empty()
                },
            ),
            ..s
        }),
    decreases n,
{
    let mailbox = s.mailboxes[to.pid];
    if n == 0 {
        assert(mailbox.skip(0) =~= mailbox);
        assert(s.mailboxes.insert(to.pid, mailbox) =~= s.mailboxes);
    } else {
        lemma_serve_takes_oldest(s, w, to, (n - 1) as nat);
        let before = serve(s, w, to, (n - 1) as nat);
        let after = before.dispatch(w, ThreadMessage::Actor(to));
        let left = if n <= mailbox.len() {
            mailbox.skip(n as int)
        } else {
            Seq::empty()
        };
        let earlier = before.mailboxes[to.pid];
        if n <= mailbox.len() {
            assert(earlier == mailbox.skip(n - 1));
            assert(earlier.len() > 0);
            assert(earlier.drop_first() =~= mailbox.skip(n as int));
        } else {
            assert(earlier =~= Seq::empty());
        }
        assert(after.mailboxes =~= s.mailboxes.insert(to.pid, left));
    }
}

/// A message that was sent is handed to a handler exactly once, after the
/// envelopes that were in the mailbox before it, with the receiving actor
/// and the sender that the send named.
///
/// In words: send `message` to `to` in the name of `sender`, and let a
/// worker serve tickets for `to`. If `waiting` envelopes were in the mailbox,
/// the first `waiting` tickets deliver those, the next one delivers
/// `message` with `me` the ticket's actor and with `sender`, and the one
/// after that finds the mailbox empty.
pub proof fn lemma_told_message_is_delivered_once<A, M>(
    s: SystemState<A, M>,
    w: int,
    sender: Option<ActorRef<A>>,
    to: ActorRef<A>,
    message: M,
)
    requires
        s.wf(),
    ensures
        ({
            let told = s.tell(sender, to, message);
            let ticket = ThreadMessage::Actor(to);
            let waiting = s.mailboxes[to.pid].len();
            let due = serve(told, w, to, waiting);
            &&& told.tickets.last() == ticket
            &&& forall|k: nat|
                k < waiting ==> #[trigger] serve(told, w, to, k).answer(w, ticket) == serve(
                    s,
                    w,
                    to,
                    k,
                ).answer(w, ticket)
            &&& due.answer(w, ticket) == Dispatch::Deliver(Delivery { me: to, sender, message })
            &&& due.dispatch(w, ticket).answer(w, ticket) == Dispatch::<A, M>::Skipped
        }),
{
    let told = s.tell(sender, to, message);
    let ticket = ThreadMessage::Actor(to);
    let waiting = s.mailboxes[to.pid].len();
    let mailbox = s.mailboxes[to.pid];
    let envelope = SystemState::<A, M>::envelope(sender, message);
    assert(told.wf());
    assert(told.mailboxes[to.pid] == mailbox.push(envelope));
    assert forall|k: nat| k < waiting implies #[trigger] serve(told, w, to, k).answer(w, ticket)
        == serve(s, w, to, k).answer(w, ticket) by {
        lemma_serve_takes_oldest(told, w, to, k);
        lemma_serve_takes_oldest(s, w, to, k);
        assert(mailbox.push(envelope).skip(k as int)[0] == mailbox.skip(k as int)[0]);
    }
    lemma_serve_takes_oldest(told, w, to, waiting);
    let due = serve(told, w, to, waiting);
    assert(due.mailboxes[to.pid] =~= seq![envelope]);
    assert(due.dispatch(w, ticket).mailboxes[to.pid] =~= Seq::empty());
}

/// The number of tickets for the actor `pid` among `tickets`.
pub open spec fn tickets_for<A>(tickets: Seq<ThreadMessage<A>>, pid: u128) -> nat
    decreases tickets.len(),
{
    if tickets.len() == 0 {
        0
    } else {
        tickets_for(tickets.drop_last(), pid) + match tickets.last() {
            ThreadMessage::Actor(to) => if to.pid == pid {
                1nat
            } else {
                0nat
            },
            ThreadMessage::Die(_) => 0nat,
        }
    }
}

/// Whether every envelope in a mailbox has a ticket in the dispatch queue:
/// whether, for each actor, the queue holds at least as many tickets as the
/// mailbox holds envelopes.
pub open spec fn tickets_cover_envelopes<A, M>(s: SystemState<A, M>) -> bool {
    forall|pid: u128| #[trigger] tickets_for(s.tickets, pid) >= s.mailboxes[pid].len()
}

/// Taking the oldest message from a queue takes one ticket from the actor it
/// was for, if it was a ticket, and none from any other.
pub proof fn lemma_tickets_for_rest<A>(tickets: Seq<ThreadMessage<A>>, pid: u128)
    requires
        tickets.len() > 0,
    ensures
        tickets_for(tickets, pid) == tickets_for(tickets.drop_first(), pid) + match tickets[0] {
            ThreadMessage::Actor(to) => if to.pid == pid {
                1nat
            } else {
                0nat
            },
            ThreadMessage::Die(_) => 0nat,
        },
    decreases tickets.len(),
{
    if tickets.len() == 1 {
        assert(tickets.drop_last() =~= tickets.drop_first());
    } else {
        lemma_tickets_for_rest(tickets.drop_last(), pid);
        assert(tickets.drop_last().drop_first() =~= tickets.drop_first().drop_last());
    }
}

/// Death orders are tickets for no actor.
pub proof fn lemma_tickets_for_with_orders<A>(tickets: Seq<ThreadMessage<A>>, n: nat, pid: u128)
    ensures
        tickets_for(tickets + death_orders::<A>(n), pid) == tickets_for(tickets, pid),
    decreases n,
{
    let orders = death_orders::<A>(n);
    if n == 0 {
        assert(tickets + orders =~= tickets);
    } else {
        lemma_tickets_for_with_orders(tickets, (n - 1) as nat, pid);
        assert((tickets + orders).drop_last() =~= tickets + death_orders::<A>(
            (n - 1) as nat,
        ));
    }
}

/// A turn of a running worker leaves every envelope with a ticket.
pub proof fn lemma_step_keeps_cover<A, M>(s: SystemState<A, M>, w: int)
    requires
        s.wf(),
        s.running(w),
        tickets_cover_envelopes(s),
    ensures
        step(s, w).wf(),
        tickets_cover_envelopes(step(s, w)),
{
    let end = step(s, w);
    lemma_step_keeps_wf(s, w);
    assert forall|pid: u128| #[trigger]
        tickets_for(end.tickets, pid) >= end.mailboxes[pid].len() by {
        assert(tickets_for(s.tickets, pid) >= s.mailboxes[pid].len());
        if s.tickets.len() > 0 {
            lemma_tickets_for_rest(s.tickets, pid);
            match s.tickets[0] {
                ThreadMessage::Die(id) => {
                    if id != w {
                        assert(end.tickets.drop_last() =~= s.tickets.drop_first());
                    }
                },
                ThreadMessage::Actor(to) => {},
            }
        }
    }
}

/// In a new system every envelope has its ticket: there is neither.
pub proof fn lemma_init_covers_envelopes<A, M>(workers: nat, root: u128)
    requires
        workers <= usize::MAX,
    ensures
        SystemState::<A, M>::init(workers, root).wf(),
        tickets_cover_envelopes(SystemState::<A, M>::init(workers, root)),
{
    lemma_init_is_wf::<A, M>(workers, root);
}

/// No message is stranded. In a system that started with its mailboxes
/// covered by tickets, as a new system does, whatever happens, every envelope
/// in a mailbox has its ticket in the dispatch queue; so whenever the queue
/// is empty, every message that was sent has been handed to a handler.
pub proof fn lemma_no_message_is_stranded<A, M>(s: SystemState<A, M>, events: Seq<Event<A, M>>)
    requires
        s.wf(),
        tickets_cover_envelopes(s),
    ensures
        after_events(s, events).wf(),
        tickets_cover_envelopes(after_events(s, events)),
        after_events(s, events).tickets.len() == 0 ==> forall|pid: u128|
            (#[trigger] after_events(s, events).mailboxes[pid]).len() == 0,
    decreases events.len(),
{
    let end = after_events(s, events);
    if events.len() > 0 {
        lemma_no_message_is_stranded(s, events.drop_last());
        let mid = after_events(s, events.drop_last());
        match events.last() {
            Event::Tell { sender, to, message } => {
                assert forall|pid: u128| #[trigger]
                    tickets_for(end.tickets, pid) >= end.mailboxes[pid].len() by {
                    assert(tickets_for(mid.tickets, pid) >= mid.mailboxes[pid].len());
                    assert(end.tickets.drop_last() =~= mid.tickets);
                }
            },
            Event::Spawn { parent, child } => {
                lemma_adopt_keeps_wf(mid, parent, child);
                assert forall|pid: u128| #[trigger]
                    tickets_for(end.tickets, pid) >= end.mailboxes[pid].len() by {
                    assert(tickets_for(mid.tickets, pid) >= mid.mailboxes[pid].len());
                }
            },
            Event::Turn { worker } => {
                if mid.running(worker) {
                    lemma_step_keeps_cover(mid, worker);
                }
            },
            Event::Count => {
                assert forall|pid: u128| #[trigger]
                    tickets_for(end.tickets, pid) >= end.mailboxes[pid].len() by {
                    assert(tickets_for(mid.tickets, pid) >= mid.mailboxes[pid].len());
                }
            },
            Event::Terminate => {
                assert forall|pid: u128| #[trigger]
                    tickets_for(end.tickets, pid) >= end.mailboxes[pid].len() by {
                    assert(tickets_for(mid.tickets, pid) >= mid.mailboxes[pid].len());
                    lemma_tickets_for_with_orders(mid.tickets, mid.alive, pid);
                }
            },
        }
    }
    if end.tickets.len() == 0 {
        assert forall|pid: u128| (#[trigger] end.mailboxes[pid]).len() == 0 by {
            assert(tickets_for(end.tickets, pid) >= end.mailboxes[pid].len());
        }
    }
}

/// A worker that takes turns alone, and finds nothing but tickets before
/// its death order, serves them all before it stops: what is left of the
/// dispatch queue is what stood behind the order, and every envelope still
/// has its ticket there.
pub proof fn lemma_lone_worker_serves_first<A, M>(
    s: SystemState<A, M>,
    w: int,
    place: int,
    turns: nat,
)
    requires
        s.wf(),
        s.running(w),
        tickets_cover_envelopes(s),
        0 <= place < s.tickets.len(),
        s.tickets[place] == ThreadMessage::<A>::Die(w as usize),
        forall|i: int| 0 <= i < place ==> #[trigger] s.tickets[i] is Actor,
        place < turns,
    ensures
        solo(s, w, turns).tickets == s.tickets.skip(place + 1),
        tickets_cover_envelopes(solo(s, w, turns)),
    decreases turns,
{
    let next = step(s, w);
    lemma_step_keeps_cover(s, w);
    if place == 0 {
        assert(!next.running(w));
        assert(solo(next, w, (turns - 1) as nat) == next);
        assert(next.tickets =~= s.tickets.skip(1));
    } else {
        assert(s.tickets[0] is Actor);
        assert(next.running(w));
        assert(next.tickets =~= s.tickets.drop_first());
        lemma_lone_worker_serves_first(next, w, place - 1, (turns - 1) as nat);
        assert(next.tickets.skip(place) =~= s.tickets.skip(place + 1));
    }
}

/// With one worker, what was sent before the order to stop is delivered
/// before the worker stops. Take a new system of one worker; let anything
/// happen but an order to stop; call `terminate`; and let the worker take
/// its turns. When it has stopped, the dispatch queue and every mailbox are
/// empty, so every message that was sent has been handed to a handler, and
/// `run` counts down to zero.
pub proof fn lemma_one_worker_delivers_before_it_stops<A, M>(
    root: u128,
    before: Seq<Event<A, M>>,
)
    requires
        without_terminate(before),
    ensures
        ({
            let fresh = SystemState::<A, M>::init(1, root);
            let end = retire(after_events(fresh, before).terminate(), 0);
            &&& !end.running(0)
            &&& end.tickets.len() == 0
            &&& forall|pid: u128| (#[trigger] end.mailboxes[pid]).len() == 0
            &&& end.run_ends()
            &&& end.run().alive == 0
        }),
{
    let fresh = SystemState::<A, M>::init(1, root);
    lemma_init_covers_envelopes::<A, M>(1, root);
    assert forall|w: int| 0 <= w < fresh.workers.len() implies #[trigger] fresh.running(w) by {}
    lemma_no_worker_stops_unasked(fresh, before);
    lemma_no_message_is_stranded(fresh, before);
    lemma_events_keep_length(fresh, before);
    let started = after_events(fresh, before);
    let ordered = started.terminate();
    let place = started.tickets.len() as int;
    assert(ordered.tickets =~= started.tickets.push(ThreadMessage::Die(0)));
    assert(ordered.running(0)) by {
        assert(started.running(0));
    }
    assert forall|pid: u128| #[trigger]
        tickets_for(ordered.tickets, pid) >= ordered.mailboxes[pid].len() by {
        assert(tickets_for(started.tickets, pid) >= started.mailboxes[pid].len());
        lemma_tickets_for_with_orders(started.tickets, 1, pid);
    }
    assert forall|i: int| 0 <= i < place implies #[trigger] ordered.tickets[i] is Actor by {
        assert(!(started.tickets[i] is Die));
    }
    lemma_lone_worker_exits(ordered, 0, place, ordered.tickets.len());
    lemma_lone_worker_serves_first(ordered, 0, place, ordered.tickets.len());
    let end = retire(ordered, 0);
    assert(end.tickets =~= Seq::empty());
    assert forall|pid: u128| (#[trigger] end.mailboxes[pid]).len() == 0 by {
        assert(tickets_for(end.tickets, pid) >= end.mailboxes[pid].len());
    }
    assert forall|w: int| 0 <= w < end.workers.len() implies !(end.workers[w] is Running) by {
        assert(w == 0);
    }
    lemma_count_none_running(end.workers);
}

} // verus!
