//! How a system shuts down.

use crate::dispatch::{Dispatch, SystemMessage, ThreadMessage, WorkerState};
use crate::laws::steps::{
    Event,
    after_event,
    after_events,
    lemma_adopt_keeps_wf,
    lemma_events_keep_length,
    lemma_step_keeps_wf,
    step,
    step_answer,
};
use crate::state::{SystemState, count_running};
use vstd::prelude::*;

verus! {

/// Whether every running worker has its death order somewhere in the
/// dispatch queue.
pub open spec fn orders_pending<A, M>(s: SystemState<A, M>) -> bool {
    forall|v: int| #[trigger] s.running(v) ==> s.tickets.contains(ThreadMessage::Die(v as usize))
}

/// As many running workers in a row are counted as running.
pub proof fn lemma_count_all_running(n: nat)
    ensures
        count_running(Seq::new(n, |w: int| WorkerState::Running)) == n,
    decreases n,
{
    if n > 0 {
        lemma_count_all_running((n - 1) as nat);
        assert(Seq::new(n, |w: int| WorkerState::Running).drop_last() =~= Seq::new(
            (n - 1) as nat,
            |w: int| WorkerState::Running,
        ));
    }
}

/// Where no worker is running, none is counted as running.
pub proof fn lemma_count_none_running(workers: Seq<WorkerState>)
    requires
        forall|w: int| 0 <= w < workers.len() ==> !(workers[w] is Running),
    ensures
        count_running(workers) == 0,
    decreases workers.len(),
{
    if workers.len() > 0 {
        lemma_count_none_running(workers.drop_last());
    }
}

/// A new system is well formed.
pub proof fn lemma_init_is_wf<A, M>(workers: nat, root: u128)
    requires
        workers <= usize::MAX,
    ensures
        SystemState::<A, M>::init(workers, root).wf(),
{
    lemma_count_all_running(workers);
}

/// `terminate` posts exactly one death order for each worker, in the order
/// of their numbers, behind what was in the dispatch queue; provided that the
/// owner has counted no death yet, so that its count is the number of
/// workers.
pub proof fn lemma_terminate_orders_every_worker<A, M>(s: SystemState<A, M>)
    requires
        s.wf(),
        s.alive == s.workers.len(),
    ensures
        s.terminate().tickets.len() == s.tickets.len() + s.workers.len(),
        forall|w: int|
            0 <= w < s.workers.len() ==> #[trigger] s.terminate().tickets[s.tickets.len() + w]
                == ThreadMessage::<A>::Die(w as usize),
        orders_pending(s.terminate()),
{
    let after = s.terminate();
    assert forall|v: int| #[trigger] after.running(v) implies after.tickets.contains(
        ThreadMessage::Die(v as usize),
    ) by {
        assert(after.tickets[s.tickets.len() + v] == ThreadMessage::<A>::Die(v as usize));
    }
}

/// What is in a queue is still in it after something was put at its end.
pub proof fn lemma_push_keeps<T>(queue: Seq<T>, new: T, item: T)
    requires
        queue.contains(item),
    ensures
        queue.push(new).contains(item),
{
    let place = choose|i: int| 0 <= i < queue.len() && queue[i] == item;
    assert(queue.push(new)[place] == item);
}

/// A turn of a running worker leaves every running worker's death order in
/// the dispatch queue.
pub proof fn lemma_step_keeps_orders<A, M>(s: SystemState<A, M>, w: int)
    requires
        s.wf(),
        s.running(w),
        orders_pending(s),
    ensures
        orders_pending(step(s, w)),
{
    let after = step(s, w);
    if s.tickets.len() > 0 {
        let head = s.tickets[0];
        let rest = s.tickets.drop_first();
        assert forall|v: int| #[trigger] after.running(v) implies after.tickets.contains(
            ThreadMessage::Die(v as usize),
        ) by {
            assert(s.running(v));
            let order = ThreadMessage::<A>::Die(v as usize);
            let place = choose|i: int| 0 <= i < s.tickets.len() && s.tickets[i] == order;
            if place > 0 {
                assert(rest[place - 1] == order);
                assert(after.tickets[place - 1] == order);
            } else {
                assert(head == order);
                assert(v != w);
                assert(after.tickets == rest.push(order));
                assert(after.tickets[rest.len() as int] == order);
            }
        }
    }
}

/// Nothing that happens takes a running worker's death order out of the
/// dispatch queue, brings a worker back or breaks the system.
pub proof fn lemma_events_keep_orders<A, M>(s: SystemState<A, M>, events: Seq<Event<A, M>>)
    requires
        s.wf(),
        orders_pending(s),
    ensures
        after_events(s, events).wf(),
        orders_pending(after_events(s, events)),
        forall|v: int| #[trigger] after_events(s, events).running(v) ==> s.running(v),
    decreases events.len(),
{
    if events.len() > 0 {
        lemma_events_keep_orders(s, events.drop_last());
        let mid = after_events(s, events.drop_last());
        let end = after_event(mid, events.last());
        match events.last() {
            Event::Tell { sender, to, message } => {
                assert forall|v: int| #[trigger] end.running(v) implies end.tickets.contains(
                    ThreadMessage::Die(v as usize),
                ) by {
                    assert(mid.running(v));
                    lemma_push_keeps(
                        mid.tickets,
                        ThreadMessage::Actor(to),
                        ThreadMessage::Die(v as usize),
                    );
                }
            },
            Event::Spawn { parent, child } => {
                lemma_adopt_keeps_wf(mid, parent, child);
                assert forall|v: int| #[trigger] end.running(v) implies end.tickets.contains(
                    ThreadMessage::Die(v as usize),
                ) by {
                    assert(mid.running(v));
                }
            },
            Event::Turn { worker } => {
                if mid.running(worker) {
                    lemma_step_keeps_wf(mid, worker);
                    lemma_step_keeps_orders(mid, worker);
                }
            },
            Event::Count => {
                assert forall|v: int| #[trigger] end.running(v) implies end.tickets.contains(
                    ThreadMessage::Die(v as usize),
                ) by {
                    assert(mid.running(v));
                }
            },
            Event::Terminate => {
                assert forall|v: int| #[trigger] end.running(v) implies end.tickets.contains(
                    ThreadMessage::Die(v as usize),
                ) by {
                    assert(mid.running(v));
                    let order = ThreadMessage::<A>::Die(v as usize);
                    let place = choose|i: int|
                        0 <= i < mid.tickets.len() && mid.tickets[i] == order;
                    assert(end.tickets[place] == order);
                }
            },
        }
        assert forall|v: int| #[trigger] end.running(v) implies s.running(v) by {
            assert(mid.running(v));
        }
    }
}

/// The state after the worker `w` has had up to `turns` turns in a row,
/// while nobody else took or sent anything; it stops taking turns when it
/// has died.
pub open spec fn solo<A, M>(s: SystemState<A, M>, w: int, turns: nat) -> SystemState<A, M>
    decreases turns,
{
    if turns == 0 || !s.running(w) {
        s
    } else {
        solo(step(s, w), w, (turns - 1) as nat)
    }
}

/// A worker that takes turns alone reaches its death order: if the order is
/// at `place` in the dispatch queue, the worker has died after at most
/// `place + 1` turns, and so after at most as many turns as the queue is
/// long. Its death is then reported, no other worker has changed, no actor
/// was spawned, and every other running worker still has its order in the
/// queue if it had before.
pub proof fn lemma_lone_worker_exits<A, M>(s: SystemState<A, M>, w: int, place: int, turns: nat)
    requires
        s.wf(),
        s.running(w),
        0 <= place < s.tickets.len(),
        s.tickets[place] == ThreadMessage::<A>::Die(w as usize),
        place < turns,
    ensures
        ({
            let after = solo(s, w, turns);
            &&& after.wf()
            &&& !after.running(w)
            &&& after.workers == s.workers.update(w, WorkerState::Died)
            &&& after.reports == s.reports.push(SystemMessage::Died(w as usize))
            &&& after.alive == s.alive
            &&& after.children == s.children
            &&& after.root == s.root
            &&& orders_pending(s) ==> orders_pending(after)
        }),
    decreases turns,
{
    let next = step(s, w);
    lemma_step_keeps_wf(s, w);
    if orders_pending(s) {
        lemma_step_keeps_orders(s, w);
    }
    if s.tickets[0] == ThreadMessage::<A>::Die(w as usize) {
        assert(!next.running(w));
        assert(solo(next, w, (turns - 1) as nat) == next);
    } else {
        assert(place > 0);
        assert(next.running(w));
        assert(next.tickets[place - 1] == s.tickets[place]);
        lemma_lone_worker_exits(next, w, place - 1, (turns - 1) as nat);
    }
}

/// The state after `w` took turns alone for as long as the dispatch queue
/// was long when it began.
pub open spec fn retire<A, M>(s: SystemState<A, M>, w: int) -> SystemState<A, M> {
    solo(s, w, s.tickets.len())
}

/// The state after the workers in `order` have retired one after the other.
pub open spec fn retire_all<A, M>(s: SystemState<A, M>, order: Seq<int>) -> SystemState<A, M>
    decreases order.len(),
{
    if order.len() == 0 {
        s
    } else {
        retire(retire_all(s, order.drop_last()), order.last())
    }
}

/// What holds while workers retire one after the other: the system stays
/// well formed, every running worker keeps its death order, no worker comes
/// back, those that had their run are dead, and the owner's count stands.
pub proof fn lemma_retire_all<A, M>(s: SystemState<A, M>, order: Seq<int>)
    requires
        s.wf(),
        orders_pending(s),
    ensures
        ({
            let end = retire_all(s, order);
            &&& end.wf()
            &&& orders_pending(end)
            &&& end.alive == s.alive
            &&& end.workers.len() == s.workers.len()
            &&& forall|v: int| #[trigger] end.running(v) ==> s.running(v)
            &&& forall|i: int| 0 <= i < order.len() ==> !end.running(#[trigger] order[i])
        }),
    decreases order.len(),
{
    if order.len() > 0 {
        let earlier = order.drop_last();
        let w = order.last();
        lemma_retire_all(s, earlier);
        let mid = retire_all(s, earlier);
        let end = retire(mid, w);
        if mid.running(w) {
            let order_w = ThreadMessage::<A>::Die(w as usize);
            let place = choose|i: int| 0 <= i < mid.tickets.len() && mid.tickets[i] == order_w;
            lemma_lone_worker_exits(mid, w, place, mid.tickets.len());
        } else {
            assert(end == mid);
        }
        assert forall|v: int| #[trigger] end.running(v) implies s.running(v) by {
            assert(mid.running(v));
        }
        assert forall|i: int| 0 <= i < order.len() implies !end.running(#[trigger] order[i]) by {
            if i < order.len() - 1 {
                assert(earlier[i] == order[i]);
                assert(!mid.running(earlier[i]));
            }
        }
    }
}

/// Shutdown completes when the workers are let to finish one after the
/// other, in any order: if every running worker has its death order in the
/// dispatch queue and each of them gets its run of turns, then no worker is
/// running at the end, every death that the owner still waited for is
/// reported, and `run` counts down to zero and ends the owner's wait.
pub proof fn lemma_shutdown_completes<A, M>(s: SystemState<A, M>, order: Seq<int>)
    requires
        s.wf(),
        orders_pending(s),
        forall|v: int| #[trigger] s.running(v) ==> order.contains(v),
    ensures
        ({
            let end = retire_all(s, order);
            &&& end.wf()
            &&& forall|v: int| !#[trigger] end.running(v)
            &&& end.alive == s.alive
            &&& end.reports.len() == s.alive
            &&& s.alive > 0 ==> end.run_ends()
            &&& end.run().alive == 0
        }),
{
    lemma_retire_all(s, order);
    let end = retire_all(s, order);
    assert forall|v: int| !#[trigger] end.running(v) by {
        if s.running(v) {
            let i = choose|i: int| 0 <= i < order.len() && order[i] == v;
            assert(order[i] == v);
        }
    }
    assert forall|w: int| 0 <= w < end.workers.len() implies !(end.workers[w] is Running) by {
        assert(!end.running(w));
    }
    lemma_count_none_running(end.workers);
}

/// Shutdown cannot be prevented. Once every running worker has its death
/// order in the dispatch queue, whatever happens next, in whatever order
/// (messages sent, actors spawned, workers taking turns, reports counted),
/// the system can still shut down: when the workers are then let to finish
/// one after the other, none is left running, and `run` counts down to zero.
pub proof fn lemma_shutdown_stays_possible<A, M>(
    s: SystemState<A, M>,
    events: Seq<Event<A, M>>,
    order: Seq<int>,
)
    requires
        s.wf(),
        orders_pending(s),
        forall|v: int| #[trigger] s.running(v) ==> order.contains(v),
    ensures
        ({
            let later = after_events(s, events);
            let end = retire_all(later, order);
            &&& end.wf()
            &&& forall|v: int| !#[trigger] end.running(v)
            &&& later.alive > 0 ==> end.run_ends()
            &&& end.run().alive == 0
        }),
{
    lemma_events_keep_orders(s, events);
    lemma_shutdown_completes(after_events(s, events), order);
}

/// Whether no worker has been ordered to stop: all workers are running, no
/// death order is in the dispatch queue, and no death report is waiting.
pub open spec fn undisturbed<A, M>(s: SystemState<A, M>) -> bool {
    &&& s.alive == s.workers.len()
    &&& s.reports.len() == 0
    &&& forall|w: int| 0 <= w < s.workers.len() ==> #[trigger] s.running(w)
    &&& forall|i: int| 0 <= i < s.tickets.len() ==> !(#[trigger] s.tickets[i] is Die)
}

/// Whether none of `events` is an order to stop.
pub open spec fn without_terminate<A, M>(events: Seq<Event<A, M>>) -> bool {
    forall|i: int| 0 <= i < events.len() ==> !(#[trigger] events[i] is Terminate)
}

/// No worker stops before it is ordered to: as long as `terminate` was not
/// called, whatever else happens, all workers are running and the owner's
/// count is their number.
pub proof fn lemma_no_worker_stops_unasked<A, M>(s: SystemState<A, M>, events: Seq<Event<A, M>>)
    requires
        s.wf(),
        undisturbed(s),
        without_terminate(events),
    ensures
        after_events(s, events).wf(),
        undisturbed(after_events(s, events)),
    decreases events.len(),
{
    if events.len() > 0 {
        let earlier = events.drop_last();
        assert forall|i: int| 0 <= i < earlier.len() implies !(#[trigger] earlier[i]
            is Terminate) by {
            assert(earlier[i] == events[i]);
        }
        lemma_no_worker_stops_unasked(s, earlier);
        let mid = after_events(s, earlier);
        let end = after_event(mid, events.last());
        match events.last() {
            Event::Tell { sender, to, message } => {
                assert forall|w: int| 0 <= w < end.workers.len() implies #[trigger] end.running(
                    w,
                ) by {
                    assert(mid.running(w));
                }
            },
            Event::Spawn { parent, child } => {
                lemma_adopt_keeps_wf(mid, parent, child);
                assert forall|w: int| 0 <= w < end.workers.len() implies #[trigger] end.running(
                    w,
                ) by {
                    assert(mid.running(w));
                }
            },
            Event::Turn { worker } => {
                if mid.running(worker) {
                    lemma_step_keeps_wf(mid, worker);
                    if mid.tickets.len() > 0 {
                        assert(!(mid.tickets[0] is Die));
                        assert forall|i: int| 0 <= i < end.tickets.len() implies !(
                        #[trigger] end.tickets[i] is Die) by {
                            assert(end.tickets[i] == mid.tickets[i + 1]);
                        }
                    }
                }
                assert forall|w: int| 0 <= w < end.workers.len() implies #[trigger] end.running(
                    w,
                ) by {
                    assert(mid.running(w));
                }
            },
            Event::Count => {
                assert(end.reports =~= mid.reports);
                assert forall|w: int| 0 <= w < end.workers.len() implies #[trigger] end.running(
                    w,
                ) by {
                    assert(mid.running(w));
                }
            },
            Event::Terminate => {
                assert(events[events.len() - 1] is Terminate);
            },
        }
    }
}

/// Termination converges. Take a new system of `workers` workers; let
/// anything happen but an order to stop; call `terminate`; and let anything
/// happen again. Then the system can shut down: when its workers are let to
/// finish one after the other, in any order, none is left running, and `run`
/// counts down to zero and ends the owner's wait.
pub proof fn lemma_fresh_system_shuts_down<A, M>(
    workers: nat,
    root: u128,
    before: Seq<Event<A, M>>,
    later: Seq<Event<A, M>>,
    order: Seq<int>,
)
    requires
        workers <= usize::MAX,
        without_terminate(before),
        forall|v: int| 0 <= v < workers ==> order.contains(v),
    ensures
        ({
            let fresh = SystemState::<A, M>::init(workers, root);
            let ordered = after_events(fresh, before).terminate();
            let end = retire_all(after_events(ordered, later), order);
            &&& forall|v: int| !#[trigger] end.running(v)
            &&& after_events(ordered, later).alive > 0 ==> end.run_ends()
            &&& end.run().alive == 0
        }),
{
    let fresh = SystemState::<A, M>::init(workers, root);
    lemma_init_is_wf::<A, M>(workers, root);
    assert forall|w: int| 0 <= w < fresh.workers.len() implies #[trigger] fresh.running(w) by {}
    lemma_no_worker_stops_unasked(fresh, before);
    let started = after_events(fresh, before);
    lemma_terminate_orders_every_worker(started);
    let ordered = started.terminate();
    assert forall|v: int| #[trigger] ordered.running(v) implies order.contains(v) by {
        lemma_events_keep_length(fresh, before);
    }
    lemma_shutdown_stays_possible(ordered, later, order);
}

/// Shutdown is not certain under every schedule. Two workers that always
/// take each other's death order pass the orders round for ever: after one
/// turn of the second worker and one of the first, a system of two workers
/// that was told to terminate is where it was.
pub proof fn lemma_two_workers_can_miss_their_orders<A, M>(root: u128)
    ensures
        ({
            let s = SystemState::<A, M>::init(2, root).terminate();
            &&& step_answer(s, 1) == Some(Dispatch::<A, M>::Forwarded)
            &&& step_answer(step(s, 1), 0) == Some(Dispatch::<A, M>::Forwarded)
            &&& step(step(s, 1), 0) == s
        }),
{
    let s = SystemState::<A, M>::init(2, root).terminate();
    assert(s.tickets =~= seq![ThreadMessage::Die(0), ThreadMessage::Die(1)]);
    let t = step(s, 1);
    assert(t.tickets =~= seq![ThreadMessage::Die(1), ThreadMessage::Die(0)]);
    let u = step(t, 0);
    assert(u.tickets =~= s.tickets);
    assert(u =~= s);
}

} // verus!
