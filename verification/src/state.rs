//! The state of an actor system as a mathematical value, and what each
//! operation makes of it.

use crate::actor_ref::{ActorRef, Envelope, InnerMessage};
use crate::dispatch::{Delivery, Dispatch, SystemMessage, ThreadMessage, WorkerState};
use crate::message_queue::after_receive;
use vstd::prelude::*;

verus! {

/// The number of running workers among `workers`.
pub open spec fn count_running(workers: Seq<WorkerState>) -> nat
    decreases workers.len(),
{
    if workers.len() == 0 {
        0
    } else {
        count_running(workers.drop_last()) + if workers.last() is Running {
            1nat
        } else {
            0nat
        }
    }
}

/// When a running worker stops, one worker fewer is running.
pub proof fn lemma_count_running_update(workers: Seq<WorkerState>, w: int)
    requires
        0 <= w < workers.len(),
        workers[w] is Running,
    ensures
        count_running(workers.update(w, WorkerState::Died)) + 1 == count_running(workers),
    decreases workers.len(),
{
    let updated = workers.update(w, WorkerState::Died);
    if w == workers.len() - 1 {
        assert(updated.drop_last() =~= workers.drop_last());
    } else {
        lemma_count_running_update(workers.drop_last(), w);
        assert(updated.drop_last() =~= workers.drop_last().update(w, WorkerState::Died));
    }
}

/// The death orders for the workers `0`, `1`, .. below `n`, in that order.
pub open spec fn death_orders<A>(n: nat) -> Seq<ThreadMessage<A>> {
    Seq::new(n, |id: int| ThreadMessage::Die(id as usize))
}

/// The state of an actor system.
#[verifier::ext_equal]
pub struct SystemState<A, M> {
    /// The death reports that the owner has not counted yet, oldest first.
    pub reports: Seq<SystemMessage>,
    /// The dispatch queue that the workers share, oldest message first.
    pub tickets: Seq<ThreadMessage<A>>,
    /// The owner's count of workers whose death it has not counted.
    pub alive: nat,
    /// The state of each worker, by its number.
    pub workers: Seq<WorkerState>,
    /// The mailbox of every identifier, oldest envelope first. One that was
    /// never sent to is empty.
    pub mailboxes: Map<u128, Seq<Envelope<A, M>>>,
    /// The child registry of every identifier: its children by their own
    /// identifiers. One under which nothing was spawned is empty.
    pub children: Map<u128, Map<u128, ActorRef<A>>>,
    /// The identifier of the root actor.
    pub root: u128,
}

impl<A, M> SystemState<A, M> {
    /// A system of `workers` running workers in which nothing has happened yet.
    pub open spec fn init(workers: nat, root: u128) -> Self {
        SystemState {
            reports: Seq::empty(),
            tickets: Seq::empty(),
            alive: workers,
            workers: Seq::new(workers, |w: int| WorkerState::Running),
            mailboxes: Map::total(|pid: u128| Seq::empty()),
            children: Map::total(|pid: u128| Map::empty()),
            root,
        }
    }

    /// Whether there is a worker `w` and it is running.
    pub open spec fn running(self, w: int) -> bool {
        0 <= w < self.workers.len() && self.workers[w] is Running
    }

    /// What every system keeps: each worker that the owner still counts as
    /// alive is running or has its death report waiting; the workers'
    /// numbers and the owner's count are machine integers; every identifier
    /// has a mailbox and a registry; and a registry holds finitely many
    /// children, each under its own identifier.
    pub open spec fn wf(self) -> bool {
        &&& self.alive == count_running(self.workers) + self.reports.len()
        &&& self.alive <= usize::MAX
        &&& self.workers.len() <= usize::MAX
        &&& forall|pid: u128| self.mailboxes.dom().contains(pid)
        &&& forall|pid: u128| self.children.dom().contains(pid)
        &&& forall|parent: u128| #[trigger] self.children[parent].dom().finite()
        &&& forall|parent: u128, pid: u128| #[trigger]
            self.children[parent].contains_key(pid) ==> self.children[parent][pid].pid == pid
    }

    /// The envelope that `tell` makes of a message.
    pub open spec fn envelope(sender: Option<ActorRef<A>>, message: M) -> Envelope<A, M> {
        Envelope { message: InnerMessage::Message(message), sender }
    }

    /// The state after `message` was sent to `to` in the name of `sender`:
    /// the envelope is the newest in the mailbox of `to`, and a ticket for
    /// `to` is the newest message in the dispatch queue.
    pub open spec fn tell(self, sender: Option<ActorRef<A>>, to: ActorRef<A>, message: M) -> Self {
        SystemState {
            mailboxes: self.mailboxes.insert(
                to.pid,
                self.mailboxes[to.pid].push(Self::envelope(sender, message)),
            ),
            tickets: self.tickets.push(ThreadMessage::Actor(to)),
            ..self
        }
    }

    /// The state after `child` was entered in the registry of `parent`.
    pub open spec fn adopt(self, parent: u128, child: ActorRef<A>) -> Self {
        SystemState {
            children: self.children.insert(parent, self.children[parent].insert(child.pid, child)),
            ..self
        }
    }

    /// The state after one death order for each number below the owner's
    /// count went to the end of the dispatch queue.
    pub open spec fn terminate(self) -> Self {
        SystemState { tickets: self.tickets + death_orders(self.alive), ..self }
    }

    /// The state after the oldest message left the dispatch queue.
    pub open spec fn take_ticket(self) -> Self {
        SystemState {
            tickets: after_receive(self.tickets),
            ..self
        }
    }

    /// The state after the running worker `w` has dealt with `msg`.
    pub open spec fn dispatch(self, w: int, msg: ThreadMessage<A>) -> Self {
        match msg {
            ThreadMessage::Die(id) => if id == w {
                SystemState {
                    reports: self.reports.push(SystemMessage::Died(id)),
                    workers: self.workers.update(w, WorkerState::Died),
                    ..self
                }
            } else {
                SystemState { tickets: self.tickets.push(msg), ..self }
            },
            ThreadMessage::Actor(to) => if self.mailboxes[to.pid].len() > 0 {
                SystemState {
                    mailboxes: self.mailboxes.insert(to.pid, self.mailboxes[to.pid].drop_first()),
                    ..self
                }
            } else {
                self
            },
        }
    }

    /// What the running worker `w` has to do after it has dealt with `msg`.
    pub open spec fn answer(self, w: int, msg: ThreadMessage<A>) -> Dispatch<A, M> {
        match msg {
            ThreadMessage::Die(id) => if id == w {
                Dispatch::Exit
            } else {
                Dispatch::Forwarded
            },
            ThreadMessage::Actor(to) => if self.mailboxes[to.pid].len() > 0 {
                let envelope = self.mailboxes[to.pid][0];
                Dispatch::Deliver(
                    Delivery {
                        me: to,
                        sender: envelope.sender,
                        message: match envelope.message {
                            InnerMessage::Message(message) => message,
                        },
                    },
                )
            } else {
                Dispatch::Skipped
            },
        }
    }

    /// The state after the owner has counted every waiting death report.
    pub open spec fn run(self) -> Self {
        SystemState {
            reports: Seq::empty(),
            alive: (self.alive - self.reports.len()) as nat,
            ..self
        }
    }

    /// Whether counting the waiting death reports ends the owner's wait: it
    /// counts at least one, and the last one it was waiting for.
    pub open spec fn run_ends(self) -> bool {
        self.reports.len() > 0 && self.reports.len() == self.alive
    }
}

} // verus!
