//! The actor system: the queues, the mailboxes and registries, the workers'
//! states, and every step that changes them.

use crate::actor::{Actor, Message};
use crate::actor_ref::{ActorRef, Envelope, InnerMessage};
use crate::dispatch::{Delivery, Dispatch, SystemMessage, ThreadMessage, WorkerState};
use crate::message_queue::{received, MessageQueue, MessageQueueError};
use crate::pid::{fresh_pid, is_random_pid};
use crate::root_actor::RootActor;
use crate::state::{count_running, death_orders, lemma_count_running_update, SystemState};
use std::collections::{HashMap, VecDeque};
use std::sync::Arc;
use vstd::prelude::*;

verus! {

broadcast use vstd::std_specs::hash::group_hash_axioms;

/// Why an actor could not be spawned.
#[derive(Debug, Clone, Copy, PartialEq, Eq, Structural)]
pub enum SpawnError {
    /// The parent already has a child with the new actor's identifier.
    DuplicatePid,
}

/// An actor system with actors of type `A` and payloads of type `M`.
///
/// Its view is a [`SystemState`]; every operation says what it makes of that
/// state.
pub struct ActorSystem<A, M> {
    global_queue: MessageQueue<SystemMessage>,
    threads_queue: MessageQueue<ThreadMessage<A>>,
    alive_threads: usize,
    root: ActorRef<RootActor>,
    workers: Vec<WorkerState>,
    mailboxes: HashMap<u128, VecDeque<Envelope<A, M>>>,
    children: HashMap<u128, HashMap<u128, ActorRef<A>>>,
}

/// The mailbox that `mailboxes` keeps under `pid`: empty if it keeps none.
pub open spec fn mailbox_in<A, M>(
    mailboxes: Map<u128, VecDeque<Envelope<A, M>>>,
    pid: u128,
) -> Seq<Envelope<A, M>> {
    if mailboxes.contains_key(pid) {
        mailboxes[pid]@
    } else {
        Seq::empty()
    }
}

/// The registry that `children` keeps under `parent`: empty if it keeps none.
pub open spec fn registry_in<A>(
    children: Map<u128, HashMap<u128, ActorRef<A>>>,
    parent: u128,
) -> Map<u128, ActorRef<A>> {
    if children.contains_key(parent) {
        children[parent]@
    } else {
        Map::empty()
    }
}

impl<A, M> View for ActorSystem<A, M> {
    type V = SystemState<A, M>;

    closed spec fn view(&self) -> SystemState<A, M> {
        SystemState {
            reports: self.global_queue@,
            tickets: self.threads_queue@,
            alive: self.alive_threads as nat,
            workers: self.workers@,
            mailboxes: Map::total(|pid: u128| mailbox_in(self.mailboxes@, pid)),
            children: Map::total(|parent: u128| registry_in(self.children@, parent)),
            root: self.root.pid,
        }
    }
}

impl<A, M> ActorSystem<A, M> {
    /// Whether the system is in a state that its operations keep.
    pub open spec fn wf(&self) -> bool {
        self@.wf()
    }

    /// A system with `num_of_threads` running workers, no actor but the root,
    /// and nothing in any queue. The root's identifier is drawn at random.
    pub fn new(num_of_threads: usize) -> (system: ActorSystem<A, M>)
        ensures
            system.wf(),
            system@ == SystemState::<A, M>::init(num_of_threads as nat, system@.root),
            is_random_pid(system@.root),
    {
        let root = ActorRef::new(fresh_pid(), <RootActor as Actor<M, ()>>::new());
        let mut workers: Vec<WorkerState> = Vec::new();
        let mut thread_id: usize = 0;
        while thread_id < num_of_threads
            invariant
                thread_id <= num_of_threads,
                workers@ == Seq::new(thread_id as nat, |w: int| WorkerState::Running),
                count_running(workers@) == thread_id,
            decreases num_of_threads - thread_id,
        {
            workers.push(WorkerState::Running);
            thread_id = thread_id + 1;
            assert(workers@.drop_last() == Seq::new(
                (thread_id - 1) as nat,
                |w: int| WorkerState::Running,
            ));
        }
        let system = ActorSystem {
            global_queue: MessageQueue::new(),
            threads_queue: MessageQueue::new(),
            alive_threads: num_of_threads,
            root,
            workers,
            mailboxes: HashMap::new(),
            children: HashMap::new(),
        };
        assert(system@ =~~= SystemState::<A, M>::init(num_of_threads as nat, system@.root));
        system
    }

    /// Orders every worker that the owner counts as alive to stop: one death
    /// order for each number below that count goes to the end of the
    /// dispatch queue.
    ///
    /// Meant to be called once. A second call posts the orders again.
    pub fn terminate(&mut self)
        requires
            old(self).wf(),
        ensures
            final(self).wf(),
            final(self)@ == old(self)@.terminate(),
    {
        let alive = self.alive_threads;
        let mut id: usize = 0;
        while id < alive
            invariant
                id <= alive,
                alive == old(self).alive_threads,
                self.threads_queue@ == old(self).threads_queue@ + death_orders::<A>(id as nat),
                self.global_queue == old(self).global_queue,
                self.alive_threads == old(self).alive_threads,
                self.root == old(self).root,
                self.workers == old(self).workers,
                self.mailboxes == old(self).mailboxes,
                self.children == old(self).children,
            decreases alive - id,
        {
            self.threads_queue.send(ThreadMessage::Die(id));
            assert(death_orders::<A>((id + 1) as nat) =~= death_orders::<A>(id as nat).push(
                ThreadMessage::Die(id),
            ));
            id = id + 1;
        }
        assert(self@ =~~= old(self)@.terminate());
    }

    /// Spawns an actor under the root: what [`ActorSystem::spawn_of`] does
    /// with the root for a parent.
    pub fn spawn(&mut self, actor: Arc<A>) -> (r: Result<ActorRef<A>, SpawnError>)
        requires
            old(self).wf(),
        ensures
            final(self).wf(),
            match r {
                Ok(child) => {
                    &&& child.inner == actor
                    &&& is_random_pid(child.pid)
                    &&& !old(self)@.children[old(self)@.root].contains_key(child.pid)
                    &&& final(self)@ == old(self)@.adopt(old(self)@.root, child)
                },
                Err(e) => {
                    &&& e == SpawnError::DuplicatePid
                    &&& final(self)@ == old(self)@
                    &&& exists|pid: u128|
                        is_random_pid(pid) && #[trigger] old(self)@.children[old(
                            self,
                        )@.root].contains_key(pid)
                },
            },
    {
        let pid = fresh_pid();
        let parent = self.root.pid;
        let r = self.spawn_with_pid(parent, pid, actor);
        assert(r is Err ==> old(self)@.children[old(self)@.root].contains_key(pid));
        r
    }

    /// Spawns an actor under `parent`: draws an identifier at random and
    /// enters the new actor in the registry of `parent`.
    ///
    /// Which identifier is drawn is open. If `parent` has a child with it
    /// already, nothing changes and the answer is `DuplicatePid`; that cannot
    /// happen while `parent` has no child with an identifier drawn at random.
    pub fn spawn_of(&mut self, parent: ActorRef<A>, actor: Arc<A>) -> (r: Result<
        ActorRef<A>,
        SpawnError,
    >)
        requires
            old(self).wf(),
        ensures
            final(self).wf(),
            match r {
                Ok(child) => {
                    &&& child.inner == actor
                    &&& is_random_pid(child.pid)
                    &&& !old(self)@.children[parent.pid].contains_key(child.pid)
                    &&& final(self)@ == old(self)@.adopt(parent.pid, child)
                },
                Err(e) => {
                    &&& e == SpawnError::DuplicatePid
                    &&& final(self)@ == old(self)@
                    &&& exists|pid: u128|
                        is_random_pid(pid) && #[trigger] old(
                            self,
                        )@.children[parent.pid].contains_key(pid)
                },
            },
    {
        let pid = fresh_pid();
        let r = self.spawn_with_pid(parent.pid, pid, actor);
        assert(r is Err ==> old(self)@.children[parent.pid].contains_key(pid));
        r
    }

    /// Enters a new actor with the identifier `pid` in the registry of the
    /// actor `parent`, unless that registry has a child `pid` already.
    pub fn spawn_with_pid(&mut self, parent: u128, pid: u128, actor: Arc<A>) -> (r: Result<
        ActorRef<A>,
        SpawnError,
    >)
        requires
            old(self).wf(),
        ensures
            final(self).wf(),
            match r {
                Ok(child) => {
                    &&& child == (ActorRef { pid, inner: actor })
                    &&& !old(self)@.children[parent].contains_key(pid)
                    &&& final(self)@ == old(self)@.adopt(parent, child)
                },
                Err(e) => {
                    &&& e == SpawnError::DuplicatePid
                    &&& old(self)@.children[parent].contains_key(pid)
                    &&& final(self)@ == old(self)@
                },
            },
    {
        let taken = match self.children.get(&parent) {
            Some(registry) => registry.contains_key(&pid),
            None => false,
        };
        if taken {
            return Err(SpawnError::DuplicatePid);
        }
        let child = ActorRef::new(pid, actor);
        let mut registry = match self.children.remove(&parent) {
            Some(registry) => registry,
            None => HashMap::new(),
        };
        registry.insert(pid, child.clone());
        self.children.insert(parent, registry);
        proof {
            let before = old(self)@;
            let after = before.adopt(parent, child);
            assert(self@.children =~~= after.children);
            assert(self@.mailboxes =~~= before.mailboxes);
            assert(self@ =~~= after);
            assert forall|p: u128, c: u128| #[trigger]
                after.children[p].contains_key(c) implies after.children[p][c].pid == c by {
                if p == parent && c == pid {
                } else {
                    assert(before.children[p].contains_key(c));
                }
            }
        }
        Ok(child)
    }

    /// Sends `message` to the actor `to`, in the name of `sender` if there is
    /// one: the envelope goes to the end of the mailbox of `to`, and a ticket
    /// for `to` to the end of the dispatch queue.
    pub fn tell(&mut self, sender: Option<ActorRef<A>>, to: &ActorRef<A>, message: M) where
        M: Message,
        requires
            old(self).wf(),
        ensures
            final(self).wf(),
            final(self)@ == old(self)@.tell(sender, *to, message),
    {
        let envelope = Envelope { message: InnerMessage::Message(message), sender };
        let mut mailbox = match self.mailboxes.remove(&to.pid) {
            Some(mailbox) => mailbox,
            None => VecDeque::new(),
        };
        mailbox.push_back(envelope);
        self.mailboxes.insert(to.pid, mailbox);
        self.threads_queue.send(ThreadMessage::Actor(to.clone()));
        proof {
            let after = old(self)@.tell(sender, *to, message);
            assert(self@.mailboxes =~~= after.mailboxes);
            assert(self@.children =~~= after.children);
            assert(self@ =~~= after);
        }
    }

    /// Takes the oldest message from the dispatch queue, or reports `Empty`:
    /// then a worker has to wait until something is sent.
    pub fn take_ticket(&mut self) -> (r: Result<ThreadMessage<A>, MessageQueueError>)
        requires
            old(self).wf(),
        ensures
            final(self).wf(),
            r == received(old(self)@.tickets),
            final(self)@ == old(self)@.take_ticket(),
    {
        let r = self.threads_queue.try_recv();
        proof {
            assert(self@.mailboxes =~~= old(self)@.mailboxes);
            assert(self@.children =~~= old(self)@.children);
            assert(self@ =~~= old(self)@.take_ticket());
        }
        r
    }

    /// Lets the running worker `thread_id` deal with `msg`, a message that
    /// it took from the dispatch queue.
    ///
    /// Its own death order: its death is reported to the owner and it is
    /// `Died` from now on. The death order of another worker: the order goes
    /// back to the end of the dispatch queue. A ticket: the oldest envelope
    /// leaves the ticket's mailbox to be delivered, if there is one.
    pub fn dispatch(&mut self, thread_id: usize, msg: ThreadMessage<A>) -> (r: Dispatch<A, M>)
        requires
            old(self).wf(),
            old(self)@.running(thread_id as int),
        ensures
            final(self).wf(),
            final(self)@ == old(self)@.dispatch(thread_id as int, msg),
            r == old(self)@.answer(thread_id as int, msg),
    {
        match msg {
            ThreadMessage::Die(id) => {
                if id == thread_id {
                    self.global_queue.send(SystemMessage::Died(thread_id));
                    self.workers[thread_id] = WorkerState::Died;
                    proof {
                        lemma_count_running_update(old(self).workers@, thread_id as int);
                        let after = old(self)@.dispatch(thread_id as int, msg);
                        assert(self@.mailboxes =~~= after.mailboxes);
                        assert(self@.children =~~= after.children);
                        assert(self@ =~~= after);
                    }
                    Dispatch::Exit
                } else {
                    self.threads_queue.send(ThreadMessage::Die(id));
                    proof {
                        let after = old(self)@.dispatch(thread_id as int, msg);
                        assert(self@.mailboxes =~~= after.mailboxes);
                        assert(self@.children =~~= after.children);
                        assert(self@ =~~= after);
                    }
                    Dispatch::Forwarded
                }
            },
            ThreadMessage::Actor(actor_ref) => {
                let mut mailbox = match self.mailboxes.remove(&actor_ref.pid) {
                    Some(mailbox) => mailbox,
                    None => VecDeque::new(),
                };
                let head = mailbox.pop_front();
                self.mailboxes.insert(actor_ref.pid, mailbox);
                proof {
                    let after = old(self)@.dispatch(thread_id as int, msg);
                    assert(self@.mailboxes =~~= after.mailboxes);
                    assert(self@.children =~~= after.children);
                    assert(self@ =~~= after);
                }
                match head {
                    Some(envelope) => {
                        let message = match envelope.message {
                            InnerMessage::Message(message) => message,
                        };
                        Dispatch::Deliver(
                            Delivery { me: actor_ref, sender: envelope.sender, message },
                        )
                    },
                    None => Dispatch::Skipped,
                }
            },
        }
    }

    /// Counts the death reports that are waiting, one off the owner's count
    /// for each, and says whether the count has come down to zero with the
    /// last of them. If it has not, the owner has to wait for more reports
    /// and run again.
    pub fn run(&mut self) -> (ends: bool)
        requires
            old(self).wf(),
        ensures
            final(self).wf(),
            final(self)@ == old(self)@.run(),
            ends == old(self)@.run_ends(),
    {
        let mut ends = false;
        while !self.global_queue.is_empty()
            invariant
                self.global_queue@.len() <= old(self).global_queue@.len(),
                self.alive_threads + old(self).global_queue@.len() == old(
                    self,
                ).alive_threads + self.global_queue@.len(),
                old(self)@.alive == count_running(old(self).workers@) + old(
                    self,
                ).global_queue@.len(),
                ends == (old(self).global_queue@.len() > self.global_queue@.len()
                    && self.alive_threads == 0),
                self.threads_queue == old(self).threads_queue,
                self.root == old(self).root,
                self.workers == old(self).workers,
                self.mailboxes == old(self).mailboxes,
                self.children == old(self).children,
            decreases self.global_queue@.len(),
        {
            let _ = self.global_queue.recv();
            self.alive_threads = self.alive_threads - 1;
            ends = self.alive_threads == 0;
        }
        proof {
            assert(self@.mailboxes =~~= old(self)@.mailboxes);
            assert(self@.children =~~= old(self)@.children);
            assert(self@ =~~= old(self)@.run());
        }
        ends
    }

    /// The owner's count of workers whose death it has not counted.
    pub fn alive_threads(&self) -> (n: usize)
        ensures
            n == self@.alive,
    {
        self.alive_threads
    }

    /// Whether there is a worker `thread_id` and it is running.
    pub fn is_running(&self, thread_id: usize) -> (running: bool)
        ensures
            running == self@.running(thread_id as int),
    {
        if thread_id < self.workers.len() {
            match self.workers[thread_id] {
                WorkerState::Running => true,
                WorkerState::Died => false,
            }
        } else {
            false
        }
    }

    /// The identifier of the root actor.
    pub fn root_pid(&self) -> (pid: u128)
        ensures
            pid == self@.root,
    {
        self.root.pid
    }

    /// The number of envelopes in the mailbox of the actor `pid`.
    pub fn mailbox_len(&self, pid: u128) -> (n: usize)
        ensures
            n == self@.mailboxes[pid].len(),
    {
        match self.mailboxes.get(&pid) {
            Some(mailbox) => mailbox.len(),
            None => 0,
        }
    }

    /// The child `pid` of the actor `parent`, if it has one.
    pub fn child(&self, parent: u128, pid: u128) -> (r: Option<ActorRef<A>>)
        ensures
            r == if self@.children[parent].contains_key(pid) {
                Some(self@.children[parent][pid])
            } else {
                None
            },
    {
        match self.children.get(&parent) {
            Some(registry) => match registry.get(&pid) {
                Some(child) => Some(child.clone()),
                None => None,
            },
            None => None,
        }
    }

    /// The number of children of the actor `parent`.
    pub fn children_count(&self, parent: u128) -> (n: usize)
        ensures
            n == self@.children[parent].len(),
    {
        match self.children.get(&parent) {
            Some(registry) => registry.len(),
            None => 0,
        }
    }
}

} // verus!
