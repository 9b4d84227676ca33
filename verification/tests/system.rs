use actors::actor_system::SpawnError;
use actors::dispatch::{Delivery, Dispatch, SystemMessage, ThreadMessage, WorkerState};
use actors::message_queue::MessageQueueError;
use actors::root_actor::RootActor;
use actors::{Actor, ActorRef, ActorSystem, Context};
use std::collections::HashSet;
use std::sync::{Arc, Mutex};
use uuid::Uuid;

type System = Arc<Mutex<ActorSystem<Node, i32>>>;

/// What a handler was called with: the receiver, the sender, the payload.
type Seen = (u128, Option<u128>, i32);

/// An actor that writes down every call of its handler and, if it is a
/// replier, answers the sender with twice the payload.
struct Node {
    replies: bool,
    seen: Mutex<Vec<Seen>>,
}

impl Node {
    fn replier() -> Arc<Node> {
        Arc::new(Node { replies: true, seen: Mutex::new(Vec::new()) })
    }

    fn seen(&self) -> Vec<Seen> {
        self.seen.lock().unwrap().clone()
    }
}

impl Actor<i32, System> for Node {
    fn new() -> Arc<Node> {
        Arc::new(Node { replies: false, seen: Mutex::new(Vec::new()) })
    }

    fn receive(&self, message: i32, context: Context<Node, System>) {
        let sender = context.sender.as_ref().map(|s| s.pid);
        self.seen.lock().unwrap().push((context.me.pid, sender, message));
        if self.replies {
            if let Some(sender) = context.sender {
                context.system.lock().unwrap().tell(Some(context.me), &sender, 2 * message);
            }
        }
    }
}

/// What one turn of a worker came to.
#[derive(Debug, PartialEq, Eq, Clone, Copy)]
enum Turn {
    Waited,
    Exited,
    Forwarded,
    Skipped,
    Delivered,
}

fn system(workers: usize) -> System {
    Arc::new(Mutex::new(ActorSystem::new(workers)))
}

/// One turn of a running worker: the lock is held while the system changes
/// and released before the handler is called.
fn turn(system: &System, worker: usize) -> Turn {
    let action = {
        let mut sys = system.lock().unwrap();
        assert!(sys.is_running(worker));
        match sys.take_ticket() {
            Ok(msg) => Some(sys.dispatch(worker, msg)),
            Err(MessageQueueError::Empty) => None,
        }
    };
    match action {
        None => Turn::Waited,
        Some(Dispatch::Exit) => Turn::Exited,
        Some(Dispatch::Forwarded) => Turn::Forwarded,
        Some(Dispatch::Skipped) => Turn::Skipped,
        Some(Dispatch::Deliver(delivery)) => {
            delivery.deliver(system.clone());
            Turn::Delivered
        }
    }
}

/// Lets a worker take turns until it has to wait or has died; the turns.
fn work(system: &System, worker: usize) -> Vec<Turn> {
    let mut turns = Vec::new();
    loop {
        let t = turn(system, worker);
        turns.push(t);
        if t == Turn::Waited || t == Turn::Exited {
            return turns;
        }
    }
}

/// Terminates a system of `k` workers, lets the workers finish in the given
/// order, and runs the owner's count.
fn shut_down(k: usize, order: Vec<usize>) {
    let system = system(k);
    assert_eq!(system.lock().unwrap().alive_threads(), k);
    system.lock().unwrap().terminate();
    assert!(!system.lock().unwrap().run());
    for w in order {
        let turns = work(&system, w);
        assert_eq!(turns.last(), Some(&Turn::Exited));
        assert!(turns.len() <= k);
        assert!(!system.lock().unwrap().is_running(w));
    }
    let mut sys = system.lock().unwrap();
    assert_eq!(sys.alive_threads(), k);
    assert!(sys.run());
    assert_eq!(sys.alive_threads(), 0);
    for w in 0..k {
        assert!(!sys.is_running(w));
    }
}

#[test]
fn new_system_has_running_workers_and_nothing_else() {
    let mut sys: ActorSystem<Node, i32> = ActorSystem::new(3);
    assert_eq!(sys.alive_threads(), 3);
    assert!(sys.is_running(0));
    assert!(sys.is_running(1));
    assert!(sys.is_running(2));
    assert!(!sys.is_running(3));
    assert_eq!(sys.children_count(sys.root_pid()), 0);
    assert_eq!(sys.mailbox_len(sys.root_pid()), 0);
    assert!(matches!(sys.take_ticket(), Err(MessageQueueError::Empty)));
    assert!(!sys.run());
    assert_eq!(sys.alive_threads(), 3);
}

#[test]
fn system_without_workers_never_ends_its_wait() {
    let mut sys: ActorSystem<Node, i32> = ActorSystem::new(0);
    assert_eq!(sys.alive_threads(), 0);
    assert!(!sys.is_running(0));
    sys.terminate();
    assert!(matches!(sys.take_ticket(), Err(MessageQueueError::Empty)));
    assert!(!sys.run());
}

#[test]
fn root_pid_is_a_random_uuid() {
    let sys: ActorSystem<Node, i32> = ActorSystem::new(1);
    let root = Uuid::from_u128(sys.root_pid());
    assert_eq!(root.get_version_num(), 4);
    assert_eq!(root.get_variant(), uuid::Variant::RFC4122);
}

#[test]
fn spawned_pids_are_random_uuids() {
    let mut sys: ActorSystem<Node, i32> = ActorSystem::new(1);
    let a = sys.spawn(Node::new()).unwrap();
    let b = sys.spawn(Node::new()).unwrap();
    assert_ne!(a.pid, b.pid);
    assert_ne!(a.pid, sys.root_pid());
    for pid in [a.pid, b.pid] {
        let id = Uuid::from_u128(pid);
        assert_eq!(id.get_version_num(), 4);
        assert_eq!(id.get_variant(), uuid::Variant::RFC4122);
        assert_eq!(pid & 0x0000_0000_0000_f000_c000_0000_0000_0000,
            0x0000_0000_0000_4000_8000_0000_0000_0000);
    }
}

#[test]
fn spawning_n_actors_gives_n_distinct_children() {
    let mut sys: ActorSystem<Node, i32> = ActorSystem::new(2);
    let root = sys.root_pid();
    let mut pids: HashSet<u128> = HashSet::new();
    for n in 0..200usize {
        assert_eq!(sys.children_count(root), n);
        let actor = Node::new();
        let child = sys.spawn(actor.clone()).unwrap();
        assert!(Arc::ptr_eq(&child.inner, &actor));
        assert!(pids.insert(child.pid));
        let entry = sys.child(root, child.pid).unwrap();
        assert_eq!(entry.pid, child.pid);
        assert!(Arc::ptr_eq(&entry.inner, &actor));
    }
    assert_eq!(pids.len(), 200);
    assert_eq!(sys.children_count(root), 200);
    for pid in pids {
        assert!(sys.child(root, pid).is_some());
    }
}

#[test]
fn spawn_of_enters_the_child_under_its_parent_only() {
    let mut sys: ActorSystem<Node, i32> = ActorSystem::new(1);
    let root = sys.root_pid();
    let parent = sys.spawn(Node::new()).unwrap();
    let kid1 = sys.spawn_of(parent.clone(), Node::new()).unwrap();
    let kid2 = sys.spawn_of(parent.clone(), Node::new()).unwrap();
    let grandkid = sys.spawn_of(kid1.clone(), Node::new()).unwrap();
    assert_eq!(sys.children_count(root), 1);
    assert_eq!(sys.children_count(parent.pid), 2);
    assert_eq!(sys.children_count(kid1.pid), 1);
    assert_eq!(sys.children_count(kid2.pid), 0);
    assert!(sys.child(root, parent.pid).is_some());
    assert!(sys.child(root, kid1.pid).is_none());
    assert!(sys.child(parent.pid, kid1.pid).is_some());
    assert!(sys.child(parent.pid, kid2.pid).is_some());
    assert!(sys.child(parent.pid, grandkid.pid).is_none());
    assert!(sys.child(kid1.pid, grandkid.pid).is_some());
    assert!(matches!(sys.take_ticket(), Err(MessageQueueError::Empty)));
}

#[test]
fn spawn_with_pid_refuses_a_pid_the_parent_has() {
    let mut sys: ActorSystem<Node, i32> = ActorSystem::new(1);
    let root = sys.root_pid();
    let first = Node::new();
    let child = sys.spawn_with_pid(root, 42, first.clone()).unwrap();
    assert_eq!(child.pid, 42);
    assert!(Arc::ptr_eq(&child.inner, &first));
    assert_eq!(sys.children_count(root), 1);
    match sys.spawn_with_pid(root, 42, Node::new()) {
        Err(e) => assert_eq!(e, SpawnError::DuplicatePid),
        Ok(_) => panic!("a second child with the same pid was accepted"),
    }
    assert_eq!(sys.children_count(root), 1);
    assert!(Arc::ptr_eq(&sys.child(root, 42).unwrap().inner, &first));
    let elsewhere = sys.spawn_with_pid(7, 42, Node::new()).unwrap();
    assert_eq!(elsewhere.pid, 42);
    assert_eq!(sys.children_count(7), 1);
    assert_eq!(sys.children_count(root), 1);
}

#[test]
fn tell_fills_the_mailbox_and_posts_one_ticket() {
    let mut sys: ActorSystem<Node, i32> = ActorSystem::new(1);
    let a = sys.spawn(Node::new()).unwrap();
    let b = sys.spawn(Node::new()).unwrap();
    sys.tell(None, &a, 1);
    sys.tell(Some(a.clone()), &b, 2);
    sys.tell(None, &a, 3);
    assert_eq!(sys.mailbox_len(a.pid), 2);
    assert_eq!(sys.mailbox_len(b.pid), 1);
    match sys.take_ticket() {
        Ok(ThreadMessage::Actor(to)) => assert!(to == a),
        _ => panic!("no ticket for the first send"),
    }
    match sys.take_ticket() {
        Ok(ThreadMessage::Actor(to)) => assert!(to == b),
        _ => panic!("no ticket for the second send"),
    }
    match sys.take_ticket() {
        Ok(ThreadMessage::Actor(to)) => assert!(to == a),
        _ => panic!("no ticket for the third send"),
    }
    assert!(matches!(sys.take_ticket(), Err(MessageQueueError::Empty)));
    assert_eq!(sys.mailbox_len(a.pid), 2);
}

#[test]
fn tell_without_sender_is_handled_once_with_no_sender() {
    let system = system(1);
    let actor = Node::new();
    let to = system.lock().unwrap().spawn(actor.clone()).unwrap();
    system.lock().unwrap().tell(None, &to, 11);
    assert_eq!(turn(&system, 0), Turn::Delivered);
    assert_eq!(actor.seen(), vec![(to.pid, None, 11)]);
    assert_eq!(turn(&system, 0), Turn::Waited);
    assert_eq!(actor.seen(), vec![(to.pid, None, 11)]);
    assert_eq!(system.lock().unwrap().mailbox_len(to.pid), 0);
}

#[test]
fn mailbox_hands_out_envelopes_in_the_order_sent() {
    let mut sys: ActorSystem<Node, i32> = ActorSystem::new(1);
    let a = sys.spawn(Node::new()).unwrap();
    let b = sys.spawn(Node::new()).unwrap();
    sys.tell(None, &a, 10);
    sys.tell(Some(b.clone()), &a, 20);
    sys.tell(Some(a.clone()), &a, 30);
    let mut got: Vec<(u128, Option<u128>, i32)> = Vec::new();
    while let Ok(msg) = sys.take_ticket() {
        match sys.dispatch(0, msg) {
            Dispatch::Deliver(d) => got.push((d.me.pid, d.sender.map(|s| s.pid), d.message)),
            _ => panic!("a ticket with an envelope was not delivered"),
        }
    }
    assert_eq!(got, vec![(a.pid, None, 10), (a.pid, Some(b.pid), 20), (a.pid, Some(a.pid), 30)]);
}

#[test]
fn ticket_for_an_empty_mailbox_is_skipped() {
    let mut sys: ActorSystem<Node, i32> = ActorSystem::new(2);
    let a = sys.spawn(Node::new()).unwrap();
    assert!(matches!(sys.dispatch(0, ThreadMessage::Actor(a.clone())), Dispatch::Skipped));
    sys.tell(None, &a, 5);
    assert!(matches!(sys.dispatch(1, ThreadMessage::Actor(a.clone())), Dispatch::Deliver(_)));
    match sys.take_ticket() {
        Ok(msg) => assert!(matches!(sys.dispatch(0, msg), Dispatch::Skipped)),
        Err(_) => panic!("the ticket of the send is gone"),
    }
    assert_eq!(sys.mailbox_len(a.pid), 0);
    assert!(matches!(sys.take_ticket(), Err(MessageQueueError::Empty)));
}

#[test]
fn reply_reaches_the_sender() {
    let system = system(1);
    let asker = Node::new();
    let replier = Node::replier();
    let a = system.lock().unwrap().spawn(asker.clone()).unwrap();
    let b = system.lock().unwrap().spawn(replier.clone()).unwrap();
    system.lock().unwrap().tell(Some(a.clone()), &b, 21);
    assert_eq!(turn(&system, 0), Turn::Delivered);
    assert_eq!(replier.seen(), vec![(b.pid, Some(a.pid), 21)]);
    assert_eq!(asker.seen(), vec![]);
    assert_eq!(turn(&system, 0), Turn::Delivered);
    assert_eq!(asker.seen(), vec![(a.pid, Some(b.pid), 42)]);
    assert_eq!(replier.seen(), vec![(b.pid, Some(a.pid), 21)]);
    assert_eq!(turn(&system, 0), Turn::Waited);
}

#[test]
fn one_worker_terminates() {
    shut_down(1, vec![0]);
}

#[test]
fn two_workers_terminate() {
    shut_down(2, vec![0, 1]);
    shut_down(2, vec![1, 0]);
}

#[test]
fn eight_workers_terminate() {
    shut_down(8, (0..8).collect());
    shut_down(8, (0..8).rev().collect());
    shut_down(8, vec![3, 0, 7, 1, 6, 2, 5, 4]);
}

#[test]
fn sixty_four_workers_terminate() {
    shut_down(64, (0..64).collect());
    shut_down(64, (0..64).rev().collect());
    shut_down(64, (0..64).map(|i| (i * 37 + 5) % 64).collect());
}

#[test]
fn terminate_posts_one_order_per_worker_in_order() {
    let mut sys: ActorSystem<Node, i32> = ActorSystem::new(4);
    let a = sys.spawn(Node::new()).unwrap();
    sys.tell(None, &a, 1);
    sys.terminate();
    assert!(matches!(sys.take_ticket(), Ok(ThreadMessage::Actor(_))));
    assert!(matches!(sys.take_ticket(), Ok(ThreadMessage::Die(0))));
    assert!(matches!(sys.take_ticket(), Ok(ThreadMessage::Die(1))));
    assert!(matches!(sys.take_ticket(), Ok(ThreadMessage::Die(2))));
    assert!(matches!(sys.take_ticket(), Ok(ThreadMessage::Die(3))));
    assert!(matches!(sys.take_ticket(), Err(MessageQueueError::Empty)));
    assert_eq!(sys.alive_threads(), 4);
}

#[test]
fn second_terminate_posts_the_orders_again() {
    let mut sys: ActorSystem<Node, i32> = ActorSystem::new(2);
    sys.terminate();
    sys.terminate();
    assert!(matches!(sys.take_ticket(), Ok(ThreadMessage::Die(0))));
    assert!(matches!(sys.take_ticket(), Ok(ThreadMessage::Die(1))));
    assert!(matches!(sys.take_ticket(), Ok(ThreadMessage::Die(0))));
    assert!(matches!(sys.take_ticket(), Ok(ThreadMessage::Die(1))));
    assert!(matches!(sys.take_ticket(), Err(MessageQueueError::Empty)));
}

#[test]
fn run_counts_reports_and_ends_with_the_last() {
    let mut sys: ActorSystem<Node, i32> = ActorSystem::new(3);
    assert!(!sys.run());
    assert!(matches!(sys.dispatch(1, ThreadMessage::Die(1)), Dispatch::Exit));
    assert!(!sys.is_running(1));
    assert_eq!(sys.alive_threads(), 3);
    assert!(!sys.run());
    assert_eq!(sys.alive_threads(), 2);
    assert!(!sys.run());
    assert_eq!(sys.alive_threads(), 2);
    assert!(matches!(sys.dispatch(0, ThreadMessage::Die(0)), Dispatch::Exit));
    assert!(matches!(sys.dispatch(2, ThreadMessage::Die(2)), Dispatch::Exit));
    assert!(sys.run());
    assert_eq!(sys.alive_threads(), 0);
    assert!(!sys.run());
    assert_eq!(sys.alive_threads(), 0);
}

#[test]
fn accumulator_holds_fifteen_after_shutdown() {
    let system = system(1);
    let actor = Node::new();
    let a = system.lock().unwrap().spawn(actor.clone()).unwrap();
    for value in [1, 2, 3, 4, 5] {
        system.lock().unwrap().tell(None, &a, value);
    }
    system.lock().unwrap().terminate();
    let turns = work(&system, 0);
    assert_eq!(
        turns,
        vec![
            Turn::Delivered,
            Turn::Delivered,
            Turn::Delivered,
            Turn::Delivered,
            Turn::Delivered,
            Turn::Exited
        ]
    );
    assert!(system.lock().unwrap().run());
    assert_eq!(system.lock().unwrap().alive_threads(), 0);
    let seen = actor.seen();
    assert_eq!(seen.iter().map(|s| s.2).sum::<i32>(), 15);
    assert_eq!(seen.iter().map(|s| s.2).collect::<Vec<i32>>(), vec![1, 2, 3, 4, 5]);
    assert!(seen.iter().all(|s| s.0 == a.pid && s.1.is_none()));
}

#[test]
fn death_order_for_no_worker_is_passed_on_and_starves_nothing() {
    let k = 4;
    let system = system(k);
    let actor = Node::new();
    let a = system.lock().unwrap().spawn(actor.clone()).unwrap();
    // Worker 0 is handed an order for a worker that does not exist.
    assert!(matches!(
        system.lock().unwrap().dispatch(0, ThreadMessage::Die(99)),
        Dispatch::Forwarded
    ));
    system.lock().unwrap().tell(None, &a, 7);
    // Every worker meets the order once and passes it on; the ticket behind
    // it is served on the way.
    let mut forwarded = 0;
    let mut delivered = 0;
    for w in 0..k {
        loop {
            match turn(&system, w) {
                Turn::Forwarded => {
                    forwarded += 1;
                    break;
                }
                Turn::Delivered => delivered += 1,
                other => panic!("unexpected turn {:?}", other),
            }
        }
    }
    assert_eq!(forwarded, k);
    assert_eq!(delivered, 1);
    assert_eq!(actor.seen(), vec![(a.pid, None, 7)]);
    for w in 0..k {
        assert!(system.lock().unwrap().is_running(w));
    }
    // The order is still there, alone, and shutdown works round it.
    system.lock().unwrap().terminate();
    let mut reposts = 0;
    for w in 0..k {
        let turns = work(&system, w);
        assert_eq!(turns.last(), Some(&Turn::Exited));
        reposts += turns.iter().filter(|t| **t == Turn::Forwarded).count();
    }
    assert!(reposts <= k);
    assert!(system.lock().unwrap().run());
    assert_eq!(system.lock().unwrap().alive_threads(), 0);
    assert!(matches!(system.lock().unwrap().take_ticket(), Ok(ThreadMessage::Die(99))));
    assert!(matches!(system.lock().unwrap().take_ticket(), Err(MessageQueueError::Empty)));
}

#[test]
fn foreign_death_order_goes_behind_the_other_tickets() {
    let mut sys: ActorSystem<Node, i32> = ActorSystem::new(2);
    let a = sys.spawn(Node::new()).unwrap();
    sys.terminate();
    sys.tell(None, &a, 1);
    let first = sys.take_ticket().ok().unwrap();
    assert!(matches!(first, ThreadMessage::Die(0)));
    assert!(matches!(sys.dispatch(1, first), Dispatch::Forwarded));
    assert!(sys.is_running(0));
    assert!(sys.is_running(1));
    assert!(matches!(sys.take_ticket(), Ok(ThreadMessage::Die(1))));
    assert!(matches!(sys.take_ticket(), Ok(ThreadMessage::Actor(_))));
    assert!(matches!(sys.take_ticket(), Ok(ThreadMessage::Die(0))));
    assert!(matches!(sys.take_ticket(), Err(MessageQueueError::Empty)));
}

#[test]
fn two_workers_that_take_each_others_order_get_nowhere() {
    let mut sys: ActorSystem<Node, i32> = ActorSystem::new(2);
    sys.terminate();
    for _ in 0..10 {
        let order = sys.take_ticket().ok().unwrap();
        assert!(matches!(order, ThreadMessage::Die(0)));
        assert!(matches!(sys.dispatch(1, order), Dispatch::Forwarded));
        let order = sys.take_ticket().ok().unwrap();
        assert!(matches!(order, ThreadMessage::Die(1)));
        assert!(matches!(sys.dispatch(0, order), Dispatch::Forwarded));
    }
    assert!(sys.is_running(0) && sys.is_running(1));
    assert!(!sys.run());
    assert_eq!(sys.alive_threads(), 2);
}

#[test]
fn delivery_comes_apart_into_actor_message_and_context() {
    let actor = Node::new();
    let other = Node::new();
    let me = ActorRef::new(5, actor.clone());
    let sender = ActorRef::new(6, other.clone());
    let delivery = Delivery { me: me.clone(), sender: Some(sender), message: 9 };
    let (instance, message, context) = delivery.into_parts("handle");
    assert!(Arc::ptr_eq(&instance, &actor));
    assert_eq!(message, 9);
    assert_eq!(context.system, "handle");
    assert_eq!(context.me.pid, 5);
    assert!(Arc::ptr_eq(&context.me.inner, &actor));
    let from = context.sender.unwrap();
    assert_eq!(from.pid, 6);
    assert!(Arc::ptr_eq(&from.inner, &other));
}

#[test]
fn context_keeps_what_it_is_given() {
    let me = ActorRef::new(1, Node::new());
    let context = Context::new(17u8, me.clone(), None);
    assert_eq!(context.system, 17);
    assert_eq!(context.me.pid, 1);
    assert!(context.sender.is_none());
}

#[test]
fn actor_refs_are_the_same_actor_by_pid() {
    let actor = Node::new();
    let a = ActorRef::new(1, actor.clone());
    let b = ActorRef::new(1, Node::new());
    let c = ActorRef::new(2, actor.clone());
    assert!(a == b);
    assert!(a != c);
    let copy = a.clone();
    assert_eq!(copy.pid, 1);
    assert!(Arc::ptr_eq(&copy.inner, &actor));
    assert!(copy == a);
}

#[test]
fn root_actor_ignores_every_message() {
    let root = <RootActor as Actor<i32, ()>>::new();
    let me = ActorRef::new(3, root.clone());
    root.receive(1, Context::new((), me.clone(), None));
    root.receive(2, Context::new((), me.clone(), Some(me.clone())));
    let mut sys: ActorSystem<RootActor, i32> = ActorSystem::new(1);
    sys.tell(None, &me, 8);
    let ticket = sys.take_ticket().ok().unwrap();
    match sys.dispatch(0, ticket) {
        Dispatch::Deliver(delivery) => delivery.deliver(()),
        _ => panic!("the message to the root actor was not delivered"),
    }
    assert_eq!(sys.mailbox_len(3), 0);
}

#[test]
fn died_worker_is_reported_once() {
    let mut sys: ActorSystem<Node, i32> = ActorSystem::new(2);
    assert_eq!(WorkerState::Running, WorkerState::Running);
    assert_ne!(WorkerState::Running, WorkerState::Died);
    assert_eq!(SystemMessage::Died(1), SystemMessage::Died(1));
    assert!(matches!(sys.dispatch(1, ThreadMessage::Die(1)), Dispatch::Exit));
    assert!(!sys.is_running(1));
    assert!(sys.is_running(0));
    assert!(!sys.run());
    assert_eq!(sys.alive_threads(), 1);
}

#[test]
fn when_the_queue_is_empty_every_mailbox_is() {
    let system = system(2);
    let actors: Vec<Arc<Node>> = (0..3).map(|_| Node::new()).collect();
    let refs: Vec<ActorRef<Node>> =
        actors.iter().map(|a| system.lock().unwrap().spawn(a.clone()).unwrap()).collect();
    let mut sent = 0;
    for round in 0..20 {
        for (i, to) in refs.iter().enumerate() {
            if (round + i) % 3 != 0 {
                system.lock().unwrap().tell(None, to, round as i32);
                sent += 1;
            }
        }
        if round % 4 == 0 {
            assert_ne!(turn(&system, round % 2), Turn::Waited);
        }
    }
    let mut turns = 0;
    while turn(&system, turns % 2) != Turn::Waited {
        turns += 1;
        assert!(turns <= sent);
    }
    for to in &refs {
        assert_eq!(system.lock().unwrap().mailbox_len(to.pid), 0);
    }
    let delivered: usize = actors.iter().map(|a| a.seen().len()).sum();
    assert_eq!(delivered, sent);
}

#[test]
fn dead_worker_stays_dead() {
    let mut sys: ActorSystem<Node, i32> = ActorSystem::new(2);
    assert!(matches!(sys.dispatch(0, ThreadMessage::Die(0)), Dispatch::Exit));
    assert!(!sys.is_running(0));
    let a = sys.spawn(Node::new()).unwrap();
    sys.tell(None, &a, 1);
    sys.terminate();
    assert!(!sys.run());
    let ticket = sys.take_ticket().ok().unwrap();
    assert!(matches!(sys.dispatch(1, ticket), Dispatch::Deliver(_)));
    let order = sys.take_ticket().ok().unwrap();
    assert!(matches!(sys.dispatch(1, order), Dispatch::Forwarded));
    assert!(!sys.is_running(0));
    assert!(sys.is_running(1));
    assert_eq!(sys.alive_threads(), 1);
}
