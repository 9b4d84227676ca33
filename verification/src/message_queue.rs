//! A first-in, first-out queue of messages.
//!
//! The queue here is the part of a blocking queue that decides what is stored
//! and what comes out. It has one owner at a time; a caller that shares it
//! between threads keeps it behind a lock and sleeps while it is empty.

use std::collections::VecDeque;
use vstd::prelude::*;

verus! {

/// Why a receive could not hand out a message.
#[derive(Debug, Clone, Copy, PartialEq, Eq, Structural)]
pub enum MessageQueueError {
    /// The queue holds no message.
    Empty,
}

/// An unbounded FIFO queue. Its view is the sequence of waiting messages,
/// oldest first.
pub struct MessageQueue<T> {
    queue: VecDeque<T>,
}

impl<T> View for MessageQueue<T> {
    type V = Seq<T>;

    closed spec fn view(&self) -> Seq<T> {
        self.queue@
    }
}

impl<T> MessageQueue<T> {
    /// An empty queue.
    pub fn new() -> (q: MessageQueue<T>)
        ensures
            q@ == Seq::<T>::empty(),
    {
        MessageQueue { queue: VecDeque::new() }
    }

    /// Appends `msg` behind every message already waiting.
    pub fn send(&mut self, msg: T)
        ensures
            final(self)@ == old(self)@.push(msg),
    {
        self.queue.push_back(msg);
    }

    /// Takes the oldest message, or reports `Empty` and leaves the queue as it is.
    pub fn try_recv(&mut self) -> (r: Result<T, MessageQueueError>)
        ensures
            r == received(old(self)@),
            final(self)@ == after_receive(old(self)@),
    {
        match self.queue.pop_front() {
            Some(t) => Ok(t),
            None => Err(MessageQueueError::Empty),
        }
    }

    /// Takes the oldest message of a queue that holds one.
    ///
    /// A sole owner that waited on an empty queue would wait forever, so the
    /// caller waits first, until `is_empty` says no, and receives then.
    pub fn recv(&mut self) -> (r: Result<T, MessageQueueError>)
        requires
            old(self)@.len() > 0,
        ensures
            r == Ok::<T, MessageQueueError>(old(self)@[0]),
            final(self)@ == old(self)@.drop_first(),
    {
        self.try_recv()
    }

    /// The number of waiting messages.
    pub fn len(&self) -> (n: usize)
        ensures
            n == self@.len(),
    {
        self.queue.len()
    }

    /// Whether no message is waiting.
    pub fn is_empty(&self) -> (b: bool)
        ensures
            b == (self@.len() == 0),
    {
        self.queue.len() == 0
    }
}

/// What a receive hands out from a queue with the content `queue`.
pub open spec fn received<T>(queue: Seq<T>) -> Result<T, MessageQueueError> {
    if queue.len() > 0 {
        Ok(queue[0])
    } else {
        Err(MessageQueueError::Empty)
    }
}

/// What a receive leaves of a queue with the content `queue`.
pub open spec fn after_receive<T>(queue: Seq<T>) -> Seq<T> {
    if queue.len() > 0 {
        queue.drop_first()
    } else {
        queue
    }
}

/// One use of a queue by some producer or consumer.
pub enum QueueOp<T> {
    /// A message is sent.
    Send(T),
    /// A receive is tried.
    Recv,
}

/// The messages that the sends among `ops` carry, in the order of `ops`.
pub open spec fn sent_by<T>(ops: Seq<QueueOp<T>>) -> Seq<T>
    decreases ops.len(),
{
    if ops.len() == 0 {
        Seq::empty()
    } else {
        match ops.last() {
            QueueOp::Send(msg) => sent_by(ops.drop_last()).push(msg),
            QueueOp::Recv => sent_by(ops.drop_last()),
        }
    }
}

/// The content of a queue that started as `queue` after `ops` were applied
/// to it one after the other.
pub open spec fn queue_after<T>(queue: Seq<T>, ops: Seq<QueueOp<T>>) -> Seq<T>
    decreases ops.len(),
{
    if ops.len() == 0 {
        queue
    } else {
        let before = queue_after(queue, ops.drop_last());
        match ops.last() {
            QueueOp::Send(msg) => before.push(msg),
            QueueOp::Recv => after_receive(before),
        }
    }
}

/// The messages that the receives among `ops` handed out, in the order of
/// `ops`, from a queue that started as `queue`.
pub open spec fn received_by<T>(queue: Seq<T>, ops: Seq<QueueOp<T>>) -> Seq<T>
    decreases ops.len(),
{
    if ops.len() == 0 {
        Seq::empty()
    } else {
        let earlier = received_by(queue, ops.drop_last());
        match ops.last() {
            QueueOp::Send(_) => earlier,
            QueueOp::Recv => match received(queue_after(queue, ops.drop_last())) {
                Ok(msg) => earlier.push(msg),
                Err(_) => earlier,
            },
        }
    }
}

/// Nothing is lost, doubled or reordered: however sends and receives follow
/// one another, the messages handed out so far, followed by those still
/// waiting, are the messages the queue started with followed by those sent,
/// in the order in which they were sent.
pub proof fn lemma_queue_keeps_order<T>(queue: Seq<T>, ops: Seq<QueueOp<T>>)
    ensures
        received_by(queue, ops) + queue_after(queue, ops) == queue + sent_by(ops),
    decreases ops.len(),
{
    if ops.len() == 0 {
        assert(received_by(queue, ops) + queue_after(queue, ops) =~= queue + sent_by(ops));
    } else {
        let earlier = ops.drop_last();
        lemma_queue_keeps_order(queue, earlier);
        let got = received_by(queue, earlier);
        let left = queue_after(queue, earlier);
        assert(got + left == queue + sent_by(earlier));
        match ops.last() {
            QueueOp::Send(msg) => {
                assert(got + left.push(msg) =~= (got + left).push(msg));
                assert(queue + sent_by(earlier).push(msg) =~= (queue + sent_by(earlier)).push(
                    msg,
                ));
            },
            QueueOp::Recv => {
                if left.len() > 0 {
                    assert(got.push(left[0]) + left.drop_first() =~= got + left);
                }
            },
        }
    }
}

/// A consumer that does nothing but receive sees every sent message once and
/// in the order of sending: after the sends `msgs` on an empty queue, the
/// `k`-th receive hands out `msgs[k]`.
pub proof fn lemma_receives_follow_sends<T>(msgs: Seq<T>, k: int)
    requires
        0 <= k < msgs.len(),
    ensures
        queue_after(Seq::empty(), sends(msgs)) == msgs,
        received(queue_after(msgs, receives::<T>(k as nat))) == Ok::<T, MessageQueueError>(
            msgs[k],
        ),
{
    lemma_sends_append(Seq::empty(), msgs);
    assert(Seq::<T>::empty() + msgs =~= msgs);
    lemma_receives_skip(msgs, k as nat);
}

/// One send for each of `msgs`, in their order.
pub open spec fn sends<T>(msgs: Seq<T>) -> Seq<QueueOp<T>> {
    Seq::new(msgs.len(), |i: int| QueueOp::Send(msgs[i]))
}

/// `n` receives.
pub open spec fn receives<T>(n: nat) -> Seq<QueueOp<T>> {
    Seq::new(n, |i: int| QueueOp::Recv)
}

/// Sending `msgs` one after the other appends them to the queue.
pub proof fn lemma_sends_append<T>(queue: Seq<T>, msgs: Seq<T>)
    ensures
        queue_after(queue, sends(msgs)) == queue + msgs,
    decreases msgs.len(),
{
    if msgs.len() == 0 {
        assert(queue + msgs =~= queue);
    } else {
        lemma_sends_append(queue, msgs.drop_last());
        assert(sends(msgs).drop_last() =~= sends(msgs.drop_last()));
        assert((queue + msgs.drop_last()).push(msgs.last()) =~= queue + msgs);
    }
}

/// `n` receives take the `n` oldest messages off a queue that holds at least
/// that many.
pub proof fn lemma_receives_skip<T>(queue: Seq<T>, n: nat)
    requires
        n <= queue.len(),
    ensures
        queue_after(queue, receives::<T>(n)) == queue.skip(n as int),
    decreases n,
{
    if n == 0 {
        assert(queue.skip(0) =~= queue);
    } else {
        lemma_receives_skip(queue, (n - 1) as nat);
        assert(receives::<T>(n).drop_last() =~= receives::<T>((n - 1) as nat));
        assert(queue.skip(n - 1).drop_first() =~= queue.skip(n as int));
    }
}

} // verus!
