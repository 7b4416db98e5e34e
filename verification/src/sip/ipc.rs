//! The bounded channel between processes: its queue and who is waiting on
//! it.  Messages move through it without being copied.
use vstd::prelude::*;
use std::collections::VecDeque;

verus! {

/// What a sender's poll does: the message went in (with the receiver's
/// waker to wake, if it was waiting), or the queue was full and the sender
/// waits.
pub enum SendPoll<W> {
    Ready(Option<W>),
    Pending,
}

/// What a receiver's poll does: a message came out (with the waiting
/// senders' wakers to wake), or the queue was empty and the receiver waits.
pub enum RecvPoll<T, W> {
    Ready(T, Vec<W>),
    Pending,
}

/// The state a sender and a receiver share: the queued messages, the
/// capacity, and the wakers of the waiting receiver and senders.
pub struct Shared<T, W> {
    queue: VecDeque<T>,
    capacity: usize,
    rx_waker: Option<W>,
    tx_wakers: Vec<W>,
}

impl<T, W> Shared<T, W> {
    /// The queued messages, oldest first.
    pub closed spec fn messages(&self) -> Seq<T> {
        self.queue@
    }

    pub closed spec fn capacity_spec(&self) -> int {
        self.capacity as int
    }

    /// The waker of the receiver waiting for a message, if any.
    pub closed spec fn receiver_waiting(&self) -> Option<W> {
        self.rx_waker
    }

    /// The wakers of the senders waiting for room.
    pub closed spec fn senders_waiting(&self) -> Seq<W> {
        self.tx_wakers@
    }

    /// An empty channel holding at most `capacity` messages.
    pub fn new(capacity: usize) -> (r: Self)
        ensures
            r.messages() == Seq::<T>::empty(),
            r.capacity_spec() == capacity,
            r.receiver_waiting() is None,
            r.senders_waiting() == Seq::<W>::empty(),
    {
        Shared { queue: VecDeque::with_capacity(capacity), capacity, rx_waker: None, tx_wakers: Vec::new() }
    }

    /// Whether a message fits in the queue now.
    pub fn has_room(&self) -> (r: bool)
        ensures
            r == (self.messages().len() < self.capacity_spec()),
    {
        self.queue.len() < self.capacity
    }

    /// Polls a send of `data` (kept in `slot` until it goes in) by the task
    /// with waker `waker`: with room in the queue the message goes last and
    /// the waiting receiver, if any, is handed back for waking; otherwise the
    /// sender is recorded as waiting.
    pub fn poll_send(&mut self, slot: &mut Option<T>, waker: W) -> (r: SendPoll<W>)
        requires
            old(self).messages().len() < old(self).capacity_spec() ==> old(slot).is_some(),
        ensures
            old(self).messages().len() < old(self).capacity_spec() ==> {
                &&& r matches SendPoll::Ready(w) && w == old(self).receiver_waiting()
                &&& final(self).messages() == old(self).messages().push(old(slot)->0)
                &&& final(slot).is_none()
                &&& final(self).receiver_waiting() is None
                &&& final(self).senders_waiting() == old(self).senders_waiting()
            },
            old(self).messages().len() >= old(self).capacity_spec() ==> {
                &&& r is Pending
                &&& final(self).messages() == old(self).messages()
                &&& *final(slot) == *old(slot)
                &&& final(self).receiver_waiting() == old(self).receiver_waiting()
                &&& final(self).senders_waiting() == old(self).senders_waiting().push(waker)
            },
            final(self).capacity_spec() == old(self).capacity_spec(),
    {
        if self.queue.len() < self.capacity {
            let data = slot.take().unwrap();
            self.queue.push_back(data);
            let rx = self.rx_waker.take();
            SendPoll::Ready(rx)
        } else {
            self.tx_wakers.push(waker);
            SendPoll::Pending
        }
    }

    /// Polls a receive by the task with waker `waker`: the oldest message
    /// comes out and every waiting sender is handed back for waking; with
    /// no message the receiver is recorded as waiting.
    pub fn poll_recv(&mut self, waker: W) -> (r: RecvPoll<T, W>)
        ensures
            old(self).messages().len() > 0 ==> {
                &&& r matches RecvPoll::Ready(data, woken) && data == old(self).messages()[0]
                    && woken@ == old(self).senders_waiting()
                &&& final(self).messages() == old(self).messages().drop_first()
                &&& final(self).senders_waiting() == Seq::<W>::empty()
                &&& final(self).receiver_waiting() == old(self).receiver_waiting()
            },
            old(self).messages().len() == 0 ==> {
                &&& r is Pending
                &&& final(self).messages() == old(self).messages()
                &&& final(self).receiver_waiting() == Some(waker)
                &&& final(self).senders_waiting() == old(self).senders_waiting()
            },
            final(self).capacity_spec() == old(self).capacity_spec(),
    {
        match self.queue.pop_front() {
            Some(data) => {
                let mut woken: Vec<W> = Vec::new();
                std::mem::swap(&mut woken, &mut self.tx_wakers);
                RecvPoll::Ready(data, woken)
            },
            None => {
                self.rx_waker = Some(waker);
                RecvPoll::Pending
            },
        }
    }
}

/// A poll on the channel that went through: a send whose message went
/// into the queue, or a receive poll.
pub enum ChannelOp<T> {
    Send(T),
    Recv,
}

/// The queue and the messages delivered, oldest first, after the polls
/// `ops` on a channel whose queue was `q`: a send puts its message last, a
/// receive takes the first message out, or waits on an empty queue.
pub open spec fn run_ops<T>(q: Seq<T>, ops: Seq<ChannelOp<T>>) -> (Seq<T>, Seq<T>)
    decreases ops.len(),
{
    if ops.len() == 0 {
        (q, Seq::empty())
    } else {
        let (q1, delivered) = run_ops(q, ops.drop_last());
        match ops.last() {
            ChannelOp::Send(x) => (q1.push(x), delivered),
            ChannelOp::Recv => if q1.len() > 0 {
                (q1.drop_first(), delivered.push(q1[0]))
            } else {
                (q1, delivered)
            },
        }
    }
}

/// The messages of the sends among `ops`, in order.
pub open spec fn sent<T>(ops: Seq<ChannelOp<T>>) -> Seq<T>
    decreases ops.len(),
{
    if ops.len() == 0 {
        Seq::empty()
    } else {
        match ops.last() {
            ChannelOp::Send(x) => sent(ops.drop_last()).push(x),
            ChannelOp::Recv => sent(ops.drop_last()),
        }
    }
}

/// FIFO delivery: over any interleaving of sends and receives, the
/// messages delivered followed by those still queued are the messages
/// queued at the start followed by every message sent, in order.  Once the
/// queue is drained, the messages delivered are exactly those, in order.
pub proof fn lemma_fifo_delivery<T>(q: Seq<T>, ops: Seq<ChannelOp<T>>)
    ensures
        run_ops(q, ops).1 + run_ops(q, ops).0 == q + sent(ops),
        run_ops(q, ops).0.len() == 0 ==> run_ops(q, ops).1 == q + sent(ops),
    decreases ops.len(),
{
    if ops.len() > 0 {
        let prev = ops.drop_last();
        lemma_fifo_delivery(q, prev);
        let (q1, d) = run_ops(q, prev);
        match ops.last() {
            ChannelOp::Send(x) => {
                assert(d + q1.push(x) =~= (d + q1).push(x));
                assert(q + sent(prev).push(x) =~= (q + sent(prev)).push(x));
            },
            ChannelOp::Recv => {
                if q1.len() > 0 {
                    assert(d.push(q1[0]) + q1.drop_first() =~= d + q1);
                }
            },
        }
    }
    assert(run_ops(q, ops).0.len() == 0 ==> run_ops(q, ops).1 + run_ops(q, ops).0 =~= run_ops(q, ops).1);
}

} // verus!
