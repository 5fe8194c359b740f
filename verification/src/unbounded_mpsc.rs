//! A single-threaded unbounded channel: values sent are queued and received
//! in the order they were sent; a receiver that finds the queue empty leaves
//! its waker, which the next send wakes.
use vstd::prelude::*;
use vstd::cell::invcell::InvCell;
use vstd::predicate::Predicate;
use std::collections::VecDeque;
use std::task::Waker;

verus! {

#[verifier::external_type_specification]
#[verifier::external_body]
pub struct ExWaker(Waker);

/// `Waker::wake`: tells the executor to poll the task again. Nothing is
/// claimed of it.
pub assume_specification[ Waker::wake ](waker: Waker);

/// `Waker::clone`: a waker for the same task. Nothing is claimed of it.
pub assume_specification[ <Waker as Clone>::clone ](waker: &Waker) -> Waker;

/// The state behind a channel: the values not received yet, oldest first,
/// and the waker of a receiver waiting for one.
pub struct Inner<T> {
    waker: Option<Waker>,
    entries: VecDeque<T>,
}

impl<T> Inner<T> {
    pub closed spec fn entries(&self) -> Seq<T> {
        self.entries@
    }

    /// Whether a receiver is waiting to be woken.
    pub closed spec fn has_waker(&self) -> bool {
        self.waker is Some
    }

    pub fn new() -> (r: Self)
        ensures
            r.entries() == Seq::<T>::empty(),
            !r.has_waker(),
    {
        Inner { waker: None, entries: VecDeque::new() }
    }

    /// Queues `value` and hands back the waiting receiver's waker, to be
    /// woken.
    pub fn push(&mut self, value: T) -> (r: Option<Waker>)
        ensures
            final(self).entries() == old(self).entries().push(value),
            r is Some == old(self).has_waker(),
            !final(self).has_waker(),
    {
        self.entries.push_back(value);
        self.waker.take()
    }

    /// Takes the oldest value; when there is none, keeps `waker` to be woken
    /// by the next push.
    pub fn pop(&mut self, waker: &Waker) -> (r: Option<T>)
        ensures
            old(self).entries().len() == 0 ==> {
                &&& r is None
                &&& final(self).entries() == old(self).entries()
                &&& final(self).has_waker()
            },
            old(self).entries().len() > 0 ==> {
                &&& r == Some(old(self).entries()[0])
                &&& final(self).entries() == old(self).entries().drop_first()
                &&& final(self).has_waker() == old(self).has_waker()
            },
    {
        match self.entries.pop_front() {
            Some(value) => Some(value),
            None => {
                self.waker = Some(waker.clone());
                None
            },
        }
    }

    /// Forgets the waiting receiver's waker.
    pub fn clear_waker(&mut self)
        ensures
            final(self).entries() == old(self).entries(),
            !final(self).has_waker(),
    {
        self.waker = None;
    }
}

/// Sending never overtakes: a value queued behind `queue` comes out only
/// after every value already in it, and the first value out is unchanged.
pub proof fn lemma_send_keeps_order<T>(queue: Seq<T>, value: T)
    ensures
        queue.len() == 0 ==> queue.push(value)[0] == value && queue.push(value).drop_first()
            == queue,
        queue.len() > 0 ==> queue.push(value)[0] == queue[0] && queue.push(value).drop_first()
            == queue.drop_first().push(value),
{
    if queue.len() == 0 {
        assert(queue.push(value).drop_first() =~= queue);
    } else {
        assert(queue.push(value).drop_first() =~= queue.drop_first().push(value));
    }
}

/// One operation on a channel's queue: a value sent, or a receive, which
/// takes the oldest value if there is one.
pub enum QueueOp<T> {
    Send(T),
    Receive,
}

/// The queue and the values received, oldest first, after `ops` were run in
/// order on `queue`, each as `Inner::push` and `Inner::pop` do it.
pub open spec fn run_ops<T>(queue: Seq<T>, ops: Seq<QueueOp<T>>) -> (Seq<T>, Seq<T>)
    decreases ops.len(),
{
    if ops.len() == 0 {
        (queue, Seq::empty())
    } else {
        let (q, received) = run_ops(queue, ops.drop_last());
        match ops.last() {
            QueueOp::Send(value) => (q.push(value), received),
            QueueOp::Receive => if q.len() > 0 {
                (q.drop_first(), received.push(q[0]))
            } else {
                (q, received)
            },
        }
    }
}

/// The values sent by `ops`, in the order they were sent.
pub open spec fn sent_values<T>(ops: Seq<QueueOp<T>>) -> Seq<T>
    decreases ops.len(),
{
    if ops.len() == 0 {
        Seq::empty()
    } else {
        match ops.last() {
            QueueOp::Send(value) => sent_values(ops.drop_last()).push(value),
            QueueOp::Receive => sent_values(ops.drop_last()),
        }
    }
}

/// First in, first out, over any run of sends and receives: the values
/// received, in order, followed by those still queued, are the values that
/// were queued followed by the values sent, in the order they were sent.
/// Nothing is lost, duplicated or reordered.
pub proof fn lemma_fifo<T>(queue: Seq<T>, ops: Seq<QueueOp<T>>)
    ensures
        run_ops(queue, ops).1 + run_ops(queue, ops).0 == queue + sent_values(ops),
    decreases ops.len(),
{
    if ops.len() > 0 {
        lemma_fifo(queue, ops.drop_last());
        let (q, received) = run_ops(queue, ops.drop_last());
        match ops.last() {
            QueueOp::Send(value) => {
                assert(received + q.push(value) =~= (received + q).push(value));
            },
            QueueOp::Receive => {
                if q.len() > 0 {
                    assert(received.push(q[0]) + q.drop_first() =~= received + q);
                }
            },
        }
    }
}

/// What the channel's cell may hold: a receiver's waker is kept only while
/// no value is waiting, since a send wakes it and takes it away.
pub struct WakerOnlyWhenEmpty;

impl<T> Predicate<Inner<T>> for WakerOnlyWhenEmpty {
    open spec fn predicate(&self, v: Inner<T>) -> bool {
        v.has_waker() ==> v.entries().len() == 0
    }
}

pub struct Channel<T> {
    inner: InvCell<Inner<T>, WakerOnlyWhenEmpty>,
}

pub struct Receiver<'a, T>(&'a Channel<T>);

pub struct ReceiverFuture<'a, T>(&'a Channel<T>);

pub struct Sender<'a, T>(&'a Channel<T>);

impl<'a, T> Clone for Sender<'a, T> {
    fn clone(&self) -> (r: Self)
        ensures
            r == *self,
    {
        Sender(self.0)
    }
}

impl<'a, T> Copy for Sender<'a, T> {

}

impl<T> Channel<T> {
    pub fn new() -> Self {
        Channel { inner: InvCell::new(Inner::new(), Ghost(WakerOnlyWhenEmpty)) }
    }

    /// The two ends of this channel: both refer to it, and it is left as it
    /// was.
    pub fn split<'a>(&'a mut self) -> (r: (Sender<'a, T>, Receiver<'a, T>))
        ensures
            *r.0.channel() == *old(self),
            *r.1.channel() == *old(self),
            *final(self) == *old(self),
    {
        (Sender(self), Receiver(self))
    }
}

impl<'a, T> Sender<'a, T> {
    /// The channel this end sends on.
    pub closed spec fn channel(&self) -> &'a Channel<T> {
        self.0
    }

    /// Queues `value`, and wakes the receiver if it is waiting.
    pub fn send(&self, value: T) {
        let mut inner = self.0.inner.replace(Inner::new());
        let waker = inner.push(value);
        self.0.inner.set(inner);
        if let Some(waker) = waker {
            waker.wake();
        }
    }
}

impl<'a, T> Receiver<'a, T> {
    /// The channel this end receives from.
    pub closed spec fn channel(&self) -> &'a Channel<T> {
        self.0
    }

    /// A future for the next value of this end's channel.
    pub fn receive<'b>(&'b mut self) -> (r: ReceiverFuture<'b, T>)
        ensures
            *r.channel() == *old(self).channel(),
            *final(self) == *old(self),
    {
        ReceiverFuture(self.0)
    }
}

impl<'a, T> ReceiverFuture<'a, T> {
    /// The channel this future receives from.
    pub closed spec fn channel(&self) -> &'a Channel<T> {
        self.0
    }

    /// One poll of the future: the oldest value, if there is one; otherwise
    /// `waker` is kept to be woken by the next send.
    pub fn poll_receive(&self, waker: &Waker) -> Option<T> {
        let mut inner = self.0.inner.replace(Inner::new());
        let r = inner.pop(waker);
        self.0.inner.set(inner);
        r
    }

    /// What dropping the future does: the waker it left is forgotten.
    pub fn release(&self) {
        let mut inner = self.0.inner.replace(Inner::new());
        inner.clear_waker();
        self.0.inner.set(inner);
    }
}

} // verus!
