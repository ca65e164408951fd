use vstd::prelude::*;
use std::collections::VecDeque;

verus! {

/// A channel built on a queue: `send` appends and notifies one receiver,
/// `receive` takes the oldest message or, on an empty queue, blocks until
/// notified and tries again.
pub struct Channel<T> {
    queue: VecDeque<T>,
}

/// The queue after `send(m)`.
pub open spec fn sent<T>(q: Seq<T>, m: T) -> Seq<T> {
    q.push(m)
}

/// What one `receive` on queue `q` gives and leaves: the oldest message, or
/// nothing (the receiver blocks) on an empty queue.
pub open spec fn received<T>(q: Seq<T>) -> (Option<T>, Seq<T>) {
    if q.len() > 0 {
        (Some(q[0]), q.drop_first())
    } else {
        (None, q)
    }
}

/// The messages obtained by `n` successive receives on queue `q`.
pub open spec fn receive_many<T>(q: Seq<T>, n: nat) -> Seq<T>
    decreases n,
{
    if n == 0 {
        Seq::empty()
    } else {
        match received(q).0 {
            Some(m) => seq![m] + receive_many(received(q).1, (n - 1) as nat),
            None => Seq::empty(),
        }
    }
}

impl<T> View for Channel<T> {
    type V = Seq<T>;

    closed spec fn view(&self) -> Seq<T> {
        self.queue@
    }
}

impl<T> Channel<T> {
    pub fn new() -> (c: Self)
        ensures
            c@ == Seq::<T>::empty(),
    {
        Channel { queue: VecDeque::new() }
    }

    /// Append `message`; a receiver blocked on the empty queue is then
    /// notified.
    pub fn send(&mut self, message: T)
        ensures
            final(self)@ == sent(old(self)@, message),
    {
        self.queue.push_back(message);
    }

    /// One pass of the receive loop: the oldest message, or `None` when the
    /// queue is empty and the receiver must block until notified.
    pub fn receive(&mut self) -> (m: Option<T>)
        ensures
            (m, final(self)@) == received(old(self)@),
    {
        let m = self.queue.pop_front();
        proof {
            if old(self)@.len() > 0 {
                assert(old(self)@.drop_first() =~= old(self)@.subrange(1, old(self)@.len() as int));
            }
        }
        m
    }
}

/// First in, first out: receiving from a queue as many times as it holds
/// messages gives back exactly those messages, in the order they were sent.
pub proof fn lemma_fifo<T>(q: Seq<T>)
    ensures
        receive_many(q, q.len()) == q,
    decreases q.len(),
{
    if q.len() > 0 {
        lemma_fifo(q.drop_first());
        assert(seq![q[0]] + q.drop_first() =~= q);
    } else {
        assert(q =~= Seq::<T>::empty());
    }
}

/// Sending appends: messages sent after the queue's current contents are
/// received after them, and the current contents come out first unchanged.
pub proof fn lemma_send_order<T>(q: Seq<T>, ms: Seq<T>)
    ensures
        receive_many(q + ms, q.len()) == q,
    decreases q.len(),
{
    if q.len() > 0 {
        assert((q + ms).drop_first() =~= q.drop_first() + ms);
        lemma_send_order(q.drop_first(), ms);
        assert(seq![q[0]] + q.drop_first() =~= q);
    } else {
        assert(q =~= Seq::<T>::empty());
    }
}

/// The queue after sending the messages `ms`, in order, to queue `q`.
pub open spec fn sent_all<T>(q: Seq<T>, ms: Seq<T>) -> Seq<T>
    decreases ms.len(),
{
    if ms.len() == 0 {
        q
    } else {
        sent(sent_all(q, ms.drop_last()), ms.last())
    }
}

/// Every send is delivered, in order: after sending `ms` to a queue holding
/// `q`, receiving as many times as there are messages gives back the
/// messages of `q` followed by all of `ms`, and the queue ends empty. In
/// particular, after one send of `m`, `q.len() + 1` receives give `q`
/// followed by `m`.
pub proof fn lemma_every_send_delivered<T>(q: Seq<T>, ms: Seq<T>, m: T)
    ensures
        receive_many(sent_all(q, ms), q.len() + ms.len()) == q + ms,
        sent_all(q, ms).len() == q.len() + ms.len(),
        receive_many(sent(q, m), q.len() + 1) == q.push(m),
    decreases ms.len(),
{
    if ms.len() > 0 {
        lemma_every_send_delivered(q, ms.drop_last(), m);
        lemma_fifo(q + ms.drop_last());
    }
    lemma_sent_all_appends(q, ms);
    lemma_fifo(q + ms);
    lemma_fifo(q.push(m));
}

/// Sending appends each message at the back.
proof fn lemma_sent_all_appends<T>(q: Seq<T>, ms: Seq<T>)
    ensures
        sent_all(q, ms) == q + ms,
    decreases ms.len(),
{
    if ms.len() > 0 {
        lemma_sent_all_appends(q, ms.drop_last());
        assert((q + ms.drop_last()).push(ms.last()) =~= q + ms);
    } else {
        assert(q + ms =~= q);
    }
}

} // verus!
