use vstd::prelude::*;

verus! {

/// A one-shot channel used through a `Sender` and a `Receiver` handed out by
/// `split`. Each split opens a new round of the channel; both halves belong
/// to that round and work only on it, and each can be used once, which is
/// what makes a single delivery per split safe.
pub struct Channel<T> {
    message: Option<T>,
    ready: bool,
    round: Ghost<nat>,
    sent: Ghost<bool>,
    received: Ghost<bool>,
}

/// The sending half of one split; `send` consumes it.
pub struct Sender {
    round: Ghost<nat>,
}

/// The receiving half of one split; `receive` consumes it.
pub struct Receiver {
    round: Ghost<nat>,
}

/// The state of a borrowed one-shot channel as plain values: the round (the
/// split it is in), the message slot, the ready flag, and whether the round's
/// sender has sent and its receiver has received.
pub struct BorrowedState<T> {
    pub round: nat,
    pub message: Option<T>,
    pub ready: bool,
    pub sent: bool,
    pub received: bool,
}

impl<T> BorrowedState<T> {
    /// The slot is filled exactly while a message is ready, and a message is
    /// ready exactly when this round's sender has sent and its receiver has
    /// not yet received.
    pub open spec fn wf(self) -> bool {
        &&& self.message is Some <==> self.ready
        &&& self.ready <==> (self.sent && !self.received)
        &&& self.received ==> self.sent
    }

    /// The channel after `split`: a new round, empty, nothing sent or received.
    pub open spec fn split(self) -> Self {
        BorrowedState { round: self.round + 1, message: None, ready: false, sent: false, received: false }
    }

    /// The channel after this round's sender sends `m`.
    pub open spec fn sent(self, m: T) -> Self {
        BorrowedState { message: Some(m), ready: true, sent: true, ..self }
    }

    /// The channel after this round's receiver takes the message.
    pub open spec fn received(self) -> Self {
        BorrowedState { message: None, ready: false, received: true, ..self }
    }
}

impl<T> View for Channel<T> {
    type V = BorrowedState<T>;

    closed spec fn view(&self) -> BorrowedState<T> {
        BorrowedState {
            round: self.round@,
            message: self.message,
            ready: self.ready,
            sent: self.sent@,
            received: self.received@,
        }
    }
}

impl Sender {
    /// The round (split) this half belongs to.
    pub closed spec fn round(&self) -> nat {
        self.round@
    }
}

impl Receiver {
    /// The round (split) this half belongs to.
    pub closed spec fn round(&self) -> nat {
        self.round@
    }
}

impl<T> Channel<T> {
    /// A new, empty channel. Nothing is said of its round: a half handed out
    /// by another channel cannot be shown to belong to this one.
    pub fn new() -> (c: Self)
        ensures
            c@.wf(),
            c@.message is None,
            !c@.ready,
    {
        Channel { message: None, ready: false, round: Ghost(0), sent: Ghost(false), received: Ghost(false) }
    }

    /// Reset the channel (dropping any message still in it), open a new
    /// round, and hand out the round's two halves.
    pub fn split(&mut self) -> (halves: (Sender, Receiver))
        ensures
            final(self)@ == old(self)@.split(),
            final(self)@.wf(),
            halves.0.round() == final(self)@.round,
            halves.1.round() == final(self)@.round,
    {
        let ghost round = self.round@ + 1;
        self.message = None;
        self.ready = false;
        self.round = Ghost(round);
        self.sent = Ghost(false);
        self.received = Ghost(false);
        (Sender { round: Ghost(round) }, Receiver { round: Ghost(round) })
    }
}

impl Sender {
    /// Put `message` into this half's channel and mark it ready.
    pub fn send<T>(self, channel: &mut Channel<T>, message: T)
        requires
            old(channel)@.wf(),
            self.round() == old(channel)@.round,
            !old(channel)@.sent,
        ensures
            final(channel)@ == old(channel)@.sent(message),
            final(channel)@.wf(),
    {
        channel.message = Some(message);
        channel.ready = true;
        channel.sent = Ghost(true);
    }
}

impl Receiver {
    /// Whether the message has arrived: true exactly when this half's sender
    /// has sent.
    pub fn is_ready<T>(&self, channel: &Channel<T>) -> (b: bool)
        requires
            channel@.wf(),
            self.round() == channel@.round,
            !channel@.received,
        ensures
            b == channel@.ready,
            b == channel@.sent,
    {
        channel.ready
    }

    /// Take the message. Receiving before it is ready panics, so it is
    /// excluded here.
    pub fn receive<T>(self, channel: &mut Channel<T>) -> (m: T)
        requires
            old(channel)@.wf(),
            self.round() == old(channel)@.round,
            old(channel)@.ready,
        ensures
            Some(m) == old(channel)@.message,
            final(channel)@ == old(channel)@.received(),
            final(channel)@.wf(),
    {
        channel.ready = false;
        channel.received = Ghost(true);
        let m = channel.message.take();
        m.unwrap()
    }
}

/// Every operation keeps the channel well formed.
pub proof fn lemma_borrowed_keeps_wf<T>(s: BorrowedState<T>, m: T)
    requires
        s.wf(),
    ensures
        s.split().wf(),
        !s.sent ==> s.sent(m).wf(),
        s.ready ==> s.received().wf(),
{
}

/// One delivery per split: after `split` the receiver is not ready until the
/// round's sender sends; the message it then receives is the one sent; and
/// once sent, the round allows no second send, so after the receive the
/// channel stays empty until the next split.
pub proof fn lemma_single_delivery_per_split<T>(s: BorrowedState<T>, m: T)
    ensures
        !s.split().ready,
        !s.split().sent,
        s.split().sent(m).ready,
        s.split().sent(m).message == Some(m),
        s.split().sent(m).sent,
        s.split().sent(m).received().sent,
        !s.split().sent(m).received().ready,
        s.split().sent(m).received().message is None,
        s.split().round != s.round,
{
}

} // verus!
