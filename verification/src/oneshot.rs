use vstd::prelude::*;

verus! {

/// A one-shot channel: a slot for one message, a flag that the slot has been
/// claimed by a sender, and a flag that a message is ready to be received.
pub struct Channel<T> {
    message: Option<T>,
    in_use: bool,
    ready: bool,
}

/// The state of a one-shot channel as plain values.
pub struct OneshotState<T> {
    pub message: Option<T>,
    pub in_use: bool,
    pub ready: bool,
}

impl<T> OneshotState<T> {
    /// The channel right after it is created: empty, unclaimed, not ready.
    pub open spec fn empty() -> Self {
        OneshotState { message: None, in_use: false, ready: false }
    }

    /// The message slot is filled exactly while a message is ready, and a
    /// ready message was put there by a sender that claimed the channel.
    pub open spec fn wf(self) -> bool {
        &&& self.message is Some <==> self.ready
        &&& self.ready ==> self.in_use
    }

    /// The channel after a sender delivers `m`.
    pub open spec fn sent(self, m: T) -> Self {
        OneshotState { message: Some(m), in_use: true, ready: true }
    }

    /// The message that dropping the channel drops: the ready one, if any.
    pub open spec fn left_for_drop(self) -> Option<T> {
        if self.ready {
            self.message
        } else {
            None
        }
    }

    /// The channel after its ready message is taken.
    pub open spec fn received(self) -> Self {
        OneshotState { message: None, in_use: self.in_use, ready: false }
    }
}

impl<T> View for Channel<T> {
    type V = OneshotState<T>;

    closed spec fn view(&self) -> OneshotState<T> {
        OneshotState { message: self.message, in_use: self.in_use, ready: self.ready }
    }
}

impl<T> Channel<T> {
    /// A new channel is empty, unclaimed and not ready.
    pub fn new() -> (c: Self)
        ensures
            c@ == OneshotState::<T>::empty(),
    {
        Channel { message: None, in_use: false, ready: false }
    }

    /// Deliver `message`. Only one send is allowed per channel: a second one
    /// panics, so it is excluded here.
    pub fn send(&mut self, message: T)
        requires
            !old(self)@.in_use,
        ensures
            final(self)@ == old(self)@.sent(message),
    {
        self.in_use = true;
        self.message = Some(message);
        self.ready = true;
    }

    /// Whether a message is ready to be received.
    pub fn is_ready(&self) -> (b: bool)
        ensures
            b == self@.ready,
    {
        self.ready
    }

    /// Whether a sender has claimed the channel (a further `send` would
    /// panic).
    pub fn is_in_use(&self) -> (b: bool)
        ensures
            b == self@.in_use,
    {
        self.in_use
    }

    /// Take the ready message. Receiving when no message is ready panics, so
    /// it is excluded here.
    pub fn receive(&mut self) -> (m: T)
        requires
            old(self)@.wf(),
            old(self)@.ready,
        ensures
            m == old(self)@.message.unwrap(),
            final(self)@ == old(self)@.received(),
    {
        self.ready = false;
        let m = self.message.take();
        m.unwrap()
    }
}

/// Every operation keeps the channel well formed.
pub proof fn lemma_operations_keep_wf<T>(s: OneshotState<T>, m: T)
    requires
        s.wf(),
    ensures
        OneshotState::<T>::empty().wf(),
        s.sent(m).wf(),
        s.received().wf(),
{
}

/// What is sent is what is received: after a send on a fresh channel the
/// message is ready, and receiving it hands back exactly that message.
pub proof fn lemma_send_then_receive<T>(m: T)
    ensures
        OneshotState::<T>::empty().sent(m).ready,
        OneshotState::<T>::empty().sent(m).message == Some(m),
{
}

/// A message is delivered at most once: after it has been received the
/// channel is not ready again, and it stays claimed, so no second send is
/// allowed.
pub proof fn lemma_at_most_one_delivery<T>(s: OneshotState<T>, m: T)
    requires
        !s.in_use,
    ensures
        !s.sent(m).received().ready,
        s.sent(m).received().in_use,
{
}

/// One call on a one-shot channel.
pub enum OneshotEvent<T> {
    /// A sender calls `send` with the message.
    Send(T),
    /// A receiver calls `receive`.
    Receive,
}

/// Whether call `e` panics on a channel in state `s`: a send on a channel
/// already claimed ("Already in use"), or a receive with no message ready.
pub open spec fn call_panics<T>(s: OneshotState<T>, e: OneshotEvent<T>) -> bool {
    match e {
        OneshotEvent::Send(_) => s.in_use,
        OneshotEvent::Receive => !s.ready,
    }
}

/// The channel after the calls `es` on a new channel, and the messages that
/// the receives returned, in order. A call that panics (a send on a channel
/// already in use, a receive with no message ready) changes nothing and
/// returns nothing.
pub open spec fn run_calls<T>(es: Seq<OneshotEvent<T>>) -> (OneshotState<T>, Seq<T>)
    decreases es.len(),
{
    if es.len() == 0 {
        (OneshotState::empty(), Seq::empty())
    } else {
        let (s, out) = run_calls(es.drop_last());
        if call_panics(s, es.last()) {
            (s, out)
        } else {
            match es.last() {
                OneshotEvent::Send(m) => (s.sent(m), out),
                OneshotEvent::Receive => (s.received(), out.push(s.message.unwrap())),
            }
        }
    }
}

/// The message of the first send among `es`, if any.
pub open spec fn first_sent<T>(es: Seq<OneshotEvent<T>>) -> Option<T>
    decreases es.len(),
{
    if es.len() == 0 {
        None
    } else {
        match first_sent(es.drop_last()) {
            Some(m) => Some(m),
            None => match es.last() {
                OneshotEvent::Send(m) => Some(m),
                OneshotEvent::Receive => None,
            },
        }
    }
}

/// Whatever calls are made on a new channel: only the first send takes
/// effect (every later send panics without storing its message, and a
/// pending message stays); a receive panics exactly when no message is
/// pending; at most one receive returns a message, and that message is the
/// first one sent, so it is moved out exactly once and never read twice.
pub proof fn lemma_oneshot_calls<T>(es: Seq<OneshotEvent<T>>)
    ensures
        run_calls(es).0.wf(),
        run_calls(es).0.in_use <==> first_sent(es) is Some,
        run_calls(es).0.ready ==> run_calls(es).0.message == first_sent(es) && run_calls(es).1.len() == 0,
        run_calls(es).1.len() <= 1,
        run_calls(es).1.len() == 1 ==> Some(run_calls(es).1[0]) == first_sent(es) && !run_calls(es).0.ready,
        run_calls(es).0.in_use && run_calls(es).1.len() == 0 ==> run_calls(es).0.ready,
    decreases es.len(),
{
    if es.len() > 0 {
        lemma_oneshot_calls(es.drop_last());
    }
}

/// A send panics exactly when some earlier call sent: a first send never
/// panics, stores its message and leaves the channel ready; a later send
/// stores nothing, so a message still pending stays and is what a receive
/// returns.
pub proof fn lemma_send_once<T>(es: Seq<OneshotEvent<T>>, m: T)
    ensures
        call_panics(run_calls(es).0, OneshotEvent::Send(m)) <==> first_sent(es) is Some,
        first_sent(es) is None ==> run_calls(es.push(OneshotEvent::Send(m))).0.ready
            && run_calls(es.push(OneshotEvent::Send(m))).0.message == Some(m),
        first_sent(es) is Some ==> run_calls(es.push(OneshotEvent::Send(m))) == run_calls(es),
        run_calls(es).0.ready ==> run_calls(es).0.message == first_sent(es),
{
    lemma_oneshot_calls(es);
    assert(es.push(OneshotEvent::Send(m)).drop_last() =~= es);
}

/// A receive panics exactly when no message is pending (none was sent, or it
/// was already received); otherwise it returns the message sent and leaves
/// the channel not ready, so a second receive panics: the message is moved
/// out exactly once.
pub proof fn lemma_receive_once<T>(es: Seq<OneshotEvent<T>>)
    ensures
        call_panics(run_calls(es).0, OneshotEvent::Receive) <==> !(first_sent(es) is Some && run_calls(
            es,
        ).1.len() == 0),
        !call_panics(run_calls(es).0, OneshotEvent::Receive) ==> {
            let after = run_calls(es.push(OneshotEvent::Receive));
            &&& after.1 == seq![first_sent(es).unwrap()]
            &&& !after.0.ready
            &&& call_panics(after.0, OneshotEvent::Receive)
        },
{
    lemma_oneshot_calls(es);
    assert(es.push(OneshotEvent::Receive).drop_last() =~= es);
    if !call_panics(run_calls(es).0, OneshotEvent::Receive) {
        assert(run_calls(es.push(OneshotEvent::Receive)).1 =~= seq![first_sent(es).unwrap()]);
    }
}

/// The messages of `o` as a sequence: empty or one message.
pub open spec fn option_seq<T>(o: Option<T>) -> Seq<T> {
    match o {
        Some(m) => seq![m],
        None => Seq::empty(),
    }
}

/// Whatever calls are made on a new channel, every message that a send
/// stored is dropped exactly once, by the receive's caller or by the
/// channel: the messages received, followed by the one that dropping the
/// channel drops, are exactly the first message sent, if any. None leaks
/// and none is freed twice.
pub proof fn lemma_each_message_dropped_once<T>(es: Seq<OneshotEvent<T>>)
    ensures
        run_calls(es).1 + option_seq(run_calls(es).0.left_for_drop()) == option_seq(first_sent(es)),
{
    lemma_oneshot_calls(es);
    let (s, out) = run_calls(es);
    if out.len() == 1 {
        assert(out + option_seq(s.left_for_drop()) =~= option_seq(first_sent(es)));
    } else if s.ready {
        assert(out + option_seq(s.left_for_drop()) =~= option_seq(first_sent(es)));
    } else {
        assert(out + option_seq(s.left_for_drop()) =~= option_seq(first_sent(es)));
    }
}

} // verus!
