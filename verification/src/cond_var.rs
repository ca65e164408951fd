use vstd::prelude::*;
use vstd::arithmetic::div_mod::lemma_add_mod_noop;
use crate::mutex_content::{Mutex, MutexGuard, CONTENDED, UNLOCKED};

verus! {

/// A condition variable: a notification counter that waiters block on, and
/// the number of threads that are waiting. Each step function below is one
/// atomic access; `wait`, `notify_one` and `notify_all` run their steps in a
/// row.
pub struct CondVar {
    counter: u32,
    num_waiters: usize,
    id: Ghost<nat>,
}

/// A thread inside `wait`: the counter value it read before it released the
/// mutex. Good only for the condition variable it was read from.
pub struct Waiter {
    counter_value: u32,
    condvar: Ghost<nat>,
}

impl Waiter {
    /// The counter value this waiter read.
    pub closed spec fn seen(&self) -> u32 {
        self.counter_value
    }

    /// The counter value this waiter read, as a number.
    pub fn value(&self) -> (v: u32)
        ensures
            v == self.seen(),
    {
        self.counter_value
    }

    /// The identity of the condition variable this waiter belongs to.
    pub closed spec fn condvar_id(&self) -> nat {
        self.condvar@
    }
}

/// The counter after a notification, and whether one was sent: only when
/// some thread waits does the counter move on.
pub open spec fn notify_next(counter: u32, waiters: usize) -> (u32, bool) {
    if waiters > 0 {
        (counter.wrapping_add(1), true)
    } else {
        (counter, false)
    }
}

impl CondVar {
    /// The notification counter.
    pub closed spec fn counter(&self) -> u32 {
        self.counter
    }

    /// The number of registered waiters.
    pub closed spec fn waiters(&self) -> usize {
        self.num_waiters
    }

    /// The condition variable's identity; nothing is said of it at
    /// creation, so a waiter of another one cannot be shown to belong here.
    pub closed spec fn id(&self) -> nat {
        self.id@
    }

    pub fn new() -> (c: Self)
        ensures
            c.counter() == 0,
            c.waiters() == 0,
    {
        CondVar { counter: 0, num_waiters: 0, id: Ghost(0) }
    }

    /// The first step of `wait`: add one to the number of waiters (wrapping,
    /// as an atomic add does).
    pub fn register(&mut self)
        ensures
            final(self).waiters() == old(self).waiters().wrapping_add(1),
            final(self).counter() == old(self).counter(),
            final(self).id() == old(self).id(),
    {
        self.num_waiters = self.num_waiters.wrapping_add(1);
    }

    /// The second step of `wait`: load the counter.
    pub fn read_counter(&self) -> (w: Waiter)
        ensures
            w.seen() == self.counter(),
            w.condvar_id() == self.id(),
    {
        Waiter { counter_value: self.counter, condvar: Ghost(self.id@) }
    }

    /// The steps of `wait` up to blocking: register as a waiter, read the
    /// counter, and release the mutex. Returns the waiter and whether the
    /// mutex's release must wake a thread blocked on it.
    pub fn wait<T>(&mut self, mutex: &mut Mutex<T>, guard: MutexGuard) -> (r: (Waiter, bool))
        requires
            old(mutex).wf(),
            old(mutex).is_locked(),
            guard.mutex_id() == old(mutex).id(),
        ensures
            final(self).waiters() == old(self).waiters().wrapping_add(1),
            final(self).counter() == old(self).counter(),
            final(self).id() == old(self).id(),
            r.0.seen() == old(self).counter(),
            r.0.condvar_id() == old(self).id(),
            r.1 == (old(mutex).word() == CONTENDED),
            final(mutex).wf(),
            final(mutex).word() == UNLOCKED,
            final(mutex).content() == old(mutex).content(),
            final(mutex).id() == old(mutex).id(),
    {
        self.register();
        let waiter = self.read_counter();
        let wake = mutex.unlock(guard);
        (waiter, wake)
    }

    /// The blocking step of `wait`: the waiter blocks only while the counter
    /// still holds the value it read (no notification came in between).
    pub fn sleeps(&self, waiter: &Waiter) -> (b: bool)
        requires
            waiter.condvar_id() == self.id(),
        ensures
            b == (self.counter() == waiter.seen()),
    {
        self.counter == waiter.counter_value
    }

    /// The step of `wait` after waking: deregister the waiter. The caller
    /// then locks the mutex again.
    pub fn finish_wait(&mut self, waiter: Waiter)
        requires
            waiter.condvar_id() == old(self).id(),
        ensures
            final(self).waiters() == old(self).waiters().wrapping_sub(1),
            final(self).counter() == old(self).counter(),
            final(self).id() == old(self).id(),
    {
        self.num_waiters = self.num_waiters.wrapping_sub(1);
    }

    /// The first step of a notification: load the number of waiters and
    /// report whether there are any.
    pub fn has_waiters(&self) -> (b: bool)
        ensures
            b == (self.waiters() > 0),
    {
        self.num_waiters > 0
    }

    /// The second step of a notification: add one to the counter (wrapping).
    pub fn bump_counter(&mut self)
        ensures
            final(self).counter() == old(self).counter().wrapping_add(1),
            final(self).waiters() == old(self).waiters(),
            final(self).id() == old(self).id(),
    {
        self.counter = self.counter.wrapping_add(1);
    }

    /// Notify one waiter: when some thread waits, move the counter on and
    /// report that one blocked thread must be woken.
    pub fn notify_one(&mut self) -> (wake: bool)
        ensures
            (final(self).counter(), wake) == notify_next(old(self).counter(), old(self).waiters()),
            final(self).waiters() == old(self).waiters(),
            final(self).id() == old(self).id(),
    {
        if self.has_waiters() {
            self.bump_counter();
            true
        } else {
            false
        }
    }

    /// Notify all waiters: when some thread waits, move the counter on and
    /// report that every blocked thread must be woken.
    pub fn notify_all(&mut self) -> (wake: bool)
        ensures
            (final(self).counter(), wake) == notify_next(old(self).counter(), old(self).waiters()),
            final(self).waiters() == old(self).waiters(),
            final(self).id() == old(self).id(),
    {
        if self.has_waiters() {
            self.bump_counter();
            true
        } else {
            false
        }
    }
}

/// No lost notification: a notification sent while a thread is registered
/// as a waiter changes the counter, so a waiter that read the counter before
/// the notification does not block on it.
pub proof fn lemma_notification_not_lost(counter: u32, waiters: usize, seen: u32)
    requires
        waiters > 0,
        seen == counter,
    ensures
        notify_next(counter, waiters).1,
        notify_next(counter, waiters).0 != seen,
{
}

/// A notification with no registered waiter is free: it changes nothing.
pub proof fn lemma_notify_without_waiters(counter: u32)
    ensures
        notify_next(counter, 0) == (counter, false),
{
}

/// One atomic step of one thread on a condition variable.
pub enum CondEvent {
    /// A thread starting to wait adds itself to the number of waiters.
    Register(nat),
    /// A registered thread reads the counter.
    ReadCounter(nat),
    /// A registered thread is done waiting and deregisters.
    Finish(nat),
    /// A notifier that found waiters moves the counter on.
    Bump,
}

/// A registered waiter: whether it has read the counter, the value it read,
/// and how many notifications have moved the counter since it read it.
pub struct WaiterState {
    pub has_read: bool,
    pub seen: u32,
    pub notes: nat,
}

/// Any number of threads sharing one condition variable: the counter, the
/// waiter count, and each registered waiter.
pub struct CondSystem {
    pub counter: u32,
    pub num_waiters: usize,
    pub waiting: Map<nat, WaiterState>,
}

/// The number of values a `u32` counter takes before it wraps around.
pub open spec fn counter_range() -> int {
    0x1_0000_0000
}

impl CondSystem {
    pub open spec fn init() -> Self {
        CondSystem { counter: 0, num_waiters: 0, waiting: Map::empty() }
    }

    /// The system after `e`; a thread registers only once at a time, reads
    /// the counter once after registering, only a registered thread
    /// deregisters, and there are fewer threads than the largest `usize`.
    pub open spec fn next(self, e: CondEvent) -> Self {
        match e {
            CondEvent::Register(t) => if !self.waiting.contains_key(t) && self.num_waiters < usize::MAX {
                CondSystem {
                    num_waiters: self.num_waiters.wrapping_add(1),
                    waiting: self.waiting.insert(t, WaiterState { has_read: false, seen: 0, notes: 0 }),
                    ..self
                }
            } else {
                self
            },
            CondEvent::ReadCounter(t) => if self.waiting.contains_key(t) && !self.waiting[t].has_read {
                CondSystem {
                    waiting: self.waiting.insert(t, WaiterState { has_read: true, seen: self.counter, notes: 0 }),
                    ..self
                }
            } else {
                self
            },
            CondEvent::Finish(t) => if self.waiting.contains_key(t) {
                CondSystem {
                    num_waiters: self.num_waiters.wrapping_sub(1),
                    waiting: self.waiting.remove(t),
                    ..self
                }
            } else {
                self
            },
            CondEvent::Bump => CondSystem {
                counter: self.counter.wrapping_add(1),
                waiting: Map::new(
                    |k: nat| self.waiting.contains_key(k),
                    |k: nat| WaiterState { notes: self.waiting[k].notes + 1, ..self.waiting[k] },
                ),
                ..self
            },
        }
    }

    pub open spec fn run(self, es: Seq<CondEvent>) -> Self
        decreases es.len(),
    {
        if es.len() == 0 {
            self
        } else {
            self.run(es.drop_last()).next(es.last())
        }
    }

    /// The invariant: the waiter count counts the registered waiters, and
    /// for each of them that has read the counter, the counter is what it
    /// read moved on by the notifications since, modulo the counter's range.
    pub open spec fn inv(self) -> bool {
        &&& self.waiting.dom().finite()
        &&& self.num_waiters == self.waiting.dom().len()
        &&& forall|t: nat| #[trigger] self.waiting.contains_key(t) && self.waiting[t].has_read ==>
            self.counter as int == (self.waiting[t].seen as int + self.waiting[t].notes as int) % counter_range()
    }
}

/// A notifier that finds waiters bumps the counter: `notify_one` and
/// `notify_all` are the `Bump` step whenever some thread is registered, and
/// change nothing otherwise.
pub proof fn lemma_notify_is_bump(s: CondSystem)
    requires
        s.inv(),
        s.waiting.dom().len() > 0,
    ensures
        notify_next(s.counter, s.num_waiters) == (s.next(CondEvent::Bump).counter, true),
{
}

/// Every step keeps the invariant.
pub proof fn lemma_cond_next_keeps_inv(s: CondSystem, e: CondEvent)
    requires
        s.inv(),
    ensures
        s.next(e).inv(),
{
    let n = s.next(e);
    match e {
        CondEvent::Register(t) => {
            if !s.waiting.contains_key(t) && s.num_waiters < usize::MAX {
                assert(n.waiting.dom() =~= s.waiting.dom().insert(t));
                assert forall|u: nat| #[trigger] n.waiting.contains_key(u) && n.waiting[u].has_read implies
                    n.counter as int == (n.waiting[u].seen as int + n.waiting[u].notes as int) % counter_range() by {
                    if u != t {
                        assert(s.waiting.contains_key(u));
                    }
                }
            }
        },
        CondEvent::ReadCounter(t) => {
            if s.waiting.contains_key(t) && !s.waiting[t].has_read {
                assert(n.waiting.dom() =~= s.waiting.dom());
                assert forall|u: nat| #[trigger] n.waiting.contains_key(u) && n.waiting[u].has_read implies
                    n.counter as int == (n.waiting[u].seen as int + n.waiting[u].notes as int) % counter_range() by {
                    if u != t {
                        assert(s.waiting.contains_key(u));
                    } else {
                        assert((s.counter as int) % counter_range() == s.counter as int);
                    }
                }
            }
        },
        CondEvent::Finish(t) => {
            if s.waiting.contains_key(t) {
                assert(n.waiting.dom() =~= s.waiting.dom().remove(t));
                assert forall|u: nat| #[trigger] n.waiting.contains_key(u) && n.waiting[u].has_read implies
                    n.counter as int == (n.waiting[u].seen as int + n.waiting[u].notes as int) % counter_range() by {
                    assert(s.waiting.contains_key(u));
                }
            }
        },
        CondEvent::Bump => {
            assert(n.waiting.dom() =~= s.waiting.dom());
            assert forall|u: nat| #[trigger] n.waiting.contains_key(u) && n.waiting[u].has_read implies
                n.counter as int == (n.waiting[u].seen as int + n.waiting[u].notes as int) % counter_range() by {
                assert(s.waiting.contains_key(u));
                let a = s.waiting[u].seen as int + s.waiting[u].notes as int;
                lemma_add_mod_noop(a, 1, counter_range());
                assert(1int % counter_range() == 1);
                assert(s.counter as int == a % counter_range());
                assert(n.waiting[u].seen as int + n.waiting[u].notes as int == a + 1);
            }
        },
    }
}

/// Every sequence of steps keeps the invariant.
pub proof fn lemma_cond_run_keeps_inv(s: CondSystem, es: Seq<CondEvent>)
    requires
        s.inv(),
    ensures
        s.run(es).inv(),
    decreases es.len(),
{
    if es.len() > 0 {
        lemma_cond_run_keeps_inv(s, es.drop_last());
        lemma_cond_next_keeps_inv(s.run(es.drop_last()), es.last());
    }
}

/// No lost notification: in every interleaving of steps from a new
/// condition variable, a waiter that has read the counter and for which at
/// least one notification (and fewer than the counter's range) has come
/// since finds the counter changed, so it does not block; one with no
/// notification since finds it unchanged, so it blocks.
pub proof fn lemma_waiter_sees_notification(es: Seq<CondEvent>, t: nat)
    ensures
        ({
            let r = CondSystem::init().run(es);
            r.waiting.contains_key(t) && r.waiting[t].has_read ==> (
                (0 < r.waiting[t].notes < counter_range() ==> r.counter != r.waiting[t].seen)
                && (r.waiting[t].notes == 0 ==> r.counter == r.waiting[t].seen)
            )
        }),
{
    let s = CondSystem::init();
    assert(s.waiting.dom() =~= Set::<nat>::empty());
    lemma_cond_run_keeps_inv(s, es);
    let r = s.run(es);
    if r.waiting.contains_key(t) && r.waiting[t].has_read {
        let a = r.waiting[t].seen as int + r.waiting[t].notes as int;
        assert(r.counter as int == a % counter_range());
        if 0 < r.waiting[t].notes < counter_range() {
            if r.counter == r.waiting[t].seen {
                assert(a % counter_range() == r.waiting[t].seen as int);
                assert(a >= counter_range());
                assert(a < 2 * counter_range());
                assert(a % counter_range() == a - counter_range()) by (nonlinear_arith)
                    requires
                        counter_range() <= a < 2 * counter_range(),
                        counter_range() == 0x1_0000_0000,
                ;
            }
        }
    }
}

} // verus!
