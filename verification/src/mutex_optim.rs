use vstd::prelude::*;

verus! {

/// The word value of an unlocked mutex.
pub const UNLOCKED: u32 = 0;

/// The word value of a mutex that is held and that no other thread waits for.
pub const LOCKED: u32 = 1;

/// The word value of a mutex that is held and that other threads may wait for.
pub const CONTENDED: u32 = 2;

/// A mutual-exclusion lock whose word is `UNLOCKED`, `LOCKED` or `CONTENDED`,
/// without a spinning phase: a thread that finds it held marks it
/// `CONTENDED` and blocks. Every method is one access of the word.
pub struct Mutex<T> {
    state: u32,
    value: T,
    id: Ghost<nat>,
}

/// Evidence that the lock is held; handed out only by a successful
/// acquisition, and good only for the mutex that handed it out.
pub struct MutexGuard {
    mutex: Ghost<nat>,
}

impl MutexGuard {
    /// The identity of the mutex this guard belongs to.
    pub closed spec fn mutex_id(&self) -> nat {
        self.mutex@
    }
}

/// Where a thread stands in the blocking part of `lock`.
#[derive(PartialEq, Eq, Structural, Clone, Copy, Debug)]
pub enum Blocked {
    /// About to swap `CONTENDED` into the word.
    Swap,
    /// About to block on the word while it reads `CONTENDED`.
    Wait,
}

/// What one step of `lock` did.
pub enum LockStep {
    /// The lock is now held by the calling thread.
    Acquired(MutexGuard),
    /// Not yet acquired; continue at the given point.
    Continue(Blocked),
    /// The thread blocks until woken; it then continues at the given point.
    Sleep(Blocked),
}

/// The kind of a `LockStep`, as a plain value.
#[derive(PartialEq, Eq, Structural, Clone, Copy, Debug)]
pub enum StepKind {
    Acquired,
    Continue(Blocked),
    Sleep,
}

impl LockStep {
    pub open spec fn kind(self) -> StepKind {
        match self {
            LockStep::Acquired(_) => StepKind::Acquired,
            LockStep::Continue(b) => StepKind::Continue(b),
            LockStep::Sleep(_) => StepKind::Sleep,
        }
    }
}

/// The word after one step of `lock` (`None`: the first attempt, which tries
/// to move the word from `UNLOCKED` to `LOCKED`), and what the step did.
pub open spec fn lock_next(state: u32, phase: Option<Blocked>) -> (u32, StepKind) {
    match phase {
        None => if state == UNLOCKED {
            (LOCKED, StepKind::Acquired)
        } else {
            (state, StepKind::Continue(Blocked::Swap))
        },
        Some(Blocked::Swap) => if state == UNLOCKED {
            (CONTENDED, StepKind::Acquired)
        } else {
            (CONTENDED, StepKind::Continue(Blocked::Wait))
        },
        Some(Blocked::Wait) => if state == CONTENDED {
            (state, StepKind::Sleep)
        } else {
            (state, StepKind::Continue(Blocked::Swap))
        },
    }
}

/// The word after an unlock, and whether a waiting thread must be woken.
pub open spec fn unlock_next(state: u32) -> (u32, bool) {
    (UNLOCKED, state == CONTENDED)
}

impl<T> Mutex<T> {
    /// The lock word.
    pub closed spec fn word(&self) -> u32 {
        self.state
    }

    /// The protected value.
    pub closed spec fn content(&self) -> T {
        self.value
    }

    /// The mutex's identity; nothing is said of it at creation, so a guard
    /// of another mutex cannot be shown to belong to this one.
    pub closed spec fn id(&self) -> nat {
        self.id@
    }

    /// The word holds one of its three meaningful values.
    pub open spec fn wf(&self) -> bool {
        self.word() <= CONTENDED
    }

    /// The lock is held by some thread.
    pub open spec fn is_locked(&self) -> bool {
        self.word() != UNLOCKED
    }

    pub fn new(value: T) -> (m: Self)
        ensures
            m.wf(),
            m.word() == UNLOCKED,
            m.content() == value,
    {
        Mutex { state: UNLOCKED, value, id: Ghost(0) }
    }

    /// Load the lock word.
    pub fn load(&self) -> (w: u32)
        ensures
            w == self.word(),
    {
        self.state
    }

    /// One step of `lock`: `None` for the first attempt, then the phase the
    /// previous step returned.
    pub fn lock(&mut self, phase: Option<Blocked>) -> (r: LockStep)
        requires
            old(self).wf(),
        ensures
            final(self).wf(),
            final(self).content() == old(self).content(),
            (final(self).word(), r.kind()) == lock_next(old(self).word(), phase),
            final(self).id() == old(self).id(),
            r matches LockStep::Acquired(g) ==> g.mutex_id() == old(self).id(),
            r matches LockStep::Sleep(b) ==> b == Blocked::Swap,
    {
        match phase {
            None => {
                if self.state == UNLOCKED {
                    self.state = LOCKED;
                    LockStep::Acquired(MutexGuard { mutex: Ghost(self.id@) })
                } else {
                    LockStep::Continue(Blocked::Swap)
                }
            },
            Some(Blocked::Swap) => {
                let prev = self.state;
                self.state = CONTENDED;
                if prev == UNLOCKED {
                    LockStep::Acquired(MutexGuard { mutex: Ghost(self.id@) })
                } else {
                    LockStep::Continue(Blocked::Wait)
                }
            },
            Some(Blocked::Wait) => {
                if self.state == CONTENDED {
                    LockStep::Sleep(Blocked::Swap)
                } else {
                    LockStep::Continue(Blocked::Swap)
                }
            },
        }
    }

    /// Release the lock: swap `UNLOCKED` in, and report whether a waiting
    /// thread must be woken (the word read `CONTENDED`).
    pub fn unlock(&mut self, guard: MutexGuard) -> (wake: bool)
        requires
            old(self).wf(),
            old(self).is_locked(),
            guard.mutex_id() == old(self).id(),
        ensures
            final(self).id() == old(self).id(),
            final(self).wf(),
            (final(self).word(), wake) == unlock_next(old(self).word()),
            final(self).content() == old(self).content(),
    {
        let prev = self.state;
        self.state = UNLOCKED;
        prev == CONTENDED
    }

    pub fn get(&self, guard: &MutexGuard) -> (v: &T)
        requires
            self.is_locked(),
            guard.mutex_id() == self.id(),
        ensures
            *v == self.content(),
    {
        &self.value
    }

    pub fn set(&mut self, guard: &MutexGuard, value: T)
        requires
            old(self).is_locked(),
            guard.mutex_id() == old(self).id(),
        ensures
            final(self).id() == old(self).id(),
            final(self).word() == old(self).word(),
            final(self).content() == value,
    {
        self.value = value;
    }
}

/// A thread acquires the lock only when the word read `UNLOCKED`, and the
/// word is nonzero afterwards.
pub proof fn lemma_acquire_only_when_unlocked(state: u32, phase: Option<Blocked>)
    requires
        lock_next(state, phase).1 == StepKind::Acquired,
    ensures
        state == UNLOCKED,
        lock_next(state, phase).0 != UNLOCKED,
{
}

/// No lost wake-up: a thread sleeps only when the word reads `CONTENDED`,
/// and no step of `lock` changes a `CONTENDED` word, so the holder's
/// `unlock` reports a wake-up.
pub proof fn lemma_sleepers_are_woken(state: u32, phase: Option<Blocked>, other: Option<Blocked>)
    requires
        lock_next(state, phase).1 == StepKind::Sleep,
    ensures
        state == CONTENDED,
        lock_next(state, other).0 == CONTENDED,
{
}

/// The first attempt takes the lock exactly when it finds it free, and then
/// leaves it held with nobody waiting. Unlocking any held word frees it and
/// reports a wake-up exactly when other threads may be blocked on it (the
/// word read `CONTENDED`).
pub proof fn lemma_first_attempt_and_unlock(state: u32)
    ensures
        lock_next(state, None).1 == StepKind::Acquired <==> state == UNLOCKED,
        state == UNLOCKED ==> lock_next(state, None).0 == LOCKED,
        state != UNLOCKED ==> lock_next(state, None).0 == state,
        state != UNLOCKED ==> unlock_next(state).0 == UNLOCKED,
        state != UNLOCKED ==> (unlock_next(state).1 <==> state == CONTENDED),
{
}

/// Whether a thread at `phase` of `lock` (`None`: the first attempt) takes
/// the lock within `fuel` of its own steps on a word that holds `state` and
/// that no other thread changes: no step before blocks or changes the word,
/// and the acquiring step leaves the word held.
pub open spec fn lock_gets_in(state: u32, phase: Option<Blocked>, fuel: nat) -> bool
    decreases fuel,
{
    if fuel == 0 {
        false
    } else {
        let (w, k) = lock_next(state, phase);
        match k {
            StepKind::Acquired => w != UNLOCKED,
            StepKind::Continue(q) => w == state && lock_gets_in(state, Some(q), (fuel - 1) as nat),
            StepKind::Sleep => false,
        }
    }
}

/// Whether a thread at `phase` of `lock` blocks within `fuel` of its own
/// steps on a word that holds `state` and that no other thread changes,
/// without acquiring and without changing the word.
pub open spec fn lock_blocks(state: u32, phase: Option<Blocked>, fuel: nat) -> bool
    decreases fuel,
{
    if fuel == 0 {
        false
    } else {
        let (w, k) = lock_next(state, phase);
        match k {
            StepKind::Acquired => false,
            StepKind::Continue(q) => w == state && lock_blocks(state, Some(q), (fuel - 1) as nat),
            StepKind::Sleep => w == state,
        }
    }
}

/// Progress: on a word that reads `UNLOCKED` and that no other thread
/// changes, a thread takes the lock without blocking within one step from
/// the first attempt or the swap, and within two from the check before
/// blocking.
pub proof fn lemma_lock_progress(phase: Option<Blocked>)
    ensures
        lock_gets_in(UNLOCKED, None, 1),
        lock_gets_in(UNLOCKED, Some(Blocked::Swap), 1),
        lock_gets_in(UNLOCKED, Some(Blocked::Wait), 2),
        lock_gets_in(UNLOCKED, phase, 2),
{
    reveal_with_fuel(lock_gets_in, 3);
    assert(lock_gets_in(UNLOCKED, None, 1));
    assert(lock_gets_in(UNLOCKED, Some(Blocked::Swap), 1));
    assert(lock_gets_in(UNLOCKED, Some(Blocked::Wait), 2));
}

/// `lock` blocks on a contended lock: on a word that reads `CONTENDED` and
/// that no other thread changes, a thread blocks within one step from the
/// check before blocking, two from the swap, and three from the first
/// attempt, never acquiring.
pub proof fn lemma_lock_blocks_when_contended(phase: Option<Blocked>)
    ensures
        lock_blocks(CONTENDED, Some(Blocked::Wait), 1),
        lock_blocks(CONTENDED, Some(Blocked::Swap), 2),
        lock_blocks(CONTENDED, None, 3),
        lock_blocks(CONTENDED, phase, 3),
{
    reveal_with_fuel(lock_blocks, 4);
    assert(lock_blocks(CONTENDED, Some(Blocked::Wait), 1));
    assert(lock_blocks(CONTENDED, Some(Blocked::Swap), 2));
    assert(lock_blocks(CONTENDED, None, 3));
    assert(lock_blocks(CONTENDED, Some(Blocked::Wait), 3));
    assert(lock_blocks(CONTENDED, Some(Blocked::Swap), 3));
}

/// Where one thread stands with respect to the lock.
#[derive(PartialEq, Eq, Structural)]
pub enum ThreadState {
    /// Not holding the lock and not trying to.
    Idle,
    /// Found the lock held; about to take the given step.
    Slow(Blocked),
    /// Blocked on the word.
    Asleep,
    /// Holding the lock.
    Holding,
}

/// One atomic step of one thread.
pub enum Event {
    /// An idle thread makes its first attempt.
    Lock(nat),
    /// A thread that found the lock held takes its next step.
    Step(nat),
    /// A blocked thread wakes up (after a wake-up call, or spuriously).
    Wake(nat),
    /// The holding thread unlocks.
    Unlock(nat),
}

impl Event {
    /// The thread that takes the step.
    pub open spec fn thread(self) -> nat {
        match self {
            Event::Lock(t) => t,
            Event::Step(t) => t,
            Event::Wake(t) => t,
            Event::Unlock(t) => t,
        }
    }
}

/// Any number of threads sharing one mutex: the lock word, the state of each
/// thread (absent means idle), which thread holds the lock, and how many
/// wake-up calls are outstanding.
pub struct MutexSystem {
    pub word: u32,
    pub threads: Map<nat, ThreadState>,
    pub holder: Option<nat>,
    /// Wake-up calls issued by `unlock` and not yet consumed by a thread waking.
    pub pending_wakes: nat,
}

impl MutexSystem {
    /// A fresh mutex with every thread idle.
    pub open spec fn init() -> Self {
        MutexSystem { word: UNLOCKED, threads: Map::empty(), holder: None, pending_wakes: 0 }
    }

    pub open spec fn state_of(self, t: nat) -> ThreadState {
        if self.threads.contains_key(t) {
            self.threads[t]
        } else {
            ThreadState::Idle
        }
    }

    pub open spec fn holds(self, t: nat) -> bool {
        self.state_of(t) is Holding
    }

    pub open spec fn asleep(self, t: nat) -> bool {
        self.state_of(t) is Asleep
    }

    /// An awake thread about to swap `CONTENDED` into the word (or to check
    /// it before blocking, which leads back to the swap unless the word is
    /// already `CONTENDED`).
    pub open spec fn contender(self, t: nat) -> bool {
        self.state_of(t) == ThreadState::Slow(Blocked::Swap) || self.state_of(t) == ThreadState::Slow(Blocked::Wait)
    }

    /// No sleeper is stranded: while some thread is blocked, the word reads
    /// `CONTENDED` (so the next unlock issues a wake-up), or a wake-up call
    /// is outstanding, or an awake contender is about to mark the word
    /// `CONTENDED`.
    pub open spec fn no_stranded_sleeper(self) -> bool {
        (exists|t: nat| #[trigger] self.asleep(t)) ==> (
            self.word == CONTENDED
            || self.pending_wakes > 0
            || exists|u: nat| #[trigger] self.contender(u)
        )
    }

    /// The system after event `e`; an event that the thread is not in a
    /// position to take changes nothing.
    pub open spec fn next(self, e: Event) -> Self {
        match e {
            Event::Lock(t) => if self.state_of(t) is Idle {
                let (w, k) = lock_next(self.word, None);
                if k == StepKind::Acquired {
                    MutexSystem { word: w, threads: self.threads.insert(t, ThreadState::Holding), holder: Some(t), ..self }
                } else {
                    MutexSystem { word: w, threads: self.threads.insert(t, ThreadState::Slow(Blocked::Swap)), ..self }
                }
            } else {
                self
            },
            Event::Step(t) => match self.state_of(t) {
                ThreadState::Slow(p) => {
                    let (w, k) = lock_next(self.word, Some(p));
                    match k {
                        StepKind::Acquired => MutexSystem {
                            word: w,
                            threads: self.threads.insert(t, ThreadState::Holding),
                            holder: Some(t),
                            ..self
                        },
                        StepKind::Continue(q) => MutexSystem {
                            word: w,
                            threads: self.threads.insert(t, ThreadState::Slow(q)),
                            ..self
                        },
                        StepKind::Sleep => MutexSystem {
                            word: w,
                            threads: self.threads.insert(t, ThreadState::Asleep),
                            ..self
                        },
                    }
                },
                _ => self,
            },
            Event::Wake(t) => if self.state_of(t) is Asleep {
                MutexSystem {
                    threads: self.threads.insert(t, ThreadState::Slow(Blocked::Swap)),
                    pending_wakes: if self.pending_wakes > 0 { (self.pending_wakes - 1) as nat } else { 0 },
                    ..self
                }
            } else {
                self
            },
            Event::Unlock(t) => if self.state_of(t) is Holding {
                MutexSystem {
                    word: unlock_next(self.word).0,
                    threads: self.threads.insert(t, ThreadState::Idle),
                    holder: None,
                    pending_wakes: if unlock_next(self.word).1 { self.pending_wakes + 1 } else { self.pending_wakes },
                }
            } else {
                self
            },
        }
    }

    /// The system after the events `es`, in order.
    pub open spec fn run(self, es: Seq<Event>) -> Self
        decreases es.len(),
    {
        if es.len() == 0 {
            self
        } else {
            self.run(es.drop_last()).next(es.last())
        }
    }

    /// The invariant: the word is valid, the recorded holder is the one
    /// thread in `Holding`, and the word is `UNLOCKED` exactly when no
    /// thread holds the lock.
    pub open spec fn inv(self) -> bool {
        &&& self.word <= CONTENDED
        &&& forall|t: nat| #[trigger] self.holds(t) <==> self.holder == Some(t)
        &&& (self.word == UNLOCKED <==> self.holder is None)
    }
}

/// Every step of every thread keeps the invariant.
pub proof fn lemma_next_keeps_inv(s: MutexSystem, e: Event)
    requires
        s.inv(),
    ensures
        s.next(e).inv(),
{
    let n = s.next(e);
    let t = e.thread();
    assert forall|u: nat| #[trigger] n.holds(u) <==> n.holder == Some(u) by {
        assert(s.holds(u) <==> s.holder == Some(u));
        assert(s.holds(t) <==> s.holder == Some(t));
        if u != t {
            assert(n.state_of(u) == s.state_of(u));
        }
    }
}

/// Every interleaving of steps keeps the invariant.
pub proof fn lemma_run_keeps_inv(s: MutexSystem, es: Seq<Event>)
    requires
        s.inv(),
    ensures
        s.run(es).inv(),
    decreases es.len(),
{
    if es.len() > 0 {
        lemma_run_keeps_inv(s, es.drop_last());
        lemma_next_keeps_inv(s.run(es.drop_last()), es.last());
    }
}

/// Mutual exclusion: in every interleaving of any threads' steps, starting
/// from a new mutex, no two threads hold the lock at once, and the word
/// reads `UNLOCKED` exactly when no thread holds it.
pub proof fn lemma_mutual_exclusion(es: Seq<Event>, t1: nat, t2: nat)
    ensures
        MutexSystem::init().run(es).holds(t1) && MutexSystem::init().run(es).holds(t2) ==> t1 == t2,
        MutexSystem::init().run(es).word == UNLOCKED <==> forall|t: nat| !#[trigger] MutexSystem::init().run(es).holds(t),
{
    let s = MutexSystem::init();
    assert(s.inv()) by {
        assert forall|t: nat| #[trigger] s.holds(t) <==> s.holder == Some(t) by {}
    }
    lemma_run_keeps_inv(s, es);
    let r = s.run(es);
    if r.word != UNLOCKED {
        assert(r.holds(r.holder.unwrap()));
    }
}

/// Every step of every thread keeps sleepers from being stranded.
pub proof fn lemma_next_keeps_no_stranded_sleeper(s: MutexSystem, e: Event)
    requires
        s.inv(),
        s.no_stranded_sleeper(),
    ensures
        s.next(e).no_stranded_sleeper(),
{
    let n = s.next(e);
    if exists|t: nat| #[trigger] n.asleep(t) {
        let t1 = choose|t: nat| #[trigger] n.asleep(t);
        let et = e.thread();
        if t1 == et && !s.asleep(t1) {
            // Only a step of a blocked thread puts it to sleep, and only on a
            // CONTENDED word, which the step leaves as it is.
            assert(n.word == CONTENDED);
        } else {
            assert(s.asleep(t1));
            if s.word == CONTENDED {
                match e {
                    Event::Unlock(t) => {},
                    _ => { assert(n.word == CONTENDED); },
                }
            } else if s.pending_wakes > 0 {
                match e {
                    Event::Wake(t) => {
                        if s.asleep(t) {
                            assert(n.contender(t));
                        }
                    },
                    Event::Unlock(t) => {},
                    _ => {},
                }
            } else {
                let u = choose|u: nat| #[trigger] s.contender(u);
                if u == et {
                    match e {
                        Event::Step(t) => {
                            if s.state_of(t) == ThreadState::Slow(Blocked::Wait) && s.word != CONTENDED {
                                assert(n.contender(u));
                            }
                        },
                        _ => {},
                    }
                } else {
                    assert(n.state_of(u) == s.state_of(u));
                    assert(n.contender(u));
                }
            }
        }
    }
}

/// Every interleaving keeps the invariant and keeps sleepers from being
/// stranded.
pub proof fn lemma_run_keeps_no_stranded_sleeper(s: MutexSystem, es: Seq<Event>)
    requires
        s.inv(),
        s.no_stranded_sleeper(),
    ensures
        s.run(es).inv(),
        s.run(es).no_stranded_sleeper(),
    decreases es.len(),
{
    if es.len() > 0 {
        lemma_run_keeps_no_stranded_sleeper(s, es.drop_last());
        lemma_next_keeps_inv(s.run(es.drop_last()), es.last());
        lemma_next_keeps_no_stranded_sleeper(s.run(es.drop_last()), es.last());
    }
}

/// No lost wake-up: in every interleaving of any threads' steps, starting
/// from a new mutex, whenever a thread is blocked the word reads
/// `CONTENDED`, or a wake-up call is outstanding, or an awake thread is
/// about to mark the word `CONTENDED`; once the word reads `CONTENDED` only
/// an unlock changes it, and that unlock issues a wake-up.
pub proof fn lemma_no_lost_wakeup(es: Seq<Event>)
    ensures
        MutexSystem::init().run(es).no_stranded_sleeper(),
{
    let s = MutexSystem::init();
    assert(s.inv()) by {
        assert forall|t: nat| #[trigger] s.holds(t) <==> s.holder == Some(t) by {}
    }
    assert(s.no_stranded_sleeper()) by {
        assert forall|t: nat| !#[trigger] s.asleep(t) by {}
    }
    lemma_run_keeps_no_stranded_sleeper(s, es);
}

/// Unlocking undoes an uncontended lock: from `UNLOCKED`, the first
/// attempt followed by `unlock` leaves the word `UNLOCKED` and wakes nobody.
pub proof fn lemma_lock_unlock_roundtrip()
    ensures
        lock_next(UNLOCKED, None) == (LOCKED, StepKind::Acquired),
        unlock_next(lock_next(UNLOCKED, None).0) == (UNLOCKED, false),
{
}

} // verus!
