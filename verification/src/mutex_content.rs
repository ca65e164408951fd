use vstd::prelude::*;

verus! {

/// The word value of an unlocked mutex.
pub const UNLOCKED: u32 = 0;

/// The word value of a mutex that is held and that no other thread waits for.
pub const LOCKED: u32 = 1;

/// The word value of a mutex that is held and that other threads may wait for.
pub const CONTENDED: u32 = 2;

/// How many times a contending thread re-reads the word before it stops spinning.
pub const SPIN_LIMIT: u32 = 100;

/// A mutual-exclusion lock whose state is a single word: `UNLOCKED`, `LOCKED`
/// or `CONTENDED`. Every method performs exactly one access of that word, so
/// a sequence of calls made on behalf of several threads is one interleaving
/// of their atomic steps.
pub struct Mutex<T> {
    state: u32,
    value: T,
    id: Ghost<nat>,
}

/// Evidence that the lock is held; handed out only by a successful
/// acquisition, and good only for the mutex that handed it out.
pub struct MutexGuard {
    mutex: Ghost<nat>,
}

impl MutexGuard {
    /// The identity of the mutex this guard belongs to.
    pub closed spec fn mutex_id(&self) -> nat {
        self.mutex@
    }
}

/// Where a thread stands in the slow acquisition path.
#[derive(PartialEq, Eq, Structural, Clone, Copy, Debug)]
pub enum Contended {
    /// Spinning while the word reads `LOCKED`; the number of reads done so far.
    Spin(u32),
    /// About to try to move the word from `UNLOCKED` to `LOCKED`.
    TryLock,
    /// About to swap `CONTENDED` into the word.
    Swap,
    /// About to block on the word while it reads `CONTENDED`.
    Wait,
}

/// What one step of the slow path did.
pub enum LockStep {
    /// The lock is now held by the calling thread.
    Acquired(MutexGuard),
    /// Not yet acquired; continue at the given point.
    Continue(Contended),
    /// The thread blocks until woken; it then continues at the given point.
    Sleep(Contended),
}

/// The kind of a `LockStep`, as a plain value.
#[derive(PartialEq, Eq, Structural, Clone, Copy, Debug)]
pub enum StepKind {
    Acquired,
    Continue(Contended),
    Sleep,
}

impl LockStep {
    pub open spec fn kind(self) -> StepKind {
        match self {
            LockStep::Acquired(_) => StepKind::Acquired,
            LockStep::Continue(c) => StepKind::Continue(c),
            LockStep::Sleep(_) => StepKind::Sleep,
        }
    }
}

/// The word after one step of the slow path from `phase`, and what the step did.
pub open spec fn contended_next(state: u32, phase: Contended) -> (u32, StepKind) {
    match phase {
        Contended::Spin(n) => if state == LOCKED && n < SPIN_LIMIT {
            (state, StepKind::Continue(Contended::Spin((n + 1) as u32)))
        } else {
            (state, StepKind::Continue(Contended::TryLock))
        },
        Contended::TryLock => if state == UNLOCKED {
            (LOCKED, StepKind::Acquired)
        } else {
            (state, StepKind::Continue(Contended::Swap))
        },
        Contended::Swap => if state == UNLOCKED {
            (CONTENDED, StepKind::Acquired)
        } else {
            (CONTENDED, StepKind::Continue(Contended::Wait))
        },
        Contended::Wait => if state == CONTENDED {
            (state, StepKind::Sleep)
        } else {
            (state, StepKind::Continue(Contended::Swap))
        },
    }
}

/// The word after the fast path, and whether it acquired the lock.
pub open spec fn fast_lock_next(state: u32) -> (u32, bool) {
    if state == UNLOCKED {
        (LOCKED, true)
    } else {
        (state, false)
    }
}

/// The word after an unlock, and whether a waiting thread must be woken.
pub open spec fn unlock_next(state: u32) -> (u32, bool) {
    (UNLOCKED, state == CONTENDED)
}

impl<T> Mutex<T> {
    /// The lock word.
    pub closed spec fn word(&self) -> u32 {
        self.state
    }

    /// The protected value.
    pub closed spec fn content(&self) -> T {
        self.value
    }

    /// The mutex's identity; nothing is said of it at creation, so a guard
    /// of another mutex cannot be shown to belong to this one.
    pub closed spec fn id(&self) -> nat {
        self.id@
    }

    /// The word holds one of its three meaningful values.
    pub open spec fn wf(&self) -> bool {
        self.word() <= CONTENDED
    }

    /// The lock is held by some thread.
    pub open spec fn is_locked(&self) -> bool {
        self.word() != UNLOCKED
    }

    pub fn new(value: T) -> (m: Self)
        ensures
            m.wf(),
            m.word() == UNLOCKED,
            m.content() == value,
    {
        Mutex { state: UNLOCKED, value, id: Ghost(0) }
    }

    /// Load the lock word.
    pub fn load(&self) -> (w: u32)
        ensures
            w == self.word(),
    {
        self.state
    }

    /// The fast path: move the word from `UNLOCKED` to `LOCKED`. When the word
    /// is anything else nothing changes and the thread enters the slow path at
    /// `Contended::Spin(0)`.
    pub fn lock(&mut self) -> (r: Result<MutexGuard, Contended>)
        requires
            old(self).wf(),
        ensures
            final(self).wf(),
            final(self).content() == old(self).content(),
            (final(self).word(), r is Ok) == fast_lock_next(old(self).word()),
            r is Err ==> r == Err::<MutexGuard, Contended>(Contended::Spin(0)),
            final(self).id() == old(self).id(),
            r matches Ok(g) ==> g.mutex_id() == old(self).id(),
    {
        if self.state == UNLOCKED {
            self.state = LOCKED;
            Ok(MutexGuard { mutex: Ghost(self.id@) })
        } else {
            Err(Contended::Spin(0))
        }
    }

    /// One step of the slow path, from `phase`.
    pub fn lock_contented(&mut self, phase: Contended) -> (r: LockStep)
        requires
            old(self).wf(),
        ensures
            final(self).wf(),
            final(self).content() == old(self).content(),
            (final(self).word(), r.kind()) == contended_next(old(self).word(), phase),
            final(self).id() == old(self).id(),
            r matches LockStep::Acquired(g) ==> g.mutex_id() == old(self).id(),
            r matches LockStep::Sleep(p) ==> p == Contended::Swap,
    {
        match phase {
            Contended::Spin(n) => {
                if self.state == LOCKED && n < SPIN_LIMIT {
                    LockStep::Continue(Contended::Spin(n + 1))
                } else {
                    LockStep::Continue(Contended::TryLock)
                }
            },
            Contended::TryLock => {
                if self.state == UNLOCKED {
                    self.state = LOCKED;
                    LockStep::Acquired(MutexGuard { mutex: Ghost(self.id@) })
                } else {
                    LockStep::Continue(Contended::Swap)
                }
            },
            Contended::Swap => {
                let prev = self.state;
                self.state = CONTENDED;
                if prev == UNLOCKED {
                    LockStep::Acquired(MutexGuard { mutex: Ghost(self.id@) })
                } else {
                    LockStep::Continue(Contended::Wait)
                }
            },
            Contended::Wait => {
                if self.state == CONTENDED {
                    LockStep::Sleep(Contended::Swap)
                } else {
                    LockStep::Continue(Contended::Swap)
                }
            },
        }
    }

    /// Release the lock: swap `UNLOCKED` in, and report whether a waiting
    /// thread must be woken (the word read `CONTENDED`).
    pub fn unlock(&mut self, guard: MutexGuard) -> (wake: bool)
        requires
            old(self).wf(),
            old(self).is_locked(),
            guard.mutex_id() == old(self).id(),
        ensures
            final(self).id() == old(self).id(),
            final(self).wf(),
            (final(self).word(), wake) == unlock_next(old(self).word()),
            final(self).content() == old(self).content(),
    {
        let prev = self.state;
        self.state = UNLOCKED;
        prev == CONTENDED
    }

    /// Read the value while some thread holds the lock.
    pub(crate) fn get_with_holder(&self) -> (v: &T)
        requires
            self.is_locked(),
        ensures
            *v == self.content(),
    {
        &self.value
    }

    /// Replace the value while some thread holds the lock.
    pub(crate) fn set_with_holder(&mut self, value: T)
        requires
            old(self).is_locked(),
        ensures
            final(self).word() == old(self).word(),
            final(self).id() == old(self).id(),
            final(self).content() == value,
    {
        self.value = value;
    }

    pub fn get(&self, guard: &MutexGuard) -> (v: &T)
        requires
            self.is_locked(),
            guard.mutex_id() == self.id(),
        ensures
            *v == self.content(),
    {
        &self.value
    }

    pub fn set(&mut self, guard: &MutexGuard, value: T)
        requires
            old(self).is_locked(),
            guard.mutex_id() == old(self).id(),
        ensures
            final(self).id() == old(self).id(),
            final(self).word() == old(self).word(),
            final(self).content() == value,
    {
        self.value = value;
    }
}

/// A thread acquires the lock, on the fast path or the slow one, only
/// when the word read `UNLOCKED`: no thread acquires while another holds.
pub proof fn lemma_acquire_only_when_unlocked(state: u32, phase: Contended)
    requires
        contended_next(state, phase).1 == StepKind::Acquired,
    ensures
        state == UNLOCKED,
        contended_next(state, phase).0 != UNLOCKED,
{
}

/// Every step keeps the word one of its three values.
pub proof fn lemma_steps_keep_word_valid(state: u32, phase: Contended)
    requires
        state <= CONTENDED,
    ensures
        contended_next(state, phase).0 <= CONTENDED,
{
}

/// A held lock stays held: no slow-path step moves a nonzero word back to
/// `UNLOCKED`; only `unlock` does.
pub proof fn lemma_held_lock_stays_held(state: u32, phase: Contended)
    requires
        state != UNLOCKED,
    ensures
        contended_next(state, phase).0 != UNLOCKED,
        contended_next(state, phase).1 != StepKind::Acquired,
{
}

/// No lost wake-up: a thread goes to sleep only when the word reads
/// `CONTENDED`; from then on no slow-path step changes the word, so the
/// holder's `unlock` reads `CONTENDED` and reports a wake-up.
pub proof fn lemma_sleepers_are_woken(state: u32, phase: Contended, other: Contended)
    requires
        contended_next(state, phase).1 == StepKind::Sleep,
    ensures
        state == CONTENDED,
        contended_next(state, other).0 == CONTENDED,
{
}

/// The slow path of a thread that keeps finding the lock held with nobody
/// waiting spins at most `SPIN_LIMIT` times before it tries to take it.
pub proof fn lemma_spin_is_bounded(n: u32)
    ensures
        n >= SPIN_LIMIT ==> contended_next(LOCKED, Contended::Spin(n)).1 == StepKind::Continue(Contended::TryLock),
        n < SPIN_LIMIT ==> contended_next(LOCKED, Contended::Spin(n)).1 == StepKind::Continue(Contended::Spin((n + 1) as u32)),
{
}

/// The fast path takes the lock exactly when it finds it free, and then
/// leaves it held with nobody waiting; otherwise it leaves the word as it
/// is. Unlocking any held word frees it and reports a wake-up exactly when
/// other threads may be blocked on it (the word read `CONTENDED`).
pub proof fn lemma_fast_path_and_unlock(state: u32)
    ensures
        fast_lock_next(state).1 <==> state == UNLOCKED,
        fast_lock_next(state).1 ==> fast_lock_next(state).0 == LOCKED,
        !fast_lock_next(state).1 ==> fast_lock_next(state).0 == state,
        state != UNLOCKED ==> unlock_next(state).0 == UNLOCKED,
        state != UNLOCKED ==> (unlock_next(state).1 <==> state == CONTENDED),
{
}

/// Whether a thread at `phase` of the slow path takes the lock within
/// `fuel` of its own steps on a word that holds `state` and that no other
/// thread changes: no step before blocks or changes the word, and the
/// acquiring step leaves the word held.
pub open spec fn slow_path_gets_in(state: u32, phase: Contended, fuel: nat) -> bool
    decreases fuel,
{
    if fuel == 0 {
        false
    } else {
        let (w, k) = contended_next(state, phase);
        match k {
            StepKind::Acquired => w != UNLOCKED,
            StepKind::Continue(q) => w == state && slow_path_gets_in(state, q, (fuel - 1) as nat),
            StepKind::Sleep => false,
        }
    }
}

/// Whether a thread at `phase` of the slow path blocks within `fuel` of its
/// own steps on a word that holds `state` and that no other thread changes,
/// without acquiring and without changing the word.
pub open spec fn slow_path_blocks(state: u32, phase: Contended, fuel: nat) -> bool
    decreases fuel,
{
    if fuel == 0 {
        false
    } else {
        let (w, k) = contended_next(state, phase);
        match k {
            StepKind::Acquired => false,
            StepKind::Continue(q) => w == state && slow_path_blocks(state, q, (fuel - 1) as nat),
            StepKind::Sleep => w == state,
        }
    }
}

/// Slow-path progress: on a word that reads `UNLOCKED` and that no other
/// thread changes, a thread takes the lock without blocking within one step
/// from the compare-exchange or the swap, and within two from spinning or
/// from the check before blocking.
pub proof fn lemma_slow_path_progress(n: u32, phase: Contended)
    ensures
        slow_path_gets_in(UNLOCKED, Contended::TryLock, 1),
        slow_path_gets_in(UNLOCKED, Contended::Swap, 1),
        slow_path_gets_in(UNLOCKED, Contended::Spin(n), 2),
        slow_path_gets_in(UNLOCKED, Contended::Wait, 2),
        slow_path_gets_in(UNLOCKED, phase, 2),
{
    reveal_with_fuel(slow_path_gets_in, 3);
    assert(slow_path_gets_in(UNLOCKED, Contended::TryLock, 1));
    assert(slow_path_gets_in(UNLOCKED, Contended::Swap, 1));
}

/// The slow path blocks on a contended lock: on a word that reads
/// `CONTENDED` and that no other thread changes, a thread blocks within one
/// step from the check before blocking, two from the swap, three from the
/// compare-exchange, and four from spinning (it does not spin on a contended
/// word), never acquiring.
pub proof fn lemma_slow_path_blocks_when_contended(n: u32, phase: Contended)
    ensures
        slow_path_blocks(CONTENDED, Contended::Wait, 1),
        slow_path_blocks(CONTENDED, Contended::Swap, 2),
        slow_path_blocks(CONTENDED, Contended::TryLock, 3),
        slow_path_blocks(CONTENDED, Contended::Spin(n), 4),
        slow_path_blocks(CONTENDED, phase, 4),
{
    reveal_with_fuel(slow_path_blocks, 5);
    assert(slow_path_blocks(CONTENDED, Contended::Wait, 1));
    assert(slow_path_blocks(CONTENDED, Contended::Swap, 2));
    assert(slow_path_blocks(CONTENDED, Contended::TryLock, 3));
    assert(slow_path_blocks(CONTENDED, Contended::Spin(n), 4));
    assert(slow_path_blocks(CONTENDED, Contended::Wait, 4));
    assert(slow_path_blocks(CONTENDED, Contended::Swap, 4));
}

/// Where one thread stands with respect to the lock.
#[derive(PartialEq, Eq, Structural)]
pub enum ThreadState {
    /// Not holding the lock and not trying to.
    Idle,
    /// In the slow path, about to take the given step.
    Slow(Contended),
    /// Blocked on the word.
    Asleep,
    /// Holding the lock.
    Holding,
}

/// One atomic step of one thread.
pub enum Event {
    /// An idle thread runs the fast path.
    Lock(nat),
    /// A thread in the slow path takes its next step.
    Step(nat),
    /// A blocked thread wakes up (after a wake-up call, or spuriously).
    Wake(nat),
    /// The holding thread unlocks.
    Unlock(nat),
}

impl Event {
    /// The thread that takes the step.
    pub open spec fn thread(self) -> nat {
        match self {
            Event::Lock(t) => t,
            Event::Step(t) => t,
            Event::Wake(t) => t,
            Event::Unlock(t) => t,
        }
    }
}

/// Any number of threads sharing one mutex: the lock word, the state of each
/// thread (absent means idle), which thread holds the lock, and how many
/// wake-up calls are outstanding.
pub struct MutexSystem {
    pub word: u32,
    pub threads: Map<nat, ThreadState>,
    pub holder: Option<nat>,
    /// Wake-up calls issued by `unlock` and not yet consumed by a thread waking.
    pub pending_wakes: nat,
}

impl MutexSystem {
    /// A fresh mutex with every thread idle.
    pub open spec fn init() -> Self {
        MutexSystem { word: UNLOCKED, threads: Map::empty(), holder: None, pending_wakes: 0 }
    }

    pub open spec fn state_of(self, t: nat) -> ThreadState {
        if self.threads.contains_key(t) {
            self.threads[t]
        } else {
            ThreadState::Idle
        }
    }

    pub open spec fn holds(self, t: nat) -> bool {
        self.state_of(t) is Holding
    }

    pub open spec fn asleep(self, t: nat) -> bool {
        self.state_of(t) is Asleep
    }

    /// An awake thread about to swap `CONTENDED` into the word (or to check
    /// it before blocking, which leads back to the swap unless the word is
    /// already `CONTENDED`).
    pub open spec fn contender(self, t: nat) -> bool {
        self.state_of(t) == ThreadState::Slow(Contended::Swap) || self.state_of(t) == ThreadState::Slow(Contended::Wait)
    }

    /// No sleeper is stranded: while some thread is blocked, the word reads
    /// `CONTENDED` (so the next unlock issues a wake-up), or a wake-up call
    /// is outstanding, or an awake contender is about to mark the word
    /// `CONTENDED`.
    pub open spec fn no_stranded_sleeper(self) -> bool {
        (exists|t: nat| #[trigger] self.asleep(t)) ==> (
            self.word == CONTENDED
            || self.pending_wakes > 0
            || exists|u: nat| #[trigger] self.contender(u)
        )
    }

    /// The system after event `e`; an event that the thread is not in a
    /// position to take changes nothing.
    pub open spec fn next(self, e: Event) -> Self {
        match e {
            Event::Lock(t) => if self.state_of(t) is Idle {
                let (w, acquired) = fast_lock_next(self.word);
                if acquired {
                    MutexSystem { word: w, threads: self.threads.insert(t, ThreadState::Holding), holder: Some(t), ..self }
                } else {
                    MutexSystem { word: w, threads: self.threads.insert(t, ThreadState::Slow(Contended::Spin(0))), ..self }
                }
            } else {
                self
            },
            Event::Step(t) => match self.state_of(t) {
                ThreadState::Slow(p) => {
                    let (w, k) = contended_next(self.word, p);
                    match k {
                        StepKind::Acquired => MutexSystem {
                            word: w,
                            threads: self.threads.insert(t, ThreadState::Holding),
                            holder: Some(t),
                            ..self
                        },
                        StepKind::Continue(q) => MutexSystem {
                            word: w,
                            threads: self.threads.insert(t, ThreadState::Slow(q)),
                            ..self
                        },
                        StepKind::Sleep => MutexSystem {
                            word: w,
                            threads: self.threads.insert(t, ThreadState::Asleep),
                            ..self
                        },
                    }
                },
                _ => self,
            },
            Event::Wake(t) => if self.state_of(t) is Asleep {
                MutexSystem {
                    threads: self.threads.insert(t, ThreadState::Slow(Contended::Swap)),
                    pending_wakes: if self.pending_wakes > 0 { (self.pending_wakes - 1) as nat } else { 0 },
                    ..self
                }
            } else {
                self
            },
            Event::Unlock(t) => if self.state_of(t) is Holding {
                MutexSystem {
                    word: unlock_next(self.word).0,
                    threads: self.threads.insert(t, ThreadState::Idle),
                    holder: None,
                    pending_wakes: if unlock_next(self.word).1 { self.pending_wakes + 1 } else { self.pending_wakes },
                }
            } else {
                self
            },
        }
    }

    /// The system after the events `es`, in order.
    pub open spec fn run(self, es: Seq<Event>) -> Self
        decreases es.len(),
    {
        if es.len() == 0 {
            self
        } else {
            self.run(es.drop_last()).next(es.last())
        }
    }

    /// The two systems agree on the word, the holder, the outstanding
    /// wake-ups and the state of every thread.
    pub open spec fn same_as(self, other: MutexSystem) -> bool {
        &&& self.word == other.word
        &&& self.holder == other.holder
        &&& self.pending_wakes == other.pending_wakes
        &&& forall|t: nat| #[trigger] self.state_of(t) == other.state_of(t)
    }

    /// The invariant: the word is valid, the recorded holder is the one
    /// thread in `Holding`, and the word is `UNLOCKED` exactly when no
    /// thread holds the lock.
    pub open spec fn inv(self) -> bool {
        &&& self.word <= CONTENDED
        &&& forall|t: nat| #[trigger] self.holds(t) <==> self.holder == Some(t)
        &&& (self.word == UNLOCKED <==> self.holder is None)
    }
}

/// Every step of every thread keeps the invariant.
pub proof fn lemma_next_keeps_inv(s: MutexSystem, e: Event)
    requires
        s.inv(),
    ensures
        s.next(e).inv(),
{
    let n = s.next(e);
    let t = e.thread();
    assert forall|u: nat| #[trigger] n.holds(u) <==> n.holder == Some(u) by {
        assert(s.holds(u) <==> s.holder == Some(u));
        assert(s.holds(t) <==> s.holder == Some(t));
        if u != t {
            assert(n.state_of(u) == s.state_of(u));
        }
    }
}

/// Every interleaving of steps keeps the invariant.
pub proof fn lemma_run_keeps_inv(s: MutexSystem, es: Seq<Event>)
    requires
        s.inv(),
    ensures
        s.run(es).inv(),
    decreases es.len(),
{
    if es.len() > 0 {
        lemma_run_keeps_inv(s, es.drop_last());
        lemma_next_keeps_inv(s.run(es.drop_last()), es.last());
    }
}

/// Mutual exclusion: in every interleaving of any threads' steps, starting
/// from a new mutex, no two threads hold the lock at once, and the word
/// reads `UNLOCKED` exactly when no thread holds it.
pub proof fn lemma_mutual_exclusion(es: Seq<Event>, t1: nat, t2: nat)
    ensures
        MutexSystem::init().run(es).holds(t1) && MutexSystem::init().run(es).holds(t2) ==> t1 == t2,
        MutexSystem::init().run(es).word == UNLOCKED <==> forall|t: nat| !#[trigger] MutexSystem::init().run(es).holds(t),
{
    let s = MutexSystem::init();
    assert(s.inv()) by {
        assert forall|t: nat| #[trigger] s.holds(t) <==> s.holder == Some(t) by {}
    }
    lemma_run_keeps_inv(s, es);
    let r = s.run(es);
    if r.word != UNLOCKED {
        assert(r.holds(r.holder.unwrap()));
    }
}

/// Every step of every thread keeps sleepers from being stranded.
pub proof fn lemma_next_keeps_no_stranded_sleeper(s: MutexSystem, e: Event)
    requires
        s.inv(),
        s.no_stranded_sleeper(),
    ensures
        s.next(e).no_stranded_sleeper(),
{
    let n = s.next(e);
    if exists|t: nat| #[trigger] n.asleep(t) {
        let t1 = choose|t: nat| #[trigger] n.asleep(t);
        let et = e.thread();
        if t1 == et && !s.asleep(t1) {
            // Only a slow-path step puts a thread to sleep, and only on a
            // CONTENDED word, which the step leaves as it is.
            assert(n.word == CONTENDED);
        } else {
            assert(s.asleep(t1));
            if s.word == CONTENDED {
                match e {
                    Event::Unlock(t) => {},
                    _ => { assert(n.word == CONTENDED); },
                }
            } else if s.pending_wakes > 0 {
                match e {
                    Event::Wake(t) => {
                        if s.asleep(t) {
                            assert(n.contender(t));
                        }
                    },
                    Event::Unlock(t) => {},
                    _ => {},
                }
            } else {
                let u = choose|u: nat| #[trigger] s.contender(u);
                if u == et {
                    match e {
                        Event::Step(t) => {
                            if s.state_of(t) == ThreadState::Slow(Contended::Wait) && s.word != CONTENDED {
                                assert(n.contender(u));
                            }
                        },
                        _ => {},
                    }
                } else {
                    assert(n.state_of(u) == s.state_of(u));
                    assert(n.contender(u));
                }
            }
        }
    }
}

/// Every interleaving keeps the invariant and keeps sleepers from being
/// stranded.
pub proof fn lemma_run_keeps_no_stranded_sleeper(s: MutexSystem, es: Seq<Event>)
    requires
        s.inv(),
        s.no_stranded_sleeper(),
    ensures
        s.run(es).inv(),
        s.run(es).no_stranded_sleeper(),
    decreases es.len(),
{
    if es.len() > 0 {
        lemma_run_keeps_no_stranded_sleeper(s, es.drop_last());
        lemma_next_keeps_inv(s.run(es.drop_last()), es.last());
        lemma_next_keeps_no_stranded_sleeper(s.run(es.drop_last()), es.last());
    }
}

/// No lost wake-up: in every interleaving of any threads' steps, starting
/// from a new mutex, whenever a thread is blocked the word reads
/// `CONTENDED`, or a wake-up call is outstanding, or an awake thread is
/// about to mark the word `CONTENDED`; once the word reads `CONTENDED` only
/// an unlock changes it, and that unlock issues a wake-up.
pub proof fn lemma_no_lost_wakeup(es: Seq<Event>)
    ensures
        MutexSystem::init().run(es).no_stranded_sleeper(),
{
    let s = MutexSystem::init();
    assert(s.inv()) by {
        assert forall|t: nat| #[trigger] s.holds(t) <==> s.holder == Some(t) by {}
    }
    assert(s.no_stranded_sleeper()) by {
        assert forall|t: nat| !#[trigger] s.asleep(t) by {}
    }
    lemma_run_keeps_no_stranded_sleeper(s, es);
}

/// Unlocking undoes an uncontended lock: from `UNLOCKED`, the fast path
/// followed by `unlock` leaves the word `UNLOCKED` and wakes nobody.
pub proof fn lemma_lock_unlock_roundtrip()
    ensures
        fast_lock_next(UNLOCKED) == (LOCKED, true),
        unlock_next(fast_lock_next(UNLOCKED).0) == (UNLOCKED, false),
{
}

/// Systems that agree thread by thread satisfy the same invariants.
pub proof fn lemma_same_as_keeps_inv(a: MutexSystem, b: MutexSystem)
    requires
        a.same_as(b),
        a.inv(),
        a.no_stranded_sleeper(),
    ensures
        b.inv(),
        b.no_stranded_sleeper(),
{
    assert forall|t: nat| #[trigger] b.holds(t) <==> b.holder == Some(t) by {
        assert(a.state_of(t) == b.state_of(t));
        assert(a.holds(t) <==> a.holder == Some(t));
    }
    if exists|t: nat| #[trigger] b.asleep(t) {
        let t = choose|t: nat| #[trigger] b.asleep(t);
        assert(a.state_of(t) == b.state_of(t));
        assert(a.asleep(t));
        if a.word != CONTENDED && a.pending_wakes == 0 {
            let u = choose|u: nat| #[trigger] a.contender(u);
            assert(a.state_of(u) == b.state_of(u));
            assert(b.contender(u));
        }
    }
}

/// The executable state of one thread of a `Schedule`.
pub enum Slot {
    Idle,
    Slow(Contended),
    Asleep,
    Holding(MutexGuard),
}

/// The thread state a slot stands for.
pub open spec fn slot_state(s: Slot) -> ThreadState {
    match s {
        Slot::Idle => ThreadState::Idle,
        Slot::Slow(p) => ThreadState::Slow(p),
        Slot::Asleep => ThreadState::Asleep,
        Slot::Holding(_) => ThreadState::Holding,
    }
}

/// A holding slot keeps a guard of the mutex with identity `id`.
pub open spec fn slot_bound(s: Slot, id: nat) -> bool {
    match s {
        Slot::Holding(g) => g.mutex_id() == id,
        _ => true,
    }
}

/// One step of one thread of a `Schedule`, by thread index.
#[derive(PartialEq, Eq, Structural, Clone, Copy, Debug)]
pub enum ThreadEvent {
    Lock(usize),
    Step(usize),
    Wake(usize),
    Unlock(usize),
}

/// The event a thread event stands for.
pub open spec fn event_of(e: ThreadEvent) -> Event {
    match e {
        ThreadEvent::Lock(t) => Event::Lock(t as nat),
        ThreadEvent::Step(t) => Event::Step(t as nat),
        ThreadEvent::Wake(t) => Event::Wake(t as nat),
        ThreadEvent::Unlock(t) => Event::Unlock(t as nat),
    }
}

/// The thread index of a thread event.
pub open spec fn event_thread(e: ThreadEvent) -> usize {
    match e {
        ThreadEvent::Lock(t) => t,
        ThreadEvent::Step(t) => t,
        ThreadEvent::Wake(t) => t,
        ThreadEvent::Unlock(t) => t,
    }
}

/// A mutex used by a fixed number of threads, run one atomic step at a time
/// in whatever order the caller chooses: each thread's guard is kept in its
/// slot while it holds the lock.
pub struct Schedule<T> {
    mutex: Mutex<T>,
    threads: Vec<Slot>,
    holder: Ghost<Option<nat>>,
    pending_wakes: Ghost<nat>,
}

impl<T> Schedule<T> {
    /// The number of threads.
    pub closed spec fn thread_count(&self) -> nat {
        self.threads@.len()
    }

    /// The protected value.
    pub closed spec fn content(&self) -> T {
        self.mutex.content()
    }

    /// The schedule as a system of threads.
    pub closed spec fn system(&self) -> MutexSystem {
        MutexSystem {
            word: self.mutex.word(),
            threads: Map::new(|t: nat| t < self.threads@.len(), |t: nat| slot_state(self.threads@[t as int])),
            holder: self.holder@,
            pending_wakes: self.pending_wakes@,
        }
    }

    /// The mutex is well formed and the system keeps its invariants.
    pub closed spec fn wf(&self) -> bool {
        &&& self.mutex.wf()
        &&& forall|i: int| 0 <= i < self.threads@.len() ==> #[trigger] slot_bound(self.threads@[i], self.mutex.id())
        &&& self.system().inv()
        &&& self.system().no_stranded_sleeper()
    }

    /// A new mutex holding `value`, used by `n` idle threads.
    pub fn new(value: T, n: usize) -> (s: Self)
        ensures
            s.wf(),
            s.thread_count() == n,
            s.system().same_as(MutexSystem::init()),
            s.content() == value,
    {
        let mut threads: Vec<Slot> = Vec::new();
        let mut i: usize = 0;
        while i < n
            invariant
                i <= n,
                threads@.len() == i,
                forall|j: int| 0 <= j < i ==> #[trigger] threads@[j] == Slot::Idle,
            decreases n - i,
        {
            threads.push(Slot::Idle);
            i = i + 1;
        }
        let s = Schedule { mutex: Mutex::new(value), threads, holder: Ghost(None), pending_wakes: Ghost(0) };
        assert forall|t: nat| #[trigger] s.system().state_of(t) == MutexSystem::init().state_of(t) by {
            if t < n {
                assert(s.threads@[t as int] == Slot::Idle);
            }
        }
        let ghost init = MutexSystem::init();
        assert(init.inv()) by {
            assert forall|t: nat| #[trigger] init.holds(t) <==> init.holder == Some(t) by {}
        }
        assert(init.no_stranded_sleeper()) by {
            assert forall|t: nat| !#[trigger] init.asleep(t) by {}
        }
        assert(init.same_as(s.system()));
        proof {
            lemma_same_as_keeps_inv(init, s.system());
        }
        s
    }

    /// Whether thread `t` holds the lock.
    pub fn holds(&self, t: usize) -> (b: bool)
        requires
            t < self.thread_count(),
        ensures
            b == self.system().holds(t as nat),
    {
        match &self.threads[t] {
            Slot::Holding(_) => true,
            _ => false,
        }
    }

    /// Whether thread `t` is blocked.
    pub fn is_asleep(&self, t: usize) -> (b: bool)
        requires
            t < self.thread_count(),
        ensures
            b == self.system().asleep(t as nat),
    {
        match &self.threads[t] {
            Slot::Asleep => true,
            _ => false,
        }
    }

    /// Run one step of one thread. Returns whether the step was an unlock
    /// that issued a wake-up call.
    pub fn step(&mut self, e: ThreadEvent) -> (wake: bool)
        requires
            old(self).wf(),
            event_thread(e) < old(self).thread_count(),
        ensures
            final(self).wf(),
            final(self).thread_count() == old(self).thread_count(),
            final(self).system().same_as(old(self).system().next(event_of(e))),
            wake == (event_of(e) is Unlock && old(self).system().holds(event_thread(e) as nat)
                && old(self).system().word == CONTENDED),
            final(self).content() == old(self).content(),
    {
        let ghost before = self.system();
        let t = match e {
            ThreadEvent::Lock(t) => t,
            ThreadEvent::Step(t) => t,
            ThreadEvent::Wake(t) => t,
            ThreadEvent::Unlock(t) => t,
        };
        let ghost old_threads = self.threads@;
        let mut slot = Slot::Idle;
        self.threads.set_and_swap(t, &mut slot);
        assert(slot_state(slot) == before.state_of(t as nat));
        assert(slot_bound(old_threads[t as int], self.mutex.id()));
        assert(before.holds(t as nat) <==> before.holder == Some(t as nat));
        let mut wake = false;
        let new_slot = match e {
            ThreadEvent::Lock(_) => match slot {
                Slot::Idle => match self.mutex.lock() {
                    Ok(g) => {
                        self.holder = Ghost(Some(t as nat));
                        Slot::Holding(g)
                    },
                    Err(p) => Slot::Slow(p),
                },
                other => other,
            },
            ThreadEvent::Step(_) => match slot {
                Slot::Slow(p) => match self.mutex.lock_contented(p) {
                    LockStep::Acquired(g) => {
                        self.holder = Ghost(Some(t as nat));
                        Slot::Holding(g)
                    },
                    LockStep::Continue(q) => Slot::Slow(q),
                    LockStep::Sleep(_) => Slot::Asleep,
                },
                other => other,
            },
            ThreadEvent::Wake(_) => match slot {
                Slot::Asleep => {
                    self.pending_wakes = Ghost(
                        if self.pending_wakes@ > 0 { (self.pending_wakes@ - 1) as nat } else { 0 },
                    );
                    Slot::Slow(Contended::Swap)
                },
                other => other,
            },
            ThreadEvent::Unlock(_) => match slot {
                Slot::Holding(g) => {
                    wake = self.mutex.unlock(g);
                    self.holder = Ghost(None);
                    if wake {
                        self.pending_wakes = Ghost(self.pending_wakes@ + 1);
                    }
                    Slot::Idle
                },
                other => other,
            },
        };
        self.threads.set(t, new_slot);
        assert forall|i: int| 0 <= i < self.threads@.len() implies #[trigger] slot_bound(self.threads@[i], self.mutex.id()) by {
            if i != t as int {
                assert(self.threads@[i] == old_threads[i]);
                assert(slot_bound(old_threads[i], self.mutex.id()));
            }
        }
        let ghost after = self.system();
        let ghost expected = before.next(event_of(e));
        assert forall|u: nat| #[trigger] after.state_of(u) == expected.state_of(u) by {
            if u != t as nat {
                assert(after.state_of(u) == before.state_of(u));
            }
        }
        proof {
            lemma_next_keeps_inv(before, event_of(e));
            lemma_next_keeps_no_stranded_sleeper(before, event_of(e));
            lemma_same_as_keeps_inv(expected, after);
        }
        wake
    }

    /// Replace the value; thread `t` must hold the lock.
    pub fn set(&mut self, t: usize, value: T)
        requires
            old(self).wf(),
            t < old(self).thread_count(),
            old(self).system().holds(t as nat),
        ensures
            final(self).wf(),
            final(self).thread_count() == old(self).thread_count(),
            final(self).system() == old(self).system(),
            final(self).content() == value,
    {
        proof {
            assert(self.system().holds(t as nat) <==> self.system().holder == Some(t as nat));
        }
        self.mutex.set_with_holder(value);
    }

    /// Read the value; thread `t` must hold the lock.
    pub fn get(&self, t: usize) -> (v: &T)
        requires
            self.wf(),
            t < self.thread_count(),
            self.system().holds(t as nat),
        ensures
            *v == self.content(),
    {
        proof {
            assert(self.system().holds(t as nat) <==> self.system().holder == Some(t as nat));
        }
        self.mutex.get_with_holder()
    }
}

} // verus!
