use vstd::prelude::*;

verus! {

/// A spin lock: one flag word and the value it protects. Each method is one
/// access of the flag, so calls made for several threads form an interleaving.
pub struct SpinLock<T> {
    locked: bool,
    value: T,
    id: Ghost<nat>,
}

/// Evidence that the lock is held; handed out only by a successful `lock`,
/// and good only for the lock that handed it out.
pub struct Guard {
    lock: Ghost<nat>,
}

impl Guard {
    /// The identity of the lock this guard belongs to.
    pub closed spec fn lock_id(&self) -> nat {
        self.lock@
    }
}

/// The flag after one turn of the spin loop (a swap of `true`), and whether
/// the turn acquired the lock.
pub open spec fn lock_next(locked: bool) -> (bool, bool) {
    (true, !locked)
}

impl<T> SpinLock<T> {
    /// Whether the flag reads locked.
    pub closed spec fn is_locked(&self) -> bool {
        self.locked
    }

    /// The protected value.
    pub closed spec fn content(&self) -> T {
        self.value
    }

    /// The lock's identity; nothing is said of it at creation, so a guard
    /// of another lock cannot be shown to belong to this one.
    pub closed spec fn id(&self) -> nat {
        self.id@
    }

    pub fn new(value: T) -> (s: Self)
        ensures
            !s.is_locked(),
            s.content() == value,
    {
        SpinLock { locked: false, value, id: Ghost(0) }
    }

    /// Load the flag.
    pub fn load(&self) -> (b: bool)
        ensures
            b == self.is_locked(),
    {
        self.locked
    }

    /// One turn of the spin loop: swap `true` into the flag. The lock is
    /// acquired exactly when the flag read `false`; otherwise the caller spins
    /// and tries again.
    pub fn lock(&mut self) -> (g: Option<Guard>)
        ensures
            (final(self).is_locked(), g is Some) == lock_next(old(self).is_locked()),
            final(self).content() == old(self).content(),
            final(self).id() == old(self).id(),
            g matches Some(guard) ==> guard.lock_id() == old(self).id(),
    {
        let was_locked = self.locked;
        self.locked = true;
        if was_locked {
            None
        } else {
            Some(Guard { lock: Ghost(self.id@) })
        }
    }

    /// Release the lock held through `guard`.
    pub fn unlock(&mut self, guard: Guard)
        requires
            old(self).is_locked(),
            guard.lock_id() == old(self).id(),
        ensures
            final(self).id() == old(self).id(),
            !final(self).is_locked(),
            final(self).content() == old(self).content(),
    {
        self.locked = false;
    }

    /// Read the protected value while holding the lock.
    pub fn get(&self, guard: &Guard) -> (v: &T)
        requires
            self.is_locked(),
            guard.lock_id() == self.id(),
        ensures
            *v == self.content(),
    {
        &self.value
    }

    /// Replace the protected value while holding the lock.
    pub fn set(&mut self, guard: &Guard, value: T)
        requires
            old(self).is_locked(),
            guard.lock_id() == old(self).id(),
        ensures
            final(self).id() == old(self).id(),
            final(self).is_locked(),
            final(self).content() == value,
    {
        self.value = value;
    }
}

/// One step of one thread.
pub enum SpinEvent {
    /// A thread that does not hold the lock takes one turn of the spin loop.
    Lock(nat),
    /// The holding thread unlocks.
    Unlock(nat),
}

/// Any number of threads sharing one spin lock: the flag, and which thread
/// holds the lock.
pub struct SpinSystem {
    pub locked: bool,
    pub holder: Option<nat>,
}

impl SpinSystem {
    pub open spec fn init() -> Self {
        SpinSystem { locked: false, holder: None }
    }

    /// The system after event `e`; a thread unlocks only if it holds the
    /// lock, and the holder does not try to lock again.
    pub open spec fn next(self, e: SpinEvent) -> Self {
        match e {
            SpinEvent::Lock(t) => if self.holder == Some(t) {
                self
            } else {
                let (flag, acquired) = lock_next(self.locked);
                SpinSystem { locked: flag, holder: if acquired { Some(t) } else { self.holder } }
            },
            SpinEvent::Unlock(t) => if self.holder == Some(t) {
                SpinSystem { locked: false, holder: None }
            } else {
                self
            },
        }
    }

    pub open spec fn run(self, es: Seq<SpinEvent>) -> Self
        decreases es.len(),
    {
        if es.len() == 0 {
            self
        } else {
            self.run(es.drop_last()).next(es.last())
        }
    }
}

/// Mutual exclusion: in every interleaving of any threads' lock turns and
/// unlocks, starting from a new lock, the flag is set exactly when some
/// thread holds the lock, and a turn acquires only when nobody holds it.
pub proof fn lemma_spin_mutual_exclusion(es: Seq<SpinEvent>, t: nat)
    ensures
        SpinSystem::init().run(es).locked <==> SpinSystem::init().run(es).holder is Some,
        SpinSystem::init().run(es).holder is Some ==> SpinSystem::init().run(es).next(SpinEvent::Lock(t)).holder
            == SpinSystem::init().run(es).holder,
    decreases es.len(),
{
    if es.len() > 0 {
        lemma_spin_mutual_exclusion(es.drop_last(), t);
    }
}

/// Unlocking undoes locking: a turn on a free lock acquires it and sets the
/// flag; a turn on a held lock leaves it held without acquiring; after the
/// unlock clears the flag, the next turn acquires again.
pub proof fn lemma_lock_unlock_roundtrip()
    ensures
        lock_next(false) == (true, true),
        lock_next(true) == (true, false),
{
}

/// One step of one thread of a `SpinSchedule`, by thread index.
pub enum SpinThreadEvent {
    /// The thread takes one turn of the spin loop (nothing if it holds the lock).
    Lock(usize),
    /// The thread unlocks (nothing if it does not hold the lock).
    Unlock(usize),
}

/// The system event of a thread event.
pub open spec fn spin_event_of(e: SpinThreadEvent) -> SpinEvent {
    match e {
        SpinThreadEvent::Lock(t) => SpinEvent::Lock(t as nat),
        SpinThreadEvent::Unlock(t) => SpinEvent::Unlock(t as nat),
    }
}

/// The thread that takes a thread event.
pub open spec fn spin_event_thread(e: SpinThreadEvent) -> usize {
    match e {
        SpinThreadEvent::Lock(t) => t,
        SpinThreadEvent::Unlock(t) => t,
    }
}

/// A spin lock used by a fixed number of threads, run one atomic step at a
/// time in whatever order the caller chooses: the holding thread's guard is
/// kept in its slot.
pub struct SpinSchedule<T> {
    lock: SpinLock<T>,
    guards: Vec<Option<Guard>>,
    holder: Ghost<Option<nat>>,
}

impl<T> SpinSchedule<T> {
    /// The number of threads.
    pub closed spec fn thread_count(&self) -> nat {
        self.guards@.len()
    }

    /// The protected value.
    pub closed spec fn content(&self) -> T {
        self.lock.content()
    }

    /// The schedule as a system of threads.
    pub closed spec fn system(&self) -> SpinSystem {
        SpinSystem { locked: self.lock.is_locked(), holder: self.holder@ }
    }

    /// Exactly the holder's slot keeps a guard, and it belongs to this lock;
    /// the flag is set exactly while some thread holds the lock.
    pub closed spec fn wf(&self) -> bool {
        &&& forall|i: int| 0 <= i < self.guards@.len() ==> (#[trigger] self.guards@[i] is Some <==> self.holder@
            == Some(i as nat))
        &&& forall|i: int|
            0 <= i < self.guards@.len() && #[trigger] self.guards@[i] is Some ==> self.guards@[i].unwrap().lock_id()
                == self.lock.id()
        &&& self.holder@ matches Some(h) ==> h < self.guards@.len()
        &&& self.lock.is_locked() <==> self.holder@ is Some
    }

    /// A new lock holding `value`, used by `n` threads, none holding it.
    pub fn new(value: T, n: usize) -> (s: Self)
        ensures
            s.wf(),
            s.system() == SpinSystem::init(),
            s.thread_count() == n,
            s.content() == value,
    {
        let mut guards: Vec<Option<Guard>> = Vec::new();
        let mut i: usize = 0;
        while i < n
            invariant
                i <= n,
                guards@.len() == i,
                forall|j: int| 0 <= j < i ==> #[trigger] guards@[j] is None,
            decreases n - i,
        {
            guards.push(None);
            i = i + 1;
        }
        SpinSchedule { lock: SpinLock::new(value), guards, holder: Ghost(None) }
    }

    /// Whether thread `t` holds the lock.
    pub fn holds(&self, t: usize) -> (b: bool)
        requires
            self.wf(),
            t < self.thread_count(),
        ensures
            b == (self.system().holder == Some(t as nat)),
    {
        self.guards[t].is_some()
    }

    /// Run one step of one thread.
    pub fn step(&mut self, e: SpinThreadEvent)
        requires
            old(self).wf(),
            spin_event_thread(e) < old(self).thread_count(),
        ensures
            final(self).wf(),
            final(self).thread_count() == old(self).thread_count(),
            final(self).system() == old(self).system().next(spin_event_of(e)),
            final(self).content() == old(self).content(),
    {
        let t = match e {
            SpinThreadEvent::Lock(t) => t,
            SpinThreadEvent::Unlock(t) => t,
        };
        let ghost old_guards = self.guards@;
        let mut slot: Option<Guard> = None;
        self.guards.set_and_swap(t, &mut slot);
        assert(slot is Some <==> self.holder@ == Some(t as nat));
        let new_slot = match e {
            SpinThreadEvent::Lock(_) => match slot {
                Some(g) => Some(g),
                None => {
                    let r = self.lock.lock();
                    if r.is_some() {
                        self.holder = Ghost(Some(t as nat));
                    }
                    r
                },
            },
            SpinThreadEvent::Unlock(_) => match slot {
                Some(g) => {
                    self.lock.unlock(g);
                    self.holder = Ghost(None);
                    None
                },
                None => None,
            },
        };
        self.guards.set(t, new_slot);
        assert forall|i: int| 0 <= i < self.guards@.len() && i != t as int implies self.guards@[i] == old_guards[i] by {}
    }

    /// Read the value as the holding thread `t`.
    pub fn get(&self, t: usize) -> (v: &T)
        requires
            self.wf(),
            t < self.thread_count(),
            self.system().holder == Some(t as nat),
        ensures
            *v == self.content(),
    {
        let g = self.guards[t].as_ref().unwrap();
        self.lock.get(g)
    }

    /// Replace the value as the holding thread `t`.
    pub fn set(&mut self, t: usize, value: T)
        requires
            old(self).wf(),
            t < old(self).thread_count(),
            old(self).system().holder == Some(t as nat),
        ensures
            final(self).wf(),
            final(self).thread_count() == old(self).thread_count(),
            final(self).system() == old(self).system(),
            final(self).content() == value,
    {
        let g = self.guards[t].as_ref().unwrap();
        self.lock.set(g, value);
    }
}

} // verus!
