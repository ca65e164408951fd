use vstd::prelude::*;

verus! {

/// The lock word of a write-locked `RwLock`; any smaller value counts the readers.
pub const WRITE_LOCKED: u32 = 0xffff_ffff;

/// A reader-writer lock: the lock word (the number of readers, or
/// `WRITE_LOCKED`), a counter that writers wait on, and the value. Every step
/// function performs one access of a word (the write release, a store of the
/// word followed by a move of the counter, is one call), so calls made for
/// several threads form one interleaving of their atomic steps.
pub struct RwLock<T> {
    state: u32,
    writer_wake_counter: u32,
    value: T,
    id: Ghost<nat>,
}

/// Evidence of a shared (read) hold, handed out only by `read`, and good
/// only for the lock that handed it out.
pub struct ReadGuard {
    lock: Ghost<nat>,
}

/// Evidence of the exclusive (write) hold, handed out only by `write`, and
/// good only for the lock that handed it out.
pub struct WriteGuard {
    lock: Ghost<nat>,
}

impl ReadGuard {
    /// The identity of the lock this guard belongs to.
    pub closed spec fn lock_id(&self) -> nat {
        self.lock@
    }
}

impl WriteGuard {
    /// The identity of the lock this guard belongs to.
    pub closed spec fn lock_id(&self) -> nat {
        self.lock@
    }
}

/// Evidence that the last reader out still has to move the writer wake
/// counter on and wake a writer: handed out by `release_read`.
pub struct WriterWake {
    lock: Ghost<nat>,
}

impl WriterWake {
    /// The identity of the lock this belongs to.
    pub closed spec fn lock_id(&self) -> nat {
        self.lock@
    }
}

/// Where a reader stands in its acquisition loop.
#[derive(PartialEq, Eq, Structural, Clone, Copy, Debug)]
pub enum ReadPhase {
    /// About to load the lock word.
    Load,
    /// Holding the last value read from the lock word.
    Try(u32),
    /// About to block while the word reads `WRITE_LOCKED`.
    Wait,
}

/// Where a writer stands in its acquisition loop.
#[derive(PartialEq, Eq, Structural, Clone, Copy, Debug)]
pub enum WritePhase {
    /// About to move the lock word from 0 to `WRITE_LOCKED`.
    TryLock,
    /// About to load the writer wake counter.
    LoadCounter,
    /// About to check the lock word, with the wake counter value read before.
    CheckState(u32),
    /// About to block while the wake counter still holds the given value.
    Wait(u32),
}

/// What one acquisition step did.
pub enum Step<G, P> {
    /// The lock is now held; here is the guard.
    Acquired(G),
    /// Not yet acquired; continue at the given phase.
    Continue(P),
    /// The thread blocks until woken; it then continues at the given phase.
    Sleep(P),
}

/// The kind of a `Step`, as a plain value.
#[derive(PartialEq, Eq, Structural, Debug)]
pub enum StepKind<P> {
    Acquired,
    Continue(P),
    Sleep(P),
}

impl<G, P> Step<G, P> {
    pub open spec fn kind(self) -> StepKind<P> {
        match self {
            Step::Acquired(_) => StepKind::Acquired,
            Step::Continue(p) => StepKind::Continue(p),
            Step::Sleep(p) => StepKind::Sleep(p),
        }
    }
}

/// The phase a reader reaches after observing `s` in the lock word.
pub open spec fn read_after_observing(s: u32) -> ReadPhase {
    if s == WRITE_LOCKED {
        ReadPhase::Wait
    } else {
        ReadPhase::Try(s)
    }
}

/// The lock word after one reader step from `phase`, and what the step did.
pub open spec fn read_next(state: u32, phase: ReadPhase) -> (u32, StepKind<ReadPhase>) {
    match phase {
        ReadPhase::Load => (state, StepKind::Continue(ReadPhase::Try(state))),
        ReadPhase::Try(s) => if s < WRITE_LOCKED {
            if state == s {
                ((s + 1) as u32, StepKind::Acquired)
            } else {
                (state, StepKind::Continue(read_after_observing(state)))
            }
        } else {
            (state, StepKind::Continue(ReadPhase::Wait))
        },
        ReadPhase::Wait => if state == WRITE_LOCKED {
            (state, StepKind::Sleep(ReadPhase::Load))
        } else {
            (state, StepKind::Continue(ReadPhase::Load))
        },
    }
}

/// The lock word after one writer step from `phase` (the wake counter never
/// changes in a writer step), and what the step did.
pub open spec fn write_next(state: u32, counter: u32, phase: WritePhase) -> (u32, StepKind<WritePhase>) {
    match phase {
        WritePhase::TryLock => if state == 0 {
            (WRITE_LOCKED, StepKind::Acquired)
        } else {
            (state, StepKind::Continue(WritePhase::LoadCounter))
        },
        WritePhase::LoadCounter => (state, StepKind::Continue(WritePhase::CheckState(counter))),
        WritePhase::CheckState(w) => if state != 0 {
            (state, StepKind::Continue(WritePhase::Wait(w)))
        } else {
            (state, StepKind::Continue(WritePhase::TryLock))
        },
        WritePhase::Wait(w) => if counter == w {
            (state, StepKind::Sleep(WritePhase::TryLock))
        } else {
            (state, StepKind::Continue(WritePhase::TryLock))
        },
    }
}

/// A reader step from `phase` is defined: a reader that saw `WRITE_LOCKED - 1`
/// readers gives up ("too many readers").
pub open spec fn read_step_defined(phase: ReadPhase) -> bool {
    match phase {
        ReadPhase::Try(s) => s != WRITE_LOCKED - 1,
        _ => true,
    }
}

impl<T> RwLock<T> {
    /// The lock word.
    pub closed spec fn word(&self) -> u32 {
        self.state
    }

    /// The counter that waiting writers block on.
    pub closed spec fn wake_counter(&self) -> u32 {
        self.writer_wake_counter
    }

    /// The protected value.
    pub closed spec fn content(&self) -> T {
        self.value
    }

    /// The lock's identity; nothing is said of it at creation, so a guard of
    /// another lock cannot be shown to belong to this one.
    pub closed spec fn id(&self) -> nat {
        self.id@
    }

    /// Some reader holds the lock (and so no writer does).
    pub open spec fn is_read_locked(&self) -> bool {
        0 < self.word() < WRITE_LOCKED
    }

    /// The writer holds the lock (and so no reader does).
    pub open spec fn is_write_locked(&self) -> bool {
        self.word() == WRITE_LOCKED
    }

    pub fn new(value: T) -> (l: Self)
        ensures
            l.word() == 0,
            l.wake_counter() == 0,
            l.content() == value,
    {
        RwLock { state: 0, writer_wake_counter: 0, value, id: Ghost(0) }
    }

    /// Load the lock word.
    pub fn load(&self) -> (w: u32)
        ensures
            w == self.word(),
    {
        self.state
    }

    /// Load the writer wake counter.
    pub fn load_counter(&self) -> (c: u32)
        ensures
            c == self.wake_counter(),
    {
        self.writer_wake_counter
    }

    /// One step of a reader's acquisition loop, from `phase`. A reader
    /// starts at `ReadPhase::Load`.
    pub fn read(&mut self, phase: ReadPhase) -> (r: Step<ReadGuard, ReadPhase>)
        requires
            read_step_defined(phase),
        ensures
            (final(self).word(), r.kind()) == read_next(old(self).word(), phase),
            final(self).wake_counter() == old(self).wake_counter(),
            final(self).content() == old(self).content(),
            final(self).id() == old(self).id(),
            r matches Step::Acquired(g) ==> g.lock_id() == old(self).id(),
    {
        match phase {
            ReadPhase::Load => Step::Continue(ReadPhase::Try(self.state)),
            ReadPhase::Try(s) => {
                if s < WRITE_LOCKED {
                    if self.state == s {
                        self.state = s + 1;
                        Step::Acquired(ReadGuard { lock: Ghost(self.id@) })
                    } else {
                        let e = self.state;
                        if e == WRITE_LOCKED {
                            Step::Continue(ReadPhase::Wait)
                        } else {
                            Step::Continue(ReadPhase::Try(e))
                        }
                    }
                } else {
                    Step::Continue(ReadPhase::Wait)
                }
            },
            ReadPhase::Wait => {
                if self.state == WRITE_LOCKED {
                    Step::Sleep(ReadPhase::Load)
                } else {
                    Step::Continue(ReadPhase::Load)
                }
            },
        }
    }

    /// One step of a writer's acquisition loop, from `phase`. A writer
    /// starts at `WritePhase::TryLock`.
    pub fn write(&mut self, phase: WritePhase) -> (r: Step<WriteGuard, WritePhase>)
        ensures
            (final(self).word(), r.kind()) == write_next(
                old(self).word(),
                old(self).wake_counter(),
                phase,
            ),
            final(self).wake_counter() == old(self).wake_counter(),
            final(self).content() == old(self).content(),
            final(self).id() == old(self).id(),
            r matches Step::Acquired(g) ==> g.lock_id() == old(self).id(),
    {
        match phase {
            WritePhase::TryLock => {
                if self.state == 0 {
                    self.state = WRITE_LOCKED;
                    Step::Acquired(WriteGuard { lock: Ghost(self.id@) })
                } else {
                    Step::Continue(WritePhase::LoadCounter)
                }
            },
            WritePhase::LoadCounter => Step::Continue(WritePhase::CheckState(self.writer_wake_counter)),
            WritePhase::CheckState(w) => {
                if self.state != 0 {
                    Step::Continue(WritePhase::Wait(w))
                } else {
                    Step::Continue(WritePhase::TryLock)
                }
            },
            WritePhase::Wait(w) => {
                if self.writer_wake_counter == w {
                    Step::Sleep(WritePhase::TryLock)
                } else {
                    Step::Continue(WritePhase::TryLock)
                }
            },
        }
    }

    /// Release a read hold: take one reader off the word. The last reader
    /// out gets a `WriterWake`, with which it must then move the writer wake
    /// counter on (`wake_writer`).
    pub fn release_read(&mut self, guard: ReadGuard) -> (last: Option<WriterWake>)
        requires
            old(self).is_read_locked(),
            guard.lock_id() == old(self).id(),
        ensures
            final(self).word() == old(self).word() - 1,
            last is Some <==> old(self).word() == 1,
            last matches Some(l) ==> l.lock_id() == old(self).id(),
            final(self).wake_counter() == old(self).wake_counter(),
            final(self).content() == old(self).content(),
            final(self).id() == old(self).id(),
    {
        let prev = self.state;
        self.state = prev - 1;
        if prev == 1 {
            Some(WriterWake { lock: Ghost(self.id@) })
        } else {
            None
        }
    }

    /// The second step of a release that frees the lock: move the writer
    /// wake counter on (wrapping); one writer waiting on the counter is then
    /// to be woken.
    pub fn wake_writer(&mut self, last: WriterWake)
        requires
            last.lock_id() == old(self).id(),
        ensures
            final(self).word() == old(self).word(),
            final(self).wake_counter() == old(self).wake_counter().wrapping_add(1),
            final(self).content() == old(self).content(),
            final(self).id() == old(self).id(),
    {
        self.writer_wake_counter = self.writer_wake_counter.wrapping_add(1);
    }

    /// Release the write hold, waking all waiting readers and writers: the
    /// word becomes 0 (every thread blocked on the word is then to be woken)
    /// and the writer wake counter moves on, wrapping (one writer blocked on
    /// the counter is then to be woken).
    pub fn release_write(&mut self, guard: WriteGuard)
        requires
            old(self).is_write_locked(),
            guard.lock_id() == old(self).id(),
        ensures
            final(self).id() == old(self).id(),
            final(self).word() == 0,
            final(self).wake_counter() == old(self).wake_counter().wrapping_add(1),
            final(self).content() == old(self).content(),
    {
        self.state = 0;
        self.writer_wake_counter = self.writer_wake_counter.wrapping_add(1);
    }

    /// Read the value while some thread holds the lock.
    pub(crate) fn get_held(&self) -> (v: &T)
        requires
            self.word() != 0,
        ensures
            *v == self.content(),
    {
        &self.value
    }

    /// Replace the value while a writer holds the lock.
    pub(crate) fn set_held(&mut self, value: T)
        requires
            old(self).is_write_locked(),
        ensures
            final(self).word() == old(self).word(),
            final(self).wake_counter() == old(self).wake_counter(),
            final(self).content() == value,
            final(self).id() == old(self).id(),
    {
        self.value = value;
    }

    /// Read the value under a read hold.
    pub fn get(&self, guard: &ReadGuard) -> (v: &T)
        requires
            self.is_read_locked(),
            guard.lock_id() == self.id(),
        ensures
            *v == self.content(),
    {
        &self.value
    }

    /// Read the value under the write hold.
    pub fn get_written(&self, guard: &WriteGuard) -> (v: &T)
        requires
            self.is_write_locked(),
            guard.lock_id() == self.id(),
        ensures
            *v == self.content(),
    {
        &self.value
    }

    /// Replace the value under the write hold.
    pub fn set(&mut self, guard: &WriteGuard, value: T)
        requires
            old(self).is_write_locked(),
            guard.lock_id() == old(self).id(),
        ensures
            final(self).id() == old(self).id(),
            final(self).word() == old(self).word(),
            final(self).wake_counter() == old(self).wake_counter(),
            final(self).content() == value,
    {
        self.value = value;
    }
}

/// A reader acquires only when the word held exactly the value it expected
/// and that value counted readers: never while the lock is write-locked,
/// and the word then counts one reader more, still short of `WRITE_LOCKED`.
pub proof fn lemma_reader_excludes_writer(state: u32, phase: ReadPhase)
    requires
        read_step_defined(phase),
        read_next(state, phase).1 == StepKind::<ReadPhase>::Acquired,
    ensures
        state < WRITE_LOCKED - 1,
        read_next(state, phase).0 == state + 1,
        read_next(state, phase).0 < WRITE_LOCKED,
{
}

/// A writer acquires only when no reader and no writer holds the lock.
pub proof fn lemma_writer_excludes_all(state: u32, counter: u32, phase: WritePhase)
    requires
        write_next(state, counter, phase).1 == StepKind::<WritePhase>::Acquired,
    ensures
        state == 0,
        write_next(state, counter, phase).0 == WRITE_LOCKED,
{
}

/// While the lock is write-locked, no reader or writer step changes the word.
pub proof fn lemma_write_lock_is_stable(counter: u32, rp: ReadPhase, wp: WritePhase)
    ensures
        read_next(WRITE_LOCKED, rp).0 == WRITE_LOCKED,
        read_next(WRITE_LOCKED, rp).1 != StepKind::<ReadPhase>::Acquired,
        write_next(WRITE_LOCKED, counter, wp).0 == WRITE_LOCKED,
        write_next(WRITE_LOCKED, counter, wp).1 != StepKind::<WritePhase>::Acquired,
{
}

/// While readers hold the lock, reader steps only ever add readers and
/// writer steps leave the word alone: a writer cannot get in.
pub proof fn lemma_read_lock_keeps_writers_out(state: u32, counter: u32, rp: ReadPhase, wp: WritePhase)
    requires
        0 < state < WRITE_LOCKED,
        read_step_defined(rp),
    ensures
        state <= read_next(state, rp).0 < WRITE_LOCKED,
        write_next(state, counter, wp).0 == state,
        write_next(state, counter, wp).1 != StepKind::<WritePhase>::Acquired,
{
}

/// Whether a reader at `phase` gets a read hold within `fuel` of its own
/// steps on a lock word that holds `state` and that no other thread changes:
/// every step before leaves the word as it is and does not block, and the
/// acquiring step adds one reader to the word.
pub open spec fn reader_gets_in(state: u32, phase: ReadPhase, fuel: nat) -> bool
    decreases fuel,
{
    if fuel == 0 || !read_step_defined(phase) {
        false
    } else {
        let (w, k) = read_next(state, phase);
        match k {
            StepKind::Acquired => w == state + 1,
            StepKind::Continue(q) => w == state && reader_gets_in(state, q, (fuel - 1) as nat),
            StepKind::Sleep(_) => false,
        }
    }
}

/// Whether a writer at `phase` gets the write hold within `fuel` of its own
/// steps on a lock word that holds `state` and a wake counter that holds
/// `counter`, neither changed by another thread (a step that blocks counts
/// as resuming where it says): every step before leaves the word as it is,
/// and the acquiring step write-locks it.
pub open spec fn writer_gets_in(state: u32, counter: u32, phase: WritePhase, fuel: nat) -> bool
    decreases fuel,
{
    if fuel == 0 {
        false
    } else {
        let (w, k) = write_next(state, counter, phase);
        match k {
            StepKind::Acquired => w == WRITE_LOCKED,
            StepKind::Continue(q) => w == state && writer_gets_in(state, counter, q, (fuel - 1) as nat),
            StepKind::Sleep(q) => w == state && writer_gets_in(state, counter, q, (fuel - 1) as nat),
        }
    }
}

/// Whether a reader at `phase` blocks within `fuel` of its own steps on a
/// lock word that holds `state` and that no other thread changes, without
/// acquiring and without changing the word.
pub open spec fn reader_blocks(state: u32, phase: ReadPhase, fuel: nat) -> bool
    decreases fuel,
{
    if fuel == 0 || !read_step_defined(phase) {
        false
    } else {
        let (w, k) = read_next(state, phase);
        match k {
            StepKind::Acquired => false,
            StepKind::Continue(q) => w == state && reader_blocks(state, q, (fuel - 1) as nat),
            StepKind::Sleep(q) => w == state && q == ReadPhase::Load,
        }
    }
}

/// Whether a writer at `phase` blocks within `fuel` of its own steps on a
/// lock word that holds `state` and a wake counter that holds `counter`,
/// neither changed by another thread, without acquiring and without
/// changing the word.
pub open spec fn writer_blocks(state: u32, counter: u32, phase: WritePhase, fuel: nat) -> bool
    decreases fuel,
{
    if fuel == 0 {
        false
    } else {
        let (w, k) = write_next(state, counter, phase);
        match k {
            StepKind::Acquired => false,
            StepKind::Continue(q) => w == state && writer_blocks(state, counter, q, (fuel - 1) as nat),
            StepKind::Sleep(q) => w == state && q == WritePhase::TryLock,
        }
    }
}

/// Reader progress: on a lock word that is not write-locked (and below the
/// reader limit) and that no other thread changes, a reader never blocks
/// and gets in, adding exactly one reader, within: one step when it holds
/// the current word; two from `Load` or from a stale count; three from
/// `Wait`; four when it last saw the word write-locked.
pub proof fn lemma_reader_progress(state: u32, phase: ReadPhase)
    requires
        state < WRITE_LOCKED - 1,
        read_step_defined(phase),
    ensures
        reader_gets_in(state, ReadPhase::Try(state), 1),
        reader_gets_in(state, ReadPhase::Load, 2),
        reader_gets_in(state, ReadPhase::Wait, 3),
        reader_gets_in(state, ReadPhase::Try(WRITE_LOCKED), 4),
        phase matches ReadPhase::Try(x) && x < WRITE_LOCKED ==> reader_gets_in(state, phase, 2),
        reader_gets_in(state, phase, 4),
{
    reveal_with_fuel(reader_gets_in, 5);
    assert(reader_gets_in(state, ReadPhase::Try(state), 1));
    assert(reader_gets_in(state, ReadPhase::Load, 2));
    assert(reader_gets_in(state, ReadPhase::Wait, 3));
    assert(reader_gets_in(state, ReadPhase::Try(WRITE_LOCKED), 4));
    match phase {
        ReadPhase::Try(x) => {
            if x != WRITE_LOCKED {
                assert(reader_gets_in(state, ReadPhase::Try(x), 2));
                assert(reader_gets_in(state, ReadPhase::Try(x), 4));
            }
        },
        _ => {},
    }
}

/// Readers block on a write-locked word: on a word that reads
/// `WRITE_LOCKED` and that no other thread changes, a reader at any phase
/// blocks (and resumes at `Load` when woken) within three of its own steps,
/// never acquiring and never spinning longer.
pub proof fn lemma_reader_blocks_on_write_lock(phase: ReadPhase)
    requires
        read_step_defined(phase),
    ensures
        reader_blocks(WRITE_LOCKED, ReadPhase::Wait, 1),
        reader_blocks(WRITE_LOCKED, phase, 3),
{
    reveal_with_fuel(reader_blocks, 4);
    assert(reader_blocks(WRITE_LOCKED, ReadPhase::Wait, 1));
    assert(reader_blocks(WRITE_LOCKED, ReadPhase::Try(WRITE_LOCKED), 2));
    assert(reader_blocks(WRITE_LOCKED, ReadPhase::Load, 3));
    match phase {
        ReadPhase::Try(x) => {
            assert(reader_blocks(WRITE_LOCKED, ReadPhase::Try(x), 3));
        },
        _ => {},
    }
}

/// Writer progress: on a free lock word that no other thread changes, a
/// writer (whatever counter value it carries and whatever the counter
/// holds) gets the write hold within: one step from `TryLock`; two from
/// `CheckState` or `Wait`; three from `LoadCounter`.
pub proof fn lemma_writer_progress(counter: u32, w: u32, phase: WritePhase)
    ensures
        writer_gets_in(0, counter, WritePhase::TryLock, 1),
        writer_gets_in(0, counter, WritePhase::CheckState(w), 2),
        writer_gets_in(0, counter, WritePhase::Wait(w), 2),
        writer_gets_in(0, counter, WritePhase::LoadCounter, 3),
        writer_gets_in(0, counter, phase, 3),
{
    reveal_with_fuel(writer_gets_in, 4);
    assert(writer_gets_in(0, counter, WritePhase::TryLock, 1));
    assert(writer_gets_in(0, counter, WritePhase::CheckState(w), 2));
    assert(writer_gets_in(0, counter, WritePhase::CheckState(counter), 2));
    assert(writer_gets_in(0, counter, WritePhase::Wait(w), 2));
    match phase {
        WritePhase::CheckState(v) => {
            assert(writer_gets_in(0, counter, WritePhase::CheckState(v), 2));
        },
        WritePhase::Wait(v) => {
            assert(writer_gets_in(0, counter, WritePhase::Wait(v), 2));
        },
        _ => {},
    }
}

/// Writers block on a held lock: on a lock word that is held (by readers or
/// a writer) and a wake counter, neither changed by another thread, a writer
/// at any phase blocks (and resumes at `TryLock` when woken) within six of
/// its own steps, never acquiring: it reads the counter, checks the word,
/// and waits on the counter value it read; a writer carrying a stale counter
/// value first goes back to the compare-exchange.
pub proof fn lemma_writer_blocks_on_held_lock(state: u32, counter: u32, phase: WritePhase)
    requires
        state != 0,
    ensures
        writer_blocks(state, counter, WritePhase::Wait(counter), 1),
        writer_blocks(state, counter, WritePhase::CheckState(counter), 2),
        writer_blocks(state, counter, WritePhase::LoadCounter, 3),
        writer_blocks(state, counter, WritePhase::TryLock, 4),
        writer_blocks(state, counter, phase, 6),
{
    reveal_with_fuel(writer_blocks, 7);
    assert(writer_blocks(state, counter, WritePhase::Wait(counter), 1));
    assert(writer_blocks(state, counter, WritePhase::CheckState(counter), 2));
    assert(writer_blocks(state, counter, WritePhase::LoadCounter, 3));
    assert(writer_blocks(state, counter, WritePhase::TryLock, 4));
    match phase {
        WritePhase::CheckState(v) => {
            assert(writer_blocks(state, counter, WritePhase::Wait(v), 5));
            assert(writer_blocks(state, counter, WritePhase::CheckState(v), 6));
        },
        WritePhase::Wait(v) => {
            assert(writer_blocks(state, counter, WritePhase::Wait(v), 6));
        },
        _ => {},
    }
}

/// Where one thread stands with respect to the lock.
#[derive(PartialEq, Eq, Structural)]
pub enum RwThread {
    /// Not holding the lock and not trying to.
    Idle,
    /// Acquiring a read hold, about to take the given step.
    Reading(ReadPhase),
    /// Blocked while acquiring a read hold.
    ReadAsleep,
    /// Holding a read hold.
    ReadHolding,
    /// Acquiring the write hold, about to take the given step.
    Writing(WritePhase),
    /// Blocked while acquiring the write hold.
    WriteAsleep,
    /// Holding the write hold.
    WriteHolding,
    /// Released the last read hold; about to move the writer wake counter
    /// on and wake a writer.
    WakingWriter,
}

/// One atomic step of one thread.
pub enum RwEvent {
    /// An idle thread starts to acquire a read hold.
    StartRead(nat),
    /// A reader takes its next acquisition step.
    ReadStep(nat),
    /// An idle thread starts to acquire the write hold.
    StartWrite(nat),
    /// A writer takes its next acquisition step.
    WriteStep(nat),
    /// A blocked thread wakes up (after a wake-up call, or spuriously).
    Wake(nat),
    /// A reader releases its hold.
    ReleaseRead(nat),
    /// The last reader out moves the writer wake counter on.
    WakeWriter(nat),
    /// The writer releases its hold.
    ReleaseWrite(nat),
}

/// Any number of threads sharing one reader-writer lock: the two words, the
/// state of each thread (absent means idle), the set of readers holding the
/// lock, the writer holding it, if any, the blocked readers that a
/// writer's release has woken and that have not run yet, how many times the
/// writer wake counter has moved on in all, how many writer wake-ups are
/// outstanding, and for each writer the number of moves it had seen when it
/// last read the counter.
pub struct RwSystem {
    pub word: u32,
    pub counter: u32,
    pub threads: Map<nat, RwThread>,
    pub readers: Set<nat>,
    pub writer: Option<nat>,
    pub woken_readers: Set<nat>,
    pub bumps: nat,
    pub writer_wakes: nat,
    pub write_seen: Map<nat, nat>,
}

impl RwSystem {
    /// A fresh lock with every thread idle.
    pub open spec fn init() -> Self {
        RwSystem {
            word: 0,
            counter: 0,
            threads: Map::empty(),
            readers: Set::empty(),
            writer: None,
            woken_readers: Set::empty(),
            bumps: 0,
            writer_wakes: 0,
            write_seen: Map::empty(),
        }
    }

    pub open spec fn state_of(self, t: nat) -> RwThread {
        if self.threads.contains_key(t) {
            self.threads[t]
        } else {
            RwThread::Idle
        }
    }

    /// The system after event `e`; an event that the thread is not in a
    /// position to take (or a reader step that would give up with "too many
    /// readers") changes nothing.
    pub open spec fn next(self, e: RwEvent) -> Self {
        match e {
            RwEvent::StartRead(t) => if self.state_of(t) == RwThread::Idle {
                RwSystem { threads: self.threads.insert(t, RwThread::Reading(ReadPhase::Load)), ..self }
            } else {
                self
            },
            RwEvent::StartWrite(t) => if self.state_of(t) == RwThread::Idle {
                RwSystem { threads: self.threads.insert(t, RwThread::Writing(WritePhase::TryLock)), ..self }
            } else {
                self
            },
            RwEvent::ReadStep(t) => match self.state_of(t) {
                RwThread::Reading(p) => if read_step_defined(p) {
                    let (w, k) = read_next(self.word, p);
                    match k {
                        StepKind::Acquired => RwSystem {
                            word: w,
                            threads: self.threads.insert(t, RwThread::ReadHolding),
                            readers: self.readers.insert(t),
                            ..self
                        },
                        StepKind::Continue(q) => RwSystem {
                            word: w,
                            threads: self.threads.insert(t, RwThread::Reading(q)),
                            ..self
                        },
                        StepKind::Sleep(_) => RwSystem {
                            word: w,
                            threads: self.threads.insert(t, RwThread::ReadAsleep),
                            ..self
                        },
                    }
                } else {
                    self
                },
                _ => self,
            },
            RwEvent::WriteStep(t) => match self.state_of(t) {
                RwThread::Writing(p) => {
                    let (w, k) = write_next(self.word, self.counter, p);
                    match k {
                        StepKind::Acquired => RwSystem {
                            word: w,
                            threads: self.threads.insert(t, RwThread::WriteHolding),
                            writer: Some(t),
                            ..self
                        },
                        StepKind::Continue(q) => RwSystem {
                            word: w,
                            threads: self.threads.insert(t, RwThread::Writing(q)),
                            write_seen: if p == WritePhase::LoadCounter {
                                self.write_seen.insert(t, self.bumps)
                            } else {
                                self.write_seen
                            },
                            ..self
                        },
                        StepKind::Sleep(_) => RwSystem {
                            word: w,
                            threads: self.threads.insert(t, RwThread::WriteAsleep),
                            ..self
                        },
                    }
                },
                _ => self,
            },
            RwEvent::Wake(t) => if self.state_of(t) == RwThread::ReadAsleep {
                RwSystem {
                    threads: self.threads.insert(t, RwThread::Reading(ReadPhase::Load)),
                    woken_readers: self.woken_readers.remove(t),
                    ..self
                }
            } else if self.state_of(t) == RwThread::WriteAsleep {
                RwSystem {
                    threads: self.threads.insert(t, RwThread::Writing(WritePhase::TryLock)),
                    writer_wakes: if self.writer_wakes > 0 { (self.writer_wakes - 1) as nat } else { 0 },
                    ..self
                }
            } else {
                self
            },
            RwEvent::ReleaseRead(t) => if self.state_of(t) == RwThread::ReadHolding {
                RwSystem {
                    word: (self.word - 1) as u32,
                    threads: self.threads.insert(
                        t,
                        if self.word == 1 { RwThread::WakingWriter } else { RwThread::Idle },
                    ),
                    readers: self.readers.remove(t),
                    ..self
                }
            } else {
                self
            },
            RwEvent::WakeWriter(t) => if self.state_of(t) == RwThread::WakingWriter {
                RwSystem {
                    counter: self.counter.wrapping_add(1),
                    threads: self.threads.insert(t, RwThread::Idle),
                    bumps: self.bumps + 1,
                    writer_wakes: self.writer_wakes + 1,
                    ..self
                }
            } else {
                self
            },
            RwEvent::ReleaseWrite(t) => if self.state_of(t) == RwThread::WriteHolding {
                RwSystem {
                    word: 0,
                    counter: self.counter.wrapping_add(1),
                    threads: self.threads.insert(t, RwThread::Idle),
                    writer: None,
                    bumps: self.bumps + 1,
                    writer_wakes: self.writer_wakes + 1,
                    woken_readers: Set::new(
                        |u: nat| self.woken_readers.contains(u) || self.state_of(u) == RwThread::ReadAsleep,
                    ),
                    ..self
                }
            } else {
                self
            },
        }
    }

    /// The system after the events `es`, in order.
    pub open spec fn run(self, es: Seq<RwEvent>) -> Self
        decreases es.len(),
    {
        if es.len() == 0 {
            self
        } else {
            self.run(es.drop_last()).next(es.last())
        }
    }

    /// The invariant: the recorded readers and writer are exactly the
    /// threads holding the lock; the word reads `WRITE_LOCKED` exactly when a
    /// writer holds it, and then no reader does; otherwise the word counts
    /// the readers.
    pub open spec fn inv(self) -> bool {
        &&& self.readers.finite()
        &&& forall|t: nat| #[trigger] self.readers.contains(t) <==> self.state_of(t) == RwThread::ReadHolding
        &&& forall|t: nat| self.writer == Some(t) <==> #[trigger] self.state_of(t) == RwThread::WriteHolding
        &&& (self.word == WRITE_LOCKED <==> self.writer is Some)
        &&& (self.word == WRITE_LOCKED ==> self.readers.is_empty())
        &&& (self.word < WRITE_LOCKED ==> self.word == self.readers.len())
    }
}

impl RwSystem {
    /// The two systems agree on the words, the holders, the woken readers
    /// and the state of every thread.
    pub open spec fn same_as(self, other: RwSystem) -> bool {
        &&& self.word == other.word
        &&& self.counter == other.counter
        &&& self.readers == other.readers
        &&& self.writer == other.writer
        &&& self.woken_readers == other.woken_readers
        &&& self.bumps == other.bumps
        &&& self.writer_wakes == other.writer_wakes
        &&& self.write_seen == other.write_seen
        &&& forall|t: nat| #[trigger] self.state_of(t) == other.state_of(t)
    }

    /// No blocked reader is stranded: a reader blocks only on a write-locked
    /// word, and while it is blocked the word stays write-locked or the
    /// writer's release has woken it.
    pub open spec fn no_stranded_reader(self) -> bool {
        forall|t: nat| #[trigger] self.state_of(t) == RwThread::ReadAsleep ==>
            self.word == WRITE_LOCKED || self.woken_readers.contains(t)
    }
}

/// Every step of every thread keeps blocked readers from being stranded.
pub proof fn lemma_rw_next_keeps_no_stranded_reader(s: RwSystem, e: RwEvent)
    requires
        s.inv(),
        s.no_stranded_reader(),
    ensures
        s.next(e).no_stranded_reader(),
{
    let n = s.next(e);
    let et = match e {
        RwEvent::StartRead(t) => t,
        RwEvent::ReadStep(t) => t,
        RwEvent::StartWrite(t) => t,
        RwEvent::WriteStep(t) => t,
        RwEvent::Wake(t) => t,
        RwEvent::ReleaseRead(t) => t,
        RwEvent::WakeWriter(t) => t,
        RwEvent::ReleaseWrite(t) => t,
    };
    assert(s.readers.contains(et) <==> s.state_of(et) == RwThread::ReadHolding);
    assert forall|t: nat| #[trigger] n.state_of(t) == RwThread::ReadAsleep implies
        n.word == WRITE_LOCKED || n.woken_readers.contains(t) by {
        assert(s.state_of(t) == RwThread::ReadAsleep ==> s.word == WRITE_LOCKED || s.woken_readers.contains(t));
        if t != et {
            assert(n.state_of(t) == s.state_of(t));
        }
        match e {
            RwEvent::ReleaseRead(u) => {
                if s.state_of(u) == RwThread::ReadHolding && s.word == WRITE_LOCKED {
                    assert(s.readers.contains(u));
                }
            },
            _ => {},
        }
    }
}

/// Every interleaving keeps blocked readers from being stranded: from a new
/// lock, a blocked reader always has a write-locked word (whose release will
/// wake it) or has already been woken.
pub proof fn lemma_no_stranded_reader(es: Seq<RwEvent>)
    ensures
        RwSystem::init().run(es).no_stranded_reader(),
    decreases es.len(),
{
    if es.len() > 0 {
        lemma_no_stranded_reader(es.drop_last());
        let s = RwSystem::init();
        assert(s.inv()) by {
            assert forall|u: nat| #[trigger] s.readers.contains(u) <==> s.state_of(u) == RwThread::ReadHolding by {}
            assert forall|u: nat| s.writer == Some(u) <==> #[trigger] s.state_of(u) == RwThread::WriteHolding by {}
        }
        lemma_rw_run_keeps_inv(s, es.drop_last());
        lemma_rw_next_keeps_no_stranded_reader(s.run(es.drop_last()), es.last());
    }
}

/// Every step of every thread keeps the invariant.
pub proof fn lemma_rw_next_keeps_inv(s: RwSystem, e: RwEvent)
    requires
        s.inv(),
    ensures
        s.next(e).inv(),
{
    let n = s.next(e);
    let et = match e {
        RwEvent::StartRead(t) => t,
        RwEvent::ReadStep(t) => t,
        RwEvent::StartWrite(t) => t,
        RwEvent::WriteStep(t) => t,
        RwEvent::Wake(t) => t,
        RwEvent::ReleaseRead(t) => t,
        RwEvent::WakeWriter(t) => t,
        RwEvent::ReleaseWrite(t) => t,
    };
    assert(s.readers.contains(et) <==> s.state_of(et) == RwThread::ReadHolding);
    assert(s.writer == Some(et) <==> s.state_of(et) == RwThread::WriteHolding);
    assert forall|u: nat| u != et implies #[trigger] n.state_of(u) == s.state_of(u) by {}
    match e {
        RwEvent::ReleaseRead(t) => {
            if s.state_of(t) == RwThread::ReadHolding {
                assert(s.readers.contains(t));
                assert(s.readers.len() > 0);
                if s.word == WRITE_LOCKED {
                    assert(s.readers.is_empty());
                    assert(false);
                }
            }
        },
        RwEvent::ReleaseWrite(t) => {
            if s.state_of(t) == RwThread::WriteHolding {
                assert(s.word == WRITE_LOCKED);
                assert(s.readers =~= Set::<nat>::empty());
            }
        },
        RwEvent::ReadStep(t) => {
            if s.word == WRITE_LOCKED {
                assert(s.readers =~= Set::<nat>::empty());
            }
        },
        RwEvent::WriteStep(t) => {
            if s.word == 0 {
                assert(s.readers.len() == 0);
                assert(s.readers =~= Set::<nat>::empty());
            }
        },
        _ => {},
    }
    assert forall|u: nat| #[trigger] n.readers.contains(u) <==> n.state_of(u) == RwThread::ReadHolding by {
        assert(s.readers.contains(u) <==> s.state_of(u) == RwThread::ReadHolding);
    }
    assert forall|u: nat| n.writer == Some(u) <==> #[trigger] n.state_of(u) == RwThread::WriteHolding by {
        assert(s.writer == Some(u) <==> s.state_of(u) == RwThread::WriteHolding);
    }
}

/// Every interleaving keeps the invariant.
pub proof fn lemma_rw_run_keeps_inv(s: RwSystem, es: Seq<RwEvent>)
    requires
        s.inv(),
    ensures
        s.run(es).inv(),
    decreases es.len(),
{
    if es.len() > 0 {
        lemma_rw_run_keeps_inv(s, es.drop_last());
        lemma_rw_next_keeps_inv(s.run(es.drop_last()), es.last());
    }
}

/// Readers and writers exclude each other: in every interleaving of any
/// threads' steps, starting from a new lock, a thread holding the write
/// hold is the only thread holding the lock at all, and the lock word
/// counts the threads holding read holds whenever it is not write-locked.
pub proof fn lemma_reader_writer_exclusion(es: Seq<RwEvent>, w: nat, t: nat)
    ensures
        ({
            let r = RwSystem::init().run(es);
            r.state_of(w) == RwThread::WriteHolding && t != w ==> r.state_of(t) != RwThread::WriteHolding
                && r.state_of(t) != RwThread::ReadHolding
        }),
        ({
            let r = RwSystem::init().run(es);
            r.word < WRITE_LOCKED ==> r.word == r.readers.len()
        }),
{
    let s = RwSystem::init();
    assert(s.inv()) by {
        assert forall|u: nat| #[trigger] s.readers.contains(u) <==> s.state_of(u) == RwThread::ReadHolding by {}
        assert forall|u: nat| s.writer == Some(u) <==> #[trigger] s.state_of(u) == RwThread::WriteHolding by {}
    }
    lemma_rw_run_keeps_inv(s, es);
    let r = s.run(es);
    assert(r.writer == Some(w) <==> r.state_of(w) == RwThread::WriteHolding);
    assert(r.writer == Some(t) <==> r.state_of(t) == RwThread::WriteHolding);
    assert(r.readers.contains(t) <==> r.state_of(t) == RwThread::ReadHolding);
}

/// Releasing a read hold undoes taking it: a reader that gets in from
/// word `s` and releases leaves the word at `s` again; the wake counter moves
/// (and a writer is woken) only when the lock becomes free.
pub proof fn lemma_read_release_roundtrip(s: u32)
    requires
        s < WRITE_LOCKED - 1,
    ensures
        read_next(s, ReadPhase::Try(s)) == ((s + 1) as u32, StepKind::<ReadPhase>::Acquired),
        read_next(s, ReadPhase::Try(s)).0 - 1 == s,
        read_next(s, ReadPhase::Try(s)).0 == 1 <==> s == 0,
{
}

/// Releasing the write hold undoes taking it: the word goes from 0 to
/// `WRITE_LOCKED` and back to 0.
pub proof fn lemma_write_release_roundtrip(counter: u32)
    ensures
        write_next(0, counter, WritePhase::TryLock) == (WRITE_LOCKED, StepKind::<WritePhase>::Acquired),
{
}

/// Systems that agree thread by thread satisfy the same invariants.
pub proof fn lemma_rw_same_as_keeps_inv(a: RwSystem, b: RwSystem)
    requires
        a.same_as(b),
        a.inv(),
        a.no_stranded_reader(),
    ensures
        b.inv(),
        b.no_stranded_reader(),
{
    assert forall|t: nat| #[trigger] b.readers.contains(t) <==> b.state_of(t) == RwThread::ReadHolding by {
        assert(a.state_of(t) == b.state_of(t));
        assert(a.readers.contains(t) <==> a.state_of(t) == RwThread::ReadHolding);
    }
    assert forall|t: nat| b.writer == Some(t) <==> #[trigger] b.state_of(t) == RwThread::WriteHolding by {
        assert(a.state_of(t) == b.state_of(t));
        assert(a.writer == Some(t) <==> a.state_of(t) == RwThread::WriteHolding);
    }
    assert forall|t: nat| #[trigger] b.state_of(t) == RwThread::ReadAsleep implies
        b.word == WRITE_LOCKED || b.woken_readers.contains(t) by {
        assert(a.state_of(t) == b.state_of(t));
        assert(a.state_of(t) == RwThread::ReadAsleep ==> a.word == WRITE_LOCKED || a.woken_readers.contains(t));
    }
}

/// Systems that agree thread by thread satisfy the same writer invariant.
pub proof fn lemma_rw_same_as_keeps_writer_inv(a: RwSystem, b: RwSystem)
    requires
        a.same_as(b),
        a.writer_inv(),
    ensures
        b.writer_inv(),
{
    assert forall|u: nat| #![trigger b.state_of(u)]
        b.carried(u) is Some || b.state_of(u) == RwThread::WriteAsleep implies {
            &&& b.write_seen.contains_key(u)
            &&& b.write_seen[u] <= b.bumps
            &&& (b.carried(u) is Some ==> b.carried(u) == Some((b.write_seen[u] % wake_counter_range()) as u32))
        } by {
        assert(a.state_of(u) == b.state_of(u));
    }
    if exists|v: nat| #[trigger] a.waking_writer(v) {
        let v = choose|v: nat| #[trigger] a.waking_writer(v);
        assert(a.state_of(v) == b.state_of(v));
        assert(b.waking_writer(v));
    }
    assert forall|u: nat| #[trigger] b.waiting_writer(u) && b.write_seen[u] == b.bumps implies b.word != 0
        || exists|v: nat| #[trigger] b.waking_writer(v) by {
        assert(a.state_of(u) == b.state_of(u));
        assert(a.waiting_writer(u));
    }
    if exists|t: nat| #[trigger] b.state_of(t) == RwThread::WriteAsleep {
        let t = choose|t: nat| #[trigger] b.state_of(t) == RwThread::WriteAsleep;
        assert(a.state_of(t) == b.state_of(t));
        if exists|u: nat| #[trigger] a.writer_contender(u) {
            let u = choose|u: nat| #[trigger] a.writer_contender(u);
            assert(a.state_of(u) == b.state_of(u));
            assert(b.writer_contender(u));
        }
    }
}

/// The executable state of one thread of an `RwSchedule`.
pub enum RwSlot {
    Idle,
    Reading(ReadPhase),
    ReadAsleep,
    ReadHolding(ReadGuard),
    Writing(WritePhase),
    WriteAsleep,
    WriteHolding(WriteGuard),
    WakingWriter(WriterWake),
}

/// The thread state a slot stands for.
pub open spec fn rw_slot_state(s: RwSlot) -> RwThread {
    match s {
        RwSlot::Idle => RwThread::Idle,
        RwSlot::Reading(p) => RwThread::Reading(p),
        RwSlot::ReadAsleep => RwThread::ReadAsleep,
        RwSlot::ReadHolding(_) => RwThread::ReadHolding,
        RwSlot::Writing(p) => RwThread::Writing(p),
        RwSlot::WriteAsleep => RwThread::WriteAsleep,
        RwSlot::WriteHolding(_) => RwThread::WriteHolding,
        RwSlot::WakingWriter(_) => RwThread::WakingWriter,
    }
}

/// A slot holding a guard keeps one of the lock with identity `id`.
pub open spec fn rw_slot_bound(s: RwSlot, id: nat) -> bool {
    match s {
        RwSlot::ReadHolding(g) => g.lock_id() == id,
        RwSlot::WriteHolding(g) => g.lock_id() == id,
        RwSlot::WakingWriter(l) => l.lock_id() == id,
        _ => true,
    }
}

/// One step of one thread of an `RwSchedule`, by thread index.
#[derive(PartialEq, Eq, Structural, Clone, Copy, Debug)]
pub enum RwThreadEvent {
    StartRead(usize),
    ReadStep(usize),
    StartWrite(usize),
    WriteStep(usize),
    Wake(usize),
    ReleaseRead(usize),
    WakeWriter(usize),
    ReleaseWrite(usize),
}

/// The event a thread event stands for.
pub open spec fn rw_event_of(e: RwThreadEvent) -> RwEvent {
    match e {
        RwThreadEvent::StartRead(t) => RwEvent::StartRead(t as nat),
        RwThreadEvent::ReadStep(t) => RwEvent::ReadStep(t as nat),
        RwThreadEvent::StartWrite(t) => RwEvent::StartWrite(t as nat),
        RwThreadEvent::WriteStep(t) => RwEvent::WriteStep(t as nat),
        RwThreadEvent::Wake(t) => RwEvent::Wake(t as nat),
        RwThreadEvent::ReleaseRead(t) => RwEvent::ReleaseRead(t as nat),
        RwThreadEvent::WakeWriter(t) => RwEvent::WakeWriter(t as nat),
        RwThreadEvent::ReleaseWrite(t) => RwEvent::ReleaseWrite(t as nat),
    }
}

/// The thread index of a thread event.
pub open spec fn rw_event_thread(e: RwThreadEvent) -> usize {
    match e {
        RwThreadEvent::StartRead(t) => t,
        RwThreadEvent::ReadStep(t) => t,
        RwThreadEvent::StartWrite(t) => t,
        RwThreadEvent::WriteStep(t) => t,
        RwThreadEvent::Wake(t) => t,
        RwThreadEvent::ReleaseRead(t) => t,
        RwThreadEvent::WakeWriter(t) => t,
        RwThreadEvent::ReleaseWrite(t) => t,
    }
}

/// A reader-writer lock used by a fixed number of threads, run one atomic
/// step at a time in whatever order the caller chooses: each thread's guard
/// is kept in its slot while it holds the lock.
pub struct RwSchedule<T> {
    lock: RwLock<T>,
    threads: Vec<RwSlot>,
    readers: Ghost<Set<nat>>,
    writer: Ghost<Option<nat>>,
    woken_readers: Ghost<Set<nat>>,
    bumps: Ghost<nat>,
    writer_wakes: Ghost<nat>,
    write_seen: Ghost<Map<nat, nat>>,
    lapped: Ghost<bool>,
}

impl<T> RwSchedule<T> {
    /// The number of threads.
    pub closed spec fn thread_count(&self) -> nat {
        self.threads@.len()
    }

    /// The protected value.
    pub closed spec fn content(&self) -> T {
        self.lock.content()
    }

    /// The schedule as a system of threads.
    pub closed spec fn system(&self) -> RwSystem {
        RwSystem {
            word: self.lock.word(),
            counter: self.lock.wake_counter(),
            threads: Map::new(|t: nat| t < self.threads@.len(), |t: nat| rw_slot_state(self.threads@[t as int])),
            readers: self.readers@,
            writer: self.writer@,
            woken_readers: self.woken_readers@,
            bumps: self.bumps@,
            writer_wakes: self.writer_wakes@,
            write_seen: self.write_seen@,
        }
    }

    /// Whether some writer has checked the wake counter after it moved on a
    /// full range of times since that writer read it.
    pub closed spec fn lapped(&self) -> bool {
        self.lapped@
    }

    /// A schedule in which no counter check was lapped strands no blocked
    /// writer (see `lemma_no_stranded_writer`).
    pub proof fn lemma_schedule_strands_no_writer(&self)
        requires
            self.wf(),
            !self.lapped(),
        ensures
            self.system().no_stranded_writer(),
    {
    }

    /// The system keeps its invariants (those of the writers as long as no
    /// counter check was lapped), and every guard kept in a slot belongs to
    /// this lock.
    pub closed spec fn wf(&self) -> bool {
        &&& forall|i: int| 0 <= i < self.threads@.len() ==> #[trigger] rw_slot_bound(self.threads@[i], self.lock.id())
        &&& self.system().inv()
        &&& self.system().no_stranded_reader()
        &&& !self.lapped@ ==> self.system().writer_inv()
    }

    /// A new lock holding `value`, used by `n` idle threads.
    pub fn new(value: T, n: usize) -> (s: Self)
        ensures
            s.wf(),
            s.thread_count() == n,
            s.system().same_as(RwSystem::init()),
            !s.lapped(),
            s.content() == value,
    {
        let mut threads: Vec<RwSlot> = Vec::new();
        let mut i: usize = 0;
        while i < n
            invariant
                i <= n,
                threads@.len() == i,
                forall|j: int| 0 <= j < i ==> #[trigger] threads@[j] == RwSlot::Idle,
            decreases n - i,
        {
            threads.push(RwSlot::Idle);
            i = i + 1;
        }
        let s = RwSchedule {
            lock: RwLock::new(value),
            threads,
            readers: Ghost(Set::empty()),
            writer: Ghost(None),
            woken_readers: Ghost(Set::empty()),
            bumps: Ghost(0),
            writer_wakes: Ghost(0),
            write_seen: Ghost(Map::empty()),
            lapped: Ghost(false),
        };
        assert forall|t: nat| #[trigger] s.system().state_of(t) == RwSystem::init().state_of(t) by {
            if t < n {
                assert(s.threads@[t as int] == RwSlot::Idle);
            }
        }
        let ghost init = RwSystem::init();
        assert(init.inv()) by {
            assert forall|u: nat| #[trigger] init.readers.contains(u) <==> init.state_of(u) == RwThread::ReadHolding by {}
            assert forall|u: nat| init.writer == Some(u) <==> #[trigger] init.state_of(u) == RwThread::WriteHolding by {}
        }
        assert(init.same_as(s.system()));
        proof {
            lemma_rw_same_as_keeps_inv(init, s.system());
            lemma_no_stranded_writer(Seq::empty());
            assert(RwSystem::init().run(Seq::empty()) == init);
            lemma_rw_same_as_keeps_writer_inv(init, s.system());
        }
        s
    }

    /// Whether thread `t` holds a read hold.
    pub fn holds_read(&self, t: usize) -> (b: bool)
        requires
            t < self.thread_count(),
        ensures
            b == (self.system().state_of(t as nat) == RwThread::ReadHolding),
    {
        match &self.threads[t] {
            RwSlot::ReadHolding(_) => true,
            _ => false,
        }
    }

    /// Whether thread `t` holds the write hold.
    pub fn holds_write(&self, t: usize) -> (b: bool)
        requires
            t < self.thread_count(),
        ensures
            b == (self.system().state_of(t as nat) == RwThread::WriteHolding),
    {
        match &self.threads[t] {
            RwSlot::WriteHolding(_) => true,
            _ => false,
        }
    }

    /// Whether thread `t` is blocked as a reader (on the lock word).
    pub fn is_read_asleep(&self, t: usize) -> (b: bool)
        requires
            t < self.thread_count(),
        ensures
            b == (self.system().state_of(t as nat) == RwThread::ReadAsleep),
    {
        match &self.threads[t] {
            RwSlot::ReadAsleep => true,
            _ => false,
        }
    }

    /// Whether thread `t` is blocked as a writer (on the wake counter).
    pub fn is_write_asleep(&self, t: usize) -> (b: bool)
        requires
            t < self.thread_count(),
        ensures
            b == (self.system().state_of(t as nat) == RwThread::WriteAsleep),
    {
        match &self.threads[t] {
            RwSlot::WriteAsleep => true,
            _ => false,
        }
    }

    /// Run one step of one thread.
    pub fn step(&mut self, e: RwThreadEvent)
        requires
            old(self).wf(),
            rw_event_thread(e) < old(self).thread_count(),
        ensures
            final(self).wf(),
            final(self).thread_count() == old(self).thread_count(),
            final(self).system().same_as(old(self).system().next(rw_event_of(e))),
            final(self).lapped() == (old(self).lapped() || !old(self).system().check_unlapped(rw_event_of(e))),
            final(self).content() == old(self).content(),
    {
        let ghost before = self.system();
        let ghost was_lapped = self.lapped@;
        let ghost now_lapped = was_lapped || !before.check_unlapped(rw_event_of(e));
        self.lapped = Ghost(now_lapped);
        let t = match e {
            RwThreadEvent::StartRead(t) => t,
            RwThreadEvent::ReadStep(t) => t,
            RwThreadEvent::StartWrite(t) => t,
            RwThreadEvent::WriteStep(t) => t,
            RwThreadEvent::Wake(t) => t,
            RwThreadEvent::ReleaseRead(t) => t,
            RwThreadEvent::WakeWriter(t) => t,
            RwThreadEvent::ReleaseWrite(t) => t,
        };
        let ghost old_threads = self.threads@;
        let mut slot = RwSlot::Idle;
        self.threads.set_and_swap(t, &mut slot);
        assert(rw_slot_bound(old_threads[t as int], self.lock.id()));
        assert(rw_slot_state(slot) == before.state_of(t as nat));
        assert(before.readers.contains(t as nat) <==> before.state_of(t as nat) == RwThread::ReadHolding);
        assert(before.writer == Some(t as nat) <==> before.state_of(t as nat) == RwThread::WriteHolding);
        let new_slot = match e {
            RwThreadEvent::StartRead(_) => match slot {
                RwSlot::Idle => RwSlot::Reading(ReadPhase::Load),
                other => other,
            },
            RwThreadEvent::StartWrite(_) => match slot {
                RwSlot::Idle => RwSlot::Writing(WritePhase::TryLock),
                other => other,
            },
            RwThreadEvent::ReadStep(_) => match slot {
                RwSlot::Reading(p) => {
                    let defined = match p {
                        ReadPhase::Try(v) => v != WRITE_LOCKED - 1,
                        _ => true,
                    };
                    if defined {
                        match self.lock.read(p) {
                            Step::Acquired(g) => {
                                self.readers = Ghost(self.readers@.insert(t as nat));
                                RwSlot::ReadHolding(g)
                            },
                            Step::Continue(q) => RwSlot::Reading(q),
                            Step::Sleep(_) => RwSlot::ReadAsleep,
                        }
                    } else {
                        RwSlot::Reading(p)
                    }
                },
                other => other,
            },
            RwThreadEvent::WriteStep(_) => match slot {
                RwSlot::Writing(p) => match self.lock.write(p) {
                    Step::Acquired(g) => {
                        self.writer = Ghost(Some(t as nat));
                        RwSlot::WriteHolding(g)
                    },
                    Step::Continue(q) => {
                        self.write_seen = Ghost(
                            if p == WritePhase::LoadCounter {
                                self.write_seen@.insert(t as nat, self.bumps@)
                            } else {
                                self.write_seen@
                            },
                        );
                        RwSlot::Writing(q)
                    },
                    Step::Sleep(_) => RwSlot::WriteAsleep,
                },
                other => other,
            },
            RwThreadEvent::Wake(_) => match slot {
                RwSlot::ReadAsleep => {
                    self.woken_readers = Ghost(self.woken_readers@.remove(t as nat));
                    RwSlot::Reading(ReadPhase::Load)
                },
                RwSlot::WriteAsleep => {
                    self.writer_wakes = Ghost(
                        if self.writer_wakes@ > 0 { (self.writer_wakes@ - 1) as nat } else { 0 },
                    );
                    RwSlot::Writing(WritePhase::TryLock)
                },
                other => other,
            },
            RwThreadEvent::ReleaseRead(_) => match slot {
                RwSlot::ReadHolding(g) => {
                    proof {
                        assert(before.readers.len() > 0);
                        if before.word == WRITE_LOCKED {
                            assert(before.readers.is_empty());
                        }
                    }
                    let last = self.lock.release_read(g);
                    self.readers = Ghost(self.readers@.remove(t as nat));
                    match last {
                        Some(l) => RwSlot::WakingWriter(l),
                        None => RwSlot::Idle,
                    }
                },
                other => other,
            },
            RwThreadEvent::WakeWriter(_) => match slot {
                RwSlot::WakingWriter(l) => {
                    self.lock.wake_writer(l);
                    self.bumps = Ghost(self.bumps@ + 1);
                    self.writer_wakes = Ghost(self.writer_wakes@ + 1);
                    RwSlot::Idle
                },
                other => other,
            },
            RwThreadEvent::ReleaseWrite(_) => match slot {
                RwSlot::WriteHolding(g) => {
                    self.lock.release_write(g);
                    self.writer = Ghost(None);
                    self.bumps = Ghost(self.bumps@ + 1);
                    self.writer_wakes = Ghost(self.writer_wakes@ + 1);
                    self.woken_readers = Ghost(Set::new(
                        |u: nat| before.woken_readers.contains(u) || before.state_of(u) == RwThread::ReadAsleep,
                    ));
                    RwSlot::Idle
                },
                other => other,
            },
        };
        self.threads.set(t, new_slot);
        assert forall|i: int| 0 <= i < self.threads@.len() implies #[trigger] rw_slot_bound(self.threads@[i], self.lock.id()) by {
            if i != t as int {
                assert(self.threads@[i] == old_threads[i]);
                assert(rw_slot_bound(old_threads[i], self.lock.id()));
            }
        }
        let ghost after = self.system();
        let ghost expected = before.next(rw_event_of(e));
        assert forall|u: nat| #[trigger] after.state_of(u) == expected.state_of(u) by {
            if u != t as nat {
                assert(after.state_of(u) == before.state_of(u));
            }
        }
        proof {
            lemma_rw_next_keeps_inv(before, rw_event_of(e));
            lemma_rw_next_keeps_no_stranded_reader(before, rw_event_of(e));
            lemma_rw_same_as_keeps_inv(expected, after);
            if !self.lapped@ {
                assert(!was_lapped);
                lemma_rw_next_keeps_writer_inv(before, rw_event_of(e));
                lemma_rw_same_as_keeps_writer_inv(expected, after);
            }
        }
    }

    /// Read the value; thread `t` must hold a read hold or the write hold.
    pub fn get(&self, t: usize) -> (v: &T)
        requires
            self.wf(),
            t < self.thread_count(),
            self.system().state_of(t as nat) == RwThread::ReadHolding
                || self.system().state_of(t as nat) == RwThread::WriteHolding,
        ensures
            *v == self.content(),
    {
        proof {
            let s = self.system();
            assert(s.readers.contains(t as nat) <==> s.state_of(t as nat) == RwThread::ReadHolding);
            assert(s.writer == Some(t as nat) <==> s.state_of(t as nat) == RwThread::WriteHolding);
            if s.state_of(t as nat) == RwThread::ReadHolding && s.word == WRITE_LOCKED {
                assert(s.readers.is_empty());
            }
        }
        self.lock.get_held()
    }

    /// Replace the value; thread `t` must hold the write hold.
    pub fn set(&mut self, t: usize, value: T)
        requires
            old(self).wf(),
            t < old(self).thread_count(),
            old(self).system().state_of(t as nat) == RwThread::WriteHolding,
        ensures
            final(self).wf(),
            final(self).thread_count() == old(self).thread_count(),
            final(self).system() == old(self).system(),
            final(self).content() == value,
    {
        proof {
            let s = self.system();
            assert(s.writer == Some(t as nat) <==> s.state_of(t as nat) == RwThread::WriteHolding);
        }
        self.lock.set_held(value);
    }
}

/// The number of values the `u32` writer wake counter takes before it wraps.
pub open spec fn wake_counter_range() -> nat {
    0x1_0000_0000
}

/// The wake counter value a writer phase carries, if any.
pub open spec fn phase_seen(p: WritePhase) -> Option<u32> {
    match p {
        WritePhase::CheckState(w) => Some(w),
        WritePhase::Wait(w) => Some(w),
        _ => None,
    }
}

impl RwSystem {
    /// The wake counter value that thread `u` carries in its acquisition
    /// loop as a writer, if any.
    pub open spec fn carried(self, u: nat) -> Option<u32> {
        match self.state_of(u) {
            RwThread::Writing(p) => phase_seen(p),
            _ => None,
        }
    }

    /// A writer about to check the counter before blocking, or blocked.
    pub open spec fn waiting_writer(self, u: nat) -> bool {
        ||| self.state_of(u) matches RwThread::Writing(WritePhase::Wait(_))
        ||| self.state_of(u) == RwThread::WriteAsleep
    }

    /// A last reader out that still has to move the writer wake counter on.
    pub open spec fn waking_writer(self, u: nat) -> bool {
        self.state_of(u) == RwThread::WakingWriter
    }

    /// An awake writer that does not block before it has tried the lock
    /// again: it is about to try it, to read the counter, to check the word,
    /// or to check a counter that has moved on since it read it.
    pub open spec fn writer_contender(self, u: nat) -> bool {
        match self.state_of(u) {
            RwThread::Writing(WritePhase::Wait(_)) => self.write_seen[u] < self.bumps,
            RwThread::Writing(_) => true,
            _ => false,
        }
    }

    /// What the writers' bookkeeping keeps: the counter holds the number
    /// of moves modulo its range; a writer that read the counter recorded the
    /// number of moves so far, and the value it carries is that number modulo
    /// the range.
    pub open spec fn writers_tracked(self) -> bool {
        &&& self.counter as nat == self.bumps % wake_counter_range()
        &&& forall|u: nat| #![trigger self.state_of(u)]
            self.carried(u) is Some || self.state_of(u) == RwThread::WriteAsleep ==> {
                &&& self.write_seen.contains_key(u)
                &&& self.write_seen[u] <= self.bumps
                &&& (self.carried(u) is Some ==> self.carried(u) == Some(
                    (self.write_seen[u] % wake_counter_range()) as u32,
                ))
            }
    }

    /// Event `e` is not a writer checking the counter after it has moved on
    /// a full range of times since that writer read it (then the check
    /// cannot tell that it moved).
    pub open spec fn check_unlapped(self, e: RwEvent) -> bool {
        match e {
            RwEvent::WriteStep(t) => self.state_of(t) matches RwThread::Writing(WritePhase::Wait(_)) ==> self.bumps
                < self.write_seen[t] + wake_counter_range(),
            _ => true,
        }
    }

    /// A writer that is about to block, or blocked, without the counter
    /// having moved since it read it, has the lock held by someone, or a last
    /// reader out still has to move the counter on.
    pub open spec fn writers_covered(self) -> bool {
        forall|u: nat| #[trigger] self.waiting_writer(u) && self.write_seen[u] == self.bumps ==>
            self.word != 0 || exists|v: nat| #[trigger] self.waking_writer(v)
    }

    /// No blocked writer is stranded: while some writer is blocked, the lock
    /// is held (its release will move the counter on and wake a writer), or a
    /// last reader out still has to, or a writer wake-up is outstanding, or an
    /// awake writer will try the lock again before it blocks.
    pub open spec fn no_stranded_writer(self) -> bool {
        (exists|t: nat| #[trigger] self.state_of(t) == RwThread::WriteAsleep) ==> {
            ||| self.word != 0
            ||| exists|v: nat| #[trigger] self.waking_writer(v)
            ||| self.writer_wakes > 0
            ||| exists|u: nat| #[trigger] self.writer_contender(u)
        }
    }

    /// The writer liveness invariant.
    pub open spec fn writer_inv(self) -> bool {
        &&& self.writers_tracked()
        &&& self.writers_covered()
        &&& self.no_stranded_writer()
    }
}

impl RwEvent {
    /// The thread that takes the step.
    pub open spec fn thread(self) -> nat {
        match self {
            RwEvent::StartRead(t) => t,
            RwEvent::ReadStep(t) => t,
            RwEvent::StartWrite(t) => t,
            RwEvent::WriteStep(t) => t,
            RwEvent::Wake(t) => t,
            RwEvent::ReleaseRead(t) => t,
            RwEvent::WakeWriter(t) => t,
            RwEvent::ReleaseWrite(t) => t,
        }
    }
}

/// A step changes only the state and the recorded counter reading of the
/// thread that takes it, and never moves the counter back.
proof fn lemma_rw_next_frame(s: RwSystem, e: RwEvent, u: nat)
    requires
        u != e.thread(),
    ensures
        s.next(e).state_of(u) == s.state_of(u),
        s.next(e).write_seen.contains_key(u) == s.write_seen.contains_key(u),
        s.next(e).write_seen[u] == s.write_seen[u],
        s.bumps <= s.next(e).bumps <= s.bumps + 1,
{
}

/// Two move counts at most a range apart with the same residue are equal.
proof fn lemma_same_residue(a: nat, b: nat)
    requires
        b <= a < b + wake_counter_range(),
        a % wake_counter_range() == b % wake_counter_range(),
    ensures
        a == b,
{
    assert(a == b) by (nonlinear_arith)
        requires
            b <= a < b + 0x1_0000_0000,
            a % 0x1_0000_0000 == b % 0x1_0000_0000,
    ;
}

/// Moving the counter on keeps it equal to the number of moves modulo its
/// range.
proof fn lemma_counter_moves(c: u32, n: nat)
    requires
        c as nat == n % wake_counter_range(),
    ensures
        c.wrapping_add(1) as nat == (n + 1) % wake_counter_range(),
{
    assert(c.wrapping_add(1) as nat == (n + 1) % 0x1_0000_0000) by (nonlinear_arith)
        requires
            c as nat == n % 0x1_0000_0000,
            c < 0x1_0000_0000,
            c.wrapping_add(1) == if c + 1 > 0xffff_ffff { c + 1 - 0x1_0000_0000 } else { c + 1 },
    ;
}

/// Every step keeps the writers' bookkeeping.
proof fn lemma_rw_next_keeps_writers_tracked(s: RwSystem, e: RwEvent)
    requires
        s.writers_tracked(),
    ensures
        s.next(e).writers_tracked(),
{
    let n = s.next(e);
    let et = e.thread();
    lemma_rw_next_frame(s, e, et + 1);
    if n.bumps != s.bumps {
        lemma_counter_moves(s.counter, s.bumps);
    }
    assert forall|u: nat| #![trigger n.state_of(u)]
        n.carried(u) is Some || n.state_of(u) == RwThread::WriteAsleep implies {
            &&& n.write_seen.contains_key(u)
            &&& n.write_seen[u] <= n.bumps
            &&& (n.carried(u) is Some ==> n.carried(u) == Some((n.write_seen[u] % wake_counter_range()) as u32))
        } by {
        if u != et {
            lemma_rw_next_frame(s, e, u);
            assert(s.carried(u) == n.carried(u));
        } else {
            assert(s.state_of(u) == s.state_of(u));
        }
    }
}

/// Every step keeps writers that are about to block covered.
proof fn lemma_rw_next_keeps_writers_covered(s: RwSystem, e: RwEvent)
    requires
        s.writers_tracked(),
        s.writers_covered(),
    ensures
        s.next(e).writers_covered(),
{
    let n = s.next(e);
    let et = e.thread();
    assert forall|u: nat| #[trigger] n.waiting_writer(u) && n.write_seen[u] == n.bumps implies n.word != 0
        || exists|v: nat| #[trigger] n.waking_writer(v) by {
        assert(s.state_of(u) == s.state_of(u));
        assert(s.carried(u) == s.carried(u));
        if n.bumps == s.bumps {
            if u != et {
                lemma_rw_next_frame(s, e, u);
                assert(s.waiting_writer(u));
            } else {
                match s.state_of(u) {
                    RwThread::Writing(WritePhase::Wait(_)) => {
                        assert(s.waiting_writer(u));
                    },
                    RwThread::WriteAsleep => {
                        assert(s.waiting_writer(u));
                    },
                    _ => {},
                }
            }
            if n.word == 0 && s.word != 0 {
                assert(n.waking_writer(et));
            } else if n.word == 0 {
                let v = choose|v: nat| #[trigger] s.waking_writer(v);
                if v != et {
                    lemma_rw_next_frame(s, e, v);
                }
                assert(n.waking_writer(v));
            }
        } else {
            if u != et {
                lemma_rw_next_frame(s, e, u);
            }
        }
    }
}

/// Every step that is not a lapped counter check keeps blocked writers from
/// being stranded.
proof fn lemma_rw_next_keeps_no_stranded_writer(s: RwSystem, e: RwEvent)
    requires
        s.writer_inv(),
        s.check_unlapped(e),
    ensures
        s.next(e).no_stranded_writer(),
{
    let n = s.next(e);
    let et = e.thread();
    lemma_rw_next_frame(s, e, et + 1);
    lemma_rw_next_keeps_writers_tracked(s, e);
    lemma_rw_next_keeps_writers_covered(s, e);
    assert(s.carried(et) == s.carried(et));
    if s.state_of(et) matches RwThread::Writing(WritePhase::Wait(_)) && e is WriteStep {
        if s.counter as nat == s.write_seen[et] % wake_counter_range() {
            lemma_same_residue(s.bumps, s.write_seen[et]);
        }
    }
    if exists|t: nat| #[trigger] n.state_of(t) == RwThread::WriteAsleep {
        let t = choose|t: nat| #[trigger] n.state_of(t) == RwThread::WriteAsleep;
        assert(n.waiting_writer(t));
        assert(n.carried(t) is None);
        assert(n.write_seen.contains_key(t) && n.write_seen[t] <= n.bumps);
        if n.write_seen[t] == n.bumps {
            // Covered: the lock is held or a last reader still moves the counter.
        } else if s.state_of(t) != RwThread::WriteAsleep {
            // A writer that has just blocked saw the counter unmoved since it read it.
            if t != et {
                lemma_rw_next_frame(s, e, t);
            }
            assert(s.carried(t) is Some);
            assert(false);
        } else {
            assert(s.state_of(t) == RwThread::WriteAsleep);
            if s.word != 0 {
                if n.word == 0 {
                    assert(n.waking_writer(et) || n.writer_wakes > 0);
                }
            } else if exists|v: nat| #[trigger] s.waking_writer(v) {
                let v = choose|v: nat| #[trigger] s.waking_writer(v);
                if v != et {
                    lemma_rw_next_frame(s, e, v);
                    assert(n.waking_writer(v));
                } else if n.state_of(v) == s.state_of(v) {
                    assert(n.waking_writer(v));
                } else {
                    assert(n.writer_wakes > 0);
                }
            } else if s.writer_wakes > 0 {
                if n.writer_wakes == 0 {
                    assert(n.writer_contender(et));
                }
            } else {
                let u = choose|u: nat| #[trigger] s.writer_contender(u);
                if u != et {
                    lemma_rw_next_frame(s, e, u);
                    assert(n.writer_contender(u));
                } else {
                    match s.state_of(u) {
                        RwThread::Writing(WritePhase::Wait(w)) => {
                            assert(n.writer_contender(u));
                        },
                        _ => {
                            if n.word == 0 {
                                assert(n.writer_contender(u));
                            }
                        },
                    }
                }
            }
        }
    }
}

/// Every step that is not a lapped counter check keeps the writer liveness
/// invariant.
pub proof fn lemma_rw_next_keeps_writer_inv(s: RwSystem, e: RwEvent)
    requires
        s.writer_inv(),
        s.check_unlapped(e),
    ensures
        s.next(e).writer_inv(),
{
    lemma_rw_next_keeps_writers_tracked(s, e);
    lemma_rw_next_keeps_writers_covered(s, e);
    lemma_rw_next_keeps_no_stranded_writer(s, e);
}

/// No writer in the run `es` from a new lock checks the counter after it has
/// moved on a full range of times since that writer read it.
pub open spec fn unlapped_run(es: Seq<RwEvent>) -> bool {
    forall|i: int| 0 <= i < es.len() ==> #[trigger] RwSystem::init().run(es.take(i)).check_unlapped(es[i])
}

/// No blocked writer is stranded: in every interleaving from a new lock in
/// which no writer checks the counter after it has wrapped all the way
/// round since that writer read it, while a writer is blocked the lock is
/// held, or a last reader out still has to move the counter on and wake a
/// writer, or such a wake-up is outstanding, or an awake writer will try the
/// lock again before it blocks.
pub proof fn lemma_no_stranded_writer(es: Seq<RwEvent>)
    requires
        unlapped_run(es),
    ensures
        RwSystem::init().run(es).writer_inv(),
        RwSystem::init().run(es).no_stranded_writer(),
    decreases es.len(),
{
    if es.len() > 0 {
        let rest = es.drop_last();
        assert forall|i: int| 0 <= i < rest.len() implies #[trigger] RwSystem::init().run(rest.take(i)).check_unlapped(
            rest[i],
        ) by {
            assert(rest.take(i) =~= es.take(i));
            assert(RwSystem::init().run(es.take(i)).check_unlapped(es[i]));
        }
        lemma_no_stranded_writer(rest);
        assert(es.take(es.len() - 1) =~= rest);
        assert(RwSystem::init().run(es.take(es.len() - 1)).check_unlapped(es[es.len() - 1]));
        lemma_rw_next_keeps_writer_inv(RwSystem::init().run(rest), es.last());
    } else {
        let s = RwSystem::init();
        assert forall|u: nat| #![trigger s.state_of(u)] s.state_of(u) == RwThread::Idle by {}
    }
}

} // verus!
