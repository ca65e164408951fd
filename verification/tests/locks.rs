use atomics_and_locks::rwlock::{ReadPhase, RwLock, Step, WritePhase, WRITE_LOCKED};
use atomics_and_locks::mutex_optim::{Blocked, LockStep, Mutex};
use atomics_and_locks::{spinlock_guard, spinlock_unsf};
use atomics_and_locks::spinlock_guard::{SpinSchedule, SpinThreadEvent};

#[test]
fn spinlock_guard_excludes() {
    let mut x = spinlock_guard::SpinLock::new(Vec::new());
    let g = x.lock().expect("a free lock");
    // Another thread's turns spin while the lock is held.
    assert!(x.lock().is_none());
    assert!(x.lock().is_none());
    let mut v = x.get(&g).clone();
    v.push(1);
    x.set(&g, v);
    x.unlock(g);
    let g = x.lock().expect("a free lock");
    let mut v = x.get(&g).clone();
    v.push(2);
    v.push(2);
    x.set(&g, v);
    x.unlock(g);
    let g = x.lock().expect("a free lock");
    assert!(x.get(&g).as_slice() == [1, 2, 2] || x.get(&g).as_slice() == [2, 2, 1]);
    x.unlock(g);
}

#[test]
fn spinlock_unsf_lock_unlock() {
    let mut x = spinlock_unsf::SpinLock::new(3);
    assert!(x.lock());
    assert!(!x.lock());
    x.set(4);
    assert_eq!(*x.get(), 4);
    x.unlock();
    assert!(x.lock());
    x.unlock();
}

#[test]
fn mutex_optim_blocks_and_wakes() {
    let mut m = Mutex::new(0);
    let a = match m.lock(None) {
        LockStep::Acquired(g) => g,
        _ => panic!("a free mutex was refused"),
    };
    // A second thread: first attempt fails, the swap marks the word
    // contended, and the wait blocks.
    assert!(matches!(m.lock(None), LockStep::Continue(Blocked::Swap)));
    assert!(matches!(m.lock(Some(Blocked::Swap)), LockStep::Continue(Blocked::Wait)));
    assert!(matches!(m.lock(Some(Blocked::Wait)), LockStep::Sleep(Blocked::Swap)));
    m.set(&a, 41);
    assert!(m.unlock(a));
    let b = match m.lock(Some(Blocked::Swap)) {
        LockStep::Acquired(g) => g,
        _ => panic!("the woken thread did not acquire"),
    };
    assert_eq!(*m.get(&b), 41);
    assert!(m.unlock(b));
    let c = match m.lock(None) {
        LockStep::Acquired(g) => g,
        _ => panic!("a free mutex was refused"),
    };
    assert!(!m.unlock(c));
}

fn read_lock<T>(l: &mut RwLock<T>) -> atomics_and_locks::rwlock::ReadGuard {
    let mut phase = ReadPhase::Load;
    for _ in 0..10 {
        match l.read(phase) {
            Step::Acquired(g) => return g,
            Step::Continue(p) => phase = p,
            Step::Sleep(_) => panic!("a reader blocked"),
        }
    }
    panic!("a reader did not get in");
}

#[test]
fn rwlock_readers_share_writer_excludes() {
    let mut l = RwLock::new(5);
    let r1 = read_lock(&mut l);
    let r2 = read_lock(&mut l);
    assert_eq!(*l.get(&r1), 5);
    assert_eq!(*l.get(&r2), 5);
    // A writer fails, reads the wake counter, sees readers, and blocks.
    assert!(matches!(l.write(WritePhase::TryLock), Step::Continue(WritePhase::LoadCounter)));
    let w = match l.write(WritePhase::LoadCounter) {
        Step::Continue(WritePhase::CheckState(w)) => w,
        _ => panic!("unexpected writer step"),
    };
    assert_eq!(w, 0);
    assert!(matches!(l.write(WritePhase::CheckState(w)), Step::Continue(WritePhase::Wait(0))));
    assert!(matches!(l.write(WritePhase::Wait(w)), Step::Sleep(WritePhase::TryLock)));
    // The first reader out does not wake the writer; the last one does.
    assert!(l.release_read(r1).is_none());
    let last = l.release_read(r2).expect("the last reader out");
    // Between the two steps of the last reader, the counter has not moved yet.
    assert!(matches!(l.write(WritePhase::Wait(w)), Step::Sleep(WritePhase::TryLock)));
    l.wake_writer(last);
    // The counter moved, so a writer that had not blocked yet would not block.
    assert!(matches!(l.write(WritePhase::Wait(w)), Step::Continue(WritePhase::TryLock)));
    let wg = match l.write(WritePhase::TryLock) {
        Step::Acquired(g) => g,
        _ => panic!("the writer did not get in"),
    };
    l.set(&wg, 6);
    assert_eq!(*l.get_written(&wg), 6);
    // A reader now sees the lock write-locked and blocks.
    assert!(matches!(l.read(ReadPhase::Load), Step::Continue(ReadPhase::Try(WRITE_LOCKED))));
    assert!(matches!(l.read(ReadPhase::Try(WRITE_LOCKED)), Step::Continue(ReadPhase::Wait)));
    assert!(matches!(l.read(ReadPhase::Wait), Step::Sleep(ReadPhase::Load)));
    l.release_write(wg);
    let r = read_lock(&mut l);
    assert_eq!(*l.get(&r), 6);
    let last = l.release_read(r).expect("the last reader out");
    l.wake_writer(last);
}

#[test]
fn rwlock_stale_reader_retries() {
    let mut l = RwLock::new(());
    // A reader read 0, but another reader got in first.
    let other = read_lock(&mut l);
    assert!(matches!(l.read(ReadPhase::Try(0)), Step::Continue(ReadPhase::Try(1))));
    let mine = match l.read(ReadPhase::Try(1)) {
        Step::Acquired(g) => g,
        _ => panic!("the retry did not get in"),
    };
    assert!(l.release_read(other).is_none());
    assert!(l.release_read(mine).is_some());
}

/// A writer that blocks on the wake counter while another writer holds the
/// lock is woken by that writer's release: the release moves the counter on,
/// so the blocked writer's check of the counter no longer matches and it
/// tries the lock again, and gets it.
#[test]
fn rwlock_writer_release_moves_wake_counter() {
    let mut l = RwLock::new(0);
    let w1 = match l.write(WritePhase::TryLock) {
        Step::Acquired(g) => g,
        _ => panic!("a free lock was refused"),
    };
    assert!(matches!(l.write(WritePhase::TryLock), Step::Continue(WritePhase::LoadCounter)));
    assert!(matches!(l.write(WritePhase::LoadCounter), Step::Continue(WritePhase::CheckState(0))));
    assert!(matches!(l.write(WritePhase::CheckState(0)), Step::Continue(WritePhase::Wait(0))));
    assert!(matches!(l.write(WritePhase::Wait(0)), Step::Sleep(WritePhase::TryLock)));
    assert_eq!(l.load_counter(), 0);
    l.release_write(w1);
    assert_eq!(l.load(), 0);
    assert_eq!(l.load_counter(), 1);
    assert!(matches!(l.write(WritePhase::Wait(0)), Step::Continue(WritePhase::TryLock)));
    assert!(matches!(l.write(WritePhase::TryLock), Step::Acquired(_)));
}

/// Three threads take spin-lock turns in rounds, each adding one to the value
/// fifty times while holding the lock; at every point at most one thread
/// holds it, and no increment is lost.
#[test]
fn spin_schedule_threads_take_turns() {
    const N: usize = 3;
    let mut l = SpinSchedule::new(0u32, N);
    let mut done = [0u32; N];
    let mut round = 0;
    while done.iter().any(|&d| d < 50) {
        round += 1;
        assert!(round < 10_000, "no progress");
        for t in 0..N {
            if l.holds(t) {
                assert!((0..N).filter(|&u| l.holds(u)).count() == 1);
                let v = *l.get(t);
                l.set(t, v + 1);
                done[t] += 1;
                l.step(SpinThreadEvent::Unlock(t));
            } else if done[t] < 50 {
                l.step(SpinThreadEvent::Lock(t));
            }
        }
    }
    l.step(SpinThreadEvent::Lock(0));
    assert!(l.holds(0));
    assert_eq!(*l.get(0), 150);
    // A turn by another thread while the lock is held does not acquire it.
    l.step(SpinThreadEvent::Lock(1));
    assert!(!l.holds(1));
}
