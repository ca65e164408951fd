use atomics_and_locks::mutex_content::{Contended, LockStep, Mutex, MutexGuard, Schedule, ThreadEvent};
use std::time::Instant;

fn lock_uncontended(m: &mut Mutex<i32>) -> MutexGuard {
    match m.lock() {
        Ok(g) => g,
        Err(_) => panic!("the mutex is held"),
    }
}

#[test]
fn mutex_content_test() {
    let mut m = Mutex::new(0);
    std::hint::black_box(&m);
    let start = Instant::now();
    for _ in 0..5_000_000 {
        let g = lock_uncontended(&mut m);
        let v = *m.get(&g);
        m.set(&g, v + 1);
        m.unlock(g);
    }
    let duration = start.elapsed();
    let g = lock_uncontended(&mut m);
    println!("locked {} times in  {:?}", *m.get(&g), duration);
    assert_eq!(*m.get(&g), 5_000_000);
    m.unlock(g);
}

#[test]
fn mutex_fast_path_fails_while_held() {
    let mut m = Mutex::new(7);
    let g = lock_uncontended(&mut m);
    match m.lock() {
        Ok(_) => panic!("acquired a held mutex"),
        Err(phase) => assert_eq!(phase, Contended::Spin(0)),
    }
    assert!(!m.unlock(g));
}

#[test]
fn mutex_contended_handoff() {
    // Thread A holds the lock; thread B goes through the slow path, marks the
    // word contended and sleeps; A's unlock reports the wake-up; B then
    // acquires with the word left contended.
    let mut m = Mutex::new(1);
    let a = lock_uncontended(&mut m);
    let mut phase = match m.lock() {
        Ok(_) => panic!("acquired a held mutex"),
        Err(p) => p,
    };
    let mut spins = 0;
    loop {
        match m.lock_contented(phase) {
            LockStep::Continue(Contended::Spin(n)) => {
                spins = n;
                phase = Contended::Spin(n);
            }
            LockStep::Continue(p) => phase = p,
            LockStep::Sleep(p) => {
                assert_eq!(p, Contended::Swap);
                break;
            }
            LockStep::Acquired(_) => panic!("acquired a held mutex"),
        }
    }
    assert_eq!(spins, 100);
    assert!(m.unlock(a));
    let b = match m.lock_contented(Contended::Swap) {
        LockStep::Acquired(g) => g,
        _ => panic!("the woken thread did not acquire"),
    };
    m.set(&b, 2);
    assert_eq!(*m.get(&b), 2);
    // The word stayed contended, so this unlock reports a (spurious) wake-up.
    assert!(m.unlock(b));
    let c = lock_uncontended(&mut m);
    assert!(!m.unlock(c));
}

/// Four threads each lock, increment and unlock the mutex many times; their
/// atomic steps are interleaved round-robin by a `Schedule`.
#[test]
fn test_contention() {
    const THREADS: usize = 4;
    const PER_THREAD: u64 = 5_000_000;
    let mut m = Schedule::new(0u64, THREADS);
    let mut done = [0u64; THREADS];
    let start = Instant::now();
    loop {
        let mut all_done = true;
        for i in 0..THREADS {
            if done[i] == PER_THREAD {
                continue;
            }
            all_done = false;
            if m.holds(i) {
                let v = *m.get(i);
                m.set(i, v + 1);
                done[i] += 1;
                if m.step(ThreadEvent::Unlock(i)) {
                    if let Some(j) = (0..THREADS).find(|&j| m.is_asleep(j)) {
                        m.step(ThreadEvent::Wake(j));
                    }
                }
            } else {
                m.step(ThreadEvent::Lock(i));
                m.step(ThreadEvent::Step(i));
            }
        }
        if all_done {
            break;
        }
    }
    let duration = start.elapsed();
    m.step(ThreadEvent::Lock(0));
    assert!(m.holds(0));
    println!("locked {} times in  {:?}", *m.get(0), duration);
    assert_eq!(*m.get(0), THREADS as u64 * PER_THREAD);
}

#[test]
fn schedule_holder_blocks_others() {
    let mut m = Schedule::new(0, 2);
    assert!(!m.step(ThreadEvent::Lock(0)));
    assert!(m.holds(0));
    m.step(ThreadEvent::Lock(1));
    assert!(!m.holds(1));
    // Thread 1 spins, gives up spinning, marks the word contended and sleeps.
    for _ in 0..104 {
        m.step(ThreadEvent::Step(1));
    }
    assert!(m.is_asleep(1));
    assert!(!m.holds(1));
    // Thread 0's unlock issues the wake-up.
    assert!(m.step(ThreadEvent::Unlock(0)));
    m.step(ThreadEvent::Wake(1));
    assert!(!m.is_asleep(1));
    m.step(ThreadEvent::Step(1));
    assert!(m.holds(1));
    m.set(1, 9);
    assert_eq!(*m.get(1), 9);
}
