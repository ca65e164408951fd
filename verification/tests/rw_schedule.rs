use atomics_and_locks::rwlock::{RwSchedule, RwThreadEvent};

/// Wake every reader blocked on the lock word.
fn wake_all_readers(l: &mut RwSchedule<u32>, n: usize) {
    for u in 0..n {
        if l.is_read_asleep(u) {
            l.step(RwThreadEvent::Wake(u));
        }
    }
}

/// Wake one writer blocked on the wake counter, if any.
fn wake_one_writer(l: &mut RwSchedule<u32>, n: usize) {
    if let Some(u) = (0..n).find(|&u| l.is_write_asleep(u)) {
        l.step(RwThreadEvent::Wake(u));
    }
}

/// Three readers and two writers take turns, one atomic step each per round,
/// each writer adding one to the value ten times; at every point a thread
/// holding the write hold is the only thread holding the lock. Threads are
/// woken only as the releases say: a write release wakes every blocked
/// reader and one blocked writer, a last reader out one blocked writer.
#[test]
fn rw_schedule_readers_and_writers() {
    const N: usize = 5;
    let writers = [3usize, 4];
    let mut l = RwSchedule::new(0u32, N);
    let mut writes = [0u32; N];
    let mut reads = [0u32; N];
    let mut round = 0;
    while writes[3] < 10 || writes[4] < 10 || reads[0] < 10 || reads[1] < 10 || reads[2] < 10 {
        round += 1;
        assert!(round < 100_000, "no progress");
        for t in 0..N {
            let is_writer = writers.contains(&t);
            if l.holds_write(t) {
                for u in 0..N {
                    if u != t {
                        assert!(!l.holds_write(u) && !l.holds_read(u));
                    }
                }
                let v = *l.get(t);
                l.set(t, v + 1);
                writes[t] += 1;
                l.step(RwThreadEvent::ReleaseWrite(t));
                wake_one_writer(&mut l, N);
                wake_all_readers(&mut l, N);
            } else if l.holds_read(t) {
                let _ = *l.get(t);
                reads[t] += 1;
                l.step(RwThreadEvent::ReleaseRead(t));
                l.step(RwThreadEvent::WakeWriter(t));
                wake_one_writer(&mut l, N);
            } else if is_writer {
                if writes[t] < 10 {
                    l.step(RwThreadEvent::StartWrite(t));
                    l.step(RwThreadEvent::WriteStep(t));
                }
            } else if reads[t] < 10 {
                l.step(RwThreadEvent::StartRead(t));
                l.step(RwThreadEvent::ReadStep(t));
            }
        }
    }
    l.step(RwThreadEvent::StartRead(0));
    for _ in 0..3 {
        l.step(RwThreadEvent::ReadStep(0));
    }
    assert!(l.holds_read(0));
    assert_eq!(*l.get(0), 20);
}

/// A writer that blocks on the wake counter while another writer holds the
/// lock is woken by that release and then gets the lock.
#[test]
fn rw_schedule_writer_release_wakes_blocked_writer() {
    let mut l = RwSchedule::new(0u32, 2);
    l.step(RwThreadEvent::StartWrite(0));
    l.step(RwThreadEvent::WriteStep(0));
    assert!(l.holds_write(0));
    l.step(RwThreadEvent::StartWrite(1));
    for _ in 0..4 {
        l.step(RwThreadEvent::WriteStep(1));
    }
    assert!(l.is_write_asleep(1));
    l.step(RwThreadEvent::ReleaseWrite(0));
    wake_one_writer(&mut l, 2);
    assert!(!l.is_write_asleep(1));
    l.step(RwThreadEvent::WriteStep(1));
    assert!(l.holds_write(1));
}
