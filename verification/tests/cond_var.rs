use atomics_and_locks::cond_var::CondVar;
use atomics_and_locks::mutex_content::{Mutex, MutexGuard};

fn lock(m: &mut Mutex<i32>) -> MutexGuard {
    match m.lock() {
        Ok(g) => g,
        Err(_) => panic!("the mutex is held"),
    }
}

#[test]
fn test_condvar() {
    let mut mutex = Mutex::new(0);
    let mut condvar = CondVar::new();
    let mut wakeups = 0;

    let mut m = lock(&mut mutex);
    while *mutex.get(&m) < 100 {
        let (waiter, wake) = condvar.wait(&mut mutex, m);
        assert!(!wake);
        // The other thread: set the value under the lock and notify.
        let g = lock(&mut mutex);
        mutex.set(&g, 123);
        mutex.unlock(g);
        assert!(condvar.notify_one());
        // The notification came before the waiter blocked: it does not block.
        assert!(!condvar.sleeps(&waiter));
        condvar.finish_wait(waiter);
        m = lock(&mut mutex);
        wakeups += 1;
    }
    assert_eq!(*mutex.get(&m), 123);
    mutex.unlock(m);

    assert!(wakeups < 10);
    assert!(wakeups == 1);
}

#[test]
fn condvar_notify_without_waiters_does_nothing() {
    let mut cv = CondVar::new();
    assert!(!cv.notify_one());
    assert!(!cv.notify_all());
}

#[test]
fn condvar_waiter_blocks_until_notified() {
    let mut mutex = Mutex::new(0);
    let mut cv = CondVar::new();
    let g = lock(&mut mutex);
    let (w, _) = cv.wait(&mut mutex, g);
    assert!(cv.sleeps(&w));
    assert!(cv.notify_all());
    assert!(!cv.sleeps(&w));
    cv.finish_wait(w);
    assert!(!cv.notify_one());
}

#[test]
fn condvar_notification_between_register_and_read_is_not_seen() {
    let mut cv = CondVar::new();
    cv.register();
    // A notifier finds the registered waiter and moves the counter on
    // before the waiter reads it.
    assert!(cv.has_waiters());
    cv.bump_counter();
    let w = cv.read_counter();
    // The waiter read the counter after the notification: it blocks.
    assert!(cv.sleeps(&w));
    assert!(cv.notify_one());
    assert!(!cv.sleeps(&w));
    cv.finish_wait(w);
}
