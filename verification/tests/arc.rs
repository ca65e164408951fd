use atomics_and_locks::arc::Arc;
use std::sync::atomic::AtomicUsize;
use std::sync::atomic::Ordering::Relaxed;

#[test]
fn arc_test() {
    static NUM_DROPS: AtomicUsize = AtomicUsize::new(0);

    struct DetectDrop;

    impl Drop for DetectDrop {
        fn drop(&mut self) {
            NUM_DROPS.fetch_add(1, Relaxed);
        }
    }

    // Create two Arcs sharing an object containing a string
    // and a DetectDrop, to detect when it's dropped.
    let mut x = Arc::new(("Hello", DetectDrop));
    x.clone_handle();

    // One handle is used and dropped.
    assert_eq!(x.deref().0, "Hello");
    let freed = x.drop_handle();
    assert!(freed.is_none());

    // The other handle is still usable.
    assert_eq!(x.deref().0, "Hello");

    // One Arc was dropped; we still have the other, so the object is alive.
    assert_eq!(NUM_DROPS.load(Relaxed), 0);

    // Drop the remaining Arc: the object is freed.
    let freed = x.drop_handle();
    assert!(freed.is_some());
    drop(freed);
    assert_eq!(NUM_DROPS.load(Relaxed), 1);
}

#[test]
fn arc_get_mut_only_when_unique() {
    let mut a = Arc::new(10);
    match Arc::get_mut(&mut a) {
        Some(v) => *v += 1,
        None => panic!("a unique handle was refused"),
    }
    assert_eq!(*a.deref(), 11);
    a.clone_handle();
    assert!(Arc::get_mut(&mut a).is_none());
    assert_eq!(a.drop_handle(), None);
    assert!(Arc::get_mut(&mut a).is_some());
    assert_eq!(a.drop_handle(), Some(11));
}

#[test]
fn arc_handle_count_follows_clones_and_drops() {
    let mut a = Arc::new("x");
    assert_eq!(a.handle_count(), 1);
    a.clone_handle();
    a.clone_handle();
    assert_eq!(a.handle_count(), 3);
    assert_eq!(a.drop_handle(), None);
    assert_eq!(a.handle_count(), 2);
    assert!(a.handle_count() <= atomics_and_locks::arc::MAX_REFS);
}
