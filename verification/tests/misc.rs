use atomics_and_locks::atomic_ref::{genereate_data, DataSlot, Publish};
use atomics_and_locks::seq::{run, SeqOp};
use atomics_and_locks::statistics::Statistics;
use atomics_and_locks::{cell, hello, id_allocation, id_allocation_comp_enxg, locking, refcell};

#[test]
fn id_allocation_returns_counter_after_add() {
    let mut a = id_allocation::IdAllocator::new();
    assert_eq!(a.allocate_new_id(), 1);
    assert_eq!(a.allocate_new_id(), 2);
    assert_eq!(a.allocate_new_id(), 3);
}

#[test]
fn id_allocation_comp_enxg_allocates_in_order() {
    let mut a = id_allocation_comp_enxg::IdAllocator::new();
    assert_eq!(a.allocate_new_id(), 0);
    assert_eq!(a.allocate_new_id(), 1);
    assert_eq!(a.allocate_new_id(), 2);
    // A thread that read a stale value fails and learns the current one.
    assert_eq!(a.try_allocate(0), Err(3));
    assert_eq!(a.try_allocate(3), Ok(3));
    assert_eq!(a.load(), 4);
}

/// Three threads interleave: all read 0; one takes 0, the others fail and
/// retry with what they learned; the ids handed out are 0, 1, 2, in order.
#[test]
fn id_allocation_comp_enxg_interleaved_ids_are_consecutive() {
    let mut a = id_allocation_comp_enxg::IdAllocator::new();
    let (x, y, z) = (a.load(), a.load(), a.load());
    let mut out = Vec::new();
    out.push(a.try_allocate(x).unwrap());
    let y = a.try_allocate(y).unwrap_err();
    let z = a.try_allocate(z).unwrap_err();
    out.push(a.try_allocate(z).unwrap());
    let y = a.try_allocate(y).unwrap_err();
    out.push(a.try_allocate(y).unwrap());
    assert_eq!(out, vec![0, 1, 2]);
    assert_eq!(a.load(), 3);
}

#[test]
fn id_allocation_comp_enxg_stops_at_limit() {
    let mut a = id_allocation_comp_enxg::IdAllocator::new();
    for i in 0..1000 {
        assert_eq!(a.allocate_new_id(), i);
    }
    assert_eq!(a.load(), 1000);
}

#[test]
fn get_data_publishes_once() {
    let _data = genereate_data();
    let mut slot = DataSlot::new();
    assert_eq!(slot.load(), 0);
    // Two threads race: both find nothing, both allocate; the first to
    // publish wins, the second frees its own and uses the winner's.
    assert_eq!(slot.get_data(), None);
    assert_eq!(slot.get_data(), None);
    assert_eq!(slot.publish(0x1000), Publish::Won);
    assert_eq!(slot.publish(0x2000), Publish::Lost(0x1000));
    // A later thread finds the published data and allocates nothing.
    assert_eq!(slot.get_data(), Some(0x1000));
    assert_eq!(slot.publish(0x3000), Publish::Lost(0x1000));
    assert_eq!(slot.load(), 0x1000);
}

#[test]
fn statistics_track_count_total_and_max() {
    let mut s = Statistics::new();
    assert_eq!(s.num_done(), 0);
    s.record(30);
    s.record(100);
    s.record(70);
    assert_eq!(s.num_done(), 3);
    assert_eq!(s.total_time(), 200);
    assert_eq!(s.max_time(), 100);
}

#[test]
fn cell_f_detects_aliasing() {
    let mut cells = vec![5, 7];
    assert!(!cell::f(&mut cells, 0, 1));
    assert_eq!(cells, vec![5, 8]);
    assert!(cell::f(&mut cells, 1, 1));
    assert_eq!(cells, vec![5, 9]);
}

#[test]
fn refcell_f_pushes() {
    let mut v = vec![3, 4, 5];
    refcell::f(&mut v);
    refcell::f(&mut v);
    assert_eq!(v, vec![3, 4, 5, 99, 99]);
}

#[test]
fn locking_f_appends_only_when_free() {
    let mut locked = false;
    let mut data = Vec::new();
    for _ in 0..100 {
        assert!(locking::f(&mut locked, &mut data));
    }
    assert_eq!(data.len(), 100);
    locked = true;
    assert!(!locking::f(&mut locked, &mut data));
    assert_eq!(data.len(), 100);
    assert!(locked);
}

#[test]
fn seq_cst_at_most_one_thread_enters() {
    assert_eq!(run(&vec![SeqOp::StoreA, SeqOp::LoadB, SeqOp::StoreB, SeqOp::LoadA]), (true, false));
    assert_eq!(run(&vec![SeqOp::StoreB, SeqOp::LoadA, SeqOp::StoreA, SeqOp::LoadB]), (false, true));
    assert_eq!(run(&vec![SeqOp::StoreA, SeqOp::StoreB, SeqOp::LoadB, SeqOp::LoadA]), (false, false));
    assert_eq!(run(&vec![SeqOp::StoreB, SeqOp::StoreA, SeqOp::LoadA, SeqOp::LoadB]), (false, false));
}

#[test]
fn hello_return_value() {
    hello::return_value_from_callable();
}

#[test]
fn id_allocation_interleaved_threads_share_an_id() {
    let mut a = id_allocation::IdAllocator::new();
    // Thread A adds, thread B adds, then both load.
    assert_eq!(a.fetch_add(), 0);
    assert_eq!(a.fetch_add(), 1);
    let id_a = a.load();
    let id_b = a.load();
    assert_eq!(id_a, 2);
    assert_eq!(id_a, id_b);
}

#[test]
fn locking_thread_gives_up_while_another_holds_the_flag() {
    let mut locked = false;
    let mut data = Vec::new();
    // Thread A is between its compare-and-exchange and its store.
    assert!(locking::try_lock(&mut locked));
    // Thread B finds the flag set and gives up without appending.
    assert!(!locking::f(&mut locked, &mut data));
    locking::push_bang(&mut data);
    locking::unlock(&mut locked);
    assert_eq!(data, vec!['!']);
    assert!(!locked);
}

#[test]
fn statistics_steps_are_visible_between() {
    let mut s = Statistics::new();
    s.add_done();
    // A reader between the steps sees the item counted but not yet timed.
    assert_eq!(s.num_done(), 1);
    assert_eq!(s.total_time(), 0);
    s.add_time(40);
    s.max_with(40);
    s.max_with(10);
    assert_eq!(s.total_time(), 40);
    assert_eq!(s.max_time(), 40);
}
