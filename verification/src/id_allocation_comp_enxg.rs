use vstd::prelude::*;

verus! {

/// How many ids the allocator hands out; asking for more panics.
pub const MAX_IDS: u32 = 1000;

/// The shared id counter of the compare-and-exchange allocator.
pub struct IdAllocator {
    next_id: u32,
}

/// The counter after a compare-and-exchange from `id` to `id + 1`, and its
/// result: the id on success, the counter's actual value on failure.
pub open spec fn try_next(counter: u32, id: u32) -> (u32, Result<u32, u32>) {
    if counter == id {
        ((id + 1) as u32, Ok(id))
    } else {
        (counter, Err(counter))
    }
}

impl IdAllocator {
    /// The counter word.
    pub closed spec fn counter(&self) -> u32 {
        self.next_id
    }

    pub fn new() -> (a: Self)
        ensures
            a.counter() == 0,
    {
        IdAllocator { next_id: 0 }
    }

    /// Load the counter.
    pub fn load(&self) -> (v: u32)
        ensures
            v == self.counter(),
    {
        self.next_id
    }

    /// One turn of the allocation loop for a thread that last read `id`: the
    /// id is taken when the counter still holds it; otherwise the thread
    /// learns the counter's current value and tries again with it. An `id`
    /// at `MAX_IDS` or beyond panics ("too many ids"), so it is excluded.
    pub fn try_allocate(&mut self, id: u32) -> (r: Result<u32, u32>)
        requires
            id < MAX_IDS,
        ensures
            (final(self).counter(), r) == try_next(old(self).counter(), id),
    {
        if self.next_id == id {
            self.next_id = id + 1;
            Ok(id)
        } else {
            Err(self.next_id)
        }
    }

    /// Allocate the next id: load the counter and take its value with a
    /// compare-and-exchange, which succeeds at once when no other thread
    /// moves the counter in between.
    pub fn allocate_new_id(&mut self) -> (id: u32)
        requires
            old(self).counter() < MAX_IDS,
        ensures
            id == old(self).counter(),
            final(self).counter() == id + 1,
    {
        let id = self.load();
        match self.try_allocate(id) {
            Ok(got) => got,
            Err(actual) => {
                proof {
                    assert(false);
                }
                actual
            },
        }
    }
}

/// Ids are unique: every successful allocation returns the counter it found
/// and leaves it one higher, so a later success returns a larger id; a failed
/// attempt changes nothing. Every id handed out is below `MAX_IDS`.
pub proof fn lemma_ids_increase(counter: u32, id1: u32, id2: u32)
    requires
        id1 < MAX_IDS,
        id2 < MAX_IDS,
        try_next(counter, id1).1 is Ok,
        try_next(try_next(counter, id1).0, id2).1 is Ok,
    ensures
        try_next(counter, id1).1 == Ok::<u32, u32>(counter),
        try_next(try_next(counter, id1).0, id2).1 == Ok::<u32, u32>((counter + 1) as u32),
        counter < counter + 1 < MAX_IDS + 1,
{
}

/// A failed attempt leaves the counter as it was and reports its value.
pub proof fn lemma_failed_attempt_changes_nothing(counter: u32, id: u32)
    requires
        counter != id,
    ensures
        try_next(counter, id) == (counter, Err::<u32, u32>(counter)),
{
}

/// The counter after the compare-and-exchange attempts `ids` (made by any
/// threads, each with the id it last read) on a new counter, and the ids
/// handed out, in order.
pub open spec fn run_attempts(ids: Seq<u32>) -> (u32, Seq<u32>)
    decreases ids.len(),
{
    if ids.len() == 0 {
        (0, Seq::empty())
    } else {
        let (c, out) = run_attempts(ids.drop_last());
        let (next, r) = try_next(c, ids.last());
        match r {
            Ok(id) => (next, out.push(id)),
            Err(_) => (next, out),
        }
    }
}

/// Whatever attempts any threads make, in any interleaving, starting from a
/// new counter: the ids handed out are exactly 0, 1, ..., k - 1 in order,
/// where k is the counter, so they are pairwise distinct, none is skipped,
/// and each is below `MAX_IDS`.
pub proof fn lemma_ids_are_consecutive(ids: Seq<u32>)
    requires
        forall|i: int| 0 <= i < ids.len() ==> #[trigger] ids[i] < MAX_IDS,
    ensures
        run_attempts(ids).0 <= MAX_IDS,
        run_attempts(ids).1.len() == run_attempts(ids).0,
        forall|i: int| 0 <= i < run_attempts(ids).1.len() ==> #[trigger] run_attempts(ids).1[i] == i,
        forall|i: int, j: int|
            0 <= i < j < run_attempts(ids).1.len() ==> #[trigger] run_attempts(ids).1[i] != #[trigger] run_attempts(
                ids,
            ).1[j],
    decreases ids.len(),
{
    if ids.len() > 0 {
        let rest = ids.drop_last();
        assert forall|i: int| 0 <= i < rest.len() implies #[trigger] rest[i] < MAX_IDS by {
            assert(rest[i] == ids[i]);
        }
        lemma_ids_are_consecutive(rest);
        assert(ids.last() == ids[ids.len() - 1]);
    }
}

} // verus!
