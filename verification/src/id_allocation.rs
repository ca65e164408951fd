use vstd::prelude::*;

verus! {

/// The shared id counter of the first allocator: a `fetch_add` of one
/// followed by a separate load of the counter.
pub struct IdAllocator {
    next_id: u32,
}

impl IdAllocator {
    /// The counter word.
    pub closed spec fn counter(&self) -> u32 {
        self.next_id
    }

    pub fn new() -> (a: Self)
        ensures
            a.counter() == 0,
    {
        IdAllocator { next_id: 0 }
    }

    /// The first step: add one to the counter (wrapping, as an atomic add
    /// does) and return the value it held before.
    pub fn fetch_add(&mut self) -> (prev: u32)
        ensures
            prev == old(self).counter(),
            final(self).counter() == old(self).counter().wrapping_add(1),
    {
        let prev = self.next_id;
        self.next_id = self.next_id.wrapping_add(1);
        prev
    }

    /// The second step: load the counter.
    pub fn load(&self) -> (v: u32)
        ensures
            v == self.counter(),
    {
        self.next_id
    }

    /// Add one to the counter and then return what a separate load of the
    /// counter reads: with no other thread in between, the counter after the
    /// addition, not the value this call added to. (Another thread's addition
    /// between the two steps makes two calls return the same id.)
    pub fn allocate_new_id(&mut self) -> (id: u32)
        ensures
            final(self).counter() == old(self).counter().wrapping_add(1),
            id == final(self).counter(),
    {
        self.fetch_add();
        self.load()
    }
}

} // verus!
