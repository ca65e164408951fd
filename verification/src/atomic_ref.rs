use vstd::prelude::*;

verus! {

/// The lazily created data.
#[derive(Debug)]
pub struct Data;

/// Create the data.
pub fn genereate_data() -> (d: Data)
    ensures
        d == Data,
{
    Data
}

/// The shared pointer of the lazy initializer, as an address: 0 while no
/// data has been published.
pub struct DataSlot {
    ptr: u64,
}

/// What a thread's publishing compare-and-exchange tells it.
#[derive(PartialEq, Eq, Structural, Clone, Copy, Debug)]
pub enum Publish {
    /// Its own allocation is now the published data.
    Won,
    /// Another thread published first, at the given address; the thread
    /// frees its own allocation and uses that one.
    Lost(u64),
}

impl Publish {
    /// The address the thread goes on with, given its own allocation `fresh`.
    pub open spec fn address(self, fresh: u64) -> u64 {
        match self {
            Publish::Won => fresh,
            Publish::Lost(p) => p,
        }
    }
}

/// What a thread learns from loading the pointer: the published address, or
/// that nothing is published yet (it then allocates and publishes).
pub open spec fn lookup(ptr: u64) -> Option<u64> {
    if ptr == 0 {
        None
    } else {
        Some(ptr)
    }
}

/// The pointer after a thread that holds a freshly allocated `fresh` runs
/// the publishing compare-and-exchange, and what it is told.
pub open spec fn publish_next(ptr: u64, fresh: u64) -> (u64, Publish) {
    if ptr == 0 {
        (fresh, Publish::Won)
    } else {
        (ptr, Publish::Lost(ptr))
    }
}

impl DataSlot {
    /// The published address (0 for none).
    pub closed spec fn address(&self) -> u64 {
        self.ptr
    }

    pub fn new() -> (s: Self)
        ensures
            s.address() == 0,
    {
        DataSlot { ptr: 0 }
    }

    /// Load the pointer.
    pub fn load(&self) -> (p: u64)
        ensures
            p == self.address(),
    {
        self.ptr
    }

    /// The first step of getting the data: load the pointer. `Some` is the
    /// published address to use; `None` means the thread is to allocate the
    /// data and `publish` it.
    pub fn get_data(&self) -> (r: Option<u64>)
        ensures
            r == lookup(self.address()),
    {
        let p = self.load();
        if p == 0 {
            None
        } else {
            Some(p)
        }
    }

    /// The second step, for a thread that allocated at `fresh`: publish it if
    /// nothing is published yet (`Won`); otherwise the thread is told the
    /// published address and frees its own allocation (`Lost`).
    pub fn publish(&mut self, fresh: u64) -> (r: Publish)
        requires
            fresh != 0,
        ensures
            (final(self).address(), r) == publish_next(old(self).address(), fresh),
    {
        if self.ptr == 0 {
            self.ptr = fresh;
            Publish::Won
        } else {
            Publish::Lost(self.ptr)
        }
    }
}

/// Initialization happens once: once something is published, every later
/// thread's load finds it, and a thread that allocated anyway loses and is
/// told that address; of two threads that both found nothing and both
/// publish, exactly the first wins and both go on with its allocation, and
/// the pointer never changes again.
pub proof fn lemma_single_initialization(ptr: u64, fresh1: u64, fresh2: u64)
    requires
        fresh1 != 0,
        fresh2 != 0,
    ensures
        lookup(publish_next(ptr, fresh1).0) == Some(publish_next(ptr, fresh1).1.address(fresh1)),
        publish_next(publish_next(ptr, fresh1).0, fresh2).1 matches Publish::Lost(_),
        publish_next(publish_next(ptr, fresh1).0, fresh2).1.address(fresh2) == publish_next(ptr, fresh1).1.address(
            fresh1,
        ),
        publish_next(publish_next(ptr, fresh1).0, fresh2).0 == publish_next(ptr, fresh1).0,
        ptr == 0 ==> publish_next(ptr, fresh1).1 == Publish::Won,
{
}

} // verus!
