use vstd::prelude::*;

verus! {

/// The largest reference count at which a clone is still allowed; past it
/// the process aborts.
pub const MAX_REFS: usize = usize::MAX / 2;

/// A reference-counted shared allocation: the count of `Arc` handles that
/// point to it, and the data, present until the last handle is dropped.
pub struct Arc<T> {
    ref_count: usize,
    data: Option<T>,
}

/// The reference count after a handle is dropped, and whether that drop
/// frees the data (it was the last handle).
pub open spec fn drop_next(count: usize) -> (usize, bool) {
    ((count - 1) as usize, count == 1)
}

impl<T> Arc<T> {
    /// The number of handles.
    pub closed spec fn count(&self) -> usize {
        self.ref_count
    }

    /// The shared data, `None` once freed.
    pub closed spec fn payload(&self) -> Option<T> {
        self.data
    }

    /// The data is allocated exactly while some handle exists.
    pub open spec fn wf(&self) -> bool {
        self.count() > 0 <==> self.payload() is Some
    }

    /// Allocate `data` with one handle to it.
    pub fn new(data: T) -> (a: Self)
        ensures
            a.wf(),
            a.count() == 1,
            a.payload() == Some(data),
    {
        Arc { ref_count: 1, data: Some(data) }
    }

    /// The number of handles, read at run time (a clone needs it to be at
    /// most `MAX_REFS`).
    pub fn handle_count(&self) -> (c: usize)
        ensures
            c == self.count(),
    {
        self.ref_count
    }

    /// Shared access through any live handle.
    pub fn deref(&self) -> (v: &T)
        requires
            self.wf(),
            self.count() > 0,
        ensures
            Some(*v) == self.payload(),
    {
        self.data.as_ref().unwrap()
    }

    /// Clone a handle: one more reference. A count past `MAX_REFS` aborts the
    /// process, so it is excluded here.
    pub fn clone_handle(&mut self)
        requires
            old(self).wf(),
            0 < old(self).count() <= MAX_REFS,
        ensures
            final(self).wf(),
            final(self).count() == old(self).count() + 1,
            final(self).payload() == old(self).payload(),
    {
        self.ref_count = self.ref_count + 1;
    }

    /// Drop a handle: one reference less. The last handle frees the data,
    /// which is handed back so that it is dropped by the caller.
    pub fn drop_handle(&mut self) -> (freed: Option<T>)
        requires
            old(self).wf(),
            old(self).count() > 0,
        ensures
            final(self).wf(),
            (final(self).count(), freed is Some) == drop_next(old(self).count()),
            freed is Some ==> freed == old(self).payload() && final(self).payload() is None,
            freed is None ==> final(self).payload() == old(self).payload(),
    {
        self.ref_count = self.ref_count - 1;
        if self.ref_count == 0 {
            self.data.take()
        } else {
            None
        }
    }

    /// Exclusive access to the data, granted only when this is the one
    /// handle left.
    pub fn get_mut(arc: &mut Self) -> (r: Option<&mut T>)
        requires
            old(arc).wf(),
            old(arc).count() > 0,
        ensures
            r is Some <==> old(arc).count() == 1,
            final(arc).count() == old(arc).count(),
            r is Some ==> Some(*r.unwrap()) == old(arc).payload()
                && final(arc).payload() == Some(*final(r.unwrap())),
            r is None ==> final(arc).payload() == old(arc).payload(),
    {
        if arc.ref_count == 1 {
            arc.data.as_mut()
        } else {
            None
        }
    }
}

/// One operation on the handles of one allocation.
pub enum ArcEvent {
    /// Some live handle is cloned.
    Clone,
    /// Some live handle is dropped.
    Drop,
}

/// The handles of one allocation: how many there are, whether the data is
/// still allocated, and how many times it has been freed.
pub struct ArcState {
    pub count: nat,
    pub allocated: bool,
    pub frees: nat,
}

impl ArcState {
    /// Right after `Arc::new`.
    pub open spec fn init() -> Self {
        ArcState { count: 1, allocated: true, frees: 0 }
    }

    /// The state after `e`; with no handle left there is nothing to clone or
    /// drop, so the event changes nothing.
    pub open spec fn next(self, e: ArcEvent) -> Self {
        if self.count == 0 {
            self
        } else {
            match e {
                ArcEvent::Clone => ArcState { count: self.count + 1, ..self },
                ArcEvent::Drop => if self.count == 1 {
                    ArcState { count: 0, allocated: false, frees: self.frees + 1 }
                } else {
                    ArcState { count: (self.count - 1) as nat, ..self }
                },
            }
        }
    }

    pub open spec fn run(self, es: Seq<ArcEvent>) -> Self
        decreases es.len(),
    {
        if es.len() == 0 {
            self
        } else {
            self.run(es.drop_last()).next(es.last())
        }
    }
}

/// The last handle frees the data: a drop frees exactly when it drops the
/// only handle.
pub proof fn lemma_last_drop_frees(count: usize)
    requires
        count > 0,
    ensures
        drop_next(count).1 <==> count == 1,
        drop_next(count).0 == count - 1,
{
}

/// In every sequence of clones and drops after `Arc::new`, the data stays
/// allocated exactly while some handle exists, and it is freed at most once:
/// once when the last handle goes, never before.
pub proof fn lemma_freed_once_when_last_handle_drops(es: Seq<ArcEvent>)
    ensures
        ArcState::init().run(es).allocated <==> ArcState::init().run(es).count > 0,
        ArcState::init().run(es).frees == if ArcState::init().run(es).allocated { 0nat } else { 1nat },
    decreases es.len(),
{
    if es.len() > 0 {
        lemma_freed_once_when_last_handle_drops(es.drop_last());
    }
}

/// Dropping a clone undoes the clone: the count is back where it was and
/// nothing is freed.
pub proof fn lemma_clone_then_drop(count: usize)
    requires
        0 < count <= MAX_REFS,
    ensures
        drop_next((count + 1) as usize) == (count, false),
{
}

} // verus!
