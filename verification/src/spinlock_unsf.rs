use vstd::prelude::*;

verus! {

/// A spin lock without a guard: `lock` hands out access to the value, and the
/// caller promises to call `unlock` once it is done with it.
pub struct SpinLock<T> {
    locked: bool,
    value: T,
}

impl<T> SpinLock<T> {
    /// Whether the flag reads locked.
    pub closed spec fn is_locked(&self) -> bool {
        self.locked
    }

    /// The protected value.
    pub closed spec fn content(&self) -> T {
        self.value
    }

    pub fn new(value: T) -> (s: Self)
        ensures
            !s.is_locked(),
            s.content() == value,
    {
        SpinLock { locked: false, value }
    }

    /// One turn of the spin loop: swap `true` into the flag; the caller owns
    /// the value exactly when the flag read `false`.
    pub fn lock(&mut self) -> (acquired: bool)
        ensures
            final(self).is_locked(),
            final(self).content() == old(self).content(),
            acquired == !old(self).is_locked(),
    {
        let was_locked = self.locked;
        self.locked = true;
        !was_locked
    }

    /// Store `false` into the flag.
    pub fn unlock(&mut self)
        ensures
            !final(self).is_locked(),
            final(self).content() == old(self).content(),
    {
        self.locked = false;
    }

    /// Read the value; only the thread that acquired the lock may do this.
    pub fn get(&self) -> (v: &T)
        requires
            self.is_locked(),
        ensures
            *v == self.content(),
    {
        &self.value
    }

    /// Replace the value; only the thread that acquired the lock may do this.
    pub fn set(&mut self, value: T)
        requires
            old(self).is_locked(),
        ensures
            final(self).is_locked(),
            final(self).content() == value,
    {
        self.value = value;
    }
}

} // verus!
