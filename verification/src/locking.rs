use vstd::prelude::*;

verus! {

/// The compare-and-exchange of the flag from clear to set: whether it
/// succeeded (the flag was clear).
pub fn try_lock(locked: &mut bool) -> (acquired: bool)
    ensures
        acquired == !*old(locked),
        *final(locked),
{
    let acquired = !*locked;
    *locked = true;
    acquired
}

/// The store that clears the flag.
pub fn unlock(locked: &mut bool)
    ensures
        !*final(locked),
{
    *locked = false;
}

/// The work under the flag: append `'!'`.
pub fn push_bang(data: &mut Vec<char>)
    ensures
        final(data)@ == old(data)@.push('!'),
{
    data.push('!');
}

/// One thread's turn at the flag-protected string, its steps run in a row:
/// if compare-and-exchange finds the flag clear, it sets it, appends `'!'`,
/// and clears it again; if the flag is set (another thread is between its
/// own compare-and-exchange and its store) it gives up without appending,
/// as there is no retry. Returns whether it appended.
pub fn f(locked: &mut bool, data: &mut Vec<char>) -> (changed: bool)
    ensures
        changed == !*old(locked),
        *final(locked) == *old(locked),
        changed ==> final(data)@ == old(data)@.push('!'),
        !changed ==> final(data)@ == old(data)@,
{
    let mut changed = false;
    if try_lock(locked) {
        push_bang(data);
        changed = true;
        unlock(locked);
    }
    changed
}

} // verus!
