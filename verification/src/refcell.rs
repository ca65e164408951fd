use vstd::prelude::*;

verus! {

/// Borrow the shared vector mutably and push 99 onto it.
pub fn f(v: &mut Vec<i32>)
    ensures
        final(v)@ == old(v)@.push(99),
{
    v.push(99);
}

} // verus!
