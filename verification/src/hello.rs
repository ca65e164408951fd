use vstd::prelude::*;

verus! {

/// The function a thread runs to hand back a value to the thread that joins
/// it; it has nothing to compute.
pub fn return_value_from_callable() {
}

} // verus!
