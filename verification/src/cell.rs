use vstd::prelude::*;

verus! {

/// Two shared cells `a` and `b`, given as positions in `cells`, which may be
/// the same cell: read `a`, add one to `b`, read `a` again. Returns whether
/// the two reads of `a` differ, the case in which the follow-up work runs;
/// that happens exactly when `a` and `b` are the same cell.
pub fn f(cells: &mut Vec<i32>, a: usize, b: usize) -> (changed: bool)
    requires
        a < old(cells).len(),
        b < old(cells).len(),
        old(cells)[b as int] < i32::MAX,
    ensures
        final(cells)@ == old(cells)@.update(b as int, (old(cells)[b as int] + 1) as i32),
        changed == (a == b),
{
    let before = cells[a];
    let incremented = cells[b] + 1;
    cells.set(b, incremented);
    let after = cells[a];
    before != after
}

} // verus!
