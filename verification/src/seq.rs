use vstd::prelude::*;

verus! {

/// One of the four sequentially consistent operations of the two threads:
/// thread A stores `true` to flag A and then loads flag B; thread B stores
/// `true` to flag B and then loads flag A. A thread whose load reads `false`
/// goes on to touch the shared string.
#[derive(PartialEq, Eq, Structural, Clone, Copy, Debug)]
pub enum SeqOp {
    StoreA,
    LoadB,
    StoreB,
    LoadA,
}

/// The flags and which threads touched the string, after some operations.
pub struct SeqState {
    pub a: bool,
    pub b: bool,
    pub a_accessed: bool,
    pub b_accessed: bool,
}

pub open spec fn seq_step(s: SeqState, op: SeqOp) -> SeqState {
    match op {
        SeqOp::StoreA => SeqState { a: true, ..s },
        SeqOp::StoreB => SeqState { b: true, ..s },
        SeqOp::LoadB => SeqState { a_accessed: !s.b, ..s },
        SeqOp::LoadA => SeqState { b_accessed: !s.a, ..s },
    }
}

/// The state after running `ops` in order from both flags clear.
pub open spec fn seq_run(ops: Seq<SeqOp>) -> SeqState
    decreases ops.len(),
{
    if ops.len() == 0 {
        SeqState { a: false, b: false, a_accessed: false, b_accessed: false }
    } else {
        seq_step(seq_run(ops.drop_last()), ops.last())
    }
}

/// Whether `op` is among the first `k` operations of `ops`.
pub open spec fn occurs_before(ops: Seq<SeqOp>, op: SeqOp, k: int) -> bool
    decreases k,
{
    if k <= 0 {
        false
    } else {
        ops[k - 1] == op || occurs_before(ops, op, k - 1)
    }
}

/// Whether, within the first `k` operations, the thread whose load is
/// `load` has touched the string: its load ran and found the other flag,
/// set by `store`, still clear.
pub open spec fn accessed_before(ops: Seq<SeqOp>, load: SeqOp, store: SeqOp, k: int) -> bool
    decreases k,
{
    if k <= 0 {
        false
    } else if ops[k - 1] == load {
        !occurs_before(ops, store, k - 1)
    } else {
        accessed_before(ops, load, store, k - 1)
    }
}

/// A total order of the four operations that keeps each thread's program
/// order: every operation occurs once, the store of A before the load of
/// B, and the store of B before the load of A.
pub open spec fn valid_order(ops: Seq<SeqOp>) -> bool {
    &&& ops.len() == 4
    &&& forall|i: int, j: int| 0 <= i < j < 4 ==> ops[i] != ops[j]
    &&& exists|i: int, j: int| 0 <= i < j < 4 && ops[i] == SeqOp::StoreA && ops[j] == SeqOp::LoadB
    &&& exists|i: int, j: int| 0 <= i < j < 4 && ops[i] == SeqOp::StoreB && ops[j] == SeqOp::LoadA
}

/// Run the two threads' operations in the total order `ops`; returns
/// whether thread A and thread B touched the string.
pub fn run(ops: &Vec<SeqOp>) -> (r: (bool, bool))
    ensures
        r == (seq_run(ops@).a_accessed, seq_run(ops@).b_accessed),
{
    let mut a = false;
    let mut b = false;
    let mut a_accessed = false;
    let mut b_accessed = false;
    let mut k: usize = 0;
    while k < ops.len()
        invariant
            k <= ops.len(),
            seq_run(ops@.subrange(0, k as int)) == (SeqState { a, b, a_accessed, b_accessed }),
        decreases ops.len() - k,
    {
        assert(ops@.subrange(0, (k + 1) as int).drop_last() =~= ops@.subrange(0, k as int));
        match ops[k] {
            SeqOp::StoreA => a = true,
            SeqOp::StoreB => b = true,
            SeqOp::LoadB => a_accessed = !b,
            SeqOp::LoadA => b_accessed = !a,
        }
        k = k + 1;
    }
    assert(ops@.subrange(0, ops.len() as int) =~= ops@);
    (a_accessed, b_accessed)
}

/// What a prefix has done: a flag is set once its store ran, and a thread
/// has touched the string once its load ran and read the other flag clear.
proof fn lemma_prefix(ops: Seq<SeqOp>, k: int)
    requires
        0 <= k <= ops.len(),
    ensures
        seq_run(ops.subrange(0, k)) == (SeqState {
            a: occurs_before(ops, SeqOp::StoreA, k),
            b: occurs_before(ops, SeqOp::StoreB, k),
            a_accessed: accessed_before(ops, SeqOp::LoadB, SeqOp::StoreB, k),
            b_accessed: accessed_before(ops, SeqOp::LoadA, SeqOp::StoreA, k),
        }),
    decreases k,
{
    if k > 0 {
        lemma_prefix(ops, k - 1);
        assert(ops.subrange(0, k).drop_last() =~= ops.subrange(0, k - 1));
        assert(ops.subrange(0, k).last() == ops[k - 1]);
    }
}

/// `op` occurs among the first `k` operations exactly when some position
/// below `k` holds it.
proof fn lemma_occurs_before(ops: Seq<SeqOp>, op: SeqOp, k: int, i: int)
    requires
        0 <= i < k <= ops.len(),
        ops[i] == op,
    ensures
        occurs_before(ops, op, k),
    decreases k,
{
    if i < k - 1 {
        lemma_occurs_before(ops, op, k - 1, i);
    }
}

/// A thread that touched the string did so at a load with no store of the
/// other flag before it.
proof fn lemma_accessed_witness(ops: Seq<SeqOp>, load: SeqOp, store: SeqOp, k: int) -> (j: int)
    requires
        0 <= k <= ops.len(),
        accessed_before(ops, load, store, k),
    ensures
        0 <= j < k,
        ops[j] == load,
        !occurs_before(ops, store, j),
    decreases k,
{
    if ops[k - 1] == load {
        k - 1
    } else {
        lemma_accessed_witness(ops, load, store, k - 1)
    }
}

/// Sequential consistency lets at most one thread in: in every total order
/// of the four operations that keeps each thread's own order, at most one
/// of the two threads touches the string.
pub proof fn lemma_at_most_one_access(ops: Seq<SeqOp>)
    requires
        valid_order(ops),
    ensures
        !(seq_run(ops).a_accessed && seq_run(ops).b_accessed),
{
    lemma_prefix(ops, 4);
    assert(ops.subrange(0, 4) =~= ops);
    if seq_run(ops).a_accessed && seq_run(ops).b_accessed {
        let jb = lemma_accessed_witness(ops, SeqOp::LoadB, SeqOp::StoreB, 4);
        let ja = lemma_accessed_witness(ops, SeqOp::LoadA, SeqOp::StoreA, 4);
        let (sa, lb) = choose|i: int, j: int| 0 <= i < j < 4 && ops[i] == SeqOp::StoreA && ops[j] == SeqOp::LoadB;
        let (sb, la) = choose|i: int, j: int| 0 <= i < j < 4 && ops[i] == SeqOp::StoreB && ops[j] == SeqOp::LoadA;
        assert(lb == jb);
        assert(la == ja);
        if sb < jb {
            lemma_occurs_before(ops, SeqOp::StoreB, jb, sb);
        }
        if sa < ja {
            lemma_occurs_before(ops, SeqOp::StoreA, ja, sa);
        }
        assert(false);
    }
}

/// Which thread touches the string, in every total order that keeps each
/// thread's own order: thread A does exactly when its load of flag B comes
/// before thread B's store to it, and thread B exactly when its load of
/// flag A comes before thread A's store.
pub proof fn lemma_access_iff_load_first(ops: Seq<SeqOp>)
    requires
        valid_order(ops),
    ensures
        seq_run(ops).a_accessed <==> exists|i: int, j: int|
            0 <= i < j < 4 && ops[i] == SeqOp::LoadB && ops[j] == SeqOp::StoreB,
        seq_run(ops).b_accessed <==> exists|i: int, j: int|
            0 <= i < j < 4 && ops[i] == SeqOp::LoadA && ops[j] == SeqOp::StoreA,
{
    lemma_prefix(ops, 4);
    assert(ops.subrange(0, 4) =~= ops);
    let (sa, lb) = choose|i: int, j: int| 0 <= i < j < 4 && ops[i] == SeqOp::StoreA && ops[j] == SeqOp::LoadB;
    let (sb, la) = choose|i: int, j: int| 0 <= i < j < 4 && ops[i] == SeqOp::StoreB && ops[j] == SeqOp::LoadA;
    lemma_accessed_at(ops, SeqOp::LoadB, SeqOp::StoreB, lb, sb);
    lemma_accessed_at(ops, SeqOp::LoadA, SeqOp::StoreA, la, sa);
}

/// In an order where `load` occurs once, at `l`, and `store` once, at
/// `st`: the thread touched the string exactly when its load comes first.
proof fn lemma_accessed_at(ops: Seq<SeqOp>, load: SeqOp, store: SeqOp, l: int, st: int)
    requires
        valid_order(ops),
        0 <= l < 4,
        0 <= st < 4,
        ops[l] == load,
        ops[st] == store,
        load != store,
    ensures
        accessed_before(ops, load, store, 4) <==> l < st,
        accessed_before(ops, load, store, 4) <==> exists|i: int, j: int|
            0 <= i < j < 4 && ops[i] == load && ops[j] == store,
{
    if accessed_before(ops, load, store, 4) {
        let j = lemma_accessed_witness(ops, load, store, 4);
        assert(j == l);
        if st < l {
            lemma_occurs_before(ops, store, l, st);
        }
    } else if l < st {
        if occurs_before(ops, store, l) {
            let i = lemma_occurs_witness(ops, store, l);
            assert(ops[i] == ops[st]);
        }
        lemma_accessed_from(ops, load, store, 4, l);
    }
    if exists|i: int, j: int| 0 <= i < j < 4 && ops[i] == load && ops[j] == store {
        let (i, j) = choose|i: int, j: int| 0 <= i < j < 4 && ops[i] == load && ops[j] == store;
        assert(i == l && j == st);
    }
}

/// An operation that occurs among the first `k` sits at some position below `k`.
proof fn lemma_occurs_witness(ops: Seq<SeqOp>, op: SeqOp, k: int) -> (i: int)
    requires
        0 <= k <= ops.len(),
        occurs_before(ops, op, k),
    ensures
        0 <= i < k,
        ops[i] == op,
    decreases k,
{
    if ops[k - 1] == op {
        k - 1
    } else {
        lemma_occurs_witness(ops, op, k - 1)
    }
}

/// A load at `l` with no store before it counts as touching the string.
proof fn lemma_accessed_from(ops: Seq<SeqOp>, load: SeqOp, store: SeqOp, k: int, l: int)
    requires
        valid_order(ops),
        0 <= l < k <= 4,
        ops[l] == load,
        !occurs_before(ops, store, l),
    ensures
        accessed_before(ops, load, store, k),
    decreases k,
{
    if k - 1 != l {
        assert(ops[k - 1] != load);
        lemma_accessed_from(ops, load, store, k - 1, l);
    }
}

/// In every total order that keeps each thread's own order, the first
/// operation is a store, which keeps the other thread out.
pub proof fn lemma_first_is_store(ops: Seq<SeqOp>)
    requires
        valid_order(ops),
    ensures
        ops[0] == SeqOp::StoreA || ops[0] == SeqOp::StoreB,
{
    let (sa, lb) = choose|i: int, j: int| 0 <= i < j < 4 && ops[i] == SeqOp::StoreA && ops[j] == SeqOp::LoadB;
    let (sb, la) = choose|i: int, j: int| 0 <= i < j < 4 && ops[i] == SeqOp::StoreB && ops[j] == SeqOp::LoadA;
}

/// It is possible that neither thread touches the string: when both stores
/// come before either load, both loads read the other flag set.
pub proof fn lemma_neither_may_access()
    ensures
        exists|ops: Seq<SeqOp>| #[trigger] valid_order(ops) && !seq_run(ops).a_accessed && !seq_run(ops).b_accessed,
{
    let ops = seq![SeqOp::StoreA, SeqOp::StoreB, SeqOp::LoadB, SeqOp::LoadA];
    assert(ops[0] == SeqOp::StoreA && ops[2] == SeqOp::LoadB);
    assert(ops[1] == SeqOp::StoreB && ops[3] == SeqOp::LoadA);
    assert(valid_order(ops));
    let p3 = ops.drop_last();
    let p2 = p3.drop_last();
    let p1 = p2.drop_last();
    assert(p1.drop_last() =~= Seq::<SeqOp>::empty());
    assert(!seq_run(Seq::<SeqOp>::empty()).a && !seq_run(Seq::<SeqOp>::empty()).b);
    assert(p1.last() == SeqOp::StoreA && p2.last() == SeqOp::StoreB);
    assert(p3.last() == SeqOp::LoadB && ops.last() == SeqOp::LoadA);
    assert(seq_run(p1).a && !seq_run(p1).b);
    assert(seq_run(p2).a && seq_run(p2).b);
    assert(!seq_run(p3).a_accessed);
    assert(!seq_run(ops).a_accessed && !seq_run(ops).b_accessed);
}

} // verus!
