use vstd::prelude::*;

verus! {

/// A resident chunk offered for eviction: its size, and whether a fault is
/// resolving it now.
#[derive(Debug, Clone, Copy, PartialEq, Eq, Structural)]
pub struct Candidate {
    pub bytes: usize,
    pub busy: bool,
}

/// Bytes held by the chunks among the first `i` candidates that no fault is
/// resolving.
pub open spec fn evictable_bytes(c: Seq<Candidate>, i: int) -> int
    decreases i,
{
    if i <= 0 {
        0
    } else {
        evictable_bytes(c, i - 1) + if c[i - 1].busy { 0int } else { c[i - 1].bytes as int }
    }
}

/// Bytes held by the selected candidates.
pub open spec fn planned_bytes(c: Seq<Candidate>, sel: Seq<usize>) -> int
    decreases sel.len(),
{
    if sel.len() == 0 {
        0
    } else {
        planned_bytes(c, sel.drop_last()) + c[sel.last() as int].bytes as int
    }
}

/// The total of a prefix depends on that prefix alone.
pub proof fn lemma_evictable_prefix(a: Seq<Candidate>, b: Seq<Candidate>, n: int)
    requires
        0 <= n <= a.len(),
        n <= b.len(),
        forall|j: int| 0 <= j < n ==> a[j] == b[j],
    ensures
        evictable_bytes(a, n) == evictable_bytes(b, n),
    decreases n,
{
    if n > 0 {
        lemma_evictable_prefix(a, b, n - 1);
    }
}

proof fn lemma_evictable_monotone(c: Seq<Candidate>, i: int, j: int)
    requires
        0 <= i <= j,
    ensures
        evictable_bytes(c, i) <= evictable_bytes(c, j),
    decreases j - i,
{
    if i < j {
        lemma_evictable_monotone(c, i, j - 1);
    }
}

/// Picks, in the order given (oldest first), the chunks to evict so that
/// resident bytes fall to the low watermark: each chunk no fault is resolving
/// is taken while the resident total is still above `low`, and busy chunks
/// are never taken.
pub fn plan_evictions(c: &Vec<Candidate>, resident: usize, low: usize) -> (sel: Vec<usize>)
    requires
        evictable_bytes(c@, c@.len() as int) <= resident,
    ensures
        forall|k: int| 0 <= k < sel@.len() ==> #[trigger] sel@[k] < c@.len() && !c@[sel@[k] as int].busy,
        forall|k1: int, k2: int| 0 <= k1 < k2 < sel@.len() ==> sel@[k1] < sel@[k2],
        forall|k: int| 0 <= k < sel@.len() ==> resident - planned_bytes(c@, #[trigger] sel@.take(k)) > low,
        forall|j: int|
            0 <= j < c@.len() && !c@[j].busy && sel@.len() > 0 && j < sel@.last()
                ==> #[trigger] sel@.contains(j as usize),
        resident - planned_bytes(c@, sel@) <= low || planned_bytes(c@, sel@) == evictable_bytes(
            c@,
            c@.len() as int,
        ),
{
    let mut sel: Vec<usize> = Vec::new();
    let mut remaining: usize = resident;
    let mut i: usize = 0;
    while i < c.len()
        invariant
            0 <= i <= c@.len(),
            evictable_bytes(c@, c@.len() as int) <= resident,
            remaining == resident - planned_bytes(c@, sel@),
            planned_bytes(c@, sel@) == evictable_bytes(c@, i as int),
            forall|k: int| 0 <= k < sel@.len() ==> #[trigger] sel@[k] < i && !c@[sel@[k] as int].busy,
            forall|k1: int, k2: int| 0 <= k1 < k2 < sel@.len() ==> sel@[k1] < sel@[k2],
            forall|k: int| 0 <= k < sel@.len() ==> resident - planned_bytes(c@, #[trigger] sel@.take(k)) > low,
            forall|j: int| 0 <= j < i && !c@[j].busy ==> #[trigger] sel@.contains(j as usize),
        ensures
            i == c@.len() || remaining <= low,
        decreases c@.len() - i,
    {
        if remaining <= low {
            break;
        }
        if !c[i].busy {
            proof {
                lemma_evictable_monotone(c@, i as int + 1, c@.len() as int);
            }
            let ghost old_sel = sel@;
            sel.push(i);
            proof {
                assert(sel@.drop_last() =~= old_sel);
                assert(sel@.take(old_sel.len() as int) =~= old_sel);
                assert forall|k: int| 0 <= k < sel@.len() implies resident - planned_bytes(
                    c@,
                    #[trigger] sel@.take(k),
                ) > low by {
                    if k < old_sel.len() {
                        assert(sel@.take(k) =~= old_sel.take(k));
                    }
                }
                assert forall|j: int| 0 <= j < i + 1 && !c@[j].busy implies #[trigger] sel@.contains(
                    j as usize,
                ) by {
                    if j < i {
                        assert(old_sel.contains(j as usize));
                        let w = choose|w: int| 0 <= w < old_sel.len() && old_sel[w] == j as usize;
                        assert(sel@[w] == j as usize);
                    } else {
                        assert(sel@[old_sel.len() as int] == i);
                    }
                }
            }
            remaining = remaining - c[i].bytes;
        }
        i = i + 1;
    }
    proof {
        if sel@.len() > 0 {
            assert forall|j: int|
                0 <= j < c@.len() && !c@[j].busy && j < sel@.last() implies #[trigger] sel@.contains(
                j as usize,
            ) by {
                assert(sel@[sel@.len() - 1] < i);
            }
        }
    }
    sel
}

/// When the chunks no fault is resolving hold at least the excess over the
/// low watermark, the plan brings the resident total down to it; and it
/// never takes a busy chunk.
pub proof fn lemma_plan_reaches_low(c: Seq<Candidate>, sel: Seq<usize>, resident: int, low: int)
    requires
        resident - evictable_bytes(c, c.len() as int) <= low,
        resident - planned_bytes(c, sel) <= low || planned_bytes(c, sel) == evictable_bytes(c, c.len() as int),
        forall|k: int| 0 <= k < sel.len() ==> #[trigger] sel[k] < c.len() && !c[sel[k] as int].busy,
    ensures
        resident - planned_bytes(c, sel) <= low,
        forall|k: int| 0 <= k < sel.len() ==> !(#[trigger] c[sel[k] as int]).busy,
{
    assert forall|k: int| 0 <= k < sel.len() implies !(#[trigger] c[sel[k] as int]).busy by {
        assert(sel[k] < c.len());
    }
}

} // verus!
