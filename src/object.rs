use vstd::prelude::*;
use crate::chunk::{
    begin_touch, evict, evict_spec, finish_spec, finish_touch, is_resolving, never_written, touch_spec,
    lemma_read_only_never_written, ChunkState, EvictAction, FaultAction,
};
use crate::layout::{chunk_size_of, lemma_chunk_size_positive, layout_for, ObjectLayout, UfoParameters};

verus! {

/// The bytes chunk `k` adds to the resident total when in state `s`.
pub open spec fn resident_share(s: ChunkState, l: ObjectLayout, k: int) -> int {
    if s == ChunkState::Populated { chunk_size_of(l, k) } else { 0 }
}

/// The bytes of the resident chunks among the first `n`.
pub open spec fn populated_bytes(states: Seq<ChunkState>, l: ObjectLayout, n: int) -> int
    decreases n,
{
    if n <= 0 {
        0
    } else {
        populated_bytes(states, l, n - 1) + resident_share(states[n - 1], l, n - 1)
    }
}

/// Changing the state of one chunk changes the total by that chunk's share
/// alone.
pub proof fn lemma_populated_update(states: Seq<ChunkState>, l: ObjectLayout, n: int, k: int, v: ChunkState)
    requires
        0 <= k < n <= states.len(),
    ensures
        populated_bytes(states.update(k, v), l, n) == populated_bytes(states, l, n) - resident_share(states[k], l, k)
            + resident_share(v, l, k),
    decreases n,
{
    if n - 1 > k {
        lemma_populated_update(states, l, n - 1, k, v);
    } else {
        assert(populated_bytes(states.update(k, v), l, n - 1) == populated_bytes(states, l, n - 1)) by {
            lemma_populated_prefix_same(states, states.update(k, v), l, n - 1);
        }
    }
}

proof fn lemma_populated_prefix_same(a: Seq<ChunkState>, b: Seq<ChunkState>, l: ObjectLayout, n: int)
    requires
        n <= a.len(),
        n <= b.len(),
        forall|j: int| 0 <= j < n ==> a[j] == b[j],
    ensures
        populated_bytes(a, l, n) == populated_bytes(b, l, n),
    decreases n,
{
    if n > 0 {
        lemma_populated_prefix_same(a, b, l, n - 1);
    }
}

/// The total is at least the share of any one chunk, and never negative.
pub proof fn lemma_populated_covers(states: Seq<ChunkState>, l: ObjectLayout, n: int, k: int)
    requires
        l.wf(),
        0 <= n <= states.len(),
        n <= l.spec_chunk_count(),
    ensures
        populated_bytes(states, l, n) >= 0,
        0 <= k < n ==> resident_share(states[k], l, k) <= populated_bytes(states, l, n),
    decreases n,
{
    if n > 0 {
        lemma_populated_covers(states, l, n - 1, k);
        lemma_chunk_size_positive(l, n - 1);
    }
}

proof fn lemma_populated_none(states: Seq<ChunkState>, l: ObjectLayout, n: int)
    requires
        0 <= n <= states.len(),
        forall|j: int| 0 <= j < n ==> states[j] != ChunkState::Populated,
    ensures
        populated_bytes(states, l, n) == 0,
    decreases n,
{
    if n > 0 {
        lemma_populated_none(states, l, n - 1);
    }
}

/// One lazily populated object: its identity, address range, parameters and
/// the state of each of its chunks.
pub struct UfoObject {
    pub id: u64,
    pub base: usize,
    pub params: UfoParameters,
    pub layout: ObjectLayout,
    pub states: Vec<ChunkState>,
    /// Bytes of this object's chunks that are resident.
    pub resident: usize,
    /// A writeback read or write failed: the object's contents can no
    /// longer be trusted and every access is denied.
    pub unusable: bool,
    /// The object is being destroyed: no new fault may start on it.
    pub closing: bool,
}

impl UfoObject {
    pub open spec fn wf(&self) -> bool {
        &&& self.layout == layout_for(self.params)
        &&& self.layout.wf()
        &&& self.states@.len() == self.layout.spec_chunk_count()
        &&& self.base + self.layout.total_length <= usize::MAX
        &&& self.resident == populated_bytes(self.states@, self.layout, self.states@.len() as int)
        &&& self.layout.read_only ==> forall|i: int|
            0 <= i < self.states@.len() ==> never_written(#[trigger] self.states@[i])
    }

    /// Whether address `ptr` lies in the object's range.
    pub open spec fn holds(&self, ptr: int) -> bool {
        self.base <= ptr < self.base + self.layout.total_length
    }

    /// Whether the object's range meets `[base, base + len)`.
    pub open spec fn overlaps(&self, base: int, len: int) -> bool {
        self.base < base + len && base < self.base + self.layout.total_length
    }

    /// Whether a fault is resolving one of the object's chunks.
    pub open spec fn spec_in_flight(&self) -> bool {
        exists|i: int| 0 <= i < self.states@.len() && (#[trigger] self.states@[i]) is Resolving
    }

    /// A new object whose chunks are all untouched.
    pub fn new(id: u64, base: usize, params: UfoParameters, layout: ObjectLayout) -> (r: UfoObject)
        requires
            layout == layout_for(params),
            layout.wf(),
            base + layout.total_length <= usize::MAX,
        ensures
            r.wf(),
            r.id == id,
            r.base == base,
            r.params == params,
            r.layout == layout,
            r.resident == 0,
            !r.unusable,
            !r.closing,
            forall|i: int| 0 <= i < r.states@.len() ==> #[trigger] r.states@[i] == ChunkState::Unmapped,
    {
        let n = layout.chunk_count();
        let mut states: Vec<ChunkState> = Vec::new();
        let mut i: usize = 0;
        while i < n
            invariant
                i <= n,
                states@.len() == i,
                forall|j: int| 0 <= j < i ==> #[trigger] states@[j] == ChunkState::Unmapped,
            decreases n - i,
        {
            states.push(ChunkState::Unmapped);
            i = i + 1;
        }
        proof {
            lemma_populated_none(states@, layout, states@.len() as int);
        }
        UfoObject { id, base, params, layout, states, resident: 0, unusable: false, closing: false }
    }

    /// Whether a fault is resolving one of the object's chunks.
    pub fn in_flight(&self) -> (r: bool)
        ensures
            r == self.spec_in_flight(),
    {
        let mut i: usize = 0;
        while i < self.states.len()
            invariant
                i <= self.states@.len(),
                forall|j: int| 0 <= j < i ==> !((#[trigger] self.states@[j]) is Resolving),
            decreases self.states@.len() - i,
        {
            if is_resolving(self.states[i]) {
                return true;
            }
            i = i + 1;
        }
        false
    }

    /// Starts resolving a touch of chunk `k`.
    pub fn touch_chunk(&mut self, k: usize) -> (r: FaultAction)
        requires
            old(self).wf(),
            k < old(self).states@.len(),
        ensures
            final(self).wf(),
            final(self).states@ == old(self).states@.update(k as int, touch_spec(old(self).states@[k as int]).0),
            r == touch_spec(old(self).states@[k as int]).1,
            final(self).id == old(self).id,
            final(self).base == old(self).base,
            final(self).params == old(self).params,
            final(self).layout == old(self).layout,
            final(self).unusable == old(self).unusable,
            final(self).closing == old(self).closing,
            final(self).resident == old(self).resident,
    {
        let (s, a) = begin_touch(self.states[k]);
        proof {
            if self.layout.read_only {
                lemma_read_only_never_written(self.states@[k as int], false, false);
            }
            lemma_populated_update(self.states@, self.layout, self.states@.len() as int, k as int, s);
        }
        self.states.set(k, s);
        a
    }

    /// Ends the resolution of chunk `k`; on success the chunk is resident
    /// and its bytes count.
    pub fn finish_chunk(&mut self, k: usize, ok: bool) -> (r: bool)
        requires
            old(self).wf(),
            k < old(self).states@.len(),
            ok ==> old(self).resident + chunk_size_of(old(self).layout, k as int) <= usize::MAX,
        ensures
            final(self).wf(),
            r == (old(self).states@[k as int] is Resolving),
            final(self).states@ == old(self).states@.update(k as int, finish_spec(old(self).states@[k as int], ok)),
            final(self).resident == old(self).resident + if r && ok {
                chunk_size_of(old(self).layout, k as int)
            } else {
                0
            },
            final(self).id == old(self).id,
            final(self).base == old(self).base,
            final(self).params == old(self).params,
            final(self).layout == old(self).layout,
            final(self).unusable == old(self).unusable,
            final(self).closing == old(self).closing,
    {
        let was = is_resolving(self.states[k]);
        let s = finish_touch(self.states[k], ok);
        proof {
            if self.layout.read_only {
                lemma_read_only_never_written(self.states@[k as int], false, ok);
            }
            lemma_populated_update(self.states@, self.layout, self.states@.len() as int, k as int, s);
        }
        self.states.set(k, s);
        if was && ok {
            let (first, end) = self.layout.chunk_byte_range(k);
            self.resident = self.resident + (end - first);
        }
        was
    }

    /// Evicts chunk `k`, writing it back only if the object is writable and
    /// the chunk may have changed.
    pub fn evict_chunk(&mut self, k: usize, dirty: bool) -> (r: EvictAction)
        requires
            old(self).wf(),
            k < old(self).states@.len(),
        ensures
            final(self).wf(),
            r == evict_spec(old(self).states@[k as int], old(self).layout.read_only, dirty).1,
            final(self).states@ == old(self).states@.update(
                k as int,
                evict_spec(old(self).states@[k as int], old(self).layout.read_only, dirty).0,
            ),
            final(self).resident == old(self).resident - if r == EvictAction::Discard || r == EvictAction::WriteBack {
                chunk_size_of(old(self).layout, k as int)
            } else {
                0
            },
            final(self).id == old(self).id,
            final(self).base == old(self).base,
            final(self).params == old(self).params,
            final(self).layout == old(self).layout,
            final(self).unusable == old(self).unusable,
            final(self).closing == old(self).closing,
    {
        let (s, a) = evict(self.states[k], self.layout.read_only, dirty);
        proof {
            if self.layout.read_only {
                lemma_read_only_never_written(self.states@[k as int], dirty, false);
            }
            lemma_populated_update(self.states@, self.layout, self.states@.len() as int, k as int, s);
            lemma_populated_covers(self.states@, self.layout, self.states@.len() as int, k as int);
        }
        self.states.set(k, s);
        match a {
            EvictAction::Discard | EvictAction::WriteBack => {
                let (first, end) = self.layout.chunk_byte_range(k);
                self.resident = self.resident - (end - first);
            },
            _ => {},
        }
        a
    }
}

} // verus!
