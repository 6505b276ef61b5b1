use vstd::prelude::*;

verus! {

/// The state a chunk was in when a fault began resolving it, and returns to
/// if resolution fails.
#[derive(Debug, Clone, Copy, PartialEq, Eq, Structural)]
pub enum PriorState {
    Unmapped,
    EvictedClean,
    EvictedWritten,
}

/// Population and residency of one chunk.
#[derive(Debug, Clone, Copy, PartialEq, Eq, Structural)]
pub enum ChunkState {
    /// Never touched: no backing memory.
    Unmapped,
    /// Resident and accessible.
    Populated,
    /// Evicted without writeback: recomputed on the next touch.
    EvictedClean,
    /// Evicted after its bytes went to the writeback store.
    EvictedWritten,
    /// A fault is resolving it right now.
    Resolving(PriorState),
}

/// What the thread that touched a chunk must do.
#[derive(Debug, Clone, Copy, PartialEq, Eq, Structural)]
pub enum FaultAction {
    /// The chunk is resident: the access completes.
    Proceed,
    /// Another thread is resolving the chunk: wait for it.
    Wait,
    /// Run the population routine over the chunk's element range.
    Populate,
    /// Read the chunk back from the writeback store.
    ReadBack,
}

/// What an eviction attempt did to a chunk.
#[derive(Debug, Clone, Copy, PartialEq, Eq, Structural)]
pub enum EvictAction {
    /// The chunk was not resident: nothing to do.
    NotResident,
    /// A fault is resolving the chunk: it is left alone.
    Busy,
    /// Access revoked and the bytes dropped.
    Discard,
    /// Access revoked after the bytes are written to the writeback store.
    WriteBack,
}

/// The state and action that follow a touch of a chunk in state `s`.
pub open spec fn touch_spec(s: ChunkState) -> (ChunkState, FaultAction) {
    match s {
        ChunkState::Unmapped => (ChunkState::Resolving(PriorState::Unmapped), FaultAction::Populate),
        ChunkState::EvictedClean => (ChunkState::Resolving(PriorState::EvictedClean), FaultAction::Populate),
        ChunkState::EvictedWritten => (ChunkState::Resolving(PriorState::EvictedWritten), FaultAction::ReadBack),
        ChunkState::Populated => (s, FaultAction::Proceed),
        ChunkState::Resolving(_) => (s, FaultAction::Wait),
    }
}

/// The state after the fault resolving a chunk in state `s` ends.
pub open spec fn finish_spec(s: ChunkState, ok: bool) -> ChunkState {
    match s {
        ChunkState::Resolving(p) => if ok {
            ChunkState::Populated
        } else {
            match p {
                PriorState::Unmapped => ChunkState::Unmapped,
                PriorState::EvictedClean => ChunkState::EvictedClean,
                PriorState::EvictedWritten => ChunkState::EvictedWritten,
            }
        },
        _ => s,
    }
}

/// The state and action that follow an eviction attempt. Only a chunk of a
/// writable object whose bytes may have changed is written back.
pub open spec fn evict_spec(s: ChunkState, read_only: bool, dirty: bool) -> (ChunkState, EvictAction) {
    match s {
        ChunkState::Populated => if !read_only && dirty {
            (ChunkState::EvictedWritten, EvictAction::WriteBack)
        } else {
            (ChunkState::EvictedClean, EvictAction::Discard)
        },
        ChunkState::Resolving(_) => (s, EvictAction::Busy),
        _ => (s, EvictAction::NotResident),
    }
}

/// The chunk holds no bytes in the writeback store, and no fault is reading
/// any back.
pub open spec fn never_written(s: ChunkState) -> bool {
    s != ChunkState::EvictedWritten && s != ChunkState::Resolving(PriorState::EvictedWritten)
}

/// Starts resolving a touch of a chunk.
pub fn begin_touch(s: ChunkState) -> (r: (ChunkState, FaultAction))
    ensures
        r == touch_spec(s),
{
    match s {
        ChunkState::Unmapped => (ChunkState::Resolving(PriorState::Unmapped), FaultAction::Populate),
        ChunkState::EvictedClean => (ChunkState::Resolving(PriorState::EvictedClean), FaultAction::Populate),
        ChunkState::EvictedWritten => (ChunkState::Resolving(PriorState::EvictedWritten), FaultAction::ReadBack),
        ChunkState::Populated => (s, FaultAction::Proceed),
        ChunkState::Resolving(_) => (s, FaultAction::Wait),
    }
}

/// Ends the resolution of a chunk: resident on success, back to where it was
/// on failure.
pub fn finish_touch(s: ChunkState, ok: bool) -> (r: ChunkState)
    ensures
        r == finish_spec(s, ok),
{
    match s {
        ChunkState::Resolving(p) => if ok {
            ChunkState::Populated
        } else {
            match p {
                PriorState::Unmapped => ChunkState::Unmapped,
                PriorState::EvictedClean => ChunkState::EvictedClean,
                PriorState::EvictedWritten => ChunkState::EvictedWritten,
            }
        },
        _ => s,
    }
}

/// Evicts a chunk if it is resident and no fault is resolving it.
pub fn evict(s: ChunkState, read_only: bool, dirty: bool) -> (r: (ChunkState, EvictAction))
    ensures
        r == evict_spec(s, read_only, dirty),
{
    match s {
        ChunkState::Populated => if !read_only && dirty {
            (ChunkState::EvictedWritten, EvictAction::WriteBack)
        } else {
            (ChunkState::EvictedClean, EvictAction::Discard)
        },
        ChunkState::Resolving(_) => (s, EvictAction::Busy),
        _ => (s, EvictAction::NotResident),
    }
}

/// Whether a chunk is resident.
pub fn is_resident(s: ChunkState) -> (r: bool)
    ensures
        r == (s == ChunkState::Populated),
{
    match s {
        ChunkState::Populated => true,
        _ => false,
    }
}

/// Whether a fault is resolving a chunk.
pub fn is_resolving(s: ChunkState) -> (r: bool)
    ensures
        r == (s is Resolving),
{
    match s {
        ChunkState::Resolving(_) => true,
        _ => false,
    }
}

/// Of a read-only object: no eviction writes back, no transition reaches the
/// writeback store, and a touch of an evicted chunk runs the population
/// routine again.
pub proof fn lemma_read_only_never_written(s: ChunkState, dirty: bool, ok: bool)
    requires
        never_written(s),
    ensures
        evict_spec(s, true, dirty).1 != EvictAction::WriteBack,
        never_written(evict_spec(s, true, dirty).0),
        never_written(touch_spec(s).0),
        never_written(finish_spec(s, ok)),
        touch_spec(s).1 != FaultAction::ReadBack,
        s == ChunkState::EvictedClean ==> touch_spec(s).1 == FaultAction::Populate,
{
}

/// The number of population runs that `n` successive touches start, from
/// state `s`, while no resolution finishes.
pub open spec fn populations(s: ChunkState, n: nat) -> nat
    decreases n,
{
    if n == 0 {
        0
    } else {
        let (s2, a) = touch_spec(s);
        (if a == FaultAction::Populate { 1nat } else { 0nat }) + populations(s2, (n - 1) as nat)
    }
}

/// A chunk in resolution stays so under further touches, each of which
/// waits, and starts no population run.
pub proof fn lemma_resolving_waits(p: PriorState, n: nat)
    ensures
        touch_spec(ChunkState::Resolving(p)) == (ChunkState::Resolving(p), FaultAction::Wait),
        populations(ChunkState::Resolving(p), n) == 0,
    decreases n,
{
    if n > 0 {
        lemma_resolving_waits(p, (n - 1) as nat);
    }
}

/// Any number of touches of a never-touched chunk start exactly one
/// population run; once it succeeds, every touch finds the chunk resident.
pub proof fn lemma_single_population(n: nat)
    requires
        n >= 1,
    ensures
        populations(ChunkState::Unmapped, n) == 1,
        finish_spec(touch_spec(ChunkState::Unmapped).0, true) == ChunkState::Populated,
        touch_spec(ChunkState::Populated).1 == FaultAction::Proceed,
{
    lemma_resolving_waits(PriorState::Unmapped, (n - 1) as nat);
}

/// A resident chunk is not populated again by any number of touches: only
/// an eviction makes the next touch run the routine.
pub proof fn lemma_populated_not_rerun(n: nat)
    ensures
        populations(ChunkState::Populated, n) == 0,
        touch_spec(evict_spec(ChunkState::Populated, true, true).0).1 == FaultAction::Populate,
    decreases n,
{
    if n > 0 {
        lemma_populated_not_rerun((n - 1) as nat);
    }
}

} // verus!
