//! Lazily populated memory objects: layout arithmetic, the per-chunk fault
//! and eviction state machine, the registry of live objects with its address
//! lookup, and the watermark-driven reclamation planner.

mod config;
mod layout;
mod chunk;
mod reclaim;
mod object;
mod engine;

pub use crate::config::{
    lemma_watermarks_ordered, normalized_high, normalized_low, ConfigError, CoreConfig,
};
pub use crate::layout::{
    chunk_elems_for, chunk_size_of, default_chunk_elems, layout_for, lemma_chunk_size_positive,
    parameters_ok, total_length_of, LayoutError, ObjectLayout, UfoParameters, PAGE_SIZE,
};
pub use crate::chunk::{
    begin_touch, evict, evict_spec, finish_spec, finish_touch, is_resident, is_resolving,
    lemma_populated_not_rerun, lemma_read_only_never_written, lemma_resolving_waits,
    lemma_single_population, never_written, populations, touch_spec, ChunkState, EvictAction,
    FaultAction, PriorState,
};
pub use crate::reclaim::{
    evictable_bytes, lemma_evictable_prefix, lemma_plan_reaches_low, plan_evictions, planned_bytes,
    Candidate,
};
pub use crate::object::{
    lemma_populated_covers, lemma_populated_update, populated_bytes, resident_share, UfoObject,
};
pub use crate::engine::{
    lemma_concurrent_touches_populate_once, lemma_fault_blocks_release, lemma_lookup_by_address,
    lemma_read_only_object_never_written, lemma_resolving_chunk_not_evicted,
    lemma_touch_populates_its_chunk, open_resident, same_object, total_resident, ChunkRef,
    DestroyOutcome, FaultStep, UfoCore,
};
