use ufo_c::{
    ChunkRef,
    begin_touch, evict, finish_touch, plan_evictions, Candidate, ChunkState, ConfigError, CoreConfig,
    DestroyOutcome, EvictAction, FaultAction, FaultStep, LayoutError, ObjectLayout, PriorState, UfoCore,
    UfoParameters,
};

fn params(header: usize, stride: usize, count: usize, min_load: usize, read_only: bool) -> UfoParameters {
    UfoParameters {
        header_size: header,
        element_size: stride,
        element_ct: count,
        min_load_ct: min_load,
        read_only,
        populate_data: 7,
        populate_fn: 11,
    }
}

fn test_core() -> UfoCore {
    UfoCore::ufo_new_core("/tmp/wb".to_string(), 1000, 4000)
}

#[test]
fn watermarks_given_inverted_are_swapped() {
    let c = CoreConfig::new("/tmp/wb".to_string(), 10, 5).unwrap();
    assert_eq!(c.low_watermark, 5);
    assert_eq!(c.high_watermark, 10);
    let c0 = UfoCore::ufo_new_core("/tmp/wb".to_string(), 10, 5);
    assert!(!c0.ufo_core_is_error());
    assert_eq!(c0.low_watermark, 5);
    assert_eq!(c0.high_watermark, 10);
}

#[test]
fn watermarks_in_order_are_kept() {
    let c = CoreConfig::new("/tmp/wb".to_string(), 5, 10).unwrap();
    assert_eq!((c.low_watermark, c.high_watermark), (5, 10));
}

#[test]
fn equal_watermarks_are_refused() {
    assert!(matches!(CoreConfig::new("/tmp/wb".to_string(), 7, 7), Err(ConfigError::EqualWatermarks)));
    assert!(UfoCore::ufo_new_core("/tmp/wb".to_string(), 7, 7).ufo_core_is_error());
}

#[test]
fn empty_writeback_path_is_refused() {
    assert!(matches!(CoreConfig::new(String::new(), 1, 2), Err(ConfigError::EmptyWritebackPath)));
    assert!(UfoCore::ufo_new_core(String::new(), 1, 2).ufo_core_is_error());
}

#[test]
fn degenerate_parameters_are_refused() {
    assert_eq!(ObjectLayout::from_parameters(&params(0, 0, 10, 0, false)), Err(LayoutError::ZeroStride));
    assert_eq!(ObjectLayout::from_parameters(&params(0, 8, 0, 0, false)), Err(LayoutError::ZeroElements));
    assert_eq!(
        ObjectLayout::from_parameters(&params(0, 8, usize::MAX / 4, 0, false)),
        Err(LayoutError::TooLarge)
    );
    assert_eq!(
        ObjectLayout::from_parameters(&params(usize::MAX, 1, 1, 0, false)),
        Err(LayoutError::TooLarge)
    );
}

#[test]
fn layout_of_explicit_load_count() {
    let l = ObjectLayout::from_parameters(&params(16, 8, 100, 10, false)).unwrap();
    assert_eq!(l.total_length, 16 + 800);
    assert_eq!(l.chunk_elems, 10);
    assert_eq!(l.chunk_count(), 10);
    assert_eq!(l.chunk_element_range(0), (0, 10));
    assert_eq!(l.chunk_element_range(9), (90, 100));
    assert_eq!(l.chunk_byte_range(1), (16 + 80, 16 + 160));
}

#[test]
fn layout_default_chunk_covers_a_page() {
    let l = ObjectLayout::from_parameters(&params(0, 8, 10000, 0, false)).unwrap();
    assert_eq!(l.chunk_elems, 512);
    assert_eq!(l.chunk_count(), 20);
    assert_eq!(l.chunk_element_range(19), (9728, 10000));
    let l = ObjectLayout::from_parameters(&params(0, 3000, 5, 0, false)).unwrap();
    assert_eq!(l.chunk_elems, 2);
    assert_eq!(l.chunk_count(), 3);
    let l = ObjectLayout::from_parameters(&params(0, 10000, 5, 0, false)).unwrap();
    assert_eq!(l.chunk_elems, 1);
    assert_eq!(l.chunk_count(), 5);
}

#[test]
fn offsets_map_to_their_chunk() {
    let l = ObjectLayout::from_parameters(&params(16, 8, 100, 10, false)).unwrap();
    assert_eq!(l.chunk_of_offset(0), None);
    assert_eq!(l.chunk_of_offset(15), None);
    assert_eq!(l.chunk_of_offset(16), Some(0));
    assert_eq!(l.chunk_of_offset(16 + 79), Some(0));
    assert_eq!(l.chunk_of_offset(16 + 80), Some(1));
    assert_eq!(l.chunk_of_offset(16 + 799), Some(9));
    assert_eq!(l.chunk_of_offset(16 + 800), None);
}

#[test]
fn chunk_state_transitions() {
    assert_eq!(
        begin_touch(ChunkState::Unmapped),
        (ChunkState::Resolving(PriorState::Unmapped), FaultAction::Populate)
    );
    assert_eq!(
        begin_touch(ChunkState::EvictedWritten),
        (ChunkState::Resolving(PriorState::EvictedWritten), FaultAction::ReadBack)
    );
    assert_eq!(begin_touch(ChunkState::Populated), (ChunkState::Populated, FaultAction::Proceed));
    let r = ChunkState::Resolving(PriorState::EvictedClean);
    assert_eq!(begin_touch(r), (r, FaultAction::Wait));
    assert_eq!(finish_touch(r, true), ChunkState::Populated);
    assert_eq!(finish_touch(r, false), ChunkState::EvictedClean);
    assert_eq!(evict(ChunkState::Populated, false, true), (ChunkState::EvictedWritten, EvictAction::WriteBack));
    assert_eq!(evict(ChunkState::Populated, false, false), (ChunkState::EvictedClean, EvictAction::Discard));
    assert_eq!(evict(ChunkState::Populated, true, true), (ChunkState::EvictedClean, EvictAction::Discard));
    assert_eq!(evict(r, false, true), (r, EvictAction::Busy));
    assert_eq!(evict(ChunkState::Unmapped, false, true), (ChunkState::Unmapped, EvictAction::NotResident));
}

#[test]
fn plan_takes_oldest_free_chunks_until_low() {
    let c = vec![
        Candidate { bytes: 100, busy: false },
        Candidate { bytes: 100, busy: true },
        Candidate { bytes: 100, busy: false },
        Candidate { bytes: 100, busy: false },
        Candidate { bytes: 100, busy: false },
    ];
    assert_eq!(plan_evictions(&c, 500, 250), vec![0, 2, 3]);
    assert_eq!(plan_evictions(&c, 500, 350), vec![0, 2]);
    assert_eq!(plan_evictions(&c, 500, 500), Vec::<usize>::new());
    assert_eq!(plan_evictions(&c, 500, 0), vec![0, 2, 3, 4]);
}

#[test]
fn objects_get_fresh_ids_and_disjoint_ranges() {
    let mut c0 = test_core();
    let a = c0.ufo_new_object(&params(0, 8, 100, 10, false), 0x10000).unwrap();
    let b = c0.ufo_new_object(&params(0, 8, 100, 10, false), 0x20000).unwrap();
    assert_ne!(a, b);
    assert_eq!(c0.ufo_new_object(&params(0, 8, 100, 10, false), 0x10000 + 799), None);
    assert_eq!(c0.ufo_new_object(&params(0, 0, 100, 10, false), 0x30000), None);
    assert_eq!(c0.objects.len(), 2);
}

#[test]
fn lookup_by_address_finds_the_holder() {
    let mut c0 = test_core();
    let a = c0.ufo_new_object(&params(16, 8, 100, 10, false), 0x10000).unwrap();
    let b = c0.ufo_new_object(&params(0, 4, 10, 1, true), 0x20000).unwrap();
    assert_eq!(c0.ufo_get_by_address(0x10000), Some(a));
    assert_eq!(c0.ufo_get_by_address(0x10000 + 815), Some(a));
    assert_eq!(c0.ufo_get_by_address(0x10000 + 816), None);
    assert_eq!(c0.ufo_get_by_address(0x20000 + 39), Some(b));
    assert_eq!(c0.ufo_get_by_address(0xffff), None);
    assert!(c0.ufo_address_is_ufo_object(0x20000));
    assert!(!c0.ufo_address_is_ufo_object(0x20000 + 40));
}

#[test]
fn params_are_reported() {
    let mut c0 = test_core();
    let p = params(16, 8, 100, 10, true);
    let a = c0.ufo_new_object(&p, 0x10000).unwrap();
    let mut out = params(0, 0, 0, 0, false);
    assert_eq!(c0.ufo_get_params(a, &mut out), 0);
    assert_eq!(out, p);
    let mut other = params(1, 2, 3, 4, false);
    assert_eq!(c0.ufo_get_params(a + 1, &mut other), -1);
    assert_eq!(other, params(1, 2, 3, 4, false));
}

#[test]
fn touch_populates_its_chunk_once() {
    let mut c0 = test_core();
    let a = c0.ufo_new_object(&params(16, 8, 100, 10, false), 0x10000).unwrap();
    let ptr = 0x10000 + 16 + 8 * 25 + 3;
    assert_eq!(c0.begin_fault(ptr), FaultStep::Populate { id: a, chunk: 2, start: 20, end: 30 });
    assert_eq!(c0.begin_fault(ptr), FaultStep::Wait);
    assert_eq!(c0.begin_fault(0x10000 + 16 + 8 * 20), FaultStep::Wait);
    assert!(c0.finish_fault(a, 2, true));
    assert_eq!(c0.resident_bytes, 80);
    assert_eq!(c0.begin_fault(ptr), FaultStep::Proceed);
    assert_eq!(c0.begin_fault(0x10000 + 3), FaultStep::Header);
    assert_eq!(c0.begin_fault(0x50000), FaultStep::NotUfo);
    assert!(!c0.finish_fault(a, 2, true));
}

#[test]
fn failed_population_leaves_chunk_unresolved() {
    let mut c0 = test_core();
    let a = c0.ufo_new_object(&params(0, 8, 100, 10, false), 0x10000).unwrap();
    assert_eq!(c0.begin_fault(0x10000), FaultStep::Populate { id: a, chunk: 0, start: 0, end: 10 });
    assert!(c0.finish_fault(a, 0, false));
    assert_eq!(c0.resident_bytes, 0);
    assert_eq!(c0.objects[0].states[0], ChunkState::Unmapped);
    assert_eq!(c0.begin_fault(0x10000), FaultStep::Populate { id: a, chunk: 0, start: 0, end: 10 });
}

#[test]
fn writable_chunk_is_written_back_and_read_back() {
    let mut c0 = test_core();
    let a = c0.ufo_new_object(&params(0, 8, 100, 10, false), 0x10000).unwrap();
    c0.begin_fault(0x10000 + 80);
    c0.finish_fault(a, 1, true);
    assert_eq!(c0.evict_chunk(a, 1, true), EvictAction::WriteBack);
    assert_eq!(c0.resident_bytes, 0);
    assert_eq!(c0.begin_fault(0x10000 + 80), FaultStep::ReadBack { id: a, chunk: 1, first: 80, end: 160 });
}

#[test]
fn read_only_chunk_is_recomputed_after_eviction() {
    let mut c0 = test_core();
    let a = c0.ufo_new_object(&params(0, 8, 100, 10, true), 0x10000).unwrap();
    c0.begin_fault(0x10000 + 80);
    c0.finish_fault(a, 1, true);
    assert_eq!(c0.evict_chunk(a, 1, true), EvictAction::Discard);
    assert_eq!(c0.begin_fault(0x10000 + 80), FaultStep::Populate { id: a, chunk: 1, start: 10, end: 20 });
}

#[test]
fn eviction_skips_chunk_under_resolution() {
    let mut c0 = test_core();
    let a = c0.ufo_new_object(&params(0, 8, 100, 10, false), 0x10000).unwrap();
    c0.begin_fault(0x10000);
    assert_eq!(c0.evict_chunk(a, 0, true), EvictAction::Busy);
    assert_eq!(c0.evict_chunk(a, 5, true), EvictAction::NotResident);
    assert_eq!(c0.evict_chunk(a + 9, 0, true), EvictAction::NotResident);
}

#[test]
fn destroy_waits_for_fault_in_flight() {
    let mut c0 = test_core();
    let a = c0.ufo_new_object(&params(0, 8, 100, 10, false), 0x10000).unwrap();
    c0.begin_fault(0x10000);
    assert_eq!(c0.destroy_object(a), DestroyOutcome::Busy);
    assert!(!c0.ufo_core_shutdown());
    c0.finish_fault(a, 0, true);
    assert_eq!(c0.destroy_object(a), DestroyOutcome::Released { base: 0x10000, length: 800 });
    assert_eq!(c0.resident_bytes, 0);
    assert_eq!(c0.destroy_object(a), DestroyOutcome::NotFound);
    assert_eq!(c0.ufo_get_by_address(0x10000), None);
}

#[test]
fn shutdown_releases_everything_and_is_idempotent() {
    let mut c0 = test_core();
    c0.ufo_new_object(&params(0, 8, 100, 10, false), 0x10000).unwrap();
    assert!(c0.ufo_core_shutdown());
    assert!(c0.objects.is_empty());
    assert!(c0.ufo_core_shutdown());
    assert_eq!(c0.ufo_new_object(&params(0, 8, 100, 10, false), 0x10000), None);
}

#[test]
fn reclaim_needed_above_high_watermark() {
    let mut c0 = UfoCore::ufo_new_core("/tmp/wb".to_string(), 100, 150);
    let a = c0.ufo_new_object(&params(0, 8, 100, 10, false), 0x10000).unwrap();
    c0.begin_fault(0x10000);
    c0.finish_fault(a, 0, true);
    assert!(!c0.needs_reclaim());
    c0.begin_fault(0x10000 + 80);
    c0.finish_fault(a, 1, true);
    assert!(c0.needs_reclaim());
}

#[test]
fn error_core_creates_nothing() {
    let mut c0 = UfoCore::ufo_new_core("/tmp/wb".to_string(), 3, 3);
    assert_eq!(c0.ufo_new_object(&params(0, 8, 100, 10, false), 0x10000), None);
    assert_eq!(c0.ufo_get_by_address(0x10000), None);
}

#[test]
fn candidates_list_every_resident_chunk() {
    let mut c0 = test_core();
    let a = c0.ufo_new_object(&params(0, 8, 100, 10, false), 0x10000).unwrap();
    let b = c0.ufo_new_object(&params(0, 8, 25, 10, true), 0x20000).unwrap();
    c0.begin_fault(0x10000 + 80);
    c0.finish_fault(a, 1, true);
    c0.begin_fault(0x20000 + 160);
    c0.finish_fault(b, 2, true);
    c0.begin_fault(0x10000);
    let (refs, cands) = c0.eviction_candidates();
    assert_eq!(refs, vec![ChunkRef { id: a, chunk: 1 }, ChunkRef { id: b, chunk: 2 }]);
    assert_eq!(cands, vec![Candidate { bytes: 80, busy: false }, Candidate { bytes: 40, busy: false }]);
    assert_eq!(c0.resident_bytes, 120);
}

#[test]
fn reclaim_plan_reaches_low_watermark() {
    let mut c0 = UfoCore::ufo_new_core("/tmp/wb".to_string(), 100, 250);
    let a = c0.ufo_new_object(&params(0, 8, 100, 10, false), 0x10000).unwrap();
    for k in 0..4usize {
        c0.begin_fault(0x10000 + 80 * k);
        assert!(c0.finish_fault(a, k, true));
    }
    assert_eq!(c0.resident_bytes, 320);
    let (plan, sizes) = c0.plan_reclaim();
    assert_eq!(plan, vec![ChunkRef { id: a, chunk: 0 }, ChunkRef { id: a, chunk: 1 }, ChunkRef { id: a, chunk: 2 }]);
    assert_eq!(sizes.len(), 3);
    for r in plan {
        assert_eq!(c0.evict_chunk(r.id, r.chunk, true), EvictAction::WriteBack);
    }
    assert_eq!(c0.resident_bytes, 80);
    assert!(c0.resident_bytes <= c0.low_watermark);
    let (none, _) = c0.plan_reclaim();
    assert!(none.is_empty());
}

#[test]
fn default_load_count_is_reported_as_in_use() {
    let mut c0 = test_core();
    let p = params(16, 8, 10000, 0, false);
    let a = c0.ufo_new_object(&p, 0x100000).unwrap();
    let mut out = params(0, 0, 0, 0, true);
    assert_eq!(c0.ufo_get_params(a, &mut out), 0);
    assert_eq!(out.min_load_ct, 512);
    assert_eq!(out.header_size, 16);
    assert_eq!(out.element_size, 8);
    assert_eq!(out.element_ct, 10000);
    assert!(!out.read_only);
    assert_eq!(out.populate_data, 7);
    assert_eq!(out.populate_fn, 11);
}

#[test]
fn closing_object_starts_no_new_fault() {
    let mut c0 = test_core();
    let a = c0.ufo_new_object(&params(0, 8, 100, 10, false), 0x10000).unwrap();
    c0.begin_fault(0x10000);
    assert_eq!(c0.destroy_object(a), DestroyOutcome::Busy);
    assert!(c0.objects[0].closing);
    assert_eq!(c0.begin_fault(0x10000 + 80), FaultStep::NotUfo);
    assert_eq!(c0.evict_chunk(a, 0, true), EvictAction::NotResident);
    assert!(c0.finish_fault(a, 0, true));
    assert_eq!(c0.destroy_object(a), DestroyOutcome::Released { base: 0x10000, length: 800 });
}

#[test]
fn closing_core_starts_no_new_fault() {
    let mut c0 = test_core();
    let a = c0.ufo_new_object(&params(0, 8, 100, 10, false), 0x10000).unwrap();
    c0.begin_fault(0x10000);
    assert!(!c0.ufo_core_shutdown());
    assert!(c0.closing);
    assert_eq!(c0.begin_fault(0x10000 + 80), FaultStep::NotUfo);
    assert_eq!(c0.ufo_new_object(&params(0, 8, 100, 10, false), 0x20000), None);
    assert!(c0.finish_fault(a, 0, true));
    assert!(c0.ufo_core_shutdown());
    assert!(c0.objects.is_empty());
}

#[test]
fn failed_read_back_makes_object_unusable() {
    let mut c0 = test_core();
    let a = c0.ufo_new_object(&params(0, 8, 100, 10, false), 0x10000).unwrap();
    c0.begin_fault(0x10000);
    c0.finish_fault(a, 0, true);
    assert_eq!(c0.evict_chunk(a, 0, true), EvictAction::WriteBack);
    assert_eq!(c0.begin_fault(0x10000), FaultStep::ReadBack { id: a, chunk: 0, first: 0, end: 80 });
    assert!(c0.finish_fault(a, 0, false));
    assert!(c0.objects[0].unusable);
    assert_eq!(c0.objects[0].states[0], ChunkState::EvictedWritten);
    assert_eq!(c0.begin_fault(0x10000 + 200), FaultStep::Denied);
}

#[test]
fn failed_writeback_write_makes_object_unusable() {
    let mut c0 = test_core();
    let a = c0.ufo_new_object(&params(0, 8, 100, 10, false), 0x10000).unwrap();
    let b = c0.ufo_new_object(&params(0, 8, 100, 10, false), 0x20000).unwrap();
    assert!(c0.mark_unusable(a));
    assert!(!c0.mark_unusable(b + 1));
    assert_eq!(c0.begin_fault(0x10000), FaultStep::Denied);
    assert_eq!(c0.begin_fault(0x20000), FaultStep::Populate { id: b, chunk: 0, start: 0, end: 10 });
}

#[test]
fn failed_population_leaves_object_usable() {
    let mut c0 = test_core();
    let a = c0.ufo_new_object(&params(0, 8, 100, 10, false), 0x10000).unwrap();
    c0.begin_fault(0x10000);
    assert!(c0.finish_fault(a, 0, false));
    assert!(!c0.objects[0].unusable);
}

#[test]
fn closing_core_blocks_eviction_and_planning() {
    let mut c0 = UfoCore::ufo_new_core("/tmp/wb".to_string(), 50, 100);
    let a = c0.ufo_new_object(&params(0, 8, 100, 10, false), 0x10000).unwrap();
    for k in 0..2usize {
        c0.begin_fault(0x10000 + 80 * k);
        c0.finish_fault(a, k, true);
    }
    c0.begin_fault(0x10000 + 160);
    assert!(!c0.ufo_core_shutdown());
    assert!(c0.needs_reclaim());
    assert!(c0.plan_reclaim().0.is_empty());
    assert_eq!(c0.evict_chunk(a, 0, true), EvictAction::NotResident);
    assert_eq!(c0.resident_bytes, 160);
    let (done, acts) = c0.run_reclaim();
    assert!(done.is_empty() && acts.is_empty());
}

#[test]
fn candidates_skip_closing_objects() {
    let mut c0 = test_core();
    let a = c0.ufo_new_object(&params(0, 8, 100, 10, false), 0x10000).unwrap();
    let b = c0.ufo_new_object(&params(0, 8, 100, 10, false), 0x20000).unwrap();
    c0.begin_fault(0x10000);
    c0.finish_fault(a, 0, true);
    c0.begin_fault(0x20000);
    c0.finish_fault(b, 0, true);
    c0.begin_fault(0x10000 + 80);
    assert_eq!(c0.destroy_object(a), DestroyOutcome::Busy);
    let (refs, cands) = c0.eviction_candidates();
    assert_eq!(refs, vec![ChunkRef { id: b, chunk: 0 }]);
    assert_eq!(cands, vec![Candidate { bytes: 80, busy: false }]);
}

#[test]
fn reclaim_round_evicts_down_to_low_watermark() {
    let mut c0 = UfoCore::ufo_new_core("/tmp/wb".to_string(), 100, 250);
    let a = c0.ufo_new_object(&params(0, 8, 100, 10, false), 0x10000).unwrap();
    let b = c0.ufo_new_object(&params(0, 8, 100, 10, true), 0x20000).unwrap();
    c0.begin_fault(0x10000);
    c0.finish_fault(a, 0, true);
    for k in 0..3usize {
        c0.begin_fault(0x20000 + 80 * k);
        c0.finish_fault(b, k, true);
    }
    assert_eq!(c0.resident_bytes, 320);
    let (done, acts) = c0.run_reclaim();
    assert_eq!(done, vec![ChunkRef { id: a, chunk: 0 }, ChunkRef { id: b, chunk: 0 }, ChunkRef { id: b, chunk: 1 }]);
    assert_eq!(acts, vec![EvictAction::WriteBack, EvictAction::Discard, EvictAction::Discard]);
    assert_eq!(c0.resident_bytes, 80);
    assert_eq!(c0.begin_fault(0x20000), FaultStep::Populate { id: b, chunk: 0, start: 0, end: 10 });
    assert_eq!(c0.begin_fault(0x10000), FaultStep::ReadBack { id: a, chunk: 0, first: 0, end: 80 });
}

#[test]
fn new_object_is_open_and_usable() {
    let mut c0 = test_core();
    c0.ufo_new_object(&params(0, 8, 100, 10, false), 0x10000).unwrap();
    assert!(!c0.objects[0].closing);
    assert!(!c0.objects[0].unusable);
    assert!(!c0.closing);
}
