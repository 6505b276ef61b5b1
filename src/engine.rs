use vstd::prelude::*;
use crate::config::{normalized_high, normalized_low, CoreConfig};
use crate::layout::{chunk_size_of, lemma_chunk_size_positive, layout_for, parameters_ok, ObjectLayout, UfoParameters};
use crate::object::{populated_bytes, UfoObject};
use crate::reclaim::{evictable_bytes, lemma_evictable_prefix, plan_evictions, planned_bytes, Candidate};
use crate::chunk::{lemma_populated_not_rerun, lemma_read_only_never_written, lemma_resolving_waits, lemma_single_population, never_written, populations, PriorState, is_resident, evict_spec, finish_spec, touch_spec, ChunkState, EvictAction, FaultAction};

verus! {

/// The resident bytes of all the objects.
pub open spec fn total_resident(objs: Seq<UfoObject>) -> int
    decreases objs.len(),
{
    if objs.len() == 0 {
        0
    } else {
        total_resident(objs.drop_last()) + objs.last().resident
    }
}

/// The resident bytes of the objects that are not closing: what an
/// eviction plan may reclaim.
pub open spec fn open_resident(objs: Seq<UfoObject>) -> int
    decreases objs.len(),
{
    if objs.len() == 0 {
        0
    } else {
        open_resident(objs.drop_last()) + if objs.last().closing { 0 } else { objs.last().resident as int }
    }
}

proof fn lemma_open_below_total(objs: Seq<UfoObject>)
    ensures
        0 <= open_resident(objs) <= total_resident(objs),
    decreases objs.len(),
{
    if objs.len() > 0 {
        lemma_open_below_total(objs.drop_last());
    }
}

proof fn lemma_total_update(objs: Seq<UfoObject>, i: int, o: UfoObject)
    requires
        0 <= i < objs.len(),
    ensures
        total_resident(objs.update(i, o)) == total_resident(objs) - objs[i].resident + o.resident,
    decreases objs.len(),
{
    let u = objs.update(i, o);
    if i == objs.len() - 1 {
        assert(u.drop_last() =~= objs.drop_last());
    } else {
        assert(u.drop_last() =~= objs.drop_last().update(i, o));
        lemma_total_update(objs.drop_last(), i, o);
    }
}

proof fn lemma_total_remove(objs: Seq<UfoObject>, i: int)
    requires
        0 <= i < objs.len(),
    ensures
        total_resident(objs.remove(i)) == total_resident(objs) - objs[i].resident,
    decreases objs.len(),
{
    let r = objs.remove(i);
    if i == objs.len() - 1 {
        assert(r =~= objs.drop_last());
    } else {
        assert(r.drop_last() =~= objs.drop_last().remove(i));
        assert(r.last() == objs.last());
        lemma_total_remove(objs.drop_last(), i);
    }
}

proof fn lemma_total_covers(objs: Seq<UfoObject>, i: int)
    requires
        0 <= i < objs.len(),
    ensures
        objs[i].resident <= total_resident(objs),
        total_resident(objs) >= 0,
    decreases objs.len(),
{
    lemma_total_nonneg(objs.drop_last());
    if i < objs.len() - 1 {
        lemma_total_covers(objs.drop_last(), i);
    }
}

proof fn lemma_total_nonneg(objs: Seq<UfoObject>)
    ensures
        total_resident(objs) >= 0,
    decreases objs.len(),
{
    if objs.len() > 0 {
        lemma_total_nonneg(objs.drop_last());
    }
}

/// The object manager: watermarks, writeback directory, the registry of
/// live objects and the count of resident bytes. A core whose configuration
/// was refused is an error core: it holds no objects and creates none.
pub struct UfoCore {
    pub valid: bool,
    pub shut_down: bool,
    pub low_watermark: usize,
    pub high_watermark: usize,
    pub writeback_dir: String,
    pub objects: Vec<UfoObject>,
    pub resident_bytes: usize,
    pub next_id: u64,
    /// A shutdown waits for faults in flight: no new fault may start.
    pub closing: bool,
}

impl UfoCore {
    pub open spec fn wf(&self) -> bool {
        &&& self.valid ==> self.low_watermark < self.high_watermark
        &&& !self.valid ==> self.objects@.len() == 0
        &&& self.shut_down ==> self.objects@.len() == 0
        &&& self.resident_bytes == total_resident(self.objects@)
        &&& forall|i: int|
            0 <= i < self.objects@.len() ==> (#[trigger] self.objects@[i]).wf() && self.objects@[i].id
                < self.next_id
        &&& forall|i: int, j: int|
            0 <= i < self.objects@.len() && 0 <= j < self.objects@.len() && i != j ==> {
                &&& (#[trigger] self.objects@[i]).id != (#[trigger] self.objects@[j]).id
                &&& !self.objects@[i].overlaps(
                    self.objects@[j].base as int,
                    self.objects@[j].layout.total_length as int,
                )
            }
    }

    /// No live object meets `[base, base + len)`.
    pub open spec fn range_free(&self, base: int, len: int) -> bool {
        forall|i: int| 0 <= i < self.objects@.len() ==> !(#[trigger] self.objects@[i]).overlaps(base, len)
    }

    /// Some live object holds address `ptr`.
    pub open spec fn spec_is_ufo_address(&self, ptr: int) -> bool {
        exists|i: int| 0 <= i < self.objects@.len() && (#[trigger] self.objects@[i]).holds(ptr)
    }

    /// Creates a core. Watermarks given in the wrong order are swapped; an
    /// empty writeback path or equal watermarks give an error core.
    pub fn ufo_new_core(writeback_dir: String, low_water_mark: usize, high_water_mark: usize) -> (r: UfoCore)
        ensures
            r.wf(),
            r.valid == (writeback_dir@.len() > 0 && low_water_mark != high_water_mark),
            r.valid ==> {
                &&& r.low_watermark == normalized_low(low_water_mark, high_water_mark)
                &&& r.high_watermark == normalized_high(low_water_mark, high_water_mark)
                &&& r.writeback_dir@ == writeback_dir@
            },
            !r.shut_down,
            r.objects@.len() == 0,
            r.resident_bytes == 0,
            r.next_id == 0,
            !r.closing,
    {
        match CoreConfig::new(writeback_dir, low_water_mark, high_water_mark) {
            Ok(c) => UfoCore {
                valid: true,
                shut_down: false,
                low_watermark: c.low_watermark,
                high_watermark: c.high_watermark,
                writeback_dir: c.writeback_dir,
                objects: Vec::new(),
                resident_bytes: 0,
                next_id: 0,
                closing: false,
            },
            Err(_) => UfoCore {
                valid: false,
                shut_down: false,
                low_watermark: 0,
                high_watermark: 0,
                writeback_dir: String::new(),
                objects: Vec::new(),
                resident_bytes: 0,
                next_id: 0,
                closing: false,
            },
        }
    }

    /// Whether this is an error core.
    pub fn ufo_core_is_error(&self) -> (r: bool)
        ensures
            r == !self.valid,
    {
        !self.valid
    }

    /// The position in the registry of the object with identifier `id`.
    pub fn find_index(&self, id: u64) -> (r: Option<usize>)
        ensures
            r matches Some(i) ==> i < self.objects@.len() && self.objects@[i as int].id == id,
            r is None ==> forall|i: int| 0 <= i < self.objects@.len() ==> (#[trigger] self.objects@[i]).id != id,
    {
        let mut i: usize = 0;
        while i < self.objects.len()
            invariant
                i <= self.objects@.len(),
                forall|j: int| 0 <= j < i ==> (#[trigger] self.objects@[j]).id != id,
            decreases self.objects@.len() - i,
        {
            if self.objects[i].id == id {
                return Some(i);
            }
            i = i + 1;
        }
        None
    }

    /// The position in the registry of the object whose range holds `ptr`.
    pub fn lookup_index(&self, ptr: usize) -> (r: Option<usize>)
        requires
            self.wf(),
        ensures
            r matches Some(i) ==> i < self.objects@.len() && self.objects@[i as int].holds(ptr as int),
            r is None <==> !self.spec_is_ufo_address(ptr as int),
            forall|i: int|
                0 <= i < self.objects@.len() && (#[trigger] self.objects@[i]).holds(ptr as int) ==> r == Some(
                    i as usize,
                ),
    {
        let mut i: usize = 0;
        while i < self.objects.len()
            invariant
                i <= self.objects@.len(),
                self.wf(),
                forall|j: int| 0 <= j < i ==> !(#[trigger] self.objects@[j]).holds(ptr as int),
            decreases self.objects@.len() - i,
        {
            let o = &self.objects[i];
            if o.base <= ptr && ptr - o.base < o.layout.total_length {
                proof {
                    assert forall|j: int|
                        0 <= j < self.objects@.len() && (#[trigger] self.objects@[j]).holds(
                            ptr as int,
                        ) implies j == i as int by {
                        if j != i as int {
                            assert(self.objects@[j].overlaps(
                                self.objects@[i as int].base as int,
                                self.objects@[i as int].layout.total_length as int,
                            ));
                        }
                    }
                }
                return Some(i);
            }
            i = i + 1;
        }
        None
    }

    /// The identifier of the live object whose range holds `ptr`, if any.
    pub fn ufo_get_by_address(&self, ptr: usize) -> (r: Option<u64>)
        requires
            self.wf(),
        ensures
            forall|i: int|
                0 <= i < self.objects@.len() && (#[trigger] self.objects@[i]).holds(ptr as int) ==> r == Some(
                    self.objects@[i].id,
                ),
            r is None <==> !self.spec_is_ufo_address(ptr as int),
    {
        match self.lookup_index(ptr) {
            Some(i) => Some(self.objects[i].id),
            None => None,
        }
    }

    /// Whether `ptr` lies in some live object's range.
    pub fn ufo_address_is_ufo_object(&self, ptr: usize) -> (r: bool)
        requires
            self.wf(),
        ensures
            r == self.spec_is_ufo_address(ptr as int),
    {
        self.lookup_index(ptr).is_some()
    }

    /// Writes the parameters of object `id` into `params`: 0 if it is live,
    /// -1 (and `params` untouched) if not. The load count reported is the
    /// number of elements per chunk in use, never the zero that asks for the
    /// default.
    pub fn ufo_get_params(&self, id: u64, params: &mut UfoParameters) -> (r: i32)
        requires
            self.wf(),
        ensures
            (exists|i: int| 0 <= i < self.objects@.len() && (#[trigger] self.objects@[i]).id == id) <==> r == 0,
            r == 0 || r == -1,
            r == -1 ==> *final(params) == *old(params),
            forall|i: int|
                0 <= i < self.objects@.len() && (#[trigger] self.objects@[i]).id == id ==> *final(params)
                    == (UfoParameters { min_load_ct: self.objects@[i].layout.chunk_elems, ..self.objects@[i].params }),
    {
        match self.find_index(id) {
            Some(i) => {
                let o = &self.objects[i];
                *params = UfoParameters {
                    header_size: o.params.header_size,
                    element_size: o.params.element_size,
                    element_ct: o.params.element_ct,
                    min_load_ct: o.layout.chunk_elems,
                    read_only: o.params.read_only,
                    populate_data: o.params.populate_data,
                    populate_fn: o.params.populate_fn,
                };
                assert forall|j: int|
                    0 <= j < self.objects@.len() && (#[trigger] self.objects@[j]).id == id implies j
                    == i as int by {
                    if j != i as int {
                        assert(self.objects@[j].id != self.objects@[i as int].id);
                    }
                }
                0
            },
            None => -1,
        }
    }
}


/// What became of a request to destroy an object.
#[derive(Debug, Clone, Copy, PartialEq, Eq, Structural)]
pub enum DestroyOutcome {
    /// No live object has that identifier.
    NotFound,
    /// A fault is resolving one of its chunks: try again once it completes.
    Busy,
    /// The object left the registry; its range `[base, base + length)` may
    /// be unmapped and its writeback segment released.
    Released { base: usize, length: usize },
}

impl UfoCore {
    /// Whether an object with parameters `p` can be placed at `base`.
    pub open spec fn can_create(&self, p: UfoParameters, base: usize) -> bool {
        &&& self.valid
        &&& !self.shut_down
        &&& parameters_ok(p)
        &&& base + layout_for(p).total_length <= usize::MAX
        &&& self.range_free(base as int, layout_for(p).total_length as int)
        &&& self.next_id < u64::MAX
        &&& !self.closing
    }

    /// Registers a new object over the reserved range that starts at `base`.
    /// Its chunks start untouched and its identifier is fresh.
    pub fn ufo_new_object(&mut self, prototype: &UfoParameters, base: usize) -> (r: Option<u64>)
        requires
            old(self).wf(),
        ensures
            final(self).wf(),
            r is Some <==> old(self).can_create(*prototype, base),
            r is None ==> *final(self) == *old(self),
            r matches Some(id) ==> {
                &&& id == old(self).next_id
                &&& final(self).next_id == old(self).next_id + 1
                &&& final(self).objects@.len() == old(self).objects@.len() + 1
                &&& final(self).objects@.drop_last() == old(self).objects@
                &&& final(self).objects@.last().id == id
                &&& final(self).objects@.last().base == base
                &&& final(self).objects@.last().params == *prototype
                &&& final(self).objects@.last().layout == layout_for(*prototype)
                &&& final(self).objects@.last().resident == 0
                &&& !final(self).objects@.last().closing
                &&& !final(self).objects@.last().unusable
                &&& final(self).closing == old(self).closing
                &&& final(self).next_id == old(self).next_id + 1
                &&& forall|k: int|
                    0 <= k < final(self).objects@.last().states@.len()
                        ==> #[trigger] final(self).objects@.last().states@[k] == ChunkState::Unmapped
                &&& final(self).valid == old(self).valid
                &&& final(self).shut_down == old(self).shut_down
                &&& final(self).low_watermark == old(self).low_watermark
                &&& final(self).high_watermark == old(self).high_watermark
                &&& final(self).writeback_dir == old(self).writeback_dir
                &&& final(self).resident_bytes == old(self).resident_bytes
            },
    {
        if !self.valid || self.shut_down || self.closing || self.next_id == u64::MAX {
            return None;
        }
        let layout = match ObjectLayout::from_parameters(prototype) {
            Ok(l) => l,
            Err(_) => return None,
        };
        if layout.total_length > usize::MAX - base {
            return None;
        }
        let len = layout.total_length;
        let mut i: usize = 0;
        while i < self.objects.len()
            invariant
                i <= self.objects@.len(),
                base + len <= usize::MAX,
                forall|j: int| 0 <= j < i ==> !(#[trigger] self.objects@[j]).overlaps(base as int, len as int),
                forall|j: int| 0 <= j < self.objects@.len() ==> (#[trigger] self.objects@[j]).wf(),
                self.wf(),
                *self == *old(self),
                layout == layout_for(*prototype),
                len == layout.total_length,
            decreases self.objects@.len() - i,
        {
            let o = &self.objects[i];
            if o.base < base + len && base < o.base + o.layout.total_length {
                assert(self.objects@[i as int].overlaps(base as int, len as int));
                return None;
            }
            i = i + 1;
        }
        let id = self.next_id;
        let o = UfoObject::new(id, base, *prototype, layout);
        let ghost prev = self.objects@;
        self.objects.push(o);
        self.next_id = id + 1;
        proof {
            assert(self.objects@.drop_last() =~= prev);
            assert(total_resident(self.objects@) == total_resident(prev));
            assert forall|a: int, b: int|
                0 <= a < self.objects@.len() && 0 <= b < self.objects@.len() && a != b implies {
                &&& (#[trigger] self.objects@[a]).id != (#[trigger] self.objects@[b]).id
                &&& !self.objects@[a].overlaps(
                    self.objects@[b].base as int,
                    self.objects@[b].layout.total_length as int,
                )
            } by {
                if a < prev.len() && b < prev.len() {
                    assert(prev[a] == self.objects@[a] && prev[b] == self.objects@[b]);
                } else if a < prev.len() {
                    assert(!prev[a].overlaps(base as int, len as int));
                } else {
                    assert(!prev[b].overlaps(base as int, len as int));
                }
            }
        }
        Some(id)
    }

    /// Whether a fault is resolving a chunk of some live object.
    pub open spec fn spec_any_in_flight(&self) -> bool {
        exists|i: int| 0 <= i < self.objects@.len() && (#[trigger] self.objects@[i]).spec_in_flight()
    }

    /// Shuts the core down, releasing every object, once no fault is in
    /// flight. While one is, it returns false and only marks the core as
    /// closing, so that no new fault starts and the next call can succeed
    /// once those in flight finish. Calling it again is harmless.
    pub fn ufo_core_shutdown(&mut self) -> (r: bool)
        requires
            old(self).wf(),
        ensures
            final(self).wf(),
            r == !old(self).spec_any_in_flight(),
            !r ==> *final(self) == (UfoCore { closing: true, ..*old(self) }),
            r ==> {
                &&& final(self).shut_down
                &&& final(self).objects@.len() == 0
                &&& final(self).resident_bytes == 0
                &&& final(self).writeback_dir == old(self).writeback_dir
                &&& final(self).closing == old(self).closing
                &&& final(self).valid == old(self).valid
                &&& final(self).low_watermark == old(self).low_watermark
                &&& final(self).high_watermark == old(self).high_watermark
                &&& final(self).next_id == old(self).next_id
            },
    {
        let mut i: usize = 0;
        while i < self.objects.len()
            invariant
                i <= self.objects@.len(),
                forall|j: int| 0 <= j < i ==> !(#[trigger] self.objects@[j]).spec_in_flight(),
                self.wf(),
                *self == *old(self),
            decreases self.objects@.len() - i,
        {
            if self.objects[i].in_flight() {
                self.closing = true;
                return false;
            }
            i = i + 1;
        }
        self.objects = Vec::new();
        self.resident_bytes = 0;
        self.shut_down = true;
        true
    }

    /// Destroys object `id` unless a fault is resolving one of its chunks;
    /// its resident bytes stop counting. While a fault is in flight it only
    /// marks the object as closing, so that no new fault starts on it and a
    /// later call can succeed.
    pub fn destroy_object(&mut self, id: u64) -> (r: DestroyOutcome)
        requires
            old(self).wf(),
        ensures
            final(self).wf(),
            r == DestroyOutcome::NotFound <==> forall|i: int|
                0 <= i < old(self).objects@.len() ==> (#[trigger] old(self).objects@[i]).id != id,
            r == DestroyOutcome::NotFound ==> *final(self) == *old(self),
            forall|i: int|
                0 <= i < old(self).objects@.len() && (#[trigger] old(self).objects@[i]).id == id ==> {
                    let o = old(self).objects@[i];
                    &&& o.spec_in_flight() ==> {
                        &&& r == DestroyOutcome::Busy
                        &&& final(self).objects@ == old(self).objects@.update(i, UfoObject { closing: true, ..o })
                        &&& final(self).same_settings(old(self))
                        &&& final(self).resident_bytes == old(self).resident_bytes
                    }
                    &&& !o.spec_in_flight() ==> {
                        &&& r == (DestroyOutcome::Released { base: o.base, length: o.layout.total_length })
                        &&& final(self).objects@ == old(self).objects@.remove(i)
                        &&& final(self).resident_bytes == old(self).resident_bytes - o.resident
                        &&& final(self).next_id == old(self).next_id
                        &&& final(self).valid == old(self).valid
                        &&& final(self).shut_down == old(self).shut_down
                        &&& final(self).low_watermark == old(self).low_watermark
                        &&& final(self).high_watermark == old(self).high_watermark
                    }
                },
    {
        let i = match self.find_index(id) {
            Some(i) => i,
            None => return DestroyOutcome::NotFound,
        };
        proof {
            self.lemma_ids_unique(i as int, id);
        }
        if self.objects[i].in_flight() {
            let ghost old_core = *self;
            let ghost prev = self.objects@;
            let mut o = self.objects.remove(i);
            o.closing = true;
            self.objects.insert(i, o);
            proof {
                assert(self.objects@ =~= prev.update(i as int, self.objects@[i as int]));
                Self::lemma_replace_object(prev, self.objects@, i as int, old_core, *self);
            }
            return DestroyOutcome::Busy;
        }
        let ghost prev = self.objects@;
        proof {
            lemma_total_remove(prev, i as int);
            lemma_total_covers(prev, i as int);
        }
        let o = self.objects.remove(i);
        proof {
            assert forall|a: int| 0 <= a < self.objects@.len() implies
                #[trigger] self.objects@[a] == prev[if a < i { a } else { a + 1 }] by {}
        }
        self.resident_bytes = self.resident_bytes - o.resident;
        DestroyOutcome::Released { base: o.base, length: o.layout.total_length }
    }

    /// At most one live object carries a given identifier.
    pub proof fn lemma_ids_unique(&self, i: int, id: u64)
        requires
            self.wf(),
            0 <= i < self.objects@.len(),
            self.objects@[i].id == id,
        ensures
            forall|j: int| 0 <= j < self.objects@.len() && (#[trigger] self.objects@[j]).id == id ==> j == i,
    {
        assert forall|j: int| 0 <= j < self.objects@.len() && (#[trigger] self.objects@[j]).id == id implies j
            == i by {
            if j != i {
                assert(self.objects@[j].id != self.objects@[i].id);
            }
        }
    }
}

/// What the fault handler does about a touch of an address.
#[derive(Debug, Clone, Copy, PartialEq, Eq, Structural)]
pub enum FaultStep {
    /// No live object holds the address.
    NotUfo,
    /// The address is in an object's header, which is always resident.
    Header,
    /// A writeback of the object failed: the access is fatal.
    Denied,
    /// The chunk is resident: the access completes.
    Proceed,
    /// Another thread is resolving the chunk: wait for it.
    Wait,
    /// Run the population routine of object `id` over elements
    /// `[start, end)`, which make up chunk `chunk`.
    Populate { id: u64, chunk: usize, start: usize, end: usize },
    /// Read bytes `[first, end)` of object `id`, chunk `chunk`, back from its
    /// writeback segment.
    ReadBack { id: u64, chunk: usize, first: usize, end: usize },
}

/// Two versions of an object that differ at most in chunk states and
/// resident bytes.
pub open spec fn same_object(a: UfoObject, b: UfoObject) -> bool {
    &&& a.id == b.id
    &&& a.base == b.base
    &&& a.params == b.params
    &&& a.layout == b.layout
}

impl UfoCore {
    /// The core fields other than the registry are equal.
    pub open spec fn same_settings(&self, other: &UfoCore) -> bool {
        &&& self.valid == other.valid
        &&& self.shut_down == other.shut_down
        &&& self.low_watermark == other.low_watermark
        &&& self.high_watermark == other.high_watermark
        &&& self.writeback_dir == other.writeback_dir
        &&& self.next_id == other.next_id
        &&& self.closing == other.closing
    }

    proof fn lemma_replace_object(prev: Seq<UfoObject>, next: Seq<UfoObject>, i: int, old_core: UfoCore, core: UfoCore)
        requires
            old_core.wf(),
            old_core.objects@ == prev,
            0 <= i < prev.len(),
            next == prev.update(i, next[i]),
            next[i].wf(),
            same_object(prev[i], next[i]),
            core.objects@ == next,
            core.same_settings(&old_core),
            core.resident_bytes == old_core.resident_bytes - prev[i].resident + next[i].resident,
        ensures
            core.wf(),
    {
        lemma_total_update(prev, i, next[i]);
        assert forall|a: int, b: int| 0 <= a < next.len() && 0 <= b < next.len() && a != b implies {
            &&& (#[trigger] next[a]).id != (#[trigger] next[b]).id
            &&& !next[a].overlaps(next[b].base as int, next[b].layout.total_length as int)
        } by {
            assert(prev[a].id != prev[b].id);
        }
    }

    /// Handles a touch of address `ptr`: finds the object and chunk, and
    /// moves the chunk's state as one touch does. Nothing starts while the
    /// core or the object is closing, and a touch of an unusable object is
    /// denied.
    pub fn begin_fault(&mut self, ptr: usize) -> (r: FaultStep)
        requires
            old(self).wf(),
        ensures
            final(self).wf(),
            final(self).same_settings(old(self)),
            final(self).resident_bytes == old(self).resident_bytes,
            !old(self).spec_is_ufo_address(ptr as int) ==> r == FaultStep::NotUfo && *final(self) == *old(self),
            old(self).closing ==> r == FaultStep::NotUfo && *final(self) == *old(self),
            forall|i: int|
                0 <= i < old(self).objects@.len() && (#[trigger] old(self).objects@[i]).holds(ptr as int)
                    && !old(self).closing ==> {
                    let o = old(self).objects@[i];
                    let off = ptr - o.base;
                    let k = o.layout.chunk_at(off);
                    let (s2, a) = touch_spec(o.states@[k]);
                    &&& o.closing ==> r == FaultStep::NotUfo && *final(self) == *old(self)
                    &&& !o.closing && o.unusable ==> r == FaultStep::Denied && *final(self) == *old(self)
                    &&& !o.closing && !o.unusable && off < o.layout.header_size ==> r == FaultStep::Header
                        && *final(self) == *old(self)
                    &&& !o.closing && !o.unusable && off >= o.layout.header_size ==> {
                        &&& 0 <= k < o.states@.len()
                        &&& final(self).objects@[i].unusable == o.unusable
                        &&& final(self).objects@[i].closing == o.closing
                        &&& final(self).objects@.len() == old(self).objects@.len()
                        &&& forall|j: int|
                            0 <= j < old(self).objects@.len() && j != i ==> #[trigger] final(self).objects@[j]
                                == old(self).objects@[j]
                        &&& same_object(final(self).objects@[i], o)
                        &&& final(self).objects@[i].resident == o.resident
                        &&& final(self).objects@[i].states@ == o.states@.update(k, s2)
                        &&& a == FaultAction::Proceed ==> r == FaultStep::Proceed
                        &&& a == FaultAction::Wait ==> r == FaultStep::Wait
                        &&& a == FaultAction::Populate ==> r == (FaultStep::Populate {
                            id: o.id,
                            chunk: k as usize,
                            start: o.layout.chunk_start(k) as usize,
                            end: o.layout.chunk_end(k) as usize,
                        })
                        &&& a == FaultAction::ReadBack ==> r == (FaultStep::ReadBack {
                            id: o.id,
                            chunk: k as usize,
                            first: o.layout.chunk_first_byte(k) as usize,
                            end: o.layout.chunk_end_byte(k) as usize,
                        })
                    }
                },
    {
        if self.closing {
            return FaultStep::NotUfo;
        }
        let i = match self.lookup_index(ptr) {
            Some(i) => i,
            None => return FaultStep::NotUfo,
        };
        if self.objects[i].closing {
            return FaultStep::NotUfo;
        }
        if self.objects[i].unusable {
            return FaultStep::Denied;
        }
        let offset = ptr - self.objects[i].base;
        let k = match self.objects[i].layout.chunk_of_offset(offset) {
            Some(k) => k,
            None => return FaultStep::Header,
        };
        let ghost old_core = *self;
        let ghost prev = self.objects@;
        let mut o = self.objects.remove(i);
        let a = o.touch_chunk(k);
        let id = o.id;
        let step = match a {
            FaultAction::Proceed => FaultStep::Proceed,
            FaultAction::Wait => FaultStep::Wait,
            FaultAction::Populate => {
                let (start, end) = o.layout.chunk_element_range(k);
                FaultStep::Populate { id, chunk: k, start, end }
            },
            FaultAction::ReadBack => {
                let (first, end) = o.layout.chunk_byte_range(k);
                FaultStep::ReadBack { id, chunk: k, first, end }
            },
        };
        self.objects.insert(i, o);
        proof {
            assert(self.objects@ =~= prev.update(i as int, self.objects@[i as int]));
            Self::lemma_replace_object(prev, self.objects@, i as int, old_core, *self);
        }
        step
    }

    /// Ends the resolution of chunk `chunk` of object `id`. On success the
    /// chunk is resident and its bytes count; on failure it is back in the
    /// state it had before the fault, and a failed read-back from the
    /// writeback store makes the object unusable. A success whose bytes the resident
    /// count cannot hold is taken as a failure. Returns whether such a
    /// resolution was in flight.
    pub fn finish_fault(&mut self, id: u64, chunk: usize, ok: bool) -> (r: bool)
        requires
            old(self).wf(),
        ensures
            final(self).wf(),
            final(self).same_settings(old(self)),
            r == exists|i: int|
                0 <= i < old(self).objects@.len() && (#[trigger] old(self).objects@[i]).id == id && chunk
                    < old(self).objects@[i].states@.len() && old(self).objects@[i].states@[chunk as int] is Resolving,
            (forall|i: int| 0 <= i < old(self).objects@.len() ==> (#[trigger] old(self).objects@[i]).id != id)
                ==> *final(self) == *old(self),
            forall|i: int|
                0 <= i < old(self).objects@.len() && (#[trigger] old(self).objects@[i]).id == id ==> {
                    let o = old(self).objects@[i];
                    let size = chunk_size_of(o.layout, chunk as int);
                    let fits = ok && old(self).resident_bytes + size <= usize::MAX;
                    &&& chunk >= o.states@.len() ==> *final(self) == *old(self)
                    &&& chunk < o.states@.len() ==> {
                        &&& final(self).objects@.len() == old(self).objects@.len()
                        &&& forall|j: int|
                            0 <= j < old(self).objects@.len() && j != i ==> #[trigger] final(self).objects@[j]
                                == old(self).objects@[j]
                        &&& same_object(final(self).objects@[i], o)
                        &&& final(self).objects@[i].closing == o.closing
                        &&& final(self).objects@[i].unusable == (o.unusable || (!ok && o.states@[chunk as int]
                            == ChunkState::Resolving(PriorState::EvictedWritten)))
                        &&& final(self).objects@[i].states@ == o.states@.update(
                            chunk as int,
                            finish_spec(o.states@[chunk as int], fits),
                        )
                        &&& final(self).resident_bytes == old(self).resident_bytes + if r && fits {
                            size
                        } else {
                            0
                        }
                    }
                },
    {
        let i = match self.find_index(id) {
            Some(i) => i,
            None => return false,
        };
        proof {
            self.lemma_ids_unique(i as int, id);
        }
        if chunk >= self.objects[i].states.len() {
            return false;
        }
        let ghost old_core = *self;
        let ghost prev = self.objects@;
        proof {
            lemma_total_covers(prev, i as int);
        }
        let mut o = self.objects.remove(i);
        let (first, end) = o.layout.chunk_byte_range(chunk);
        let size = end - first;
        let fits = ok && size <= usize::MAX - self.resident_bytes;
        let read_back = match o.states[chunk] {
            ChunkState::Resolving(PriorState::EvictedWritten) => true,
            _ => false,
        };
        let was = o.finish_chunk(chunk, fits);
        if read_back && !ok {
            o.unusable = true;
        }
        self.objects.insert(i, o);
        if was && fits {
            self.resident_bytes = self.resident_bytes + size;
        }
        proof {
            assert(self.objects@ =~= prev.update(i as int, self.objects@[i as int]));
            Self::lemma_replace_object(prev, self.objects@, i as int, old_core, *self);
        }
        was
    }

    /// Evicts chunk `chunk` of object `id` unless a fault is resolving it or
    /// the object or the core is closing; `dirty` tells whether its bytes may have
    /// changed since population.
    pub fn evict_chunk(&mut self, id: u64, chunk: usize, dirty: bool) -> (r: EvictAction)
        requires
            old(self).wf(),
        ensures
            final(self).wf(),
            final(self).same_settings(old(self)),
            (old(self).closing || forall|i: int|
                0 <= i < old(self).objects@.len() ==> (#[trigger] old(self).objects@[i]).id != id)
                ==> r == EvictAction::NotResident && *final(self) == *old(self),
            forall|i: int|
                0 <= i < old(self).objects@.len() && (#[trigger] old(self).objects@[i]).id == id
                    && !old(self).closing ==> {
                    let o = old(self).objects@[i];
                    let (s2, a) = evict_spec(o.states@[chunk as int], o.layout.read_only, dirty);
                    &&& (o.closing || chunk >= o.states@.len()) ==> r == EvictAction::NotResident && *final(self)
                        == *old(self)
                    &&& !o.closing && chunk < o.states@.len() ==> {
                        &&& r == a
                        &&& final(self).objects@.len() == old(self).objects@.len()
                        &&& forall|j: int|
                            0 <= j < old(self).objects@.len() && j != i ==> #[trigger] final(self).objects@[j]
                                == old(self).objects@[j]
                        &&& same_object(final(self).objects@[i], o)
                        &&& final(self).objects@[i].closing == o.closing
                        &&& final(self).objects@[i].unusable == o.unusable
                        &&& final(self).objects@[i].states@ == o.states@.update(chunk as int, s2)
                        &&& final(self).resident_bytes == old(self).resident_bytes - if a == EvictAction::Discard
                            || a == EvictAction::WriteBack {
                            chunk_size_of(o.layout, chunk as int)
                        } else {
                            0
                        }
                    }
                },
    {
        if self.closing {
            return EvictAction::NotResident;
        }
        let i = match self.find_index(id) {
            Some(i) => i,
            None => return EvictAction::NotResident,
        };
        proof {
            self.lemma_ids_unique(i as int, id);
        }
        if self.objects[i].closing || chunk >= self.objects[i].states.len() {
            return EvictAction::NotResident;
        }
        let ghost old_core = *self;
        let ghost prev = self.objects@;
        proof {
            lemma_total_covers(prev, i as int);
        }
        let mut o = self.objects.remove(i);
        let (first, end) = o.layout.chunk_byte_range(chunk);
        let size = end - first;
        let a = o.evict_chunk(chunk, dirty);
        self.objects.insert(i, o);
        match a {
            EvictAction::Discard | EvictAction::WriteBack => {
                self.resident_bytes = self.resident_bytes - size;
            },
            _ => {},
        }
        proof {
            assert(self.objects@ =~= prev.update(i as int, self.objects@[i as int]));
            Self::lemma_replace_object(prev, self.objects@, i as int, old_core, *self);
        }
        a
    }

    /// Marks object `id` unusable after a write to its writeback store
    /// failed: its contents can no longer be restored, so every further
    /// access is denied. Returns whether the object is live.
    pub fn mark_unusable(&mut self, id: u64) -> (r: bool)
        requires
            old(self).wf(),
        ensures
            final(self).wf(),
            r == exists|i: int| 0 <= i < old(self).objects@.len() && (#[trigger] old(self).objects@[i]).id == id,
            !r ==> *final(self) == *old(self),
            forall|i: int|
                0 <= i < old(self).objects@.len() && (#[trigger] old(self).objects@[i]).id == id ==> {
                    &&& final(self).objects@ == old(self).objects@.update(
                        i,
                        UfoObject { unusable: true, ..old(self).objects@[i] },
                    )
                    &&& final(self).same_settings(old(self))
                    &&& final(self).resident_bytes == old(self).resident_bytes
                },
    {
        let i = match self.find_index(id) {
            Some(i) => i,
            None => return false,
        };
        proof {
            self.lemma_ids_unique(i as int, id);
        }
        let ghost old_core = *self;
        let ghost prev = self.objects@;
        let mut o = self.objects.remove(i);
        o.unusable = true;
        self.objects.insert(i, o);
        proof {
            assert(self.objects@ =~= prev.update(i as int, self.objects@[i as int]));
            Self::lemma_replace_object(prev, self.objects@, i as int, old_core, *self);
        }
        true
    }

    /// Whether resident bytes are above the high watermark, so that
    /// reclamation must run.
    pub fn needs_reclaim(&self) -> (r: bool)
        ensures
            r == (self.resident_bytes > self.high_watermark),
    {
        self.resident_bytes > self.high_watermark
    }
}
/// One chunk of one object.
#[derive(Debug, Clone, Copy, PartialEq, Eq, Structural)]
pub struct ChunkRef {
    pub id: u64,
    pub chunk: usize,
}

impl UfoCore {
    /// Whether chunk `chunk` of the object at position `i` is resident and
    /// may be evicted, the object not being closing.
    pub open spec fn resident_at(&self, i: int, chunk: int) -> bool {
        &&& 0 <= i < self.objects@.len()
        &&& 0 <= chunk < self.objects@[i].states@.len()
        &&& self.objects@[i].states@[chunk] == ChunkState::Populated
        &&& !self.objects@[i].closing
    }

    /// `c` names a resident chunk and `cand` gives its size.
    pub open spec fn lists_resident(&self, c: ChunkRef, cand: Candidate) -> bool {
        exists|i: int|
            #![trigger self.objects@[i]]
            self.resident_at(i, c.chunk as int) && self.objects@[i].id == c.id && cand == (Candidate {
                bytes: chunk_size_of(self.objects@[i].layout, c.chunk as int) as usize,
                busy: false,
            })
    }

    /// Every resident chunk, object by object and in chunk order, with its
    /// size, as candidates for the eviction planner.
    pub fn eviction_candidates(&self) -> (r: (Vec<ChunkRef>, Vec<Candidate>))
        requires
            self.wf(),
        ensures
            r.0@.len() == r.1@.len(),
            forall|t1: int, t2: int| 0 <= t1 < t2 < r.0@.len() ==> #[trigger] r.0@[t1] != #[trigger] r.0@[t2],
            evictable_bytes(r.1@, r.1@.len() as int) == open_resident(self.objects@),
            forall|t: int| 0 <= t < r.0@.len() ==> self.lists_resident(#[trigger] r.0@[t], r.1@[t]),
            forall|i: int, k: int|
                #![trigger self.objects@[i].states@[k]]
                self.resident_at(i, k) ==> exists|t: int|
                    0 <= t < r.0@.len() && #[trigger] r.0@[t] == (ChunkRef { id: self.objects@[i].id, chunk: k as usize }),
    {
        let mut refs: Vec<ChunkRef> = Vec::new();
        let mut cands: Vec<Candidate> = Vec::new();
        let mut i: usize = 0;
        while i < self.objects.len()
            invariant
                self.wf(),
                i <= self.objects@.len(),
                refs@.len() == cands@.len(),
                forall|t1: int, t2: int| 0 <= t1 < t2 < refs@.len() ==> #[trigger] refs@[t1] != #[trigger] refs@[t2],
                forall|t: int, a: int|
                    0 <= t < refs@.len() && i <= a < self.objects@.len() ==> #[trigger] refs@[t].id
                        != #[trigger] self.objects@[a].id,
                evictable_bytes(cands@, cands@.len() as int) == open_resident(self.objects@.take(i as int)),
                forall|t: int| 0 <= t < refs@.len() ==> self.lists_resident(#[trigger] refs@[t], cands@[t]),
                forall|a: int, k: int|
                    #![trigger self.objects@[a].states@[k]]
                    a < i && self.resident_at(a, k) ==> exists|t: int|
                        0 <= t < refs@.len() && #[trigger] refs@[t] == (ChunkRef {
                            id: self.objects@[a].id,
                            chunk: k as usize,
                        }),
            decreases self.objects@.len() - i,
        {
            let o = &self.objects[i];
            let n: usize = if o.closing { 0 } else { o.states.len() };
            let mut k: usize = 0;
            while k < n
                invariant
                    n == if o.closing { 0 } else { o.states@.len() },
                    k <= n,
                    self.wf(),
                    i < self.objects@.len(),
                    *o == self.objects@[i as int],
                    k <= o.states@.len(),
                    refs@.len() == cands@.len(),
                    forall|t1: int, t2: int| 0 <= t1 < t2 < refs@.len() ==> #[trigger] refs@[t1] != #[trigger] refs@[t2],
                    forall|t: int, a: int|
                        0 <= t < refs@.len() && i < a < self.objects@.len() ==> #[trigger] refs@[t].id
                            != #[trigger] self.objects@[a].id,
                    forall|t: int| 0 <= t < refs@.len() && (#[trigger] refs@[t]).id == o.id ==> refs@[t].chunk < k,
                    evictable_bytes(cands@, cands@.len() as int) == open_resident(self.objects@.take(i as int))
                        + populated_bytes(o.states@, o.layout, k as int),
                    forall|t: int| 0 <= t < refs@.len() ==> self.lists_resident(#[trigger] refs@[t], cands@[t]),
                    forall|a: int, k2: int|
                        #![trigger self.objects@[a].states@[k2]]
                        (a < i || (a == i && k2 < k)) && self.resident_at(a, k2) ==> exists|t: int|
                            0 <= t < refs@.len() && #[trigger] refs@[t] == (ChunkRef {
                                id: self.objects@[a].id,
                                chunk: k2 as usize,
                            }),
                decreases n - k,
            {
                if is_resident(o.states[k]) {
                    let (first, end) = o.layout.chunk_byte_range(k);
                    let ghost old_refs = refs@;
                    let ghost old_cands = cands@;
                    refs.push(ChunkRef { id: o.id, chunk: k });
                    cands.push(Candidate { bytes: end - first, busy: false });
                    proof {
                        assert forall|a: int| i < a < self.objects@.len() implies o.id != #[trigger] self.objects@[a].id by {
                            assert(self.objects@[i as int].id != self.objects@[a].id);
                        }
                        assert forall|t1: int, t2: int| 0 <= t1 < t2 < refs@.len() implies #[trigger] refs@[t1] != #[trigger] refs@[t2] by {
                            if t2 == old_refs.len() {
                                assert(old_refs[t1] == refs@[t1]);
                            } else {
                                assert(old_refs[t1] == refs@[t1] && old_refs[t2] == refs@[t2]);
                            }
                        }
                        assert forall|t: int, a: int|
                            0 <= t < refs@.len() && i < a < self.objects@.len() implies #[trigger] refs@[t].id
                                != #[trigger] self.objects@[a].id by {
                            if t < old_refs.len() {
                                assert(old_refs[t] == refs@[t]);
                            }
                        }
                        assert forall|t: int| 0 <= t < refs@.len() && (#[trigger] refs@[t]).id == o.id implies refs@[t].chunk < k + 1 by {
                            if t < old_refs.len() {
                                assert(old_refs[t] == refs@[t]);
                            }
                        }
                        assert(cands@.drop_last() =~= old_cands);
                        assert(evictable_bytes(cands@, old_cands.len() as int) == evictable_bytes(old_cands, old_cands.len() as int)) by {
                            lemma_evictable_prefix(old_cands, cands@, old_cands.len() as int);
                        }
                        assert forall|t: int| 0 <= t < refs@.len() implies self.lists_resident(#[trigger] refs@[t], cands@[t]) by {
                            if t < old_refs.len() {
                                assert(refs@[t] == old_refs[t] && cands@[t] == old_cands[t]);
                            } else {
                                assert(self.resident_at(i as int, k as int));
                                assert(self.objects@[i as int].id == refs@[t].id);
                            }
                        }
                        assert forall|a: int, k2: int|
                            (a < i || (a == i && k2 < k + 1)) && self.resident_at(a, k2) implies exists|t: int|
                            0 <= t < refs@.len() && #[trigger] refs@[t] == (ChunkRef {
                                id: self.objects@[a].id,
                                chunk: k2 as usize,
                            }) by {
                            if a == i && k2 == k {
                                assert(refs@[old_refs.len() as int] == (ChunkRef { id: o.id, chunk: k }));
                            } else {
                                let t = choose|t: int|
                                    0 <= t < old_refs.len() && #[trigger] old_refs[t] == (ChunkRef {
                                        id: self.objects@[a].id,
                                        chunk: k2 as usize,
                                    });
                                assert(refs@[t] == old_refs[t]);
                            }
                        }
                    }
                }
                k = k + 1;
            }
            proof {
                assert(self.objects@.take(i as int + 1).drop_last() =~= self.objects@.take(i as int));
            }
            i = i + 1;
        }
        proof {
            assert(self.objects@.take(i as int) =~= self.objects@);
        }
        let r = (refs, cands);
        proof {
            assert(r.0@ == refs@ && r.1@ == cands@);
            assert forall|a: int, k: int|
                #![trigger self.objects@[a].states@[k]]
                self.resident_at(a, k) implies exists|t: int|
                    0 <= t < r.0@.len() && #[trigger] r.0@[t] == (ChunkRef {
                        id: self.objects@[a].id,
                        chunk: k as usize,
                    }) by {
                assert(a < i);
                let t = choose|t: int|
                    0 <= t < refs@.len() && #[trigger] refs@[t] == (ChunkRef {
                        id: self.objects@[a].id,
                        chunk: k as usize,
                    });
                assert(r.0@[t] == refs@[t]);
            }
            assert forall|t: int| 0 <= t < r.0@.len() implies self.lists_resident(#[trigger] r.0@[t], r.1@[t]) by {
                assert(refs@[t] == r.0@[t]);
            }
        }
        r
    }
}

impl UfoCore {
    /// The chunks to evict, in registry and chunk order, with their sizes:
    /// nothing while resident bytes are at most the high watermark or the
    /// core is closing, and otherwise resident chunks of objects that are not
    /// closing, taken while resident bytes are above the low watermark, until
    /// they reach it or no such chunk is left.
    pub fn plan_reclaim(&self) -> (r: (Vec<ChunkRef>, Vec<Candidate>))
        requires
            self.wf(),
        ensures
            r.0@.len() == r.1@.len(),
            forall|t1: int, t2: int| 0 <= t1 < t2 < r.0@.len() ==> #[trigger] r.0@[t1] != #[trigger] r.0@[t2],
            forall|k: int|
                0 <= k < r.1@.len() ==> self.resident_bytes - #[trigger] evictable_bytes(r.1@, k) > self.low_watermark,
            self.resident_bytes <= self.high_watermark || self.closing ==> r.0@.len() == 0,
            forall|t: int| 0 <= t < r.0@.len() ==> self.lists_resident(#[trigger] r.0@[t], r.1@[t]),
            self.resident_bytes > self.high_watermark && !self.closing ==> (self.resident_bytes
                - evictable_bytes(r.1@, r.1@.len() as int) <= self.low_watermark || evictable_bytes(
                r.1@,
                r.1@.len() as int,
            ) == open_resident(self.objects@)),
    {
        if self.closing || !self.needs_reclaim() {
            return (Vec::new(), Vec::new());
        }
        let (refs, cands) = self.eviction_candidates();
        proof {
            lemma_open_below_total(self.objects@);
        }
        let sel = plan_evictions(&cands, self.resident_bytes, self.low_watermark);
        let mut out_refs: Vec<ChunkRef> = Vec::new();
        let mut out_cands: Vec<Candidate> = Vec::new();
        let mut t: usize = 0;
        while t < sel.len()
            invariant
                self.wf(),
                t <= sel@.len(),
                refs@.len() == cands@.len(),
                forall|u: int| 0 <= u < refs@.len() ==> self.lists_resident(#[trigger] refs@[u], cands@[u]),
                forall|k: int| 0 <= k < sel@.len() ==> #[trigger] sel@[k] < cands@.len() && !cands@[sel@[k] as int].busy,
                out_refs@.len() == out_cands@.len(),
                out_refs@.len() == t,
                forall|u: int| 0 <= u < out_refs@.len() ==> self.lists_resident(#[trigger] out_refs@[u], out_cands@[u]),
                forall|t1: int, t2: int| 0 <= t1 < t2 < refs@.len() ==> #[trigger] refs@[t1] != #[trigger] refs@[t2],
                forall|k1: int, k2: int| 0 <= k1 < k2 < sel@.len() ==> sel@[k1] < sel@[k2],
                forall|k: int| 0 <= k < sel@.len() ==> self.resident_bytes - planned_bytes(cands@, #[trigger] sel@.take(k)) > self.low_watermark,
                forall|u: int| 0 <= u < t ==> #[trigger] out_refs@[u] == refs@[sel@[u] as int],
                forall|k: int| 0 <= k <= t ==> #[trigger] evictable_bytes(out_cands@, k) == planned_bytes(cands@, sel@.take(k)),
            decreases sel@.len() - t,
        {
            let j = sel[t];
            let ghost old_cands = out_cands@;
            out_refs.push(refs[j]);
            out_cands.push(cands[j]);
            proof {
                assert(out_cands@.drop_last() =~= old_cands);
                assert forall|k: int| 0 <= k <= t + 1 implies #[trigger] evictable_bytes(out_cands@, k) == planned_bytes(cands@, sel@.take(k)) by {
                    lemma_evictable_prefix(old_cands, out_cands@, if k <= t { k } else { t as int });
                    if k == t + 1 {
                        assert(sel@.take(k).drop_last() =~= sel@.take(t as int));
                    }
                }
                lemma_evictable_prefix(old_cands, out_cands@, old_cands.len() as int);
                assert(sel@.take(t as int + 1).drop_last() =~= sel@.take(t as int));
                assert(out_refs@[t as int] == refs@[j as int]);
                assert(self.lists_resident(refs@[j as int], cands@[j as int]));
            }
            proof {
                assert forall|u1: int, u2: int| 0 <= u1 < u2 < out_refs@.len() implies #[trigger] out_refs@[u1] != #[trigger] out_refs@[u2] by {
                    assert(out_refs@[u1] == refs@[sel@[u1] as int]);
                    assert(out_refs@[u2] == refs@[sel@[u2] as int]);
                    assert(sel@[u1] < sel@[u2]);
                }
            }
            t = t + 1;
        }
        proof {
            assert(sel@.take(sel@.len() as int) =~= sel@);
        }
        (out_refs, out_cands)
    }
}

impl UfoCore {
    /// One reclamation round: evicts, in order, the chunks that
    /// `plan_reclaim` selects, each treated as possibly modified, and returns
    /// them with what each eviction did. Afterwards resident bytes are at
    /// most the low watermark, unless every chunk of the objects that are
    /// not closing has been evicted.
    pub fn run_reclaim(&mut self) -> (r: (Vec<ChunkRef>, Vec<EvictAction>))
        requires
            old(self).wf(),
        ensures
            final(self).wf(),
            final(self).same_settings(old(self)),
            r.0@.len() == r.1@.len(),
            forall|t: int| 0 <= t < r.1@.len() ==> (#[trigger] r.1@[t] == EvictAction::Discard || r.1@[t]
                == EvictAction::WriteBack),
            old(self).resident_bytes <= old(self).high_watermark || old(self).closing ==> r.0@.len() == 0
                && *final(self) == *old(self),
            old(self).resident_bytes > old(self).high_watermark && !old(self).closing ==> (final(self).resident_bytes
                <= old(self).low_watermark || old(self).resident_bytes - final(self).resident_bytes
                == open_resident(old(self).objects@)),
    {
        let (plan, sizes) = self.plan_reclaim();
        let ghost start = *self;
        let mut acts: Vec<EvictAction> = Vec::new();
        let mut t: usize = 0;
        while t < plan.len()
            invariant
                self.wf(),
                self.same_settings(&start),
                start.wf(),
                t <= plan@.len(),
                plan@.len() == sizes@.len(),
                acts@.len() == t,
                forall|u: int| 0 <= u < acts@.len() ==> (#[trigger] acts@[u] == EvictAction::Discard || acts@[u]
                    == EvictAction::WriteBack),
                forall|t1: int, t2: int| 0 <= t1 < t2 < plan@.len() ==> #[trigger] plan@[t1] != #[trigger] plan@[t2],
                forall|u: int| t <= u < plan@.len() ==> self.lists_resident(#[trigger] plan@[u], sizes@[u]),
                self.resident_bytes == start.resident_bytes - evictable_bytes(sizes@, t as int),
                t == 0 ==> *self == start,
                plan@.len() > 0 ==> !start.closing,
            decreases plan@.len() - t,
        {
            let c = plan[t];
            let ghost pre = *self;
            proof {
                assert(self.lists_resident(plan@[t as int], sizes@[t as int]));
            }
            let ghost i = choose|i: int|
                #![trigger pre.objects@[i]]
                pre.resident_at(i, c.chunk as int) && pre.objects@[i].id == c.id && sizes@[t as int] == (Candidate {
                    bytes: chunk_size_of(pre.objects@[i].layout, c.chunk as int) as usize,
                    busy: false,
                });
            let a = self.evict_chunk(c.id, c.chunk, true);
            proof {
                assert(pre.objects@[i].id == c.id);
                assert(a == EvictAction::Discard || a == EvictAction::WriteBack);
                let sz = chunk_size_of(pre.objects@[i].layout, c.chunk as int);
                lemma_chunk_size_positive(pre.objects@[i].layout, c.chunk as int);
                assert(self.resident_bytes == pre.resident_bytes - sz);
                assert(0 < sz <= usize::MAX);
                assert(sizes@[t as int].bytes == sz);
                assert forall|u: int| t + 1 <= u < plan@.len() implies self.lists_resident(
                    #[trigger] plan@[u],
                    sizes@[u],
                ) by {
                    assert(pre.lists_resident(plan@[u], sizes@[u]));
                    let j = choose|j: int|
                        #![trigger pre.objects@[j]]
                        pre.resident_at(j, plan@[u].chunk as int) && pre.objects@[j].id == plan@[u].id
                            && sizes@[u] == (Candidate {
                            bytes: chunk_size_of(pre.objects@[j].layout, plan@[u].chunk as int) as usize,
                            busy: false,
                        });
                    assert(plan@[u] != plan@[t as int]);
                    if j == i {
                        assert(plan@[u].chunk != c.chunk);
                    }
                    assert(self.objects@[j].states@[plan@[u].chunk as int] == pre.objects@[j].states@[plan@[u].chunk as int]);
                    assert(self.resident_at(j, plan@[u].chunk as int));
                }
                assert(evictable_bytes(sizes@, t as int + 1) == evictable_bytes(sizes@, t as int)
                    + sizes@[t as int].bytes);
            }
            acts.push(a);
            t = t + 1;
        }
        (plan, acts)
    }
}

/// A touch of any byte past the header of a live object falls in exactly one
/// chunk `k`, whose element range holds the touched element. If the chunk
/// was never touched, or was evicted clean, the touch runs the population
/// routine over exactly that range and further touches wait for it; a
/// resident chunk is not populated again by any number of touches.
pub proof fn lemma_touch_populates_its_chunk(core: UfoCore, i: int, ptr: int, n: nat)
    requires
        core.wf(),
        0 <= i < core.objects@.len(),
        core.objects@[i].holds(ptr),
        ptr - core.objects@[i].base >= core.objects@[i].layout.header_size,
    ensures
        ({
            let o = core.objects@[i];
            let off = ptr - o.base;
            let k = o.layout.chunk_at(off);
            &&& 0 <= k < o.states@.len()
            &&& o.layout.chunk_start(k) <= (off - o.layout.header_size) / (o.layout.stride as int) < o.layout.chunk_end(k)
            &&& forall|j: int|
                0 <= j && #[trigger] o.layout.chunk_first_byte(j) <= off < o.layout.chunk_end_byte(j) ==> j == k
            &&& (o.states@[k] == ChunkState::Unmapped || o.states@[k] == ChunkState::EvictedClean) ==> {
                &&& touch_spec(o.states@[k]).1 == FaultAction::Populate
                &&& touch_spec(touch_spec(o.states@[k]).0).1 == FaultAction::Wait
                &&& populations(touch_spec(o.states@[k]).0, n) == 0
            }
            &&& o.states@[k] == ChunkState::Populated ==> populations(o.states@[k], n) == 0
        }),
{
    let o = core.objects@[i];
    let off = ptr - o.base;
    o.layout.lemma_touch_in_one_chunk(off);
    let k = o.layout.chunk_at(off);
    lemma_populated_not_rerun(n);
    match touch_spec(o.states@[k]).0 {
        ChunkState::Resolving(p) => lemma_resolving_waits(p, n),
        _ => {},
    }
}

/// However many threads touch a never-touched chunk of a live object before
/// its population finishes, exactly one population run starts.
pub proof fn lemma_concurrent_touches_populate_once(core: UfoCore, i: int, k: int, n: nat)
    requires
        core.wf(),
        0 <= i < core.objects@.len(),
        0 <= k < core.objects@[i].states@.len(),
        core.objects@[i].states@[k] == ChunkState::Unmapped,
        n >= 1,
    ensures
        populations(core.objects@[i].states@[k], n) == 1,
{
    lemma_single_population(n);
}

/// A chunk of a read-only object never reaches the writeback store: no
/// eviction of it writes back, no touch of it reads back, and a touch of it
/// after an eviction runs the population routine again.
pub proof fn lemma_read_only_object_never_written(core: UfoCore, i: int, k: int, dirty: bool)
    requires
        core.wf(),
        0 <= i < core.objects@.len(),
        core.objects@[i].layout.read_only,
        0 <= k < core.objects@[i].states@.len(),
    ensures
        never_written(core.objects@[i].states@[k]),
        evict_spec(core.objects@[i].states@[k], true, dirty).1 != EvictAction::WriteBack,
        touch_spec(core.objects@[i].states@[k]).1 != FaultAction::ReadBack,
        core.objects@[i].states@[k] == ChunkState::EvictedClean ==> touch_spec(core.objects@[i].states@[k]).1
            == FaultAction::Populate,
{
    lemma_read_only_never_written(core.objects@[i].states@[k], dirty, false);
}

/// A chunk under fault resolution is never evicted: eviction leaves it as it
/// is, and no eviction plan lists it.
pub proof fn lemma_resolving_chunk_not_evicted(core: UfoCore, i: int, k: int, dirty: bool, c: Candidate)
    requires
        core.wf(),
        0 <= i < core.objects@.len(),
        0 <= k < core.objects@[i].states@.len(),
        core.objects@[i].states@[k] is Resolving,
    ensures
        evict_spec(core.objects@[i].states@[k], core.objects@[i].layout.read_only, dirty) == (
            core.objects@[i].states@[k],
            EvictAction::Busy,
        ),
        !core.lists_resident(ChunkRef { id: core.objects@[i].id, chunk: k as usize }, c),
{
    core.lemma_ids_unique(i, core.objects@[i].id);
}

/// An address inside the range of a live object is found in that object and
/// no other; an address outside every live range is found in none.
pub proof fn lemma_lookup_by_address(core: UfoCore, ptr: int, i: int)
    requires
        core.wf(),
        0 <= i < core.objects@.len(),
    ensures
        core.objects@[i].holds(ptr) ==> forall|j: int|
            0 <= j < core.objects@.len() && (#[trigger] core.objects@[j]).holds(ptr) ==> j == i,
        !core.spec_is_ufo_address(ptr) ==> !core.objects@[i].holds(ptr),
{
    if core.objects@[i].holds(ptr) {
        assert forall|j: int| 0 <= j < core.objects@.len() && (#[trigger] core.objects@[j]).holds(ptr) implies j
            == i by {
            if j != i {
                assert(!core.objects@[j].overlaps(
                    core.objects@[i].base as int,
                    core.objects@[i].layout.total_length as int,
                ));
            }
        }
    }
}

/// A touch that starts a population or a read-back leaves its chunk in
/// resolution, and while it is, the object is in flight, so destroying it
/// is refused until the resolution finishes.
pub proof fn lemma_fault_blocks_release(o: UfoObject, k: int)
    requires
        0 <= k < o.states@.len(),
        touch_spec(o.states@[k]).1 == FaultAction::Populate || touch_spec(o.states@[k]).1 == FaultAction::ReadBack,
    ensures
        touch_spec(o.states@[k]).0 is Resolving,
        forall|o2: UfoObject|
            o2.states@ == o.states@.update(k, touch_spec(o.states@[k]).0) ==> #[trigger] o2.spec_in_flight(),
{
    assert forall|o2: UfoObject|
        o2.states@ == o.states@.update(k, touch_spec(o.states@[k]).0) implies #[trigger] o2.spec_in_flight() by {
        assert(o2.states@[k] is Resolving);
    }
}

} // verus!
