use vstd::prelude::*;

verus! {

/// Page granularity used to pick a default chunk size.
pub const PAGE_SIZE: usize = 4096;

/// Parameters a caller gives to create an object. The population routine and
/// its context are opaque handles that are passed back unchanged.
#[derive(Debug, Clone, Copy, PartialEq, Eq, Structural)]
pub struct UfoParameters {
    pub header_size: usize,
    pub element_size: usize,
    pub element_ct: usize,
    pub min_load_ct: usize,
    pub read_only: bool,
    pub populate_data: usize,
    pub populate_fn: usize,
}

/// Why object parameters were refused.
#[derive(Debug, Clone, Copy, PartialEq, Eq, Structural)]
pub enum LayoutError {
    /// The element stride is zero.
    ZeroStride,
    /// The element count is zero.
    ZeroElements,
    /// Header plus elements do not fit in the address space.
    TooLarge,
}

/// Elements per chunk when no minimum load count is given: the fewest
/// elements that cover a whole page.
pub open spec fn default_chunk_elems(stride: nat) -> nat
    recommends
        stride > 0,
{
    ((PAGE_SIZE as nat + stride - 1) as nat) / stride
}

/// Elements per chunk for a minimum load count (zero selects the default).
pub open spec fn chunk_elems_for(min_load_ct: nat, stride: nat) -> nat {
    if min_load_ct == 0 { default_chunk_elems(stride) } else { min_load_ct }
}

/// The byte length of an object: its header followed by its elements.
pub open spec fn total_length_of(header_size: nat, stride: nat, element_ct: nat) -> nat {
    header_size + element_ct * stride
}

/// The layout that valid parameters describe.
pub open spec fn layout_for(p: UfoParameters) -> ObjectLayout {
    ObjectLayout {
        header_size: p.header_size,
        stride: p.element_size,
        element_ct: p.element_ct,
        chunk_elems: chunk_elems_for(p.min_load_ct as nat, p.element_size as nat) as usize,
        read_only: p.read_only,
        total_length: total_length_of(p.header_size as nat, p.element_size as nat, p.element_ct as nat) as usize,
    }
}

/// Whether parameters describe an object that can exist.
pub open spec fn parameters_ok(p: UfoParameters) -> bool {
    &&& p.element_size > 0
    &&& p.element_ct > 0
    &&& total_length_of(p.header_size as nat, p.element_size as nat, p.element_ct as nat) <= usize::MAX
}

/// The shape of one object's address range.
#[derive(Debug, Clone, Copy, PartialEq, Eq, Structural)]
pub struct ObjectLayout {
    pub header_size: usize,
    pub stride: usize,
    pub element_ct: usize,
    pub chunk_elems: usize,
    pub read_only: bool,
    pub total_length: usize,
}

impl ObjectLayout {
    pub open spec fn wf(&self) -> bool {
        &&& self.stride > 0
        &&& self.element_ct > 0
        &&& self.chunk_elems > 0
        &&& self.total_length == total_length_of(
            self.header_size as nat,
            self.stride as nat,
            self.element_ct as nat,
        )
    }

    /// The number of chunks, the last of which may be partial.
    pub open spec fn spec_chunk_count(&self) -> int {
        (self.element_ct as int) / (self.chunk_elems as int) + if (self.element_ct as int) % (self.chunk_elems as int) == 0 {
            0int
        } else {
            1int
        }
    }

    /// First element of chunk `k`.
    pub open spec fn chunk_start(&self, k: int) -> int {
        k * self.chunk_elems
    }

    /// One past the last element of chunk `k`.
    pub open spec fn chunk_end(&self, k: int) -> int {
        let e = (k + 1) * self.chunk_elems;
        if e < self.element_ct { e } else { self.element_ct as int }
    }

    /// First byte offset of chunk `k` within the object.
    pub open spec fn chunk_first_byte(&self, k: int) -> int {
        self.header_size + self.chunk_start(k) * self.stride
    }

    /// One past the last byte offset of chunk `k` within the object.
    pub open spec fn chunk_end_byte(&self, k: int) -> int {
        self.header_size + self.chunk_end(k) * self.stride
    }

    /// The chunk that holds byte `offset`, for an offset past the header.
    pub open spec fn chunk_at(&self, offset: int) -> int {
        ((offset - self.header_size) / (self.stride as int)) / (self.chunk_elems as int)
    }

    /// Checks parameters and derives the layout of an object.
    pub fn from_parameters(p: &UfoParameters) -> (r: Result<ObjectLayout, LayoutError>)
        ensures
            p.element_size == 0 ==> r == Err::<ObjectLayout, LayoutError>(LayoutError::ZeroStride),
            p.element_size > 0 && p.element_ct == 0
                ==> r == Err::<ObjectLayout, LayoutError>(LayoutError::ZeroElements),
            p.element_size > 0 && p.element_ct > 0 && total_length_of(
                p.header_size as nat,
                p.element_size as nat,
                p.element_ct as nat,
            ) > usize::MAX ==> r == Err::<ObjectLayout, LayoutError>(LayoutError::TooLarge),
            p.element_size > 0 && p.element_ct > 0 && total_length_of(
                p.header_size as nat,
                p.element_size as nat,
                p.element_ct as nat,
            ) <= usize::MAX ==> r is Ok,
            r matches Ok(l) ==> {
                &&& l == layout_for(*p)
                &&& l.wf()
                &&& l.header_size == p.header_size
                &&& l.stride == p.element_size
                &&& l.element_ct == p.element_ct
                &&& l.chunk_elems == chunk_elems_for(p.min_load_ct as nat, p.element_size as nat)
                &&& l.read_only == p.read_only
            },
    {
        if p.element_size == 0 {
            return Err(LayoutError::ZeroStride);
        }
        if p.element_ct == 0 {
            return Err(LayoutError::ZeroElements);
        }
        let body = match p.element_ct.checked_mul(p.element_size) {
            Some(b) => b,
            None => {
                assert(total_length_of(p.header_size as nat, p.element_size as nat, p.element_ct as nat)
                    > usize::MAX);
                return Err(LayoutError::TooLarge);
            },
        };
        let total = match p.header_size.checked_add(body) {
            Some(t) => t,
            None => return Err(LayoutError::TooLarge),
        };
        let chunk_elems: usize = if p.min_load_ct == 0 {
            let stride = p.element_size;
            if stride >= PAGE_SIZE {
                assert(default_chunk_elems(stride as nat) == 1) by (nonlinear_arith)
                    requires
                        stride >= PAGE_SIZE,
                        default_chunk_elems(stride as nat) == (PAGE_SIZE + stride - 1) / (stride as int),
                ;
                1
            } else {
                let q = (PAGE_SIZE - 1 + stride) / stride;
                assert(q >= 1) by (nonlinear_arith)
                    requires q == (PAGE_SIZE - 1 + stride) as int / (stride as int), stride > 0;
                q
            }
        } else {
            p.min_load_ct
        };
        Ok(ObjectLayout {
            header_size: p.header_size,
            stride: p.element_size,
            element_ct: p.element_ct,
            chunk_elems,
            read_only: p.read_only,
            total_length: total,
        })
    }
}


impl ObjectLayout {
    /// The number of chunks in the object.
    pub fn chunk_count(&self) -> (r: usize)
        requires
            self.wf(),
        ensures
            r == self.spec_chunk_count(),
            r >= 1,
    {
        let c = self.chunk_elems;
        let n = self.element_ct;
        assert((n as int) / (c as int) >= 1 || (n as int) % (c as int) != 0) by (nonlinear_arith)
            requires n > 0, c > 0;
        assert((n as int) % (c as int) != 0 ==> (n as int) / (c as int) < n) by (nonlinear_arith)
            requires n > 0, c > 0;
        if n % c == 0 { n / c } else { n / c + 1 }
    }

    /// The chunk that holds byte `offset` of the object, or `None` for an
    /// offset in the header or past the end.
    pub fn chunk_of_offset(&self, offset: usize) -> (r: Option<usize>)
        requires
            self.wf(),
        ensures
            (offset < self.header_size || offset >= self.total_length) <==> r is None,
            r matches Some(k) ==> k == self.chunk_at(offset as int) && k < self.spec_chunk_count(),
    {
        if offset < self.header_size || offset >= self.total_length {
            return None;
        }
        proof {
            self.lemma_touch_in_one_chunk(offset as int);
        }
        Some((offset - self.header_size) / self.stride / self.chunk_elems)
    }

    /// The element range `[start, end)` that chunk `k` covers.
    pub fn chunk_element_range(&self, k: usize) -> (r: (usize, usize))
        requires
            self.wf(),
            k < self.spec_chunk_count(),
        ensures
            r.0 == self.chunk_start(k as int),
            r.1 == self.chunk_end(k as int),
            r.0 < r.1 <= self.element_ct,
    {
        let c = self.chunk_elems;
        let n = self.element_ct;
        proof {
            lemma_chunk_start_below(n as int, c as int, k as int);
        }
        let start = k * c;
        let end = if c >= n - start { n } else { start + c };
        assert((k + 1) * c == start + c) by (nonlinear_arith)
            requires start == k * c;
        (start, end)
    }

    /// The byte range `[first, end)` of chunk `k` within the object.
    pub fn chunk_byte_range(&self, k: usize) -> (r: (usize, usize))
        requires
            self.wf(),
            k < self.spec_chunk_count(),
        ensures
            r.0 == self.chunk_first_byte(k as int),
            r.1 == self.chunk_end_byte(k as int),
            self.header_size <= r.0 < r.1 <= self.total_length,
    {
        let (s, e) = self.chunk_element_range(k);
        let st = self.stride;
        let n = self.element_ct;
        assert(s * st < e * st <= n * st) by (nonlinear_arith)
            requires s < e <= n, st > 0;
        (self.header_size + s * st, self.header_size + e * st)
    }

    /// A byte offset past the header lies in chunk `chunk_at(offset)`, that
    /// chunk's element range holds the element of the offset, and no other
    /// chunk's byte range holds the offset.
    pub proof fn lemma_touch_in_one_chunk(&self, offset: int)
        requires
            self.wf(),
            self.header_size <= offset < self.total_length,
        ensures
            0 <= self.chunk_at(offset) < self.spec_chunk_count(),
            self.chunk_first_byte(self.chunk_at(offset)) <= offset < self.chunk_end_byte(self.chunk_at(offset)),
            self.chunk_start(self.chunk_at(offset)) <= (offset - self.header_size) / (self.stride as int)
                < self.chunk_end(self.chunk_at(offset)),
            forall|j: int|
                0 <= j && #[trigger] self.chunk_first_byte(j) <= offset < self.chunk_end_byte(j) ==> j == self.chunk_at(offset),
    {
        let d = offset - self.header_size;
        let st = self.stride as int;
        let c = self.chunk_elems as int;
        let n = self.element_ct as int;
        let e = d / st;
        let k = e / c;
        assert(0 <= e < n && e * st <= d < (e + 1) * st) by (nonlinear_arith)
            requires 0 <= d < n * st, st > 0, e == d / st;
        assert(0 <= k && k * c <= e < (k + 1) * c) by (nonlinear_arith)
            requires 0 <= e, c > 0, k == e / c;
        assert(k < n / c + if n % c == 0 { 0int } else { 1int }) by (nonlinear_arith)
            requires 0 <= e < n, c > 0, k == e / c;
        let end = self.chunk_end(k);
        assert(e + 1 <= end <= n);
        assert((k * c) * st <= e * st) by (nonlinear_arith)
            requires k * c <= e, st > 0;
        assert((e + 1) * st <= end * st) by (nonlinear_arith)
            requires e + 1 <= end, st > 0;
        assert forall|j: int|
            0 <= j && #[trigger] self.chunk_first_byte(j) <= offset < self.chunk_end_byte(j) implies j == k by {
            let ej = self.chunk_end(j);
            assert(ej <= (j + 1) * c);
            assert((j * c) * st <= d < ej * st);
            assert(j * c <= e) by (nonlinear_arith)
                requires (j * c) * st <= d, st > 0, e == d / st, j >= 0, c > 0;
            assert(d < ((j + 1) * c) * st) by (nonlinear_arith)
                requires d < ej * st, ej <= (j + 1) * c, st > 0;
            assert(e < (j + 1) * c) by (nonlinear_arith)
                requires d < ((j + 1) * c) * st, st > 0, e == d / st, d >= 0;
            assert(j == k) by (nonlinear_arith)
                requires j * c <= e < (j + 1) * c, k * c <= e < (k + 1) * c, c > 0;
        }
    }
}

/// The first element of any chunk lies below the element count.
proof fn lemma_chunk_start_below(n: int, c: int, k: int)
    requires
        n > 0,
        c > 0,
        0 <= k < n / c + if n % c == 0 { 0int } else { 1int },
    ensures
        k * c < n,
{
    assert(k * c < n) by (nonlinear_arith)
        requires n > 0, c > 0, 0 <= k < n / c + if n % c == 0 { 0int } else { 1int };
}

/// The byte size of chunk `k` of layout `l`.
pub open spec fn chunk_size_of(l: ObjectLayout, k: int) -> int {
    l.chunk_end_byte(k) - l.chunk_first_byte(k)
}

/// Every chunk holds at least one byte.
pub proof fn lemma_chunk_size_positive(l: ObjectLayout, k: int)
    requires
        l.wf(),
        0 <= k < l.spec_chunk_count(),
    ensures
        chunk_size_of(l, k) > 0,
{
    lemma_chunk_start_below(l.element_ct as int, l.chunk_elems as int, k);
    let s = l.chunk_start(k);
    let e = l.chunk_end(k);
    let c = l.chunk_elems as int;
    assert((k + 1) * c == k * c + c) by (nonlinear_arith);
    assert(s < e);
    let st = l.stride as int;
    assert(s * st < e * st) by (nonlinear_arith)
        requires s < e, st > 0;
}

} // verus!
