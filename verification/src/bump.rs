//! A bump (pointer-increment) allocator over one contiguous heap region.
//!
//! The allocator keeps `next`, the first address not yet handed out. A request is served by
//! rounding `next` up to the requested alignment and moving it past the block; blocks are
//! never freed one by one, only all at once by `reset`.
//!
//! Addresses are plain `usize` values here: the allocator decides where blocks go and never
//! touches the memory itself.
use vstd::prelude::*;
use vstd::arithmetic::power2::is_pow2;
use vstd::arithmetic::div_mod::{
    lemma_fundamental_div_mod,
    lemma_mod_breakdown,
    lemma_mod_multiples_basic,
    lemma_mod_pos_bound,
};
use vstd::arithmetic::mul::lemma_mul_is_commutative;
use vstd::layout::valid_layout;

verus! {

/// The error returned for a size and alignment that do not make a valid layout.
#[derive(Clone, Copy, Debug, PartialEq, Eq)]
pub struct LayoutError;

/// The shape of a memory request: a size in bytes and an alignment, a power of two that the
/// block's address must be a multiple of.
#[derive(Clone, Copy, Debug)]
pub struct Layout {
    size: usize,
    align: usize,
}

/// Whether `core::alloc::Layout::from_size_align` accepts `size` and `align`.
///
/// Its documentation states that it accepts them exactly when `align` is a power of two and
/// `size`, rounded up to a multiple of `align`, does not exceed `isize::MAX`; the contract
/// claims that, in the words of vstd's `valid_layout`.
#[verifier::external_body]
fn layout_accepts(size: usize, align: usize) -> (ok: bool)
    ensures
        ok == valid_layout(size, align),
{
    core::alloc::Layout::from_size_align(size, align).is_ok()
}

impl Layout {
    #[verifier::type_invariant]
    spec fn inv(self) -> bool {
        valid_layout(self.size, self.align)
    }

    pub closed spec fn spec_size(&self) -> usize {
        self.size
    }

    pub closed spec fn spec_align(&self) -> usize {
        self.align
    }

    /// Builds a layout, or refuses when `align` is not a power of two or `size` rounded up to
    /// a multiple of `align` would exceed `isize::MAX`.
    pub fn from_size_align(size: usize, align: usize) -> (r: Result<Layout, LayoutError>)
        ensures
            r is Ok <==> valid_layout(size, align),
            r matches Ok(l) ==> l.size() == size && l.align() == align,
    {
        if layout_accepts(size, align) {
            Ok(Layout { size, align })
        } else {
            Err(LayoutError)
        }
    }

    /// The requested size in bytes.
    #[verifier::when_used_as_spec(spec_size)]
    pub fn size(&self) -> (r: usize)
        ensures
            r == self.size(),
    {
        self.size
    }

    /// The requested alignment, a power of two.
    #[verifier::when_used_as_spec(spec_align)]
    pub fn align(&self) -> (r: usize)
        ensures
            r == self.align(),
            is_pow2(r as int),
    {
        proof {
            use_type_invariant(self);
        }
        self.align
    }
}

/// `addr` rounded up to a multiple of `align`.
pub open spec fn align_up(addr: int, align: int) -> int {
    ((addr + align - 1) / align) * align
}

/// Where a bump from `next` puts a block of `size` bytes aligned to `align` in a heap that ends
/// at `heap_end`: the block's address and the new value of `next`, or `None` when the block
/// would end past `heap_end`.
pub open spec fn bump(next: int, size: int, align: int, heap_end: int) -> Option<(int, int)> {
    let start = align_up(next, align);
    if start + size > heap_end {
        None
    } else {
        Some((start, start + size))
    }
}

/// For a power of two `a`, masking off the low bits of `y` rounds it down to a multiple of `a`.
proof fn lemma_mask_rounds_down(y: usize, a: usize)
    requires
        is_pow2(a as int),
    ensures
        a & ((a - 1) as usize) == 0,
        y & !((a - 1) as usize) == y - y % a,
    decreases a,
{
    reveal(is_pow2);
    if a == 1 {
        assert(1usize & 0usize == 0) by (bit_vector);
        assert(y & !0usize == y) by (bit_vector);
    } else {
        let b: usize = a / 2;
        let z: usize = y / 2;
        lemma_mask_rounds_down(z, b);
        assert(y & !((a - 1) as usize) == 2 * (z & !((b - 1) as usize))) by (bit_vector)
            requires
                a == 2 * b,
                b >= 1,
                z == y / 2,
        ;
        assert(a & ((a - 1) as usize) == 0) by (bit_vector)
            requires
                a == 2 * b,
                b >= 1,
                b & ((b - 1) as usize) == 0,
        ;
        lemma_mod_breakdown(y as int, 2, b as int);
    }
}

/// `align_up` gives the least multiple of `align` that is at least `addr`.
pub proof fn lemma_align_up(addr: int, align: int)
    requires
        addr >= 0,
        align > 0,
    ensures
        align_up(addr, align) % align == 0,
        addr <= align_up(addr, align) < addr + align,
        align_up(addr, align) == (addr + align - 1) - (addr + align - 1) % align,
{
    let y = addr + align - 1;
    lemma_fundamental_div_mod(y, align);
    lemma_mod_pos_bound(y, align);
    lemma_mul_is_commutative(align, y / align);
    lemma_mod_multiples_basic(y / align, align);
}

/// Rounds `addr` up to a multiple of the power of two `align`, as `(addr + align - 1) & !(align - 1)`.
fn align_up_pow2(addr: usize, align: usize) -> (r: usize)
    requires
        is_pow2(align as int),
        addr + align - 1 <= usize::MAX,
    ensures
        r == align_up(addr as int, align as int),
        r % align == 0,
        addr <= r < addr + align,
{
    proof {
        reveal(is_pow2);
        lemma_mask_rounds_down((addr + align - 1) as usize, align);
        lemma_align_up(addr as int, align as int);
    }
    (addr + (align - 1)) & !(align - 1)
}

/// What a bump does, put without `align_up`: the block starts at the one multiple of `align` in
/// `next..next + align`, and the request succeeds exactly when the block, ending `size` bytes
/// further, fits before `heap_end`; the new `next` is the block's end.
pub proof fn lemma_bump_exact(next: int, size: int, align: int, heap_end: int)
    requires
        0 <= next,
        0 <= size,
        align > 0,
    ensures
        forall|p: int|
            next <= p < next + align && #[trigger] (p % align) == 0 ==> bump(next, size, align, heap_end) == (
            if p + size <= heap_end {
                Some((p, p + size))
            } else {
                None
            }),
{
    lemma_align_up(next, align);
    assert forall|p: int|
        next <= p < next + align && #[trigger] (p % align) == 0 implies p == align_up(next, align) by {
        let q = align_up(next, align);
        vstd::arithmetic::div_mod::lemma_fundamental_div_mod(p, align);
        vstd::arithmetic::div_mod::lemma_fundamental_div_mod(q, align);
        assert(p == align * (p / align));
        assert(q == align * (q / align));
        if p / align < q / align {
            vstd::arithmetic::mul::lemma_mul_inequality(p / align + 1, q / align, align);
            vstd::arithmetic::mul::lemma_mul_is_distributive_add(align, p / align, 1);
            vstd::arithmetic::mul::lemma_mul_is_commutative(align, p / align + 1);
            vstd::arithmetic::mul::lemma_mul_is_commutative(align, q / align);
        } else if q / align < p / align {
            vstd::arithmetic::mul::lemma_mul_inequality(q / align + 1, p / align, align);
            vstd::arithmetic::mul::lemma_mul_is_distributive_add(align, q / align, 1);
            vstd::arithmetic::mul::lemma_mul_is_commutative(align, q / align + 1);
            vstd::arithmetic::mul::lemma_mul_is_commutative(align, p / align);
        }
    }
}

/// A block handed out starts at a multiple of its alignment, no earlier than `next`, and lies wholly inside the heap: it ends exactly where
/// the new `next` stands, at or before `heap_end`.
pub proof fn lemma_block_in_heap(next: int, size: int, align: int, heap_end: int, start: int, end: int)
    requires
        0 <= next,
        0 <= size,
        align > 0,
        bump(next, size, align, heap_end) == Some((start, end)),
    ensures
        start % align == 0,
        next <= start,
        start + size == end,
        end <= heap_end,
{
    lemma_align_up(next, align);
}

/// Two blocks handed out one after the other do not overlap: the second starts at or after the
/// end of the first.
pub proof fn lemma_successive_blocks_disjoint(
    next: int,
    heap_end: int,
    size1: int,
    align1: int,
    size2: int,
    align2: int,
    start1: int,
    end1: int,
    start2: int,
    end2: int,
)
    requires
        0 <= next,
        0 <= size1,
        0 <= size2,
        align1 > 0,
        align2 > 0,
        bump(next, size1, align1, heap_end) == Some((start1, end1)),
        bump(end1, size2, align2, heap_end) == Some((start2, end2)),
    ensures
        start1 + size1 <= start2,
        start2 + size2 <= end2,
{
    lemma_block_in_heap(next, size1, align1, heap_end, start1, end1);
    lemma_block_in_heap(end1, size2, align2, heap_end, start2, end2);
}

/// With alignment 1 a request succeeds exactly when the bytes left between `next` and the end
/// of the heap are enough for it.
pub proof fn lemma_unaligned_fits_iff_room(next: int, size: int, heap_end: int)
    requires
        0 <= next,
        0 <= size,
    ensures
        bump(next, size, 1, heap_end) is Some <==> next + size <= heap_end,
        bump(next, size, 1, heap_end) is Some ==> bump(next, size, 1, heap_end) == Some((next, next + size)),
{
    lemma_align_up(next, 1);
}

/// A request larger than the whole heap always fails, whatever has been allocated before.
pub proof fn lemma_oversized_request_fails(heap_start: int, next: int, size: int, align: int, heap_end: int)
    requires
        heap_start <= next,
        0 <= heap_start,
        align > 0,
        size > heap_end - heap_start,
    ensures
        bump(next, size, align, heap_end) is None,
{
    lemma_align_up(next, align);
}

/// After `reset` the allocator serves the next request exactly as a fresh allocator over the
/// same heap serves its first one.
pub proof fn lemma_reset_replays_first_request(after_reset: BumpAllocator, fresh: BumpAllocator, size: int, align: int)
    requires
        after_reset.heap_start() == fresh.heap_start(),
        after_reset.heap_end() == fresh.heap_end(),
        after_reset.next() == after_reset.heap_start(),
        fresh.next() == fresh.heap_start(),
    ensures
        bump(after_reset.next() as int, size, align, after_reset.heap_end() as int)
            == bump(fresh.next() as int, size, align, fresh.heap_end() as int),
{
}

/// Where `next` stands after a run of requests, each a pair of size and alignment, served one
/// after the other from `next` (a refused request leaves it where it was).
pub open spec fn next_after(next: int, reqs: Seq<(int, int)>, heap_end: int) -> int
    decreases reqs.len(),
{
    if reqs.len() == 0 {
        next
    } else {
        let before = next_after(next, reqs.drop_last(), heap_end);
        match bump(before, reqs.last().0, reqs.last().1, heap_end) {
            Some((_, end)) => end,
            None => before,
        }
    }
}

/// What request `i` of a run gets: the address of its block, or `None` when it is refused.
pub open spec fn block_of(next: int, reqs: Seq<(int, int)>, heap_end: int, i: int) -> Option<int> {
    match bump(next_after(next, reqs.take(i), heap_end), reqs[i].0, reqs[i].1, heap_end) {
        Some((start, _)) => Some(start),
        None => None,
    }
}

/// The requests of a run have non-negative sizes and positive alignments.
pub open spec fn well_formed_requests(reqs: Seq<(int, int)>) -> bool {
    forall|i: int| #![trigger reqs[i]] 0 <= i < reqs.len() ==> reqs[i].0 >= 0 && reqs[i].1 > 0
}

/// `next` never moves back along a run of requests.
proof fn lemma_next_after_grows(next: int, reqs: Seq<(int, int)>, heap_end: int, k: int, m: int)
    requires
        0 <= next,
        well_formed_requests(reqs),
        0 <= k <= m <= reqs.len(),
    ensures
        next <= next_after(next, reqs.take(k), heap_end) <= next_after(next, reqs.take(m), heap_end),
    decreases m,
{
    if m > 0 {
        if k < m {
            lemma_next_after_grows(next, reqs, heap_end, k, m - 1);
        } else {
            lemma_next_after_grows(next, reqs, heap_end, m - 1, m - 1);
        }
        let prefix = reqs.take(m);
        assert(prefix.drop_last() =~= reqs.take(m - 1));
        let before = next_after(next, reqs.take(m - 1), heap_end);
        assert(prefix.last() == reqs[m - 1]);
        lemma_align_up(before, reqs[m - 1].1);
        if k == m {
            assert(reqs.take(k) == prefix);
        }
    }
}

/// Request `i`'s block ends exactly where `next` stands after it.
proof fn lemma_next_after_block(next: int, reqs: Seq<(int, int)>, heap_end: int, i: int, start: int)
    requires
        0 <= i < reqs.len(),
        block_of(next, reqs, heap_end, i) == Some(start),
    ensures
        next_after(next, reqs.take(i + 1), heap_end) == start + reqs[i].0,
{
    let prefix = reqs.take(i + 1);
    assert(prefix.drop_last() =~= reqs.take(i));
    assert(prefix.last() == reqs[i]);
}

/// No two blocks handed out along a run of requests overlap: every later block starts at or
/// after the end of every earlier one.
pub proof fn lemma_blocks_of_a_run_disjoint(next: int, reqs: Seq<(int, int)>, heap_end: int, i: int, j: int, p: int, q: int)
    requires
        0 <= next,
        well_formed_requests(reqs),
        0 <= i < j < reqs.len(),
        block_of(next, reqs, heap_end, i) == Some(p),
        block_of(next, reqs, heap_end, j) == Some(q),
    ensures
        p + reqs[i].0 <= q,
        q + reqs[j].0 <= heap_end,
{
    lemma_next_after_block(next, reqs, heap_end, i, p);
    lemma_next_after_grows(next, reqs, heap_end, i + 1, j);
    let before = next_after(next, reqs.take(j), heap_end);
    lemma_align_up(before, reqs[j].1);
}

/// A bump allocator over the addresses `heap_start..heap_end`.
pub struct BumpAllocator {
    heap_start: usize,
    heap_end: usize,
    next: usize,
}

impl BumpAllocator {
    /// `next` never falls below the heap's start, and never passes its end when the heap is
    /// not empty-by-construction (`heap_start <= heap_end`).
    #[verifier::type_invariant]
    spec fn inv(self) -> bool {
        &&& self.heap_start <= self.next
        &&& self.heap_start <= self.heap_end ==> self.next <= self.heap_end
    }

    pub closed spec fn spec_heap_start(&self) -> usize {
        self.heap_start
    }

    pub closed spec fn spec_heap_end(&self) -> usize {
        self.heap_end
    }

    pub closed spec fn spec_next(&self) -> usize {
        self.next
    }

    /// What `inv` states, for callers.
    pub open spec fn well_formed(&self) -> bool {
        &&& self.heap_start() <= self.next()
        &&& self.heap_start() <= self.heap_end() ==> self.next() <= self.heap_end()
    }

    /// An allocator over `heap_start..heap_end` with nothing allocated yet.
    pub fn new(heap_start: usize, heap_end: usize) -> (r: Self)
        ensures
            r.heap_start() == heap_start,
            r.heap_end() == heap_end,
            r.next() == heap_start,
    {
        BumpAllocator { heap_start, heap_end, next: heap_start }
    }

    /// The first address of the heap.
    #[verifier::when_used_as_spec(spec_heap_start)]
    pub fn heap_start(&self) -> (r: usize)
        ensures
            r == self.heap_start(),
    {
        self.heap_start
    }

    /// The address just past the heap.
    #[verifier::when_used_as_spec(spec_heap_end)]
    pub fn heap_end(&self) -> (r: usize)
        ensures
            r == self.heap_end(),
    {
        self.heap_end
    }

    /// The first address not handed out yet.
    #[verifier::when_used_as_spec(spec_next)]
    pub fn next(&self) -> (r: usize)
        ensures
            r == self.next(),
            self.well_formed(),
    {
        proof {
            use_type_invariant(self);
        }
        self.next
    }

    /// Frees every block at once: the next request is served from the heap's start again.
    pub fn reset(&mut self)
        ensures
            final(self).heap_start() == old(self).heap_start(),
            final(self).heap_end() == old(self).heap_end(),
            final(self).next() == old(self).heap_start(),
    {
        self.next = self.heap_start;
    }

    /// Hands out a block of `layout.size()` bytes whose address is a multiple of
    /// `layout.align()`, or `None` when the heap has no room left for it.
    ///
    /// The block starts at `next` rounded up to the alignment; on success `next` moves to the
    /// block's end, on failure nothing changes. Rounding `next` up must not overflow.
    pub fn allocate(&mut self, layout: Layout) -> (r: Option<usize>)
        requires
            old(self).next() + layout.align() - 1 <= usize::MAX,
        ensures
            final(self).heap_start() == old(self).heap_start(),
            final(self).heap_end() == old(self).heap_end(),
            match bump(
                old(self).next() as int,
                layout.size() as int,
                layout.align() as int,
                old(self).heap_end() as int,
            ) {
                Some((start, end)) => r == Some(start as usize) && final(self).next() == end,
                None => r is None && final(self).next() == old(self).next(),
            },
            r matches Some(p) ==> {
                &&& p % layout.align() == 0
                &&& old(self).next() <= p < old(self).next() + layout.align()
                &&& p + layout.size() == final(self).next()
                &&& final(self).next() <= old(self).heap_end()
            },
            r is None ==> {
                &&& final(self).next() == old(self).next()
                &&& forall|p: int|
                    old(self).next() <= p < old(self).next() + layout.align() && #[trigger] (p
                        % (layout.align() as int)) == 0 ==> p + layout.size() > old(self).heap_end()
            },
    {
        proof {
            use_type_invariant(&*self);
            use_type_invariant(&layout);
            reveal(is_pow2);
            lemma_bump_exact(
                old(self).next() as int,
                layout.size() as int,
                layout.align() as int,
                old(self).heap_end() as int,
            );
        }
        let current = self.next;
        let align = layout.align();
        let aligned = align_up_pow2(current, align);
        let end = match aligned.checked_add(layout.size()) {
            Some(end) => end,
            None => return None,
        };
        if end > self.heap_end {
            return None;
        }
        self.next = end;
        Some(aligned)
    }

    /// Gives a block back. A bump allocator does not reclaim single blocks, so nothing
    /// changes; the memory comes back with `reset`.
    pub fn dealloc(&self, ptr: usize, layout: Layout) {
    }
}

} // verus!
