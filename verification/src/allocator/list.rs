//! A first-fit heap allocator that keeps the free memory in an address-ordered
//! list of blocks and merges adjacent free blocks.
//!
//! The free list is held as a vector of blocks; the allocator hands out and takes
//! back address ranges of the heap.
use vstd::prelude::*;

verus! {

/// Size in bytes of the header a free block needs (its size and the link to
/// the next block, two machine words).
pub const NODE_SIZE: usize = 16;
/// Alignment of a free block header.
pub const NODE_ALIGN: usize = 8;

/// A free block of the heap: `size` bytes starting at address `start`.
#[derive(Clone, Copy, Debug, PartialEq, Eq, Structural)]
pub struct FreeBlock {
    pub start: usize,
    pub size: usize,
}

/// The address just past a block.
pub open spec fn block_end(b: FreeBlock) -> int {
    b.start + b.size
}

/// Aggregate statistics about the heap, taken in one pass over the free list.
#[derive(Clone, Copy, Debug)]
pub struct HeapStats {
    /// Total size of the heap in bytes.
    pub total: usize,
    /// Sum of the sizes of all free blocks.
    pub free: usize,
    /// Bytes handed out to allocations (`total - free`), including alignment
    /// padding and the room reserved for block headers.
    pub used: usize,
    /// Number of free blocks; a high number indicates fragmentation.
    pub free_blocks: usize,
    /// Size of the largest free block, i.e. the largest possible allocation.
    pub largest_free_block: usize,
}

/// The free blocks are ordered by address, separated by at least one byte
/// (adjacent blocks are always merged), aligned for a header, large enough for
/// a header, and inside the heap.
pub open spec fn free_list_wf(s: Seq<FreeBlock>, heap_start: int, heap_end: int) -> bool {
    &&& forall|i: int, j: int| 0 <= i < j < s.len() ==> block_end(#[trigger] s[i]) < (#[trigger] s[j]).start
    &&& forall|i: int| 0 <= i < s.len() ==> {
        &&& (#[trigger] s[i]).start % NODE_ALIGN == 0
        &&& s[i].size >= NODE_SIZE
        &&& heap_start <= s[i].start
        &&& block_end(s[i]) <= heap_end
    }
}

/// Total size of the blocks.
pub open spec fn sum_sizes(s: Seq<FreeBlock>) -> int
    decreases s.len(),
{
    if s.len() == 0 {
        0
    } else {
        sum_sizes(s.drop_last()) + s.last().size
    }
}

/// Size of the largest block, zero for an empty list.
pub open spec fn max_size(s: Seq<FreeBlock>) -> int
    decreases s.len(),
{
    if s.len() == 0 {
        0
    } else if s.last().size > max_size(s.drop_last()) {
        s.last().size as int
    } else {
        max_size(s.drop_last())
    }
}

/// Blocks that are ordered, disjoint and inside `lo..hi` add up to at most `hi - lo`.
pub proof fn lemma_sum_bounded(s: Seq<FreeBlock>, lo: int, hi: int)
    requires
        lo <= hi,
        forall|i: int, j: int| 0 <= i < j < s.len() ==> block_end(#[trigger] s[i]) < (#[trigger] s[j]).start,
        forall|i: int| 0 <= i < s.len() ==> lo <= (#[trigger] s[i]).start && block_end(s[i]) <= hi,
    ensures
        0 <= sum_sizes(s) <= hi - lo,
    decreases s.len(),
{
    if s.len() > 0 {
        let l = s.last();
        let rest = s.drop_last();
        assert forall|i: int| 0 <= i < rest.len() implies lo <= (#[trigger] rest[i]).start && block_end(rest[i]) <= l.start by {
            assert(rest[i] == s[i]);
            assert(block_end(s[i]) < s[s.len() - 1].start);
        }
        assert forall|i: int, j: int| 0 <= i < j < rest.len() implies block_end(#[trigger] rest[i]) < (#[trigger] rest[j]).start by {
            assert(rest[i] == s[i] && rest[j] == s[j]);
        }
        assert(lo <= l.start) by {
            assert(l == s[s.len() - 1]);
        }
        lemma_sum_bounded(rest, lo, l.start as int);
    }
}

/// The largest block is no larger than all blocks together.
proof fn lemma_max_le_sum(s: Seq<FreeBlock>)
    ensures
        max_size(s) <= sum_sizes(s),
        0 <= sum_sizes(s),
    decreases s.len(),
{
    if s.len() > 0 {
        lemma_max_le_sum(s.drop_last());
    }
}

/// The largest block is no larger than the heap, and no smaller than any block.
proof fn lemma_max_size(s: Seq<FreeBlock>)
    ensures
        0 <= max_size(s),
        forall|i: int| 0 <= i < s.len() ==> (#[trigger] s[i]).size <= max_size(s),
        s.len() > 0 ==> exists|i: int| 0 <= i < s.len() && (#[trigger] s[i]).size == max_size(s),
    decreases s.len(),
{
    if s.len() > 0 {
        lemma_max_size(s.drop_last());
        assert forall|i: int| 0 <= i < s.len() implies (#[trigger] s[i]).size <= max_size(s) by {
            if i < s.len() - 1 {
                assert(s[i] == s.drop_last()[i]);
            }
        }
        if s.last().size > max_size(s.drop_last()) {
            assert(s[s.len() - 1].size == max_size(s));
        } else if s.len() > 1 {
            let k = choose|k: int| 0 <= k < s.drop_last().len() && (#[trigger] s.drop_last()[k]).size == max_size(s.drop_last());
            assert(s[k].size == max_size(s));
        } else {
            assert(s[0].size == max_size(s)) by {
                assert(s.drop_last().len() == 0);
            }
        }
    }
}

/// A linked list allocator that manages the free memory of the heap in an
/// address-ordered free list.
pub struct LinkedListAllocator {
    free: Vec<FreeBlock>,
    heap_start: usize,
    heap_end: usize,
}

impl LinkedListAllocator {
    /// The free blocks, ordered by address.
    pub closed spec fn free_blocks(&self) -> Seq<FreeBlock> {
        self.free@
    }

    pub closed spec fn heap_start_spec(&self) -> int {
        self.heap_start as int
    }

    pub closed spec fn heap_end_spec(&self) -> int {
        self.heap_end as int
    }

    /// The heap bounds are ordered and the free list is well formed.
    pub closed spec fn wf(&self) -> bool {
        &&& self.heap_start <= self.heap_end
        &&& free_list_wf(self.free@, self.heap_start as int, self.heap_end as int)
    }

    /// What well-formedness means: the heap bounds are ordered and fit in a
    /// `usize`, and the free list is ordered by address, coalesced, aligned,
    /// made of blocks that can hold a header, and inside the heap.
    pub proof fn lemma_wf(&self)
        requires
            self.wf(),
        ensures
            self.heap_start_spec() <= self.heap_end_spec() <= usize::MAX,
            free_list_wf(self.free_blocks(), self.heap_start_spec(), self.heap_end_spec()),
    {
    }

    /// Create an empty allocator without a heap.
    pub fn new() -> (r: LinkedListAllocator)
        ensures
            r.wf(),
            r.free_blocks() == Seq::<FreeBlock>::empty(),
            r.heap_start_spec() == 0,
            r.heap_end_spec() == 0,
    {
        LinkedListAllocator { free: Vec::new(), heap_start: 0, heap_end: 0 }
    }

    /// The free blocks in address order, for printing the free list: each
    /// block's start and size; their number and total size are in `stats`.
    pub fn dump_free_list(&self) -> (r: Vec<FreeBlock>)
        ensures
            r@ == self.free_blocks(),
    {
        let mut r: Vec<FreeBlock> = Vec::new();
        let mut i: usize = 0;
        while i < self.free.len()
            invariant
                i <= self.free@.len(),
                r@ == self.free@.take(i as int),
            decreases self.free@.len() - i,
        {
            r.push(self.free[i]);
            proof {
                assert(self.free@.take(i + 1) =~= self.free@.take(i as int).push(self.free@[i as int]));
            }
            i = i + 1;
        }
        proof {
            assert(self.free@.take(i as int) =~= self.free@);
        }
        r
    }

    /// Collect aggregate statistics by walking the free list once. This only
    /// reads and does not allocate.
    pub fn stats(&self) -> (r: HeapStats)
        requires
            self.wf(),
        ensures
            r.total == self.heap_end_spec() - self.heap_start_spec(),
            r.free == sum_sizes(self.free_blocks()),
            r.used == r.total - r.free,
            r.free_blocks == self.free_blocks().len(),
            r.largest_free_block == max_size(self.free_blocks()),
            r.free <= r.total,
            forall|i: int| 0 <= i < self.free_blocks().len() ==> (#[trigger] self.free_blocks()[i]).size <= r.largest_free_block,
            forall|i: int| 0 <= i < self.free_blocks().len() ==> (#[trigger] self.free_blocks()[i]).size >= NODE_SIZE,
            r.free == 0 <==> r.free_blocks == 0,
            r.largest_free_block <= r.free,
    {
        let total = self.heap_end.saturating_sub(self.heap_start);
        let mut free: usize = 0;
        let mut free_blocks: usize = 0;
        let mut largest_free_block: usize = 0;
        proof {
            lemma_sum_bounded(self.free@, self.heap_start as int, self.heap_end as int);
        }
        while free_blocks < self.free.len()
            invariant
                self.wf(),
                total == self.heap_end - self.heap_start,
                free_blocks <= self.free@.len(),
                free == sum_sizes(self.free@.take(free_blocks as int)),
                largest_free_block == max_size(self.free@.take(free_blocks as int)),
                sum_sizes(self.free@) <= total,
            decreases self.free@.len() - free_blocks,
        {
            let block = self.free[free_blocks];
            proof {
                let t = self.free@.take(free_blocks + 1);
                assert(t.drop_last() =~= self.free@.take(free_blocks as int));
                lemma_sum_prefix(self.free@, free_blocks + 1, self.heap_start as int, self.heap_end as int);
            }
            free = free + block.size;
            if block.size > largest_free_block {
                largest_free_block = block.size;
            }
            free_blocks = free_blocks + 1;
        }
        proof {
            assert(self.free@.take(free_blocks as int) =~= self.free@);
            lemma_max_size(self.free@);
            lemma_max_le_sum(self.free@);
            if self.free@.len() > 0 {
                let rest = self.free@.drop_last();
                lemma_subrange_wf(self.free@, 0, self.free@.len() - 1, self.heap_start as int, self.heap_end as int);
                assert(rest =~= self.free@.subrange(0, self.free@.len() - 1));
                lemma_sum_bounded(rest, self.heap_start as int, self.heap_end as int);
                assert(self.free@.last().size >= NODE_SIZE);
            }
        }
        HeapStats { total, free, used: total - free, free_blocks, largest_free_block }
    }

    /// The position at which a block starting at `addr` belongs.
    fn find_position(&self, addr: usize) -> (k: usize)
        requires
            self.wf(),
        ensures
            k == lower_index(self.free@, addr as int),
            k <= self.free@.len(),
            forall|i: int| 0 <= i < k ==> (#[trigger] self.free@[i]).start < addr,
            k < self.free@.len() ==> self.free@[k as int].start >= addr,
    {
        let mut k: usize = 0;
        let len = self.free.len();
        proof {
            assert(self.free@.subrange(0, len as int) =~= self.free@);
        }
        while k < len && self.free[k].start < addr
            invariant
                len == self.free@.len(),
                k <= len,
                lower_index(self.free@, addr as int) == k + lower_index(self.free@.subrange(k as int, len as int), addr as int),
                forall|i: int| 0 <= i < k ==> (#[trigger] self.free@[i]).start < addr,
            decreases len - k,
        {
            proof {
                lemma_lower_index_step(self.free@, addr as int, k as int);
            }
            k = k + 1;
        }
        proof {
            let t = self.free@.subrange(k as int, len as int);
            if k < len {
                assert(t[0] == self.free@[k as int]);
            }
        }
        k
    }

    /// Initialize the allocator with the heap `heap_start..heap_start + heap_size`,
    /// which becomes one free block.
    pub fn init(&mut self, heap_start: usize, heap_size: usize)
        requires
            heap_start + heap_size <= usize::MAX,
            heap_start % NODE_ALIGN == 0,
            heap_size >= NODE_SIZE,
        ensures
            final(self).wf(),
            final(self).heap_start_spec() == heap_start,
            final(self).heap_end_spec() == heap_start + heap_size,
            final(self).free_blocks() == (seq![FreeBlock { start: heap_start, size: heap_size }]),
    {
        self.heap_start = heap_start;
        self.heap_end = heap_start + heap_size;
        self.free = Vec::new();
        self.add_free_block(heap_start, heap_size);
        proof {
            reveal(with_block);
            assert(self.free@ =~= seq![FreeBlock { start: heap_start, size: heap_size }]);
        }
    }

    /// Check whether `block` can hold an allocation of `size` bytes aligned to
    /// `align`, and where it would start.
    fn check_block_for_alloc(block: &FreeBlock, size: usize, align: usize) -> (r: Result<usize, ()>)
        requires
            align > 0,
            block_end(*block) <= usize::MAX,
        ensures
            r matches Ok(v) ==> fit_start(*block, size as int, align as int) == Some(v as int),
            r is Err <==> fit_start(*block, size as int, align as int) is None,
    {
        reveal(align_up_spec);
        reveal(fit_start);
        let alloc_start = match align_up(block.start, align) {
            Some(v) => v,
            None => {
                return Err(());
            },
        };
        let alloc_end = match alloc_start.checked_add(size) {
            Some(v) => v,
            None => {
                return Err(());
            },
        };
        if alloc_end > block.start + block.size {
            return Err(());
        }
        let excess_size = block.start + block.size - alloc_end;
        if excess_size > 0 && excess_size < NODE_SIZE {
            return Err(());
        }
        Ok(alloc_start)
    }

    /// Find the first free block that can hold the allocation, take it out of
    /// the list, and return it with the start address of the allocation.
    fn find_free_block(&mut self, size: usize, align: usize) -> (r: Option<(FreeBlock, usize)>)
        requires
            old(self).wf(),
            align > 0,
        ensures
            final(self).heap_start == old(self).heap_start,
            final(self).heap_end == old(self).heap_end,
            first_fit(old(self).free@, size as int, align as int) is None ==> r is None && final(self).free@ == old(self).free@,
            first_fit(old(self).free@, size as int, align as int) matches Some(i) ==> ({
                &&& 0 <= i < old(self).free@.len()
                &&& r matches Some((b, st)) && b == old(self).free@[i] && fit_start(b, size as int, align as int) == Some(st as int)
                &&& final(self).free@ == old(self).free@.remove(i)
            }),
            final(self).wf(),
    {
        reveal(first_fit);
        let ghost s = self.free@;
        let mut i: usize = 0;
        while i < self.free.len()
            invariant
                self.free@ == s,
                old(self).wf(),
                old(self).free@ == s,
                align > 0,
                i <= s.len(),
                self.heap_start == old(self).heap_start,
                self.heap_end == old(self).heap_end,
                forall|j: int| 0 <= j < i ==> fit_start(#[trigger] s[j], size as int, align as int) is None,
            decreases s.len() - i,
        {
            let block = self.free[i];
            proof {
                assert(block_end(s[i as int]) <= self.heap_end);
            }
            if let Ok(alloc_start) = Self::check_block_for_alloc(&block, size, align) {
                let _ = self.free.remove(i);
                proof {
                    reveal(first_fit);
                    assert(fit_start(s[i as int], size as int, align as int) is Some);
                    let f = choose|k: int| 0 <= k < s.len() && fit_start(#[trigger] s[k], size as int, align as int) is Some
                        && forall|j: int| 0 <= j < k ==> fit_start(#[trigger] s[j], size as int, align as int) is None;
                    assert(f == i) by {
                        if f < i {
                            assert(fit_start(s[f], size as int, align as int) is None);
                        } else if f > i {
                            assert(fit_start(s[i as int], size as int, align as int) is None);
                        }
                    }
                    lemma_remove_wf(s, i as int, self.heap_start as int, self.heap_end as int);
                }
                return Some((block, alloc_start));
            }
            i = i + 1;
        }
        proof {
            assert(!exists|k: int| 0 <= k < s.len() && fit_start(#[trigger] s[k], size as int, align as int) is Some);
        }
        None
    }

    /// Adjust a requested size and alignment so that the memory can later hold
    /// a free block header: see `adjusted_layout`.
    pub fn size_align(size: usize, align: usize) -> (r: (usize, usize))
        requires
            is_pow2(align as int),
            align_up_spec(size as int, max_int(align as int, NODE_ALIGN as int)) <= isize::MAX,
        ensures
            (r.0 as int, r.1 as int) == adjusted_layout(size as int, align as int),
            r.1 >= NODE_ALIGN,
            r.0 >= NODE_SIZE,
            r.0 % 8 == 0,
            r.1 % 8 == 0,
    {
        reveal(align_up_spec);
        proof {
            lemma_align_up(size as int, max_int(align as int, NODE_ALIGN as int));
        }
        let al = if align >= NODE_ALIGN { align } else { NODE_ALIGN };
        let rem = size % al;
        let padded = if rem == 0 { size } else { size + (al - rem) };
        let sz = if padded >= NODE_SIZE { padded } else { NODE_SIZE };
        proof {
            lemma_adjusted_align(align as int);
            lemma_multiple_of_8(padded as int, al as int);
        }
        (sz, al)
    }

    /// Allocate `size` bytes aligned to `align` (a power of two). The request is
    /// first adjusted by `size_align`; the first free block that can hold it is
    /// taken, and the part behind the allocation goes back to the free list. The
    /// part in front of the allocation, left by the alignment, is not returned.
    /// Returns the start address, or 0 if no free block can hold the request.
    #[verifier::rlimit(60)]
    pub fn allocate(&mut self, size: usize, align: usize) -> (r: usize)
        requires
            old(self).wf(),
            is_pow2(align as int),
            align_up_spec(size as int, max_int(align as int, NODE_ALIGN as int)) <= isize::MAX,
        ensures
            final(self).wf(),
            final(self).heap_start_spec() == old(self).heap_start_spec(),
            final(self).heap_end_spec() == old(self).heap_end_spec(),
            ({
                let (sz, al) = adjusted_layout(size as int, align as int);
                let s = old(self).free_blocks();
                match first_fit(s, sz, al) {
                    None => r == 0 && final(self).free_blocks() == s,
                    Some(i) => {
                        let b = s[i];
                        let st = fit_start(b, sz, al)->0;
                        &&& 0 <= i < s.len()
                        &&& r == st
                        &&& old(self).heap_start_spec() <= r
                        &&& r + sz <= old(self).heap_end_spec()
                        &&& (r as int) % al == 0
                        &&& b.start <= r
                        &&& r + sz <= block_end(b)
                        &&& final(self).free_blocks() == if r + sz < block_end(b) {
                            with_block(s.remove(i), r + sz, block_end(b) - (r + sz))
                        } else {
                            s.remove(i)
                        }
                        &&& disjoint_from_all(final(self).free_blocks(), r as int, sz)
                        &&& sum_sizes(final(self).free_blocks()) == sum_sizes(s) - (r + sz - b.start)
                        &&& r == allocation_start(s, sz, al)
                        &&& final(self).free_blocks() == free_after_allocation(s, sz, al)
                    },
                }
            }),
    {
        reveal(free_after_taking);
        let (sz, al) = Self::size_align(size, align);
        let ghost s = self.free@;
        let ghost lo = self.heap_start as int;
        let ghost hi = self.heap_end as int;
        proof {
            lemma_adjusted_align(align as int);
        }
        match self.find_free_block(sz, al) {
            Some((block, alloc_start)) => {
                let ghost i = first_fit(s, sz as int, al as int)->0;
                proof {
                    lemma_allocation(s, i, lo, hi, alloc_start as int, sz as int, al as int);
                }
                let alloc_end = alloc_start + sz;
                let excess_size = block.start + block.size - alloc_end;
                if excess_size > 0 {
                    self.add_free_block(alloc_end, excess_size);
                }
                alloc_start
            },
            None => 0,
        }
    }

    /// Free the memory at `ptr` that was allocated with `size` and `align`: the
    /// adjusted block is returned to the free list and merged with adjacent free
    /// blocks. The block must lie in the heap, be aligned for a block header, and
    /// overlap no free block.
    pub fn deallocate(&mut self, ptr: usize, size: usize, align: usize)
        requires
            old(self).wf(),
            is_pow2(align as int),
            align_up_spec(size as int, max_int(align as int, NODE_ALIGN as int)) <= isize::MAX,
            ptr % NODE_ALIGN == 0,
            old(self).heap_start_spec() <= ptr,
            ptr + adjusted_layout(size as int, align as int).0 <= old(self).heap_end_spec(),
            disjoint_from_all(old(self).free_blocks(), ptr as int, adjusted_layout(size as int, align as int).0),
        ensures
            final(self).wf(),
            final(self).heap_start_spec() == old(self).heap_start_spec(),
            final(self).heap_end_spec() == old(self).heap_end_spec(),
            final(self).free_blocks() == with_block(old(self).free_blocks(), ptr as int, adjusted_layout(size as int, align as int).0),
            sum_sizes(final(self).free_blocks()) == sum_sizes(old(self).free_blocks()) + adjusted_layout(size as int, align as int).0,
    {
        let (sz, _) = Self::size_align(size, align);
        self.add_free_block(ptr, sz);
    }

    /// Return the block `addr..addr + size` to the free list, in address order,
    /// merging it with adjacent free blocks. The block must be aligned for a
    /// header, large enough for one, inside the heap, and free of overlap with
    /// every free block. The number of free blocks grows by one, stays, or
    /// shrinks by one (when the block closes the gap between two free blocks).
    #[verifier::rlimit(40)]
    pub fn add_free_block(&mut self, addr: usize, size: usize)
        requires
            old(self).wf(),
            addr % NODE_ALIGN == 0,
            size >= NODE_SIZE,
            addr + size <= usize::MAX,
            old(self).heap_start_spec() <= addr,
            addr + size <= old(self).heap_end_spec(),
            disjoint_from_all(old(self).free_blocks(), addr as int, size as int),
        ensures
            final(self).wf(),
            final(self).heap_start_spec() == old(self).heap_start_spec(),
            final(self).heap_end_spec() == old(self).heap_end_spec(),
            final(self).free_blocks() == with_block(old(self).free_blocks(), addr as int, size as int),
            sum_sizes(final(self).free_blocks()) == sum_sizes(old(self).free_blocks()) + size,
            old(self).free_blocks().len() - 1 <= final(self).free_blocks().len() <= old(self).free_blocks().len() + 1,
            forall|a: int| #[trigger] is_free(final(self).free_blocks(), a) <==> is_free(old(self).free_blocks(), a)
                || addr <= a < addr + size,
    {
        proof {
            lemma_with_block_len(self.free@, addr as int, size as int);
            lemma_returned_bytes_are_free(self.free@, addr as int, size as int, self.heap_start as int, self.heap_end as int);
        }
        reveal(with_block);
        let ghost s = self.free@;
        let ghost lo = self.heap_start as int;
        let ghost hi = self.heap_end as int;
        let k = self.find_position(addr);
        let ghost b2 = joined_block(s, addr as int, size as int);
        let ghost rest = blocks_after(s, addr as int, size as int);
        proof {
            assert(placement_ok(s, addr as int, size as int, lo, hi));
            lemma_with_block(s, addr as int, size as int, lo, hi);
            lemma_after_part(s, addr as int, size as int, lo, hi);
        }
        let mut block = FreeBlock { start: addr, size };
        let len = self.free.len();
        let merge_next = k < len && addr + size == self.free[k].start;
        if merge_next {
            let next = self.free[k];
            block = FreeBlock { start: addr, size: size + next.size };
            let _ = self.free.remove(k);
        }
        proof {
            assert(block == b2);
            assert(self.free@ =~= s.subrange(0, k as int) + rest);
        }
        if k > 0 && self.free[k - 1].start + self.free[k - 1].size == addr {
            let prev = self.free[k - 1];
            proof {
                assert(prev == s[k - 1]);
            }
            self.free.set(k - 1, FreeBlock { start: prev.start, size: prev.size + block.size });
            proof {
                assert(self.free@ =~= s.subrange(0, k - 1).push(FreeBlock { start: prev.start, size: (prev.size + block.size) as usize }) + rest);
            }
        } else {
            self.free.insert(k, block);
            proof {
                assert(self.free@ =~= s.subrange(0, k as int).push(block) + rest);
            }
        }
    }
}

/// Whether `n` is a power of two.
pub open spec fn is_pow2(n: int) -> bool
    decreases n,
{
    if n <= 0 {
        false
    } else if n == 1 {
        true
    } else {
        n % 2 == 0 && is_pow2(n / 2)
    }
}

/// A power of two that is at least 8 is a multiple of 8.
proof fn lemma_pow2_mod8(n: int)
    requires
        is_pow2(n),
        n >= 8,
    ensures
        n % 8 == 0,
{
    let m = n / 2;
    assert(is_pow2(m) && m >= 4);
    let q = m / 2;
    assert(m % 2 == 0 && is_pow2(q) && q >= 2);
    assert(q % 2 == 0);
}

/// `a` rounded up to a multiple of `align`.
#[verifier::opaque]
pub open spec fn align_up_spec(a: int, align: int) -> int {
    if a % align == 0 {
        a
    } else {
        a + align - a % align
    }
}

/// The maximum of two integers.
pub open spec fn max_int(a: int, b: int) -> int {
    if a >= b { a } else { b }
}

/// The size and alignment actually used for a request: the alignment raised to
/// at least that of a block header, the size padded to a multiple of it and
/// raised to at least the size of a header, so that the memory can later hold
/// a free block header again.
pub open spec fn adjusted_layout(size: int, align: int) -> (int, int) {
    let al = max_int(align, NODE_ALIGN as int);
    (max_int(align_up_spec(size, al), NODE_SIZE as int), al)
}

/// Where an allocation of `size` bytes aligned to `align` would start inside
/// block `b`, if it fits: the allocation must end inside the block, and the
/// remainder after it must be empty or large enough for a free block header.
#[verifier::opaque]
pub open spec fn fit_start(b: FreeBlock, size: int, align: int) -> Option<int> {
    let start = align_up_spec(b.start as int, align);
    let end = start + size;
    if end > block_end(b) {
        None
    } else if block_end(b) - end > 0 && block_end(b) - end < NODE_SIZE {
        None
    } else {
        Some(start)
    }
}

/// When an allocation fits in a free block: it starts at the block's start
/// rounded up to the alignment, and it fits exactly when it ends inside the
/// block and leaves behind it either nothing or room for a free block header.
/// In particular a block of exactly the right size holds the request.
pub proof fn lemma_fit_rules(b: FreeBlock, size: int, align: int)
    ensures
        ({
            let st = align_up_spec(b.start as int, align);
            &&& st + size == block_end(b) ==> fit_start(b, size, align) == Some(st)
            &&& st + size + NODE_SIZE <= block_end(b) ==> fit_start(b, size, align) == Some(st)
            &&& st + size > block_end(b) ==> fit_start(b, size, align) is None
            &&& block_end(b) - NODE_SIZE < st + size < block_end(b) ==> fit_start(b, size, align) is None
        }),
{
    reveal(fit_start);
}

/// If some free block can hold an allocation (ending exactly at the block's
/// end, or leaving room for a header behind it), the allocation is placed:
/// `first_fit` finds the first such block.
pub proof fn lemma_allocation_found(s: Seq<FreeBlock>, size: int, align: int, i: int)
    requires
        0 <= i < s.len(),
        align_up_spec(s[i].start as int, align) + size == block_end(s[i])
            || align_up_spec(s[i].start as int, align) + size + NODE_SIZE <= block_end(s[i]),
    ensures
        first_fit(s, size, align) is Some,
        first_fit(s, size, align)->0 <= i,
{
    lemma_fit_rules(s[i], size, align);
    lemma_first_fitting_exists(s, size, align, i);
    reveal(first_fit);
    let f = first_fit(s, size, align)->0;
    if f > i {
        assert(fit_start(s[i], size, align) is None);
    }
}

/// The index of the first block in which the allocation fits.
#[verifier::opaque]
pub open spec fn first_fit(s: Seq<FreeBlock>, size: int, align: int) -> Option<int> {
    if exists|i: int| 0 <= i < s.len() && fit_start(#[trigger] s[i], size, align) is Some {
        Some(choose|i: int| 0 <= i < s.len() && fit_start(#[trigger] s[i], size, align) is Some
            && forall|j: int| 0 <= j < i ==> fit_start(#[trigger] s[j], size, align) is None)
    } else {
        None
    }
}

/// `a` rounded up to a multiple of `align`; `None` if that does not fit in a `usize`.
pub fn align_up(a: usize, align: usize) -> (r: Option<usize>)
    requires
        align > 0,
    ensures
        align_up_spec(a as int, align as int) <= usize::MAX ==> r == Some(align_up_spec(a as int, align as int) as usize),
        align_up_spec(a as int, align as int) > usize::MAX ==> r is None,
{
    reveal(align_up_spec);
    let rem = a % align;
    if rem == 0 {
        Some(a)
    } else {
        match a.checked_add(align - rem) {
            Some(v) => Some(v),
            None => None,
        }
    }
}

/// Sizes add up over concatenation.
pub proof fn lemma_sum_concat(a: Seq<FreeBlock>, b: Seq<FreeBlock>)
    ensures
        sum_sizes(a + b) == sum_sizes(a) + sum_sizes(b),
    decreases b.len(),
{
    if b.len() == 0 {
        assert(a + b =~= a);
    } else {
        assert((a + b).drop_last() =~= a + b.drop_last());
        lemma_sum_concat(a, b.drop_last());
    }
}

/// Sum of a one-element list.
proof fn lemma_sum_single(b: FreeBlock)
    ensures
        sum_sizes(seq![b]) == b.size,
{
    assert(seq![b].drop_last() =~= Seq::<FreeBlock>::empty());
    assert(sum_sizes(Seq::<FreeBlock>::empty()) == 0);
}

/// A list made of a well-formed part, one block after it, and a well-formed part
/// after that block is well formed.
proof fn lemma_three_part_wf(a: Seq<FreeBlock>, m: FreeBlock, b: Seq<FreeBlock>, lo: int, hi: int)
    requires
        free_list_wf(a, lo, hi),
        free_list_wf(b, lo, hi),
        free_list_wf(seq![m], lo, hi),
        forall|i: int| 0 <= i < a.len() ==> block_end(#[trigger] a[i]) < m.start,
        forall|i: int| 0 <= i < b.len() ==> block_end(m) < (#[trigger] b[i]).start,
    ensures
        free_list_wf(a.push(m) + b, lo, hi),
{
    let r = a.push(m) + b;
    assert(seq![m][0] == m);
    assert forall|i: int| 0 <= i < r.len() implies {
        &&& (#[trigger] r[i]).start % NODE_ALIGN == 0
        &&& r[i].size >= NODE_SIZE
        &&& lo <= r[i].start
        &&& block_end(r[i]) <= hi
    } by {
        if i < a.len() {
            assert(r[i] == a[i]);
        } else if i == a.len() {
            assert(r[i] == m);
        } else {
            assert(r[i] == b[i - a.len() - 1]);
        }
    }
    assert forall|i: int, j: int| 0 <= i < j < r.len() implies block_end(#[trigger] r[i]) < (#[trigger] r[j]).start by {
        if j < a.len() {
            assert(r[i] == a[i] && r[j] == a[j]);
        } else if j == a.len() {
            assert(r[i] == a[i] && r[j] == m);
        } else if i < a.len() {
            assert(r[i] == a[i] && r[j] == b[j - a.len() - 1]);
            assert(block_end(m) < b[j - a.len() - 1].start);
            assert(block_end(a[i]) < m.start);
        } else if i == a.len() {
            assert(r[i] == m && r[j] == b[j - a.len() - 1]);
        } else {
            assert(r[i] == b[i - a.len() - 1] && r[j] == b[j - a.len() - 1]);
        }
    }
}

/// A contiguous part of a well-formed list is well formed.
proof fn lemma_subrange_wf(s: Seq<FreeBlock>, i0: int, j0: int, lo: int, hi: int)
    requires
        free_list_wf(s, lo, hi),
        0 <= i0 <= j0 <= s.len(),
    ensures
        free_list_wf(s.subrange(i0, j0), lo, hi),
{
    let t = s.subrange(i0, j0);
    assert forall|i: int, j: int| 0 <= i < j < t.len() implies block_end(#[trigger] t[i]) < (#[trigger] t[j]).start by {
        assert(t[i] == s[i + i0] && t[j] == s[j + i0]);
    }
    assert forall|i: int| 0 <= i < t.len() implies {
        &&& (#[trigger] t[i]).start % NODE_ALIGN == 0
        &&& t[i].size >= NODE_SIZE
        &&& lo <= t[i].start
        &&& block_end(t[i]) <= hi
    } by {
        assert(t[i] == s[i + i0]);
    }
}

/// The facts about a returned block that follow from its position in the list.
pub open spec fn placement_ok(s: Seq<FreeBlock>, addr: int, size: int, lo: int, hi: int) -> bool {
    &&& free_list_wf(s, lo, hi)
    &&& 0 <= lo
    &&& addr % NODE_ALIGN as int == 0
    &&& size >= NODE_SIZE
    &&& lo <= addr
    &&& addr + size <= hi
    &&& hi <= usize::MAX
    &&& disjoint_from_all(s, addr, size)
}

/// Where an allocation of the adjusted size `sz` and alignment `al` starts:
/// inside the first free block in which it fits.
pub open spec fn allocation_start(s: Seq<FreeBlock>, sz: int, al: int) -> int {
    fit_start(s[first_fit(s, sz, al)->0], sz, al)->0
}

/// The free list after the allocation ending at `end` was taken from the front
/// of block `i`: the block leaves the list, and its part behind `end`, if any,
/// is returned to it.
#[verifier::opaque]
pub open spec fn free_after_taking(s: Seq<FreeBlock>, i: int, end: int) -> Seq<FreeBlock> {
    if end < block_end(s[i]) {
        with_block(s.remove(i), end, block_end(s[i]) - end)
    } else {
        s.remove(i)
    }
}

/// The free list after an allocation of the adjusted size `sz` and alignment
/// `al`, taken from the first free block in which it fits.
pub open spec fn free_after_allocation(s: Seq<FreeBlock>, sz: int, al: int) -> Seq<FreeBlock> {
    free_after_taking(s, first_fit(s, sz, al)->0, allocation_start(s, sz, al) + sz)
}

/// `lower_index` is the first position whose block starts at or after `addr`.
proof fn lemma_lower_index_is(t: Seq<FreeBlock>, addr: int, k: int)
    requires
        0 <= k <= t.len(),
        forall|j: int| 0 <= j < k ==> (#[trigger] t[j]).start < addr,
        k < t.len() ==> t[k].start >= addr,
    ensures
        lower_index(t, addr) == k,
    decreases k,
{
    if k > 0 {
        let u = t.drop_first();
        assert forall|j: int| 0 <= j < k - 1 implies (#[trigger] u[j]).start < addr by {
            assert(u[j] == t[j + 1]);
        }
        if k - 1 < u.len() {
            assert(u[k - 1] == t[k]);
        }
        lemma_lower_index_is(u, addr, k - 1);
        assert(t[0].start < addr);
    }
}

/// Returning the tail `c` of block `i` to the list without that block puts `c`
/// in the block's place: it touches neither neighbour.
proof fn lemma_return_tail(s: Seq<FreeBlock>, i: int, c: FreeBlock, lo: int, hi: int)
    requires
        free_list_wf(s, lo, hi),
        0 <= i < s.len(),
        s[i].start <= c.start,
        block_end(c) == block_end(s[i]),
    ensures
        with_block(s.remove(i), c.start as int, c.size as int) == s.update(i, c),
{
    reveal(with_block);
    let t = s.remove(i);
    assert forall|j: int| 0 <= j < i implies (#[trigger] t[j]).start < c.start by {
        assert(t[j] == s[j]);
        assert(block_end(s[j]) < s[i].start);
    }
    if i < t.len() {
        assert(t[i] == s[i + 1]);
        assert(block_end(s[i]) < s[i + 1].start);
    }
    lemma_lower_index_is(t, c.start as int, i);
    if i > 0 {
        assert(t[i - 1] == s[i - 1]);
        assert(block_end(s[i - 1]) < s[i].start);
    }
    assert(!joins_next(t, c.start as int, c.size as int));
    assert(joined_block(t, c.start as int, c.size as int) == c);
    assert(t.subrange(0, i).push(c) + t.subrange(i, t.len() as int) =~= s.update(i, c));
}

/// Putting back the front part `r..r + sz` of block `i`, whose tail stands in its
/// place, joins the two into the original block.
proof fn lemma_rejoin_front(s: Seq<FreeBlock>, i: int, sz: int, lo: int, hi: int)
    requires
        free_list_wf(s, lo, hi),
        0 <= i < s.len(),
        0 < sz,
        hi <= usize::MAX,
        s[i].start + sz < block_end(s[i]),
    ensures
        ({
            let r = s[i].start as int;
            let c = FreeBlock { start: (r + sz) as usize, size: (block_end(s[i]) - (r + sz)) as usize };
            with_block(s.update(i, c), r, sz) == s
        }),
{
    reveal(with_block);
    let b = s[i];
    let r = b.start as int;
    let c = FreeBlock { start: (r + sz) as usize, size: (block_end(b) - (r + sz)) as usize };
    let after = s.update(i, c);
    assert forall|j: int| 0 <= j < i implies (#[trigger] after[j]).start < r by {
        assert(after[j] == s[j]);
        assert(block_end(s[j]) < s[i].start);
    }
    lemma_lower_index_is(after, r, i);
    assert(joins_next(after, r, sz));
    assert(joined_block(after, r, sz) == b);
    if i > 0 {
        assert(after[i - 1] == s[i - 1]);
        assert(block_end(s[i - 1]) < s[i].start);
    }
    assert(after.subrange(0, i).push(b) + after.subrange(i + 1, after.len() as int) =~= s);
}

/// Taking `sz` bytes from the front of block `i` and putting them back gives
/// the original list.
proof fn lemma_take_and_return(s: Seq<FreeBlock>, i: int, sz: int, lo: int, hi: int)
    requires
        free_list_wf(s, lo, hi),
        hi <= usize::MAX,
        0 <= i < s.len(),
        0 < sz,
        s[i].start + sz <= block_end(s[i]),
    ensures
        with_block(free_after_taking(s, i, s[i].start + sz), s[i].start as int, sz) == s,
{
    reveal(free_after_taking);
    let b = s[i];
    let end = b.start + sz;
    if end < block_end(b) {
        let c = FreeBlock { start: end as usize, size: (block_end(b) - end) as usize };
        lemma_return_tail(s, i, c, lo, hi);
        lemma_rejoin_front(s, i, sz, lo, hi);
    } else {
        lemma_return_tail(s, i, b, lo, hi);
        assert(s.update(i, b) =~= s);
    }
}

/// The block that `first_fit` names is in the list and holds the allocation.
proof fn lemma_first_fit_found(s: Seq<FreeBlock>, sz: int, al: int)
    requires
        first_fit(s, sz, al) is Some,
    ensures
        0 <= first_fit(s, sz, al)->0 < s.len(),
        fit_start(s[first_fit(s, sz, al)->0], sz, al) is Some,
{
    reveal(first_fit);
    let k = choose|k: int| 0 <= k < s.len() && fit_start(#[trigger] s[k], sz, al) is Some;
    lemma_first_fitting_exists(s, sz, al, k);
}

/// If some block holds the allocation, a first such block exists.
proof fn lemma_first_fitting_exists(s: Seq<FreeBlock>, sz: int, al: int, k: int)
    requires
        0 <= k < s.len(),
        fit_start(s[k], sz, al) is Some,
    ensures
        exists|i: int| 0 <= i < s.len() && fit_start(#[trigger] s[i], sz, al) is Some
            && forall|j: int| 0 <= j < i ==> fit_start(#[trigger] s[j], sz, al) is None,
    decreases k,
{
    if exists|j: int| 0 <= j < k && fit_start(#[trigger] s[j], sz, al) is Some {
        let j = choose|j: int| 0 <= j < k && fit_start(#[trigger] s[j], sz, al) is Some;
        lemma_first_fitting_exists(s, sz, al, j);
    } else {
        assert(forall|j: int| 0 <= j < k ==> fit_start(#[trigger] s[j], sz, al) is None);
    }
}

/// In a block aligned for a header, an allocation aligned to a header starts
/// at the block's start.
proof fn lemma_fit_at_block_start(b: FreeBlock, sz: int)
    requires
        b.start % 8 == 0,
        fit_start(b, sz, NODE_ALIGN as int) is Some,
    ensures
        fit_start(b, sz, NODE_ALIGN as int)->0 == b.start,
        b.start + sz <= block_end(b),
{
    reveal(fit_start);
    reveal(align_up_spec);
}

/// Where an allocation aligned for a header starts in block `i`, and what
/// freeing it gives back.
proof fn lemma_undo_aligned(s: Seq<FreeBlock>, lo: int, hi: int, sz: int, i: int)
    requires
        free_list_wf(s, lo, hi),
        hi <= usize::MAX,
        sz >= NODE_SIZE,
        0 <= i < s.len(),
        fit_start(s[i], sz, 8) is Some,
    ensures
        fit_start(s[i], sz, 8)->0 == s[i].start,
        with_block(free_after_taking(s, i, fit_start(s[i], sz, 8)->0 + sz), s[i].start as int, sz) == s,
{
    let b = s[i];
    assert(b.start % 8 == 0);
    lemma_fit_at_block_start(b, sz);
    lemma_take_and_return(s, i, sz, lo, hi);
}

/// Freeing what was just allocated, with an alignment of at most 8 bytes,
/// restores the free list exactly, and with it every heap statistic. (With a
/// larger alignment the padding in front of the allocation stays unreturned.)
pub proof fn lemma_deallocate_undoes_allocate(s: Seq<FreeBlock>, lo: int, hi: int, size: int, align: int)
    requires
        free_list_wf(s, lo, hi),
        hi <= usize::MAX,
        align <= NODE_ALIGN,
        first_fit(s, adjusted_layout(size, align).0, adjusted_layout(size, align).1) is Some,
    ensures
        adjusted_layout(size, align).1 == NODE_ALIGN,
        allocation_start(s, adjusted_layout(size, align).0, NODE_ALIGN as int)
            == s[first_fit(s, adjusted_layout(size, align).0, NODE_ALIGN as int)->0].start,
        with_block(
            free_after_allocation(s, adjusted_layout(size, align).0, NODE_ALIGN as int),
            allocation_start(s, adjusted_layout(size, align).0, NODE_ALIGN as int),
            adjusted_layout(size, align).0,
        ) == s,
{
    let sz = adjusted_layout(size, align).0;
    let i = first_fit(s, sz, 8)->0;
    lemma_first_fit_found(s, sz, 8);
    lemma_undo_aligned(s, lo, hi, sz, i);
    let r = allocation_start(s, sz, 8);
    assert(r == fit_start(s[i], sz, 8)->0);
    assert(free_after_allocation(s, sz, 8) == free_after_taking(s, i, r + sz));
}

/// `lower_index` is the position of the first block that starts at or after `addr`.
proof fn lemma_lower_index(s: Seq<FreeBlock>, addr: int)
    ensures
        lower_index(s, addr) <= s.len(),
        forall|i: int| 0 <= i < lower_index(s, addr) ==> (#[trigger] s[i]).start < addr,
        lower_index(s, addr) < s.len() ==> s[lower_index(s, addr) as int].start >= addr,
    decreases s.len(),
{
    if s.len() > 0 && s[0].start < addr {
        let t = s.drop_first();
        lemma_lower_index(t, addr);
        assert forall|i: int| 0 <= i < lower_index(s, addr) implies (#[trigger] s[i]).start < addr by {
            if i > 0 {
                assert(s[i] == t[i - 1]);
            }
        }
        if lower_index(s, addr) < s.len() {
            assert(s[lower_index(s, addr) as int] == t[lower_index(t, addr) as int]);
        }
    }
}

/// The block, joined with its successor if they touch, lies before all later blocks.
proof fn lemma_after_part(s: Seq<FreeBlock>, addr: int, size: int, lo: int, hi: int)
    requires
        placement_ok(s, addr, size, lo, hi),
    ensures
        free_list_wf(blocks_after(s, addr, size), lo, hi),
        free_list_wf(seq![joined_block(s, addr, size)], lo, hi),
        forall|i: int| 0 <= i < blocks_after(s, addr, size).len() ==> block_end(joined_block(s, addr, size))
            < (#[trigger] blocks_after(s, addr, size)[i]).start,
        sum_sizes(blocks_after(s, addr, size)) + joined_block(s, addr, size).size == sum_sizes(
            s.subrange(lower_index(s, addr) as int, s.len() as int),
        ) + size,
        joined_block(s, addr, size).start == addr,
        block_end(joined_block(s, addr, size)) <= hi,
{
    lemma_lower_index(s, addr);
    let k = lower_index(s, addr) as int;
    let len = s.len() as int;
    let b2 = joined_block(s, addr, size);
    let rest = blocks_after(s, addr, size);
    assert forall|i: int| k <= i < len implies addr + size <= (#[trigger] s[i]).start by {
        if i > k {
            assert(block_end(s[k]) < s[i].start);
        }
    }
    assert(seq![b2][0] == b2);
    if joins_next(s, addr, size) {
        assert(block_end(s[k]) <= hi);
        assert(b2.start == addr && b2.size == size + s[k].size);
        assert(s.subrange(k, len) =~= seq![s[k]] + s.subrange(k + 1, len));
        lemma_sum_concat(seq![s[k]], s.subrange(k + 1, len));
        lemma_sum_single(s[k]);
        lemma_subrange_wf(s, k + 1, len, lo, hi);
        assert forall|i: int| 0 <= i < rest.len() implies block_end(b2) < (#[trigger] rest[i]).start by {
            assert(rest[i] == s[i + k + 1]);
            assert(block_end(s[k]) < s[i + k + 1].start);
        }
    } else {
        assert(b2.start == addr && b2.size == size);
        lemma_subrange_wf(s, k, len, lo, hi);
        assert forall|i: int| 0 <= i < rest.len() implies block_end(b2) < (#[trigger] rest[i]).start by {
            assert(rest[i] == s[i + k]);
            assert(addr + size <= s[i + k].start);
            if i > 0 {
                assert(block_end(s[k]) < s[i + k].start);
            } else {
                assert(addr + size != s[k].start);
            }
        }
    }
}

/// Returning a block keeps the free list well formed and adds its size to the
/// free memory.
#[verifier::rlimit(30)]
proof fn lemma_with_block(s: Seq<FreeBlock>, addr: int, size: int, lo: int, hi: int)
    requires
        placement_ok(s, addr, size, lo, hi),
    ensures
        free_list_wf(with_block(s, addr, size), lo, hi),
        sum_sizes(with_block(s, addr, size)) == sum_sizes(s) + size,
{
    reveal(with_block);
    lemma_lower_index(s, addr);
    let k = lower_index(s, addr) as int;
    let len = s.len() as int;
    let b2 = joined_block(s, addr, size);
    let rest = blocks_after(s, addr, size);
    lemma_after_part(s, addr, size, lo, hi);
    lemma_sum_concat(s.subrange(0, k), s.subrange(k, len));
    assert(s.subrange(0, k) + s.subrange(k, len) =~= s);
    assert forall|i: int| 0 <= i < k implies block_end(#[trigger] s[i]) <= addr by {}
    if k > 0 && block_end(s[k - 1]) == addr {
        let prev = s[k - 1];
        let merged = FreeBlock { start: prev.start, size: (prev.size + b2.size) as usize };
        let head = s.subrange(0, k - 1);
        lemma_subrange_wf(s, 0, k - 1, lo, hi);
        assert(s.subrange(0, k) =~= head + seq![prev]);
        assert(head.push(merged) =~= head + seq![merged]);
        lemma_sum_concat(head, seq![prev]);
        lemma_sum_concat(head, seq![merged]);
        lemma_sum_single(prev);
        lemma_sum_single(merged);
        lemma_sum_concat(head.push(merged), rest);
        assert forall|i: int| 0 <= i < head.len() implies block_end(#[trigger] head[i]) < merged.start by {
            assert(head[i] == s[i]);
        }
        assert(seq![merged][0] == merged);
        assert(seq![b2][0] == b2);
        lemma_three_part_wf(head, merged, rest, lo, hi);
    } else {
        let head = s.subrange(0, k);
        lemma_subrange_wf(s, 0, k, lo, hi);
        assert(head.push(b2) =~= head + seq![b2]);
        lemma_sum_concat(head, seq![b2]);
        lemma_sum_single(b2);
        lemma_sum_concat(head.push(b2), rest);
        assert forall|i: int| 0 <= i < head.len() implies block_end(#[trigger] head[i]) < b2.start by {
            assert(head[i] == s[i]);
            if i < k - 1 {
                assert(block_end(s[i]) < s[k - 1].start);
            }
        }
        lemma_three_part_wf(head, b2, rest, lo, hi);
    }
}

/// Whether address `a` lies in one of the blocks.
pub open spec fn is_free(s: Seq<FreeBlock>, a: int) -> bool {
    exists|i: int| 0 <= i < s.len() && (#[trigger] s[i]).start <= a < block_end(s[i])
}

/// The free addresses after a returned block is merged into its predecessor.
proof fn lemma_free_after_merge(s: Seq<FreeBlock>, addr: int, size: int, lo: int, hi: int, a: int)
    requires
        placement_ok(s, addr, size, lo, hi),
        lower_index(s, addr) > 0,
        block_end(s[lower_index(s, addr) - 1]) == addr,
    ensures
        is_free(with_block(s, addr, size), a) <==> is_free(s, a) || addr <= a < addr + size,
{
    reveal(with_block);
    lemma_lower_index(s, addr);
    let k = lower_index(s, addr) as int;
    let len = s.len() as int;
    let b2 = joined_block(s, addr, size);
    let j = joins_next(s, addr, size);
    let off: int = if j { k + 1 } else { k };
    let rest = blocks_after(s, addr, size);
    assert(rest =~= s.subrange(off, len));
    let merged = FreeBlock { start: s[k - 1].start, size: (s[k - 1].size + b2.size) as usize };
    let r = s.subrange(0, k - 1).push(merged) + rest;
    assert(with_block(s, addr, size) == r);
    assert(block_end(s[k - 1]) <= hi);
    if is_free(r, a) {
        let i = choose|i: int| 0 <= i < r.len() && (#[trigger] r[i]).start <= a < block_end(r[i]);
        if i < k - 1 {
            assert(r[i] == s[i]);
        } else if i == k - 1 {
            if a >= addr + size {
                assert(s[k].start <= a < block_end(s[k]));
            } else if a < addr {
                assert(s[k - 1].start <= a < block_end(s[k - 1]));
            }
        } else {
            assert(r[i] == s[i - k + off]);
        }
    }
    if is_free(s, a) {
        let i = choose|i: int| 0 <= i < s.len() && (#[trigger] s[i]).start <= a < block_end(s[i]);
        if i < k - 1 {
            assert(r[i] == s[i]);
        } else if i == k - 1 || (j && i == k) {
            assert(r[k - 1] == merged);
        } else {
            assert(r[i - off + k] == s[i]);
        }
    }
    if addr <= a < addr + size {
        assert(r[k - 1] == merged);
    }
}

/// The free addresses after a returned block is inserted on its own or
/// merged with its successor only.
proof fn lemma_free_after_insert(s: Seq<FreeBlock>, addr: int, size: int, lo: int, hi: int, a: int)
    requires
        placement_ok(s, addr, size, lo, hi),
        !(lower_index(s, addr) > 0 && block_end(s[lower_index(s, addr) - 1]) == addr),
    ensures
        is_free(with_block(s, addr, size), a) <==> is_free(s, a) || addr <= a < addr + size,
{
    reveal(with_block);
    lemma_lower_index(s, addr);
    let k = lower_index(s, addr) as int;
    let len = s.len() as int;
    let b2 = joined_block(s, addr, size);
    let j = joins_next(s, addr, size);
    let off: int = if j { k + 1 } else { k };
    let rest = blocks_after(s, addr, size);
    assert(rest =~= s.subrange(off, len));
    let r = s.subrange(0, k).push(b2) + rest;
    assert(with_block(s, addr, size) == r);
    if is_free(r, a) {
        let i = choose|i: int| 0 <= i < r.len() && (#[trigger] r[i]).start <= a < block_end(r[i]);
        if i < k {
            assert(r[i] == s[i]);
        } else if i == k {
            if a >= addr + size {
                assert(s[k].start <= a < block_end(s[k]));
            }
        } else {
            assert(r[i] == s[i - k - 1 + off]);
        }
    }
    if is_free(s, a) {
        let i = choose|i: int| 0 <= i < s.len() && (#[trigger] s[i]).start <= a < block_end(s[i]);
        if i < k {
            assert(r[i] == s[i]);
        } else if j && i == k {
            assert(r[k] == b2);
        } else {
            assert(r[i - off + k + 1] == s[i]);
        }
    }
    if addr <= a < addr + size {
        assert(r[k] == b2);
    }
}

/// Returning the block `addr..addr + size` to the free list makes exactly its
/// addresses free in addition to those that were free, and keeps the list
/// ordered by address and coalesced (see `free_list_wf`).
pub proof fn lemma_returned_bytes_are_free(s: Seq<FreeBlock>, addr: int, size: int, lo: int, hi: int)
    requires
        placement_ok(s, addr, size, lo, hi),
    ensures
        free_list_wf(with_block(s, addr, size), lo, hi),
        forall|a: int| #[trigger] is_free(with_block(s, addr, size), a) <==> is_free(s, a) || addr <= a < addr + size,
{
    lemma_with_block(s, addr, size, lo, hi);
    let k = lower_index(s, addr) as int;
    assert forall|a: int| #[trigger] is_free(with_block(s, addr, size), a) <==> is_free(s, a) || addr <= a < addr
        + size by {
        if k > 0 && block_end(s[k - 1]) == addr {
            lemma_free_after_merge(s, addr, size, lo, hi, a);
        } else {
            lemma_free_after_insert(s, addr, size, lo, hi, a);
        }
    }
}

/// The number of blocks that start below `addr`, i.e. the position at which a
/// block starting at `addr` belongs in an address-ordered list.
pub open spec fn lower_index(s: Seq<FreeBlock>, addr: int) -> nat
    decreases s.len(),
{
    if s.len() == 0 || s[0].start >= addr {
        0
    } else {
        1 + lower_index(s.drop_first(), addr)
    }
}

/// The free list after the block `addr..addr + size` was returned to it: the
/// block is inserted in address order, merged with its successor if it ends
/// where the successor starts, and merged into its predecessor if that ends
/// where the block starts.
#[verifier::opaque]
pub open spec fn with_block(s: Seq<FreeBlock>, addr: int, size: int) -> Seq<FreeBlock> {
    let k = lower_index(s, addr) as int;
    let b2 = joined_block(s, addr, size);
    let rest = blocks_after(s, addr, size);
    if k > 0 && block_end(s[k - 1]) == addr {
        s.subrange(0, k - 1).push(FreeBlock { start: s[k - 1].start, size: (s[k - 1].size + b2.size) as usize }) + rest
    } else {
        s.subrange(0, k).push(b2) + rest
    }
}

/// Returning a block changes the number of free blocks by at most one.
proof fn lemma_with_block_len(s: Seq<FreeBlock>, addr: int, size: int)
    ensures
        s.len() - 1 <= with_block(s, addr, size).len() <= s.len() + 1,
{
    reveal(with_block);
    lemma_lower_index(s, addr);
}

/// Whether the returned block ends where the next free block starts.
pub open spec fn joins_next(s: Seq<FreeBlock>, addr: int, size: int) -> bool {
    let k = lower_index(s, addr) as int;
    k < s.len() && addr + size == s[k].start
}

/// The returned block, merged with the next free block if they touch.
pub open spec fn joined_block(s: Seq<FreeBlock>, addr: int, size: int) -> FreeBlock {
    let k = lower_index(s, addr) as int;
    if joins_next(s, addr, size) {
        FreeBlock { start: addr as usize, size: (size + s[k].size) as usize }
    } else {
        FreeBlock { start: addr as usize, size: size as usize }
    }
}

/// The free blocks after the returned block.
pub open spec fn blocks_after(s: Seq<FreeBlock>, addr: int, size: int) -> Seq<FreeBlock> {
    let k = lower_index(s, addr) as int;
    if joins_next(s, addr, size) { s.subrange(k + 1, s.len() as int) } else { s.subrange(k, s.len() as int) }
}

/// The range `addr..addr + size` overlaps none of the blocks.
pub open spec fn disjoint_from_all(s: Seq<FreeBlock>, addr: int, size: int) -> bool {
    forall|i: int| 0 <= i < s.len() ==> block_end(#[trigger] s[i]) <= addr || addr + size <= s[i].start
}

proof fn lemma_lower_index_step(s: Seq<FreeBlock>, addr: int, k: int)
    requires
        0 <= k < s.len(),
        s[k].start < addr,
    ensures
        lower_index(s.subrange(k, s.len() as int), addr) == 1 + lower_index(s.subrange(k + 1, s.len() as int), addr),
{
    assert(s.subrange(k, s.len() as int).drop_first() =~= s.subrange(k + 1, s.len() as int));
}

/// Removing a block takes its size away from the free memory.
proof fn lemma_sum_remove(s: Seq<FreeBlock>, i: int)
    requires
        0 <= i < s.len(),
    ensures
        sum_sizes(s.remove(i)) == sum_sizes(s) - s[i].size,
{
    let a = s.subrange(0, i);
    let b = s.subrange(i + 1, s.len() as int);
    assert(s =~= a + (seq![s[i]] + b));
    assert(s.remove(i) =~= a + b);
    lemma_sum_concat(a, seq![s[i]] + b);
    lemma_sum_concat(seq![s[i]], b);
    lemma_sum_single(s[i]);
    lemma_sum_concat(a, b);
}

/// Rounding up to an alignment gives the multiple of the alignment that is at
/// least the address and less than one alignment above it (the only such one).
pub proof fn lemma_align_up(a: int, al: int)
    requires
        a >= 0,
        al > 0,
    ensures
        align_up_spec(a, al) % al == 0,
        a <= align_up_spec(a, al) < a + al,
{
    reveal(align_up_spec);
    vstd::arithmetic::div_mod::lemma_fundamental_div_mod(a, al);
    vstd::arithmetic::div_mod::lemma_mod_bound(a, al);
    if a % al != 0 {
        let q = a / al;
        assert(align_up_spec(a, al) == al * (q + 1)) by (nonlinear_arith)
            requires a == al * q + a % al, align_up_spec(a, al) == a + al - a % al;
        vstd::arithmetic::div_mod::lemma_mod_multiples_basic(q + 1, al);
        assert((q + 1) * al == al * (q + 1)) by (nonlinear_arith);
    }
}

/// A range that overlaps neither the free blocks nor a returned block overlaps
/// no block of the free list after the return.
proof fn lemma_with_block_disjoint(s: Seq<FreeBlock>, addr: int, size: int, lo: int, hi: int, r0: int, len: int)
    requires
        placement_ok(s, addr, size, lo, hi),
        len > 0,
        disjoint_from_all(s, r0, len),
        addr + size <= r0 || r0 + len <= addr,
    ensures
        disjoint_from_all(with_block(s, addr, size), r0, len),
{
    reveal(with_block);
    lemma_lower_index(s, addr);
    let k = lower_index(s, addr) as int;
    let n = s.len() as int;
    let b2 = joined_block(s, addr, size);
    let rest = blocks_after(s, addr, size);
    lemma_after_part(s, addr, size, lo, hi);
    assert(block_end(b2) <= r0 || r0 + len <= b2.start) by {
        if joins_next(s, addr, size) {
            assert(block_end(s[k]) <= r0 || r0 + len <= s[k].start);
        }
    }
    assert forall|i: int| 0 <= i < rest.len() implies block_end(#[trigger] rest[i]) <= r0 || r0 + len <= rest[i].start by {
        if joins_next(s, addr, size) {
            assert(rest[i] == s[i + k + 1]);
        } else {
            assert(rest[i] == s[i + k]);
        }
    }
    let r = with_block(s, addr, size);
    if k > 0 && block_end(s[k - 1]) == addr {
        let prev = s[k - 1];
        let merged = FreeBlock { start: prev.start, size: (prev.size + b2.size) as usize };
        let head = s.subrange(0, k - 1);
        assert(block_end(prev) <= r0 || r0 + len <= prev.start);
        assert(block_end(merged) <= r0 || r0 + len <= merged.start);
        assert forall|i: int| 0 <= i < r.len() implies block_end(#[trigger] r[i]) <= r0 || r0 + len <= r[i].start by {
            if i < k - 1 {
                assert(r[i] == s[i]);
            } else if i == k - 1 {
                assert(r[i] == merged);
            } else {
                assert(r[i] == rest[i - k]);
            }
        }
    } else {
        assert forall|i: int| 0 <= i < r.len() implies block_end(#[trigger] r[i]) <= r0 || r0 + len <= r[i].start by {
            if i < k {
                assert(r[i] == s[i]);
            } else if i == k {
                assert(r[i] == b2);
            } else {
                assert(r[i] == rest[i - k - 1]);
            }
        }
    }
}

/// A range inside one block of a free list overlaps no other block of it.
proof fn lemma_inside_block_disjoint(s: Seq<FreeBlock>, i: int, lo: int, hi: int, a: int, len: int)
    requires
        free_list_wf(s, lo, hi),
        0 <= i < s.len(),
        s[i].start <= a,
        a + len <= block_end(s[i]),
    ensures
        disjoint_from_all(s.remove(i), a, len),
{
    let rest = s.remove(i);
    assert forall|j: int| 0 <= j < rest.len() implies block_end(#[trigger] rest[j]) <= a || a + len <= rest[j].start by {
        let j2 = if j < i { j } else { j + 1 };
        assert(rest[j] == s[j2]);
        if j2 < i {
            assert(block_end(s[j2]) < s[i].start);
        } else {
            assert(block_end(s[i]) < s[j2].start);
        }
    }
}

/// Taking an allocation out of block `i`: the allocation lies inside the block
/// and overlaps no other block; the rest of the block behind it can go back to
/// the free list without overlapping the allocation.
#[verifier::rlimit(30)]
proof fn lemma_allocation(s: Seq<FreeBlock>, i: int, lo: int, hi: int, st: int, sz: int, al: int)
    requires
        free_list_wf(s, lo, hi),
        0 <= lo,
        hi <= usize::MAX,
        0 <= i < s.len(),
        fit_start(s[i], sz, al) == Some(st),
        al > 0,
        al % 8 == 0,
        sz % 8 == 0,
        sz >= NODE_SIZE,
    ensures
        st % al == 0,
        s[i].start <= st,
        st + sz <= block_end(s[i]),
        disjoint_from_all(s.remove(i), st, sz),
        free_list_wf(s.remove(i), lo, hi),
        sum_sizes(s.remove(i)) == sum_sizes(s) - s[i].size,
        st + sz < block_end(s[i]) ==> {
            let ex = block_end(s[i]) - (st + sz);
            &&& placement_ok(s.remove(i), st + sz, ex, lo, hi)
            &&& disjoint_from_all(with_block(s.remove(i), st + sz, ex), st, sz)
        },
{
    reveal(fit_start);
    lemma_align_up(s[i].start as int, al);
    lemma_sum_remove(s, i);
    lemma_remove_wf(s, i, lo, hi);
    lemma_inside_block_disjoint(s, i, lo, hi, st, sz);
    if st + sz < block_end(s[i]) {
        let ex = block_end(s[i]) - (st + sz);
        lemma_multiple_of_8(st, al);
        lemma_inside_block_disjoint(s, i, lo, hi, st + sz, ex);
        assert(placement_ok(s.remove(i), st + sz, ex, lo, hi));
        lemma_with_block_disjoint(s.remove(i), st + sz, ex, lo, hi, st, sz);
    }
}

/// The adjusted alignment is a positive multiple of 8.
proof fn lemma_adjusted_align(align: int)
    requires
        is_pow2(align),
    ensures
        max_int(align, NODE_ALIGN as int) % 8 == 0,
        max_int(align, NODE_ALIGN as int) >= 8,
{
    if align >= 8 {
        lemma_pow2_mod8(align);
    }
}

/// A multiple of a multiple of 8 is a multiple of 8.
proof fn lemma_multiple_of_8(x: int, al: int)
    requires
        x >= 0,
        al > 0,
        x % al == 0,
        al % 8 == 0,
    ensures
        x % 8 == 0,
{
    vstd::arithmetic::div_mod::lemma_fundamental_div_mod(x, al);
    vstd::arithmetic::div_mod::lemma_fundamental_div_mod(al, 8);
    let q = x / al;
    let p = al / 8;
    assert(x == 8 * (p * q)) by (nonlinear_arith)
        requires x == al * q + 0, al == 8 * p + 0;
    vstd::arithmetic::div_mod::lemma_mod_multiples_basic(p * q, 8);
    assert((p * q) * 8 == 8 * (p * q)) by (nonlinear_arith);
}

/// Removing a block keeps a free list well formed.
proof fn lemma_remove_wf(s: Seq<FreeBlock>, i: int, lo: int, hi: int)
    requires
        free_list_wf(s, lo, hi),
        0 <= i < s.len(),
    ensures
        free_list_wf(s.remove(i), lo, hi),
{
    let t = s.remove(i);
    assert forall|a: int, b: int| 0 <= a < b < t.len() implies block_end(#[trigger] t[a]) < (#[trigger] t[b]).start by {
        let a2 = if a < i { a } else { a + 1 };
        let b2 = if b < i { b } else { b + 1 };
        assert(t[a] == s[a2] && t[b] == s[b2]);
    }
    assert forall|a: int| 0 <= a < t.len() implies {
        &&& (#[trigger] t[a]).start % NODE_ALIGN == 0
        &&& t[a].size >= NODE_SIZE
        &&& lo <= t[a].start
        &&& block_end(t[a]) <= hi
    } by {
        let a2 = if a < i { a } else { a + 1 };
        assert(t[a] == s[a2]);
    }
}

/// A prefix of a well-formed free list adds up to at most the heap size.
proof fn lemma_sum_prefix(s: Seq<FreeBlock>, n: int, lo: int, hi: int)
    requires
        0 <= n <= s.len(),
        lo <= hi,
        free_list_wf(s, lo, hi),
    ensures
        0 <= sum_sizes(s.take(n)) <= hi - lo,
{
    let t = s.take(n);
    assert forall|i: int, j: int| 0 <= i < j < t.len() implies block_end(#[trigger] t[i]) < (#[trigger] t[j]).start by {
        assert(t[i] == s[i] && t[j] == s[j]);
    }
    assert forall|i: int| 0 <= i < t.len() implies lo <= (#[trigger] t[i]).start && block_end(t[i]) <= hi by {
        assert(t[i] == s[i]);
    }
    lemma_sum_bounded(t, lo, hi);
}

} // verus!
