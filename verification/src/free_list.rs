//! The intrusive free-list allocator.
//!
//! A general-purpose heap manager over a fixed address range `[low, high)`.
//! Free memory is described by a singly linked list of nodes; on hardware a
//! node is written in place inside the very block it describes, so a block
//! must always be large enough and aligned well enough to host one node
//! header.  This crate models each node as a record carrying its own
//! address, which keeps the search, split and insert logic — and its
//! invariants — independent of real memory.
//!
//! Allocation is first-fit: the search walks the list from the head and
//! takes the first node the request fits into, re-inserting any tail slack
//! that could itself host a node.  Slack too small for a node, and the
//! padding in front of an over-aligned allocation, are abandoned — an
//! accepted fragmentation trade-off.  Freed blocks are pushed on the head
//! of the list and never coalesced with their neighbours.

use vstd::prelude::*;

verus! {

use crate::block::{
    Block,
    lemma_covers_disjoint,
    lemma_disjoint_blocks_fit,
    lemma_pairwise_disjoint_parts,
    lemma_pairwise_disjoint_prepend,
    lemma_pairwise_disjoint_push,
    lemma_pairwise_disjoint_remove,
    lemma_sum_sizes_member_bound,
    lemma_sum_sizes_push,
    lemma_sum_sizes_remove,
    pairwise_disjoint,
    sum_sizes,
};
use crate::layout::{
    checked_align_up,
    is_pow2,
    lemma_align_up,
    lemma_mod_add_zero,
    lemma_mod_sub_zero,
    lemma_mod_transitive,
    lemma_pow2_divides,
    lemma_pow2_pos,
    spec_align_up,
};

/// Bytes one free-list node header occupies in memory: the block size and
/// the next pointer, one machine word each.
pub const NODE_SIZE: usize = 16;

/// The address alignment a node header needs.
pub const NODE_ALIGN: usize = 8;

/// The ghost state of the heap: its address range, the free blocks still
/// on the list (index 0 is the list head), the allocations currently
/// outstanding, and the byte count `used` reported for them.
pub struct HeapModel {
    pub low: int,
    pub high: int,
    pub free: Seq<Block>,
    pub live: Seq<Block>,
    pub used: int,
}

/// Whether a block could host a node header: placed and sized on node
/// alignment, and at least one header large.
pub open spec fn valid_chunk(b: Block) -> bool {
    &&& b.addr % (NODE_ALIGN as int) == 0
    &&& b.size % (NODE_ALIGN as int) == 0
    &&& b.size >= NODE_SIZE
}

/// Every block of `s` lies inside `[low, high)` and could host a node.
pub open spec fn blocks_wf(s: Seq<Block>, low: int, high: int) -> bool {
    forall|i: int|
        0 <= i < s.len() ==> (#[trigger] s[i]).in_range(low, high) && valid_chunk(s[i])
}

/// The heap invariant: free blocks and outstanding allocations all lie
/// inside the managed range, could each host a node, and are pairwise
/// disjoint — no byte belongs to two of them; `used` is exactly the bytes
/// of the outstanding allocations.
pub open spec fn heap_wf(m: HeapModel) -> bool {
    &&& 0 <= m.low <= m.high <= usize::MAX
    &&& blocks_wf(m.free, m.low, m.high)
    &&& blocks_wf(m.live, m.low, m.high)
    &&& pairwise_disjoint(m.free + m.live)
    &&& m.used == sum_sizes(m.live)
}

/// A block that overlaps nothing the heap currently tracks.
pub open spec fn heap_fresh(m: HeapModel, b: Block) -> bool {
    &&& forall|i: int| 0 <= i < m.free.len() ==> b.disjoint_from(#[trigger] m.free[i])
    &&& forall|i: int| 0 <= i < m.live.len() ==> b.disjoint_from(#[trigger] m.live[i])
}

/// The alignment actually used for a request: at least the node
/// alignment, so a freed block can host a node again.
pub open spec fn spec_adjust_align(align: int) -> int {
    if align < NODE_ALIGN as int {
        NODE_ALIGN as int
    } else {
        align
    }
}

/// The size actually carved out for a request: padded to the adjusted
/// alignment and never smaller than one node header.
pub open spec fn spec_adjust_size(size: int, align: int) -> int {
    let padded = spec_align_up(size, spec_adjust_align(align));
    if padded < NODE_SIZE as int {
        NODE_SIZE as int
    } else {
        padded
    }
}

/// Whether a request of `size` bytes at alignment `align` fits into free
/// block `b`: the aligned start plus the size stays inside the block, and
/// the tail slack is either empty or big enough to host a node.
pub open spec fn region_fits(b: Block, size: int, align: int) -> bool {
    let start = spec_align_up(b.addr, align);
    let alloc_end = start + size;
    &&& alloc_end <= b.end()
    &&& (b.end() - alloc_end == 0 || b.end() - alloc_end >= NODE_SIZE as int)
}

/// First-fit search from index `i`: the index of the first free block the
/// request fits into, with the aligned start address inside it.
pub open spec fn first_fit_from(free: Seq<Block>, size: int, align: int, i: int) -> Option<
    (int, int),
>
    decreases free.len() - i,
{
    if i < 0 || i >= free.len() {
        None
    } else if region_fits(free[i], size, align) {
        Some((i, spec_align_up(free[i].addr, align)))
    } else {
        first_fit_from(free, size, align, i + 1)
    }
}

/// Registering a free region pushes its block on the head of the list.
pub open spec fn spec_add_free_region(m: HeapModel, addr: int, size: int) -> HeapModel {
    HeapModel {
        low: m.low,
        high: m.high,
        free: seq![Block { addr, size }] + m.free,
        live: m.live,
        used: m.used,
    }
}

/// One allocation: adjust the request, search first-fit, carve the chosen
/// node, re-insert tail slack that can host a node, and record the new
/// outstanding block.  Without a fitting node nothing changes.
pub open spec fn spec_allocate(m: HeapModel, size: int, align: int) -> (HeapModel, Option<int>) {
    let asize = spec_adjust_size(size, align);
    let aalign = spec_adjust_align(align);
    match first_fit_from(m.free, asize, aalign, 0) {
        None => (m, None),
        Some(hit) => {
            let node = m.free[hit.0];
            let start = hit.1;
            let alloc_end = start + asize;
            let excess = node.end() - alloc_end;
            let remaining = m.free.remove(hit.0);
            let free2 = if excess > 0 {
                seq![Block { addr: alloc_end, size: excess }] + remaining
            } else {
                remaining
            };
            (
                HeapModel {
                    low: m.low,
                    high: m.high,
                    free: free2,
                    live: m.live.push(Block { addr: start, size: asize }),
                    used: m.used + asize,
                },
                Some(start),
            )
        },
    }
}

/// One deallocation: the freed block leaves the outstanding allocations
/// and becomes the new head of the free list.
pub open spec fn spec_deallocate(m: HeapModel, addr: int, size: int, align: int) -> HeapModel {
    let asize = spec_adjust_size(size, align);
    let b = Block { addr, size: asize };
    HeapModel {
        low: m.low,
        high: m.high,
        free: seq![b] + m.free,
        live: m.live.remove_value(b),
        used: m.used - asize,
    }
}

/// Power-of-two alignments are multiples of the node alignment once
/// adjusted, and the adjusted alignment still serves the requested one.
pub proof fn lemma_adjusted_align(align: int)
    requires
        is_pow2(align),
    ensures
        spec_adjust_align(align) >= NODE_ALIGN as int,
        spec_adjust_align(align) % (NODE_ALIGN as int) == 0,
        spec_adjust_align(align) % align == 0,
        align >= 1,
{
    lemma_pow2_pos(align);
    assert(is_pow2(2)) by {
        assert(is_pow2(1));
    }
    assert(is_pow2(4)) by {
        assert(is_pow2(2)) by {
            assert(is_pow2(1));
        }
    }
    assert(is_pow2(8)) by {
        assert(is_pow2(4)) by {
            assert(is_pow2(2)) by {
                assert(is_pow2(1));
            }
        }
    }
    if align < NODE_ALIGN as int {
        lemma_pow2_divides(align, 8);
        assert(8int % 8 == 0) by {
            lemma_pow2_divides(8, 8);
        }
    } else {
        lemma_pow2_divides(8, align);
        lemma_pow2_divides(align, align);
    }
}

/// The adjusted size is a non-negative multiple of the node alignment, at
/// least one header and at least the requested size.
pub proof fn lemma_adjusted_size(size: int, align: int)
    requires
        is_pow2(align),
        size >= 0,
    ensures
        spec_adjust_size(size, align) >= NODE_SIZE as int,
        spec_adjust_size(size, align) >= size,
        spec_adjust_size(size, align) % (NODE_ALIGN as int) == 0,
{
    lemma_adjusted_align(align);
    let aalign = spec_adjust_align(align);
    lemma_align_up(size, aalign);
    let padded = spec_align_up(size, aalign);
    if padded >= NODE_SIZE as int {
        lemma_mod_transitive(padded, aalign, NODE_ALIGN as int);
    }
}

/// The first-fit search fails exactly when no block from `i` on fits.
pub proof fn lemma_first_fit_none(free: Seq<Block>, size: int, align: int, i: int)
    requires
        0 <= i <= free.len(),
    ensures
        first_fit_from(free, size, align, i) is None <==> (forall|j: int|
            i <= j < free.len() ==> !region_fits(#[trigger] free[j], size, align)),
    decreases free.len() - i,
{
    if i < free.len() {
        lemma_first_fit_none(free, size, align, i + 1);
    }
}

/// What a successful first-fit search hands back: the first fitting block
/// from `i` on, and the aligned start address inside it.
pub proof fn lemma_first_fit_some(free: Seq<Block>, size: int, align: int, i: int)
    requires
        0 <= i <= free.len(),
        first_fit_from(free, size, align, i) is Some,
    ensures
        ({
            let hit = first_fit_from(free, size, align, i).unwrap();
            &&& i <= hit.0 < free.len()
            &&& region_fits(free[hit.0], size, align)
            &&& hit.1 == spec_align_up(free[hit.0].addr, align)
            &&& forall|j: int| i <= j < hit.0 ==> !region_fits(#[trigger] free[j], size, align)
        }),
    decreases free.len() - i,
{
    if i < free.len() && !region_fits(free[i], size, align) {
        lemma_first_fit_some(free, size, align, i + 1);
    }
}

/// A request larger than the whole managed range fits nowhere.
pub proof fn lemma_first_fit_oversized(free: Seq<Block>, low: int, high: int, size: int, align: int)
    requires
        0 <= low <= high,
        blocks_wf(free, low, high),
        align >= 1,
        size > high - low,
    ensures
        first_fit_from(free, size, align, 0) is None,
{
    assert forall|j: int| 0 <= j < free.len() implies !region_fits(
        #[trigger] free[j],
        size,
        align,
    ) by {
        lemma_align_up(free[j].addr, align);
    }
    lemma_first_fit_none(free, size, align, 0);
}

/// Before any region is registered the free list is empty, and every
/// allocation reports out-of-memory without changing the heap.
pub proof fn lemma_empty_heap_always_fails(m: HeapModel, size: int, align: int)
    requires
        m.free.len() == 0,
    ensures
        spec_allocate(m, size, align).1 is None,
        spec_allocate(m, size, align).0 == m,
{
}

/// Registering a fresh, node-capable region inside the range preserves the
/// heap invariant.
pub proof fn lemma_add_free_region_wf(m: HeapModel, addr: int, size: int)
    requires
        heap_wf(m),
        m.low <= addr,
        addr + size <= m.high,
        size >= NODE_SIZE as int,
        addr % (NODE_ALIGN as int) == 0,
        size % (NODE_ALIGN as int) == 0,
        heap_fresh(m, Block { addr, size }),
    ensures
        heap_wf(spec_add_free_region(m, addr, size)),
{
    let b = Block { addr, size };
    let m2 = spec_add_free_region(m, addr, size);
    let u = m.free + m.live;
    lemma_pairwise_disjoint_parts(m.free, m.live);
    assert forall|i: int| 0 <= i < u.len() implies b.disjoint_from(#[trigger] u[i]) by {
        if i < m.free.len() {
            assert(u[i] == m.free[i]);
        } else {
            assert(u[i] == m.live[i - m.free.len()]);
        }
    }
    lemma_pairwise_disjoint_prepend(b, u);
    assert(m2.free + m2.live =~= seq![b] + u);
    assert forall|i: int| 0 <= i < m2.free.len() implies (#[trigger] m2.free[i]).in_range(
        m2.low,
        m2.high,
    ) && valid_chunk(m2.free[i]) by {
        if i > 0 {
            assert(m2.free[i] == m.free[i - 1]);
        }
    }
}

/// Allocation preserves the heap invariant; a successful allocation hands
/// out a block with the requested alignment, inside the range, at least
/// the requested size, disjoint from every allocation already outstanding,
/// and it never pushes the outstanding byte count past the range's
/// capacity.  A failed allocation changes nothing.
pub proof fn lemma_spec_allocate_wf(m: HeapModel, size: int, align: int)
    requires
        heap_wf(m),
        is_pow2(align),
        size >= 0,
    ensures
        heap_wf(spec_allocate(m, size, align).0),
        spec_allocate(m, size, align).0.low == m.low,
        spec_allocate(m, size, align).0.high == m.high,
        spec_allocate(m, size, align).1 is None ==> spec_allocate(m, size, align).0 == m,
        spec_allocate(m, size, align).1 matches Some(start) ==> {
            let asize = spec_adjust_size(size, align);
            let nb = Block { addr: start, size: asize };
            &&& start % align == 0
            &&& start % spec_adjust_align(align) == 0
            &&& asize >= size
            &&& m.low <= start && start + asize <= m.high
            &&& spec_allocate(m, size, align).0.live == m.live.push(nb)
            &&& spec_allocate(m, size, align).0.used == m.used + asize
            &&& m.used + asize <= m.high - m.low
            &&& forall|i: int|
                0 <= i < m.live.len() ==> nb.disjoint_from(#[trigger] m.live[i])
        },
{
    let asize = spec_adjust_size(size, align);
    let aalign = spec_adjust_align(align);
    lemma_adjusted_align(align);
    lemma_adjusted_size(size, align);
    if first_fit_from(m.free, asize, aalign, 0) is Some {
        lemma_first_fit_some(m.free, asize, aalign, 0);
        let hit = first_fit_from(m.free, asize, aalign, 0).unwrap();
        let k = hit.0;
        let start = hit.1;
        let node = m.free[k];
        assert(node.in_range(m.low, m.high) && valid_chunk(node));
        lemma_align_up(node.addr, aalign);
        assert(start % aalign == 0);
        lemma_mod_transitive(start, aalign, align);
        lemma_mod_transitive(start, aalign, NODE_ALIGN as int);
        let alloc_end = start + asize;
        let excess = node.end() - alloc_end;
        let nb = Block { addr: start, size: asize };
        let eb = Block { addr: alloc_end, size: excess };
        assert(alloc_end <= node.end());
        lemma_mod_add_zero(start, asize, NODE_ALIGN as int);
        lemma_mod_add_zero(node.addr, node.size, NODE_ALIGN as int);
        lemma_mod_sub_zero(node.end(), alloc_end, NODE_ALIGN as int);
        assert(node.covers(nb));
        assert(excess > 0 ==> node.covers(eb) && valid_chunk(eb) && eb.in_range(m.low, m.high));
        assert(valid_chunk(nb) && nb.in_range(m.low, m.high));

        let u = m.free + m.live;
        let lf = m.free.len() as int;
        let ll = m.live.len() as int;
        assert(u[k] == m.free[k]);
        lemma_pairwise_disjoint_remove(u, k);
        u.remove_ensures(k);
        m.free.remove_ensures(k);
        let w = m.free.remove(k) + m.live;
        assert(u.remove(k) =~= w) by {
            assert forall|j: int| 0 <= j < w.len() implies u.remove(k)[j] == w[j] by {
                if j < k {
                    assert(u.remove(k)[j] == u[j]);
                    assert(u[j] == m.free[j]);
                    assert(w[j] == m.free.remove(k)[j]);
                } else if j < lf - 1 {
                    assert(u.remove(k)[j] == u[j + 1]);
                    assert(u[j + 1] == m.free[j + 1]);
                    assert(w[j] == m.free.remove(k)[j]);
                } else {
                    assert(u.remove(k)[j] == u[j + 1]);
                    assert(u[j + 1] == m.live[j + 1 - lf]);
                    assert(w[j] == m.live[j - (lf - 1)]);
                }
            }
        }
        assert(pairwise_disjoint(w));
        assert forall|j: int| 0 <= j < w.len() implies nb.disjoint_from(#[trigger] w[j]) by {
            let j0 = if j < k {
                j
            } else {
                j + 1
            };
            assert(w[j] == u.remove(k)[j]);
            assert(u.remove(k)[j] == u[j0]);
            assert(u[k].disjoint_from(u[j0]));
            lemma_covers_disjoint(node, nb, u[j0]);
        }
        assert forall|i: int| 0 <= i < m.live.len() implies nb.disjoint_from(
            #[trigger] m.live[i],
        ) by {
            assert(w[lf - 1 + i] == m.live[i]);
        }
        let w2 = w.push(nb);
        lemma_pairwise_disjoint_push(w, nb);
        let live2 = m.live.push(nb);
        let m2 = spec_allocate(m, size, align).0;

        if excess > 0 {
            assert forall|j: int| 0 <= j < w2.len() implies eb.disjoint_from(#[trigger] w2[j]) by {
                if j < w.len() {
                    let j0 = if j < k {
                        j
                    } else {
                        j + 1
                    };
                    assert(w2[j] == w[j]);
                    assert(w[j] == u[j0]);
                    assert(u[k].disjoint_from(u[j0]));
                    lemma_covers_disjoint(node, eb, u[j0]);
                } else {
                    assert(w2[j] == nb);
                }
            }
            lemma_pairwise_disjoint_prepend(eb, w2);
            assert(m2.free + m2.live =~= seq![eb] + w2) by {
                assert forall|j: int| 0 <= j < (m2.free + m2.live).len() implies (m2.free
                    + m2.live)[j] == (seq![eb] + w2)[j] by {
                    if j == 0 {
                    } else if j < lf {
                        assert((m2.free + m2.live)[j] == m2.free[j]);
                        assert(m2.free[j] == m.free.remove(k)[j - 1]);
                        assert((seq![eb] + w2)[j] == w2[j - 1]);
                        assert(w2[j - 1] == w[j - 1]);
                        assert(w[j - 1] == m.free.remove(k)[j - 1]);
                    } else if j < lf + ll {
                        assert((m2.free + m2.live)[j] == m2.live[j - lf]);
                        assert(m2.live[j - lf] == m.live[j - lf]);
                        assert((seq![eb] + w2)[j] == w2[j - 1]);
                        assert(w2[j - 1] == w[j - 1]);
                        assert(w[j - 1] == m.live[j - 1 - (lf - 1)]);
                    } else {
                        assert((m2.free + m2.live)[j] == m2.live[j - lf]);
                        assert(m2.live[j - lf] == nb);
                        assert((seq![eb] + w2)[j] == w2[j - 1]);
                        assert(w2[j - 1] == nb);
                    }
                }
            }
            assert(pairwise_disjoint(m2.free + m2.live));
            assert forall|i: int| 0 <= i < m2.free.len() implies (#[trigger] m2.free[i]).in_range(
                m2.low,
                m2.high,
            ) && valid_chunk(m2.free[i]) by {
                if i > 0 {
                    assert(m2.free[i] == m.free.remove(k)[i - 1]);
                }
            }
        } else {
            assert(m2.free + m2.live =~= w2) by {
                assert forall|j: int| 0 <= j < (m2.free + m2.live).len() implies (m2.free
                    + m2.live)[j] == w2[j] by {
                    if j < lf - 1 {
                        assert((m2.free + m2.live)[j] == m2.free[j]);
                        assert(w2[j] == w[j]);
                        assert(w[j] == m.free.remove(k)[j]);
                    } else if j < lf - 1 + ll {
                        assert((m2.free + m2.live)[j] == m2.live[j - (lf - 1)]);
                        assert(m2.live[j - (lf - 1)] == m.live[j - (lf - 1)]);
                        assert(w2[j] == w[j]);
                        assert(w[j] == m.live[j - (lf - 1)]);
                    } else {
                        assert((m2.free + m2.live)[j] == m2.live[j - (lf - 1)]);
                        assert(m2.live[j - (lf - 1)] == nb);
                        assert(w2[j] == nb);
                    }
                }
            }
            assert(pairwise_disjoint(m2.free + m2.live));
            assert forall|i: int| 0 <= i < m2.free.len() implies (#[trigger] m2.free[i]).in_range(
                m2.low,
                m2.high,
            ) && valid_chunk(m2.free[i]) by {
                assert(m2.free[i] == m.free.remove(k)[i]);
            }
        }
        assert forall|i: int| 0 <= i < live2.len() implies (#[trigger] live2[i]).in_range(
            m2.low,
            m2.high,
        ) && valid_chunk(live2[i]) by {
            if i < m.live.len() {
                assert(live2[i] == m.live[i]);
            }
        }
        lemma_sum_sizes_push(m.live, nb);
        lemma_pairwise_disjoint_parts(m2.free, m2.live);
        assert forall|i: int| 0 <= i < live2.len() implies (#[trigger] live2[i]).size >= 1 by {
            assert(valid_chunk(live2[i]));
        }
        lemma_disjoint_blocks_fit(live2, m.low, m.high);
    }
}

/// Deallocation of an outstanding block preserves the heap invariant: the
/// block leaves the outstanding allocations, becomes the head of the free
/// list, and the reported byte count drops by its size and stays
/// non-negative.
pub proof fn lemma_spec_deallocate_wf(m: HeapModel, addr: int, size: int, align: int)
    requires
        heap_wf(m),
        is_pow2(align),
        size >= 0,
        m.live.contains(Block { addr, size: spec_adjust_size(size, align) }),
    ensures
        heap_wf(spec_deallocate(m, addr, size, align)),
        spec_deallocate(m, addr, size, align).low == m.low,
        spec_deallocate(m, addr, size, align).high == m.high,
        spec_deallocate(m, addr, size, align).free == seq![
            Block { addr, size: spec_adjust_size(size, align) },
        ] + m.free,
        spec_deallocate(m, addr, size, align).used == m.used - spec_adjust_size(size, align),
        spec_adjust_size(size, align) <= m.used,
{
    let asize = spec_adjust_size(size, align);
    let b = Block { addr, size: asize };
    let m2 = spec_deallocate(m, addr, size, align);
    let lf = m.free.len() as int;
    let ll = m.live.len() as int;
    m.live.index_of_first_ensures(b);
    let i = m.live.index_of_first(b).unwrap();
    assert(m.live[i] == b);
    assert(b.in_range(m.low, m.high) && valid_chunk(b));
    assert(m2.live == m.live.remove(i));
    lemma_sum_sizes_remove(m.live, i);
    assert forall|j: int| 0 <= j < m.live.len() implies (#[trigger] m.live[j]).size >= 0 by {
        assert(valid_chunk(m.live[j]));
    }
    lemma_sum_sizes_member_bound(m.live, i);

    let u = m.free + m.live;
    assert(u[lf + i] == m.live[i]);
    lemma_pairwise_disjoint_remove(u, lf + i);
    u.remove_ensures(lf + i);
    m.live.remove_ensures(i);
    let w = m.free + m.live.remove(i);
    assert(u.remove(lf + i) =~= w) by {
        assert forall|j: int| 0 <= j < w.len() implies u.remove(lf + i)[j] == w[j] by {
            if j < lf {
                assert(u.remove(lf + i)[j] == u[j]);
                assert(u[j] == m.free[j]);
                assert(w[j] == m.free[j]);
            } else if j < lf + i {
                assert(u.remove(lf + i)[j] == u[j]);
                assert(u[j] == m.live[j - lf]);
                assert(w[j] == m.live.remove(i)[j - lf]);
            } else {
                assert(u.remove(lf + i)[j] == u[j + 1]);
                assert(u[j + 1] == m.live[j + 1 - lf]);
                assert(w[j] == m.live.remove(i)[j - lf]);
            }
        }
    }
    assert(pairwise_disjoint(w));
    assert forall|j: int| 0 <= j < w.len() implies b.disjoint_from(#[trigger] w[j]) by {
        let j0 = if j < lf + i {
            j
        } else {
            j + 1
        };
        assert(w[j] == u.remove(lf + i)[j]);
        assert(u.remove(lf + i)[j] == u[j0]);
        assert(u[lf + i].disjoint_from(u[j0]));
    }
    lemma_pairwise_disjoint_prepend(b, w);
    assert(m2.free + m2.live =~= seq![b] + w) by {
        assert forall|j: int| 0 <= j < (m2.free + m2.live).len() implies (m2.free + m2.live)[j] == (
        seq![b] + w)[j] by {
            if j == 0 {
            } else if j < lf + 1 {
                assert((m2.free + m2.live)[j] == m2.free[j]);
                assert(m2.free[j] == m.free[j - 1]);
                assert((seq![b] + w)[j] == w[j - 1]);
                assert(w[j - 1] == m.free[j - 1]);
            } else {
                assert((m2.free + m2.live)[j] == m2.live[j - (lf + 1)]);
                assert((seq![b] + w)[j] == w[j - 1]);
                assert(w[j - 1] == m.live.remove(i)[j - 1 - lf]);
            }
        }
    }
    assert(pairwise_disjoint(m2.free + m2.live));
    assert forall|j: int| 0 <= j < m2.free.len() implies (#[trigger] m2.free[j]).in_range(
        m2.low,
        m2.high,
    ) && valid_chunk(m2.free[j]) by {
        if j > 0 {
            assert(m2.free[j] == m.free[j - 1]);
        }
    }
    assert forall|j: int| 0 <= j < m2.live.len() implies (#[trigger] m2.live[j]).in_range(
        m2.low,
        m2.high,
    ) && valid_chunk(m2.live[j]) by {
        assert(m2.live[j] == m.live.remove(i)[j]);
    }
}

/// One call into the heap's allocation interface.
pub enum HeapOp {
    Allocate { size: int, align: int },
    Deallocate { addr: int, size: int, align: int },
}

/// Whether an operation is a call the interface admits in state `m`:
/// sizes are non-negative, alignments are powers of two, and a
/// deallocation names an outstanding allocation of this heap.  Freeing
/// anything else is undefined behaviour, so no valid call sequence
/// contains such a call.
pub open spec fn heap_op_valid(m: HeapModel, op: HeapOp) -> bool {
    match op {
        HeapOp::Allocate { size, align } => size >= 0 && is_pow2(align),
        HeapOp::Deallocate { addr, size, align } => {
            &&& size >= 0
            &&& is_pow2(align)
            &&& m.live.contains(Block { addr, size: spec_adjust_size(size, align) })
        },
    }
}

/// The heap after one call.
pub open spec fn heap_apply(m: HeapModel, op: HeapOp) -> HeapModel {
    match op {
        HeapOp::Allocate { size, align } => spec_allocate(m, size, align).0,
        HeapOp::Deallocate { addr, size, align } => spec_deallocate(m, addr, size, align),
    }
}

/// The heap after a sequence of calls.
pub open spec fn heap_apply_all(m: HeapModel, ops: Seq<HeapOp>) -> HeapModel
    decreases ops.len(),
{
    if ops.len() == 0 {
        m
    } else {
        heap_apply_all(heap_apply(m, ops[0]), ops.drop_first())
    }
}

/// Whether every call of the sequence is admitted in the state it runs in.
pub open spec fn heap_ops_valid(m: HeapModel, ops: Seq<HeapOp>) -> bool
    decreases ops.len(),
{
    if ops.len() == 0 {
        true
    } else {
        heap_op_valid(m, ops[0]) && heap_ops_valid(heap_apply(m, ops[0]), ops.drop_first())
    }
}

/// After any sequence of admitted allocate and deallocate calls the heap
/// invariant still holds — in particular, no two allocations that are
/// outstanding at the same time ever overlap in address range.
pub proof fn lemma_heap_ops_no_overlap(m: HeapModel, ops: Seq<HeapOp>)
    requires
        heap_wf(m),
        heap_ops_valid(m, ops),
    ensures
        heap_wf(heap_apply_all(m, ops)),
        pairwise_disjoint(heap_apply_all(m, ops).live),
    decreases ops.len(),
{
    if ops.len() == 0 {
        lemma_pairwise_disjoint_parts(m.free, m.live);
    } else {
        match ops[0] {
            HeapOp::Allocate { size, align } => {
                lemma_spec_allocate_wf(m, size, align);
            },
            HeapOp::Deallocate { addr, size, align } => {
                lemma_spec_deallocate_wf(m, addr, size, align);
            },
        }
        lemma_heap_ops_no_overlap(heap_apply(m, ops[0]), ops.drop_first());
    }
}

/// Registering a range of `total` bytes and requesting all of them at
/// once succeeds and hands back the start of the range; the free list is
/// then empty, so any further request — of any size and alignment —
/// fails until something is freed.
pub proof fn lemma_exact_fit_exhausts(low: int, high: int, align: int)
    requires
        0 <= low <= high <= usize::MAX,
        high - low >= NODE_SIZE,
        low % (NODE_ALIGN as int) == 0,
        (high - low) % (NODE_ALIGN as int) == 0,
        is_pow2(align),
        low % spec_adjust_align(align) == 0,
        (high - low) % spec_adjust_align(align) == 0,
    ensures
        ({
            let m0 = HeapModel {
                low,
                high,
                free: Seq::<Block>::empty(),
                live: Seq::<Block>::empty(),
                used: 0,
            };
            let m1 = spec_add_free_region(m0, low, high - low);
            let m2 = spec_allocate(m1, high - low, align).0;
            &&& spec_allocate(m1, high - low, align).1 == Some(low)
            &&& forall|size2: int, align2: int|
                size2 >= 0 && is_pow2(align2) ==> (#[trigger] spec_allocate(
                    m2,
                    size2,
                    align2,
                )).1 is None
        }),
{
    let total = high - low;
    let m0 = HeapModel {
        low,
        high,
        free: Seq::<Block>::empty(),
        live: Seq::<Block>::empty(),
        used: 0,
    };
    let m1 = spec_add_free_region(m0, low, total);
    lemma_adjusted_align(align);
    let aalign = spec_adjust_align(align);
    let asize = spec_adjust_size(total, align);
    assert(spec_align_up(total, aalign) == total);
    assert(asize == total);
    let b0 = Block { addr: low, size: total };
    assert(m1.free.len() == 1);
    assert(m1.free[0] == b0);
    assert(spec_align_up(low, aalign) == low);
    assert(region_fits(b0, total, aalign));
    assert(first_fit_from(m1.free, asize, aalign, 0) == Some((0int, low)));
    assert(spec_allocate(m1, total, align).1 == Some(low));
    let m2 = spec_allocate(m1, total, align).0;
    assert(m2.free == m1.free.remove(0));
    assert(m2.free.len() == 0);
    assert forall|size2: int, align2: int|
        size2 >= 0 && is_pow2(align2) implies (#[trigger] spec_allocate(
        m2,
        size2,
        align2,
    )).1 is None by {
        assert(first_fit_from(
            m2.free,
            spec_adjust_size(size2, align2),
            spec_adjust_align(align2),
            0,
        ) is None);
    }
}

/// One direction of the allocate/free round trip: free the block an
/// allocation just returned, repeat the same request, and the same
/// address comes back — the freed node sits at the head of the list and
/// the first-fit search takes it again.  Nothing of what the caller wrote
/// into the block survives the free in this model: it tracks addresses,
/// never bytes, and makes no promise about old contents.
pub proof fn lemma_free_then_realloc_same_address(m: HeapModel, size: int, align: int)
    requires
        heap_wf(m),
        is_pow2(align),
        size >= 0,
        spec_allocate(m, size, align).1 is Some,
    ensures
        ({
            let m1 = spec_allocate(m, size, align).0;
            let a = spec_allocate(m, size, align).1.unwrap();
            let m2 = spec_deallocate(m1, a, size, align);
            spec_allocate(m2, size, align).1 == Some(a)
        }),
{
    lemma_spec_allocate_wf(m, size, align);
    lemma_adjusted_align(align);
    let m1 = spec_allocate(m, size, align).0;
    let a = spec_allocate(m, size, align).1.unwrap();
    let aalign = spec_adjust_align(align);
    let asize = spec_adjust_size(size, align);
    let nb = Block { addr: a, size: asize };
    assert(m1.live == m.live.push(nb));
    assert(m1.live[m.live.len() as int] == nb);
    assert(m1.live.contains(nb));
    lemma_spec_deallocate_wf(m1, a, size, align);
    let m2 = spec_deallocate(m1, a, size, align);
    assert(m2.free == seq![nb] + m1.free);
    assert(m2.free[0] == nb);
    assert(spec_align_up(a, aalign) == a);
    assert(region_fits(nb, asize, aalign));
    assert(first_fit_from(m2.free, asize, aalign, 0) == Some((0int, a)));
}

/// One record of the modelled free list.  On hardware this is the node
/// header written in place at `addr`; here it is an ordinary record, so
/// the address is carried explicitly.
struct FreeNode {
    addr: usize,
    size: usize,
}

/// The product of one free-list search, consumed by the allocation that
/// asked for it and never stored: the node the request fits into, already
/// unlinked from the list, and the alignment-adjusted address at which the
/// caller's data will begin.
struct Region {
    node_addr: usize,
    node_size: usize,
    start: usize,
    index: Ghost<int>,
}

/// The block a node describes.
spec fn node_block(n: FreeNode) -> Block {
    Block { addr: n.addr as int, size: n.size as int }
}

/// The blocks a node sequence describes, in list order.
spec fn free_blocks(s: Seq<FreeNode>) -> Seq<Block> {
    Seq::new(s.len(), |i: int| node_block(s[i]))
}

proof fn lemma_free_blocks_insert_front(s: Seq<FreeNode>, n: FreeNode)
    ensures
        free_blocks(s.insert(0, n)) == seq![node_block(n)] + free_blocks(s),
{
    s.insert_ensures(0, n);
    assert(free_blocks(s.insert(0, n)) =~= seq![node_block(n)] + free_blocks(s));
}

proof fn lemma_free_blocks_remove(s: Seq<FreeNode>, i: int)
    requires
        0 <= i < s.len(),
    ensures
        free_blocks(s.remove(i)) == free_blocks(s).remove(i),
{
    s.remove_ensures(i);
    free_blocks(s).remove_ensures(i);
    assert(free_blocks(s.remove(i)) =~= free_blocks(s).remove(i));
}

/// The free-list heap manager.  It manages addresses only; it never
/// touches the bytes those addresses name.  Before any allocation the
/// managed range must be registered once with `add_free_region`; until
/// then every allocation fails.
///
/// On hardware the list's entry point is the `next` pointer of a
/// permanent zero-size sentinel node the allocator owns, so an empty list
/// needs no special case; in this model the sequence itself is the entry
/// point and an empty list is simply the empty sequence.
pub struct LinkedListAllocator {
    low: usize,
    high: usize,
    free: Vec<FreeNode>,
    used_mem: usize,
    live: Ghost<Seq<Block>>,
}

impl View for LinkedListAllocator {
    type V = HeapModel;

    closed spec fn view(&self) -> HeapModel {
        HeapModel {
            low: self.low as int,
            high: self.high as int,
            free: free_blocks(self.free@),
            live: self.live@,
            used: self.used_mem as int,
        }
    }
}

impl LinkedListAllocator {
    /// A heap over `[low, high)` with nothing registered yet: its free
    /// list is empty, so every allocation fails until a region is added.
    pub fn new(low: usize, high: usize) -> (r: Self)
        requires
            low <= high,
        ensures
            r@ == (HeapModel {
                low: low as int,
                high: high as int,
                free: Seq::<Block>::empty(),
                live: Seq::<Block>::empty(),
                used: 0,
            }),
            heap_wf(r@),
    {
        let r = Self { low, high, free: Vec::new(), used_mem: 0, live: Ghost(Seq::empty()) };
        proof {
            assert(free_blocks(r.free@) =~= Seq::<Block>::empty());
            assert(r@.free + r@.live =~= Seq::<Block>::empty());
        }
        r
    }

    /// Bytes currently allocated and not yet returned.
    pub fn used_mem(&self) -> (r: usize)
        ensures
            r as int == self@.used,
    {
        self.used_mem
    }

    /// First byte of the managed range.
    pub fn low(&self) -> (r: usize)
        ensures
            r as int == self@.low,
    {
        self.low
    }

    /// First address past the managed range.
    pub fn high(&self) -> (r: usize)
        ensures
            r as int == self@.high,
    {
        self.high
    }

    /// How many separate entries the free list holds.  Adjacent freed
    /// blocks are never coalesced, so this count exposes fragmentation.
    pub fn free_regions(&self) -> (r: usize)
        ensures
            r as int == self@.free.len(),
    {
        self.free.len()
    }

    /// Register `size` bytes of fresh memory starting at `addr` as the new
    /// head of the free list.  The region must lie inside the managed
    /// range, be placed and sized on node alignment, be at least one node
    /// header large (a node is written into it), and overlap nothing the
    /// heap already tracks.
    pub fn add_free_region(&mut self, addr: usize, size: usize)
        requires
            heap_wf(old(self)@),
            old(self)@.low <= addr as int,
            addr + size <= old(self)@.high,
            size >= NODE_SIZE,
            addr as int % (NODE_ALIGN as int) == 0,
            size as int % (NODE_ALIGN as int) == 0,
            heap_fresh(old(self)@, Block { addr: addr as int, size: size as int }),
        ensures
            final(self)@ == spec_add_free_region(old(self)@, addr as int, size as int),
            heap_wf(final(self)@),
    {
        let ghost m0 = self@;
        let ghost v0 = self.free@;
        self.free.insert(0, FreeNode { addr, size });
        proof {
            lemma_free_blocks_insert_front(v0, FreeNode { addr, size });
            lemma_add_free_region_wf(m0, addr as int, size as int);
            assert(self@ == spec_add_free_region(m0, addr as int, size as int));
        }
    }

    /// Walk the free list from the head and unlink the first node a
    /// request of `size` bytes at alignment `align` fits into, handing
    /// back the region found.  `None` when no node fits; the list is then
    /// unchanged.
    fn find_region(&mut self, size: usize, align: usize) -> (r: Option<Region>)
        requires
            heap_wf(old(self)@),
            1 <= align,
        ensures
            final(self)@.low == old(self)@.low,
            final(self)@.high == old(self)@.high,
            final(self)@.live == old(self)@.live,
            final(self)@.used == old(self)@.used,
            match r {
                Some(region) => {
                    &&& 0 <= region.index@ < old(self)@.free.len()
                    &&& first_fit_from(old(self)@.free, size as int, align as int, 0) == Some(
                        (region.index@, region.start as int),
                    )
                    &&& old(self)@.free[region.index@] == (Block {
                        addr: region.node_addr as int,
                        size: region.node_size as int,
                    })
                    &&& final(self)@.free == old(self)@.free.remove(region.index@)
                },
                None => {
                    &&& first_fit_from(old(self)@.free, size as int, align as int, 0) is None
                    &&& final(self)@ == old(self)@
                },
            },
    {
        let ghost m0 = self@;
        let mut i: usize = 0;
        while i < self.free.len()
            invariant
                self@ == m0,
                m0 == old(self)@,
                heap_wf(m0),
                1 <= align,
                i as int <= m0.free.len(),
                first_fit_from(m0.free, size as int, align as int, 0) == first_fit_from(
                    m0.free,
                    size as int,
                    align as int,
                    i as int,
                ),
            decreases m0.free.len() - i as int,
        {
            let node_addr: usize = self.free[i].addr;
            let node_size: usize = self.free[i].size;
            let ghost node = m0.free[i as int];
            proof {
                assert(node == node_block(self.free@[i as int]));
                assert(node.in_range(m0.low, m0.high) && valid_chunk(node));
                lemma_align_up(node.addr, align as int);
            }
            let node_end: usize = node_addr + node_size;
            let mut fits: bool = false;
            let mut start: usize = 0;
            match checked_align_up(node_addr, align) {
                None => {},
                Some(s) => {
                    match s.checked_add(size) {
                        None => {},
                        Some(e) => {
                            if e <= node_end {
                                let excess: usize = node_end - e;
                                if excess == 0 || excess >= NODE_SIZE {
                                    fits = true;
                                    start = s;
                                }
                            }
                        },
                    }
                },
            }
            if fits {
                assert(region_fits(node, size as int, align as int));
                assert(start as int == spec_align_up(node.addr, align as int));
                assert(first_fit_from(m0.free, size as int, align as int, i as int) == Some(
                    (i as int, start as int),
                ));
                let ghost v0 = self.free@;
                let removed = self.free.remove(i);
                proof {
                    lemma_free_blocks_remove(v0, i as int);
                }
                return Some(
                    Region {
                        node_addr: removed.addr,
                        node_size: removed.size,
                        start,
                        index: Ghost(i as int),
                    },
                );
            }
            proof {
                assert(!region_fits(node, size as int, align as int));
                assert(first_fit_from(m0.free, size as int, align as int, i as int)
                    == first_fit_from(m0.free, size as int, align as int, i as int + 1));
            }
            i = i + 1;
        }
        None
    }

    /// Allocate `size` bytes at alignment `align` (a power of two).  The
    /// request is padded so a freed block can host a node again; the free
    /// list is searched first-fit; tail slack that can host a node is
    /// re-inserted at the list head.  Returns the start address of a block
    /// of at least `size` bytes, aligned to `align`, lying inside the
    /// managed range and disjoint from every outstanding allocation — or
    /// `None`, leaving the heap untouched, exactly when no free block fits
    /// the padded request.
    pub fn allocate(&mut self, size: usize, align: usize) -> (r: Option<usize>)
        requires
            heap_wf(old(self)@),
            is_pow2(align as int),
        ensures
            heap_wf(final(self)@),
            final(self)@ == spec_allocate(old(self)@, size as int, align as int).0,
            match r {
                Some(a) => {
                    &&& spec_allocate(old(self)@, size as int, align as int).1 == Some(a as int)
                    &&& a as int % align as int == 0
                    &&& old(self)@.low <= a as int
                    &&& a as int + spec_adjust_size(size as int, align as int) <= old(self)@.high
                    &&& spec_adjust_size(size as int, align as int) >= size
                    &&& final(self)@.live == old(self)@.live.push(
                        Block { addr: a as int, size: spec_adjust_size(size as int, align as int) },
                    )
                    &&& final(self)@.used == old(self)@.used + spec_adjust_size(
                        size as int,
                        align as int,
                    )
                },
                None => {
                    &&& spec_allocate(old(self)@, size as int, align as int).1 is None
                    &&& final(self)@ == old(self)@
                },
            },
    {
        let ghost m0 = self@;
        let ghost sp_asize = spec_adjust_size(size as int, align as int);
        let ghost sp_aalign = spec_adjust_align(align as int);
        proof {
            lemma_adjusted_align(align as int);
            lemma_adjusted_size(size as int, align as int);
            lemma_spec_allocate_wf(m0, size as int, align as int);
        }
        let aalign: usize = if align < NODE_ALIGN {
            NODE_ALIGN
        } else {
            align
        };
        let padded: usize = match checked_align_up(size, aalign) {
            Some(p) => p,
            None => {
                proof {
                    lemma_first_fit_oversized(m0.free, m0.low, m0.high, sp_asize, sp_aalign);
                }
                return None;
            },
        };
        let asize: usize = if padded < NODE_SIZE {
            NODE_SIZE
        } else {
            padded
        };
        assert(asize as int == sp_asize && aalign as int == sp_aalign);
        match self.find_region(asize, aalign) {
            None => None,
            Some(region) => {
                let start = region.start;
                let ghost k = region.index@;
                let ghost node = m0.free[k];
                proof {
                    lemma_first_fit_some(m0.free, sp_asize, sp_aalign, 0);
                    assert(region_fits(node, sp_asize, sp_aalign));
                    assert(node.in_range(m0.low, m0.high) && valid_chunk(node));
                }
                let node_end: usize = region.node_addr + region.node_size;
                let alloc_end: usize = start + asize;
                let excess: usize = node_end - alloc_end;
                if excess > 0 {
                    let ghost v1 = self.free@;
                    self.free.insert(0, FreeNode { addr: alloc_end, size: excess });
                    proof {
                        lemma_free_blocks_insert_front(
                            v1,
                            FreeNode { addr: alloc_end, size: excess },
                        );
                    }
                }
                assert(m0.used + sp_asize <= m0.high - m0.low);
                self.used_mem = self.used_mem + asize;
                self.live = Ghost(m0.live.push(Block { addr: start as int, size: sp_asize }));
                proof {
                    let res = spec_allocate(m0, size as int, align as int).0;
                    assert(res.low == self@.low);
                    assert(res.high == self@.high);
                    assert(res.used == self@.used);
                    assert(res.live == self@.live);
                    assert(res.free == self@.free);
                    assert(self@ == res);
                }
                Some(start)
            },
        }
    }

    /// Return the allocation that starts at `addr` and was made with
    /// `size` and `align`.  A node describing it is written at its address
    /// and becomes the new head of the free list; `used_mem` drops by the
    /// padded size.  The block must be exactly one outstanding allocation
    /// of this heap — the allocator performs no validation, so freeing
    /// anything else is the caller's fault.
    pub fn deallocate(&mut self, addr: usize, size: usize, align: usize)
        requires
            heap_wf(old(self)@),
            is_pow2(align as int),
            old(self)@.live.contains(
                Block { addr: addr as int, size: spec_adjust_size(size as int, align as int) },
            ),
        ensures
            heap_wf(final(self)@),
            final(self)@ == spec_deallocate(old(self)@, addr as int, size as int, align as int),
            final(self)@.used == old(self)@.used - spec_adjust_size(size as int, align as int),
            final(self)@.free == seq![
                Block { addr: addr as int, size: spec_adjust_size(size as int, align as int) },
            ] + old(self)@.free,
    {
        let ghost m0 = self@;
        let ghost sp_asize = spec_adjust_size(size as int, align as int);
        let ghost b = Block { addr: addr as int, size: sp_asize };
        proof {
            lemma_adjusted_align(align as int);
            lemma_adjusted_size(size as int, align as int);
            lemma_spec_deallocate_wf(m0, addr as int, size as int, align as int);
            let w = choose|j: int| 0 <= j < m0.live.len() && m0.live[j] == b;
            assert(m0.live[w].in_range(m0.low, m0.high));
            assert(sp_asize <= usize::MAX);
        }
        let aalign: usize = if align < NODE_ALIGN {
            NODE_ALIGN
        } else {
            align
        };
        let remainder: usize = size % aalign;
        let padded: usize = if remainder == 0 {
            size
        } else {
            size + (aalign - remainder)
        };
        let asize: usize = if padded < NODE_SIZE {
            NODE_SIZE
        } else {
            padded
        };
        assert(asize as int == sp_asize);
        let ghost v0 = self.free@;
        self.free.insert(0, FreeNode { addr, size: asize });
        self.used_mem = self.used_mem - asize;
        self.live = Ghost(m0.live.remove_value(b));
        proof {
            lemma_free_blocks_insert_front(v0, FreeNode { addr, size: asize });
            assert(self@ == spec_deallocate(m0, addr as int, size as int, align as int));
        }
    }
}

} // verus!
