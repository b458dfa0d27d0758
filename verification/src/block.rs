//! The ghost model of a byte range inside a managed memory region.
//!
//! A `Block` names the half-open address range `[addr, addr + size)`.  Both
//! allocators are specified over sequences of such blocks: the free regions
//! a heap still owns and the allocations currently handed out.

use vstd::prelude::*;

verus! {

/// A contiguous byte range `[addr, addr + size)`, described by plain
/// mathematical integers.
pub struct Block {
    pub addr: int,
    pub size: int,
}

impl Block {
    /// The first address past the range.
    pub open spec fn end(self) -> int {
        self.addr + self.size
    }

    /// Whether the two ranges share no byte.
    pub open spec fn disjoint_from(self, other: Block) -> bool {
        self.end() <= other.addr || other.end() <= self.addr
    }

    /// Whether `inner` lies entirely inside `self`.
    pub open spec fn covers(self, inner: Block) -> bool {
        self.addr <= inner.addr && inner.end() <= self.end()
    }

    /// Whether the range lies entirely inside `[low, high)`.
    pub open spec fn in_range(self, low: int, high: int) -> bool {
        low <= self.addr && self.end() <= high && self.size >= 0
    }
}

/// No two distinct entries of `s` overlap.
pub open spec fn pairwise_disjoint(s: Seq<Block>) -> bool {
    forall|i: int, j: int|
        0 <= i < s.len() && 0 <= j < s.len() && i != j ==> #[trigger] s[i].disjoint_from(s[j])
}

/// The total number of bytes the blocks of `s` describe.
pub open spec fn sum_sizes(s: Seq<Block>) -> int
    decreases s.len(),
{
    if s.len() == 0 {
        0
    } else {
        s[0].size + sum_sizes(s.drop_first())
    }
}

/// A range nested in a block stays clear of everything that block is clear
/// of.
pub proof fn lemma_covers_disjoint(outer: Block, inner: Block, other: Block)
    requires
        outer.covers(inner),
        outer.disjoint_from(other),
    ensures
        inner.disjoint_from(other),
{
}

/// Appending a block adds its size to the total.
pub proof fn lemma_sum_sizes_push(s: Seq<Block>, b: Block)
    ensures
        sum_sizes(s.push(b)) == sum_sizes(s) + b.size,
    decreases s.len(),
{
    let t = s.push(b);
    if s.len() == 0 {
        assert(t.len() == 1);
        assert(t[0] == b);
        assert(t.drop_first() =~= Seq::<Block>::empty());
        assert(sum_sizes(t.drop_first()) == 0);
        assert(sum_sizes(t) == t[0].size + sum_sizes(t.drop_first()));
    } else {
        assert(t[0] == s[0]);
        assert(t.drop_first() =~= s.drop_first().push(b));
        lemma_sum_sizes_push(s.drop_first(), b);
        assert(sum_sizes(t) == t[0].size + sum_sizes(t.drop_first()));
    }
}

/// Removing the entry at `i` subtracts its size from the total.
pub proof fn lemma_sum_sizes_remove(s: Seq<Block>, i: int)
    requires
        0 <= i < s.len(),
    ensures
        sum_sizes(s.remove(i)) == sum_sizes(s) - s[i].size,
    decreases s.len(),
{
    if i == 0 {
        assert(s.remove(0) =~= s.drop_first());
    } else {
        assert(s.remove(i)[0] == s[0]);
        assert(s.remove(i).drop_first() =~= s.drop_first().remove(i - 1));
        lemma_sum_sizes_remove(s.drop_first(), i - 1);
    }
}

/// With no negative sizes the total is not negative.
pub proof fn lemma_sum_sizes_nonneg(s: Seq<Block>)
    requires
        forall|i: int| 0 <= i < s.len() ==> (#[trigger] s[i]).size >= 0,
    ensures
        sum_sizes(s) >= 0,
    decreases s.len(),
{
    if s.len() > 0 {
        lemma_sum_sizes_nonneg(s.drop_first());
    }
}

/// With no negative sizes, one entry never exceeds the total.
pub proof fn lemma_sum_sizes_member_bound(s: Seq<Block>, i: int)
    requires
        0 <= i < s.len(),
        forall|j: int| 0 <= j < s.len() ==> (#[trigger] s[j]).size >= 0,
    ensures
        s[i].size <= sum_sizes(s),
{
    lemma_sum_sizes_remove(s, i);
    let r = s.remove(i);
    assert forall|j: int| 0 <= j < r.len() implies (#[trigger] r[j]).size >= 0 by {
        s.remove_ensures(i);
    }
    lemma_sum_sizes_nonneg(r);
}

/// Removing an entry keeps the remaining entries pairwise disjoint.
pub proof fn lemma_pairwise_disjoint_remove(s: Seq<Block>, i: int)
    requires
        pairwise_disjoint(s),
        0 <= i < s.len(),
    ensures
        pairwise_disjoint(s.remove(i)),
{
    let r = s.remove(i);
    s.remove_ensures(i);
    assert forall|a: int, b: int|
        0 <= a < r.len() && 0 <= b < r.len() && a != b implies #[trigger] r[a].disjoint_from(
        r[b],
    ) by {
        let a0 = if a < i { a } else { a + 1 };
        let b0 = if b < i { b } else { b + 1 };
        assert(r[a] == s[a0]);
        assert(r[b] == s[b0]);
        assert(s[a0].disjoint_from(s[b0]));
    }
}

/// Prepending a block that is clear of every entry keeps the sequence
/// pairwise disjoint.
pub proof fn lemma_pairwise_disjoint_prepend(b: Block, s: Seq<Block>)
    requires
        pairwise_disjoint(s),
        forall|i: int| 0 <= i < s.len() ==> b.disjoint_from(#[trigger] s[i]),
    ensures
        pairwise_disjoint(seq![b] + s),
{
    let t = seq![b] + s;
    assert forall|i: int, j: int|
        0 <= i < t.len() && 0 <= j < t.len() && i != j implies #[trigger] t[i].disjoint_from(
        t[j],
    ) by {
        if i == 0 {
            assert(t[j] == s[j - 1]);
        } else if j == 0 {
            assert(t[i] == s[i - 1]);
        } else {
            assert(t[i] == s[i - 1]);
            assert(t[j] == s[j - 1]);
            assert(s[i - 1].disjoint_from(s[j - 1]));
        }
    }
}

/// Appending a block that is clear of every entry keeps the sequence
/// pairwise disjoint.
pub proof fn lemma_pairwise_disjoint_push(s: Seq<Block>, b: Block)
    requires
        pairwise_disjoint(s),
        forall|i: int| 0 <= i < s.len() ==> b.disjoint_from(#[trigger] s[i]),
    ensures
        pairwise_disjoint(s.push(b)),
{
    let t = s.push(b);
    assert forall|i: int, j: int|
        0 <= i < t.len() && 0 <= j < t.len() && i != j implies #[trigger] t[i].disjoint_from(
        t[j],
    ) by {
        if i == s.len() {
            assert(t[i] == b);
            assert(t[j] == s[j]);
        } else if j == s.len() {
            assert(t[j] == b);
            assert(t[i] == s[i]);
        } else {
            assert(t[i] == s[i]);
            assert(t[j] == s[j]);
            assert(s[i].disjoint_from(s[j]));
        }
    }
}

/// Pairwise disjointness of a concatenation gives it for each part and
/// across the parts.
pub proof fn lemma_pairwise_disjoint_parts(a: Seq<Block>, b: Seq<Block>)
    requires
        pairwise_disjoint(a + b),
    ensures
        pairwise_disjoint(a),
        pairwise_disjoint(b),
        forall|i: int, j: int|
            0 <= i < a.len() && 0 <= j < b.len() ==> #[trigger] a[i].disjoint_from(b[j]),
{
    let t = a + b;
    assert forall|i: int, j: int|
        0 <= i < a.len() && 0 <= j < a.len() && i != j implies #[trigger] a[i].disjoint_from(
        a[j],
    ) by {
        assert(t[i] == a[i]);
        assert(t[j] == a[j]);
    }
    assert forall|i: int, j: int|
        0 <= i < b.len() && 0 <= j < b.len() && i != j implies #[trigger] b[i].disjoint_from(
        b[j],
    ) by {
        assert(t[a.len() + i] == b[i]);
        assert(t[a.len() + j] == b[j]);
    }
    assert forall|i: int, j: int|
        0 <= i < a.len() && 0 <= j < b.len() implies #[trigger] a[i].disjoint_from(b[j]) by {
        assert(t[i] == a[i]);
        assert(t[a.len() + j] == b[j]);
    }
}

/// The index of a block with the largest start address.
pub proof fn max_addr_index(s: Seq<Block>) -> (k: int)
    requires
        s.len() >= 1,
    ensures
        0 <= k < s.len(),
        forall|j: int| 0 <= j < s.len() ==> (#[trigger] s[j]).addr <= s[k].addr,
    decreases s.len(),
{
    if s.len() == 1 {
        0
    } else {
        let k2 = max_addr_index(s.drop_first());
        assert forall|j: int| 1 <= j < s.len() implies (#[trigger] s[j]).addr
            <= s.drop_first()[k2].addr by {
            assert(s.drop_first()[j - 1] == s[j]);
        }
        if s[0].addr >= s.drop_first()[k2].addr {
            0
        } else {
            k2 + 1
        }
    }
}

/// Pairwise disjoint blocks that all lie inside `[low, high)` and are all
/// non-empty cannot describe more bytes than the range holds.
pub proof fn lemma_disjoint_blocks_fit(s: Seq<Block>, low: int, high: int)
    requires
        low <= high,
        pairwise_disjoint(s),
        forall|i: int| 0 <= i < s.len() ==> (#[trigger] s[i]).in_range(low, high),
        forall|i: int| 0 <= i < s.len() ==> (#[trigger] s[i]).size >= 1,
    ensures
        sum_sizes(s) <= high - low,
    decreases s.len(),
{
    if s.len() == 0 {
    } else {
        let k = max_addr_index(s);
        let top = s[k];
        let rest = s.remove(k);
        s.remove_ensures(k);
        lemma_pairwise_disjoint_remove(s, k);
        assert forall|j: int| 0 <= j < rest.len() implies (#[trigger] rest[j]).in_range(
            low,
            top.addr,
        ) by {
            let j0 = if j < k { j } else { j + 1 };
            assert(rest[j] == s[j0]);
            assert(s[j0].disjoint_from(top));
            assert(s[j0].addr <= top.addr);
            if !(s[j0].end() <= top.addr) {
                assert(top.end() <= s[j0].addr);
                assert(top.addr + 1 <= top.end());
                assert(false);
            }
        }
        assert forall|j: int| 0 <= j < rest.len() implies (#[trigger] rest[j]).size >= 1 by {
            let j0 = if j < k { j } else { j + 1 };
            assert(rest[j] == s[j0]);
        }
        assert(low <= top.addr);
        lemma_disjoint_blocks_fit(rest, low, top.addr);
        lemma_sum_sizes_remove(s, k);
        assert(top.end() <= high);
    }
}

} // verus!
