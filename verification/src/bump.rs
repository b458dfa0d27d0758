//! The bump/arena allocator.
//!
//! A fast, low-fragmentation allocator over a fixed address range: every
//! allocation advances a cursor, and no space is reclaimed until every
//! outstanding allocation has been returned.  Once the tracked usage drops
//! back to zero the arena resets its cursor to the start of the range (on
//! hardware the reset also wipes the used span, a hygiene step the address
//! model does not need to track); this crate makes that choice explicit, so
//! a fully drained arena is reusable from the start of its range.

use vstd::prelude::*;

verus! {

use crate::layout::{checked_align_up, lemma_align_up, spec_align_up};

/// First byte of the address range the firmware reserves for this arena.
pub const LOW_ADDR: usize = 0x3F80_0000;

/// First address the arena must not hand out; allocations end at or before
/// it.
pub const HIGH_ADDR: usize = 0x3FBF_FFFF;

/// The ghost state of a bump arena: its address range, the cursor where the
/// next allocation starts, and the number of bytes currently live.
pub struct BumpModel {
    pub low: int,
    pub high: int,
    pub current: int,
    pub used: int,
}

/// Well-formedness of an arena: the cursor stays inside the range and the
/// live byte count never exceeds the span the cursor has crossed.
pub open spec fn bump_wf(m: BumpModel) -> bool {
    &&& 0 <= m.low <= m.current <= m.high <= usize::MAX
    &&& 0 <= m.used <= m.current - m.low
}

/// One allocation step: round the cursor up to the alignment; if `size`
/// bytes then fit below `high`, advance the cursor past them and hand out
/// the rounded address, else leave the arena untouched and fail.
pub open spec fn spec_bump_allocate(m: BumpModel, size: int, align: int) -> (BumpModel, Option<
    int,
>) {
    let start = spec_align_up(m.current, align);
    if start + size <= m.high {
        (
            BumpModel { low: m.low, high: m.high, current: start + size, used: m.used + size },
            Some(start),
        )
    } else {
        (m, None)
    }
}

/// One deallocation step: drop `size` bytes from the live count; when the
/// count reaches zero the arena is empty and the cursor returns to `low`.
pub open spec fn spec_bump_deallocate(m: BumpModel, size: int) -> BumpModel {
    if m.used - size == 0 {
        BumpModel { low: m.low, high: m.high, current: m.low, used: 0 }
    } else {
        BumpModel { low: m.low, high: m.high, current: m.current, used: m.used - size }
    }
}

/// The arena allocator.  It manages addresses only; it never touches the
/// bytes those addresses name.
pub struct BumpAllocator {
    used_mem: usize,
    current: usize,
    low: usize,
    high: usize,
}

impl View for BumpAllocator {
    type V = BumpModel;

    closed spec fn view(&self) -> BumpModel {
        BumpModel {
            low: self.low as int,
            high: self.high as int,
            current: self.current as int,
            used: self.used_mem as int,
        }
    }
}

impl BumpAllocator {
    /// A fresh arena over the firmware's reserved range.
    pub fn new() -> (r: Self)
        ensures
            r@ == (BumpModel {
                low: LOW_ADDR as int,
                high: HIGH_ADDR as int,
                current: LOW_ADDR as int,
                used: 0,
            }),
            bump_wf(r@),
    {
        Self { used_mem: 0, current: LOW_ADDR, low: LOW_ADDR, high: HIGH_ADDR }
    }

    /// A fresh arena over a caller-chosen range, for synthetic address
    /// ranges in tests and host builds.
    pub fn with_range(low: usize, high: usize) -> (r: Self)
        requires
            low <= high,
        ensures
            r@ == (BumpModel { low: low as int, high: high as int, current: low as int, used: 0 }),
            bump_wf(r@),
    {
        Self { used_mem: 0, current: low, low, high }
    }

    /// The smallest multiple of `align` that is at least `addr`.
    pub fn align(addr: usize, align: usize) -> (r: usize)
        requires
            1 <= align,
            spec_align_up(addr as int, align as int) <= usize::MAX,
        ensures
            r as int == spec_align_up(addr as int, align as int),
    {
        proof {
            lemma_align_up(addr as int, align as int);
            vstd::arithmetic::div_mod::lemma_mod_decreases(addr as nat, align as nat);
        }
        let remainder: usize = addr % align;
        if remainder == 0 {
            addr
        } else {
            addr - remainder + align
        }
    }

    /// Bytes currently live in the arena.
    pub fn used_mem(&self) -> (r: usize)
        ensures
            r as int == self@.used,
    {
        self.used_mem
    }

    /// The cursor: the lowest address the next allocation may use.
    pub fn current(&self) -> (r: usize)
        ensures
            r as int == self@.current,
    {
        self.current
    }

    /// First byte of the managed range.
    pub fn low(&self) -> (r: usize)
        ensures
            r as int == self@.low,
    {
        self.low
    }

    /// First address past the managed range.
    pub fn high(&self) -> (r: usize)
        ensures
            r as int == self@.high,
    {
        self.high
    }

    /// Hand out `size` bytes at the cursor rounded up to `align`, or fail
    /// without changing anything when they do not fit below `high`.  The
    /// cursor never moves backward here, whatever the outcome.
    pub fn allocate(&mut self, size: usize, align: usize) -> (r: Option<usize>)
        requires
            bump_wf(old(self)@),
            1 <= align,
        ensures
            bump_wf(final(self)@),
            final(self)@ == spec_bump_allocate(old(self)@, size as int, align as int).0,
            match r {
                Some(a) => {
                    &&& spec_bump_allocate(old(self)@, size as int, align as int).1 == Some(
                        a as int,
                    )
                    &&& a as int % align as int == 0
                    &&& old(self)@.current <= a as int
                    &&& a + size <= old(self)@.high
                },
                None => spec_bump_allocate(old(self)@, size as int, align as int).1 is None,
            },
            final(self)@.current >= old(self)@.current,
            final(self)@.low == old(self)@.low,
            final(self)@.high == old(self)@.high,
    {
        proof {
            lemma_align_up(self.current as int, align as int);
        }
        match checked_align_up(self.current, align) {
            None => None,
            Some(aligned_addr) => {
                match aligned_addr.checked_add(size) {
                    None => None,
                    Some(alloc_end) => {
                        if alloc_end > self.high {
                            None
                        } else {
                            self.used_mem = self.used_mem + size;
                            self.current = alloc_end;
                            Some(aligned_addr)
                        }
                    },
                }
            },
        }
    }

    /// Return `size` bytes to the arena.  Returning more than is live would
    /// be an unrecoverable bookkeeping fault, so the caller must not.  When
    /// the live count reaches zero the arena resets: the cursor returns to
    /// `low` and the whole range is reusable.
    pub fn deallocate(&mut self, size: usize)
        requires
            bump_wf(old(self)@),
            size as int <= old(self)@.used,
        ensures
            bump_wf(final(self)@),
            final(self)@ == spec_bump_deallocate(old(self)@, size as int),
            final(self)@.used == old(self)@.used - size,
            final(self)@.used > 0 ==> final(self)@.current == old(self)@.current,
            final(self)@.used == 0 ==> final(self)@.current == final(self)@.low,
            final(self)@.low == old(self)@.low,
            final(self)@.high == old(self)@.high,
    {
        self.used_mem = self.used_mem - size;
        if self.used_mem == 0 {
            self.clear();
        }
    }

    /// Reset an empty arena: the cursor returns to `low`.  On hardware this
    /// step also zeroes the span `[low, current)` so stale data cannot leak
    /// into future allocations; the address model has no bytes to wipe.
    fn clear(&mut self)
        requires
            bump_wf(old(self)@),
            old(self)@.used == 0,
        ensures
            final(self)@ == (BumpModel {
                low: old(self)@.low,
                high: old(self)@.high,
                current: old(self)@.low,
                used: 0,
            }),
    {
        self.current = self.low;
    }
}

/// One requested allocation: a size and an alignment.
pub struct BumpRequest {
    pub size: int,
    pub align: int,
}

/// A request the allocation interface accepts.
pub open spec fn bump_request_valid(r: BumpRequest) -> bool {
    r.align >= 1 && r.size >= 0
}

/// The arena after a run of allocations (each applied whether or not it
/// succeeds).
pub open spec fn bump_run(m: BumpModel, reqs: Seq<BumpRequest>) -> BumpModel
    decreases reqs.len(),
{
    if reqs.len() == 0 {
        m
    } else {
        bump_run(spec_bump_allocate(m, reqs[0].size, reqs[0].align).0, reqs.drop_first())
    }
}

/// Whether every allocation in the run succeeds.
pub open spec fn bump_run_succeeds(m: BumpModel, reqs: Seq<BumpRequest>) -> bool
    decreases reqs.len(),
{
    if reqs.len() == 0 {
        true
    } else {
        &&& bump_request_valid(reqs[0])
        &&& spec_bump_allocate(m, reqs[0].size, reqs[0].align).1 is Some
        &&& bump_run_succeeds(
            spec_bump_allocate(m, reqs[0].size, reqs[0].align).0,
            reqs.drop_first(),
        )
    }
}

/// The bytes a run of allocations consumes starting at cursor `current`:
/// for each request, the padding up to its alignment plus its size.
pub open spec fn aligned_total(current: int, reqs: Seq<BumpRequest>) -> int
    decreases reqs.len(),
{
    if reqs.len() == 0 {
        0
    } else {
        let start = spec_align_up(current, reqs[0].align);
        (start - current) + reqs[0].size + aligned_total(start + reqs[0].size, reqs.drop_first())
    }
}

/// After any run of successful allocations the cursor sits exactly at its
/// old position plus the aligned sizes of the requests; on a fresh arena
/// that is `low` plus the aligned sizes.
pub proof fn lemma_bump_run_current(m: BumpModel, reqs: Seq<BumpRequest>)
    requires
        bump_run_succeeds(m, reqs),
    ensures
        bump_run(m, reqs).current == m.current + aligned_total(m.current, reqs),
        bump_run(m, reqs).low == m.low,
        bump_run(m, reqs).high == m.high,
    decreases reqs.len(),
{
    if reqs.len() > 0 {
        let m1 = spec_bump_allocate(m, reqs[0].size, reqs[0].align).0;
        lemma_bump_run_current(m1, reqs.drop_first());
    }
}

/// One step of the arena's interface.
pub enum BumpOp {
    Allocate { size: int, align: int },
    Deallocate { size: int },
}

/// The arena after one step.
pub open spec fn bump_apply(m: BumpModel, op: BumpOp) -> BumpModel {
    match op {
        BumpOp::Allocate { size, align } => spec_bump_allocate(m, size, align).0,
        BumpOp::Deallocate { size } => spec_bump_deallocate(m, size),
    }
}

/// The arena after a sequence of steps.
pub open spec fn bump_apply_all(m: BumpModel, ops: Seq<BumpOp>) -> BumpModel
    decreases ops.len(),
{
    if ops.len() == 0 {
        m
    } else {
        bump_apply_all(bump_apply(m, ops[0]), ops.drop_first())
    }
}

/// Whether a sequence of steps is valid and never lets the live byte count
/// reach zero on a deallocation — that is, some allocation stays live
/// throughout.
pub open spec fn bump_ops_keep_live(m: BumpModel, ops: Seq<BumpOp>) -> bool
    decreases ops.len(),
{
    if ops.len() == 0 {
        true
    } else {
        &&& match ops[0] {
            BumpOp::Allocate { size, align } => size >= 0 && align >= 1,
            BumpOp::Deallocate { size } => 0 <= size && m.used - size > 0,
        }
        &&& bump_ops_keep_live(bump_apply(m, ops[0]), ops.drop_first())
    }
}

/// While any allocation stays live, no interleaving of allocations and
/// deallocations ever moves the cursor backward.
pub proof fn lemma_bump_current_monotone(m: BumpModel, ops: Seq<BumpOp>)
    requires
        0 <= m.current,
        bump_ops_keep_live(m, ops),
    ensures
        bump_apply_all(m, ops).current >= m.current,
    decreases ops.len(),
{
    if ops.len() > 0 {
        let m1 = bump_apply(m, ops[0]);
        match ops[0] {
            BumpOp::Allocate { size, align } => {
                lemma_align_up(m.current, align);
            },
            BumpOp::Deallocate { size } => {},
        }
        lemma_bump_current_monotone(m1, ops.drop_first());
    }
}

/// After the arena has fully drained and reset, a request for more bytes
/// than the whole range holds still fails, and a request whose aligned end
/// fits the range succeeds.
pub proof fn lemma_bump_after_drain(m: BumpModel, size: int, align: int)
    requires
        bump_wf(m),
        m.used == 0,
        m.current == m.low,
        align >= 1,
        size >= 0,
    ensures
        size > m.high - m.low ==> spec_bump_allocate(m, size, align).1 is None,
        spec_align_up(m.low, align) + size <= m.high ==> spec_bump_allocate(m, size, align).1
            == Some(spec_align_up(m.low, align)),
    decreases size,
{
    lemma_align_up(m.low, align);
}

} // verus!
