//! The global allocation interface.
//!
//! The rest of the firmware sees dynamic memory through exactly one door:
//! allocate by size and alignment, deallocate what allocate handed out.
//! The process-wide allocator instance sits behind the busy-wait mutex, and
//! every call locks it, works on the guarded state, and releases — no code
//! path touches allocator state outside a held guard.

use vstd::prelude::*;

verus! {

use crate::bump::{bump_wf, spec_bump_allocate, spec_bump_deallocate, BumpAllocator};
use crate::free_list::{
    heap_wf,
    spec_adjust_size,
    spec_allocate,
    spec_deallocate,
    LinkedListAllocator,
};
use crate::block::Block;
use crate::layout::is_pow2;
use crate::sync::Mutex;

impl Mutex<BumpAllocator> {
    /// The arena-backed allocation entry point: lock the arena, allocate,
    /// release.  The mutex must be at rest — the single-core firmware
    /// never calls the allocator while already holding its lock.
    pub fn allocate(&mut self, size: usize, align: usize) -> (r: Option<usize>)
        requires
            old(self).wf(),
            !old(self).locked(),
            bump_wf(old(self).stored().unwrap()@),
            1 <= align,
        ensures
            final(self).wf(),
            !final(self).locked(),
            final(self).stored() is Some,
            bump_wf(final(self).stored().unwrap()@),
            ({
                let m0 = old(self).stored().unwrap()@;
                let m1 = final(self).stored().unwrap()@;
                &&& m1 == spec_bump_allocate(m0, size as int, align as int).0
                &&& match r {
                    Some(a) => spec_bump_allocate(m0, size as int, align as int).1 == Some(
                        a as int,
                    ),
                    None => spec_bump_allocate(m0, size as int, align as int).1 is None,
                }
            }),
    {
        match self.lock() {
            Ok(mut guard) => {
                let r = guard.value.allocate(size, align);
                self.unlock(guard);
                r
            },
            Err(_) => None,
        }
    }

    /// The arena-backed deallocation entry point: lock, return `size`
    /// bytes, release.  The arena ignores the block's address — space only
    /// comes back when everything does.
    pub fn deallocate(&mut self, size: usize)
        requires
            old(self).wf(),
            !old(self).locked(),
            bump_wf(old(self).stored().unwrap()@),
            size as int <= old(self).stored().unwrap()@.used,
        ensures
            final(self).wf(),
            !final(self).locked(),
            final(self).stored() is Some,
            bump_wf(final(self).stored().unwrap()@),
            final(self).stored().unwrap()@ == spec_bump_deallocate(
                old(self).stored().unwrap()@,
                size as int,
            ),
    {
        match self.lock() {
            Ok(mut guard) => {
                guard.value.deallocate(size);
                self.unlock(guard);
            },
            Err(_) => {},
        }
    }
}

impl Mutex<LinkedListAllocator> {
    /// The free-list-backed allocation entry point: lock the heap,
    /// allocate first-fit, release.
    pub fn allocate(&mut self, size: usize, align: usize) -> (r: Option<usize>)
        requires
            old(self).wf(),
            !old(self).locked(),
            heap_wf(old(self).stored().unwrap()@),
            is_pow2(align as int),
        ensures
            final(self).wf(),
            !final(self).locked(),
            final(self).stored() is Some,
            heap_wf(final(self).stored().unwrap()@),
            ({
                let m0 = old(self).stored().unwrap()@;
                let m1 = final(self).stored().unwrap()@;
                &&& m1 == spec_allocate(m0, size as int, align as int).0
                &&& match r {
                    Some(a) => spec_allocate(m0, size as int, align as int).1 == Some(a as int),
                    None => spec_allocate(m0, size as int, align as int).1 is None,
                }
            }),
    {
        match self.lock() {
            Ok(mut guard) => {
                let r = guard.value.allocate(size, align);
                self.unlock(guard);
                r
            },
            Err(_) => None,
        }
    }

    /// The free-list-backed deallocation entry point: lock, push the freed
    /// block on the free list, release.  The block must be exactly one
    /// outstanding allocation of this heap, identified by the address,
    /// size and alignment it was allocated with.
    pub fn deallocate(&mut self, addr: usize, size: usize, align: usize)
        requires
            old(self).wf(),
            !old(self).locked(),
            heap_wf(old(self).stored().unwrap()@),
            is_pow2(align as int),
            old(self).stored().unwrap()@.live.contains(
                Block { addr: addr as int, size: spec_adjust_size(size as int, align as int) },
            ),
        ensures
            final(self).wf(),
            !final(self).locked(),
            final(self).stored() is Some,
            heap_wf(final(self).stored().unwrap()@),
            final(self).stored().unwrap()@ == spec_deallocate(
                old(self).stored().unwrap()@,
                addr as int,
                size as int,
                align as int,
            ),
    {
        match self.lock() {
            Ok(mut guard) => {
                guard.value.deallocate(addr, size, align);
                self.unlock(guard);
            },
            Err(_) => {},
        }
    }
}

} // verus!
