//! The kernel heap: a bump allocator over the RAM after the kernel image.
//! It only hands out fresh memory, and starts over once every allocation
//! has been given back.
use vstd::prelude::*;

verus! {

/// `x` rounded up to a multiple of `align`.
pub open spec fn align_up(x: int, align: int) -> int {
    ((x + align - 1) / align) * align
}

/// A bump allocator.
pub struct BumpAllocator {
    pub(crate) heap_start: usize,
    pub(crate) heap_end: usize,
    pub(crate) next: usize,
    pub(crate) allocations: usize,
}

impl BumpAllocator {
    pub open(crate) spec fn spec_heap_start(&self) -> usize {
        self.heap_start
    }

    pub open(crate) spec fn spec_heap_end(&self) -> usize {
        self.heap_end
    }

    /// Where the next allocation starts looking.
    pub open(crate) spec fn spec_next(&self) -> usize {
        self.next
    }

    /// Allocations not yet given back.
    pub open(crate) spec fn spec_allocations(&self) -> usize {
        self.allocations
    }

    /// An allocator over an empty heap.
    pub fn new() -> (r: BumpAllocator)
        ensures
            r.spec_heap_start() == 0,
            r.spec_heap_end() == 0,
            r.spec_next() == 0,
            r.spec_allocations() == 0,
    {
        BumpAllocator { heap_start: 0, heap_end: 0, next: 0, allocations: 0 }
    }

    /// Sets the heap to the `heap_size` bytes from `heap_start`. Meant to be
    /// called once, on an unused heap.
    pub fn init(&mut self, heap_start: usize, heap_size: usize)
        requires
            heap_start + heap_size <= usize::MAX,
        ensures
            final(self).spec_heap_start() == heap_start,
            final(self).spec_heap_end() == heap_start + heap_size,
            final(self).spec_next() == heap_start,
            final(self).spec_allocations() == old(self).spec_allocations(),
    {
        self.heap_start = heap_start;
        self.heap_end = heap_start + heap_size;
        self.next = heap_start;
    }

    /// Allocates `size` bytes aligned to `align` (a power of two, for any
    /// layout) right after the previous allocation. `None` when the heap has
    /// no room left.
    pub fn allocate(&mut self, size: usize, align: usize) -> (r: Option<usize>)
        requires
            align > 0,
            old(self).spec_next() + align - 1 <= usize::MAX,
            old(self).spec_allocations() < usize::MAX,
        ensures
            ({
                let start = align_up(old(self).spec_next() as int, align as int);
                if start + size > old(self).spec_heap_end() {
                    r is None && *final(self) == *old(self)
                } else {
                    &&& r == Some(start as usize)
                    &&& final(self).spec_next() == start + size
                    &&& final(self).spec_allocations() == old(self).spec_allocations() + 1
                    &&& final(self).spec_heap_start() == old(self).spec_heap_start()
                    &&& final(self).spec_heap_end() == old(self).spec_heap_end()
                }
            }),
    {
        let bumped = self.next + (align - 1);
        // Round down to a multiple of the alignment.
        let alloc_start = bumped - bumped % align;
        proof {
            vstd::arithmetic::div_mod::lemma_fundamental_div_mod(bumped as int, align as int);
            vstd::arithmetic::mul::lemma_mul_is_commutative(align as int, bumped as int / align as int);
            assert(alloc_start as int == align_up(self.next as int, align as int));
        }
        let alloc_end = match alloc_start.checked_add(size) {
            Some(end) => end,
            None => return None,
        };
        if alloc_end > self.heap_end {
            None
        } else {
            self.next = alloc_end;
            self.allocations = self.allocations + 1;
            Some(alloc_start)
        }
    }

    /// Gives back one allocation. Once none is left, the whole heap is free
    /// again.
    pub fn deallocate(&mut self)
        requires
            old(self).spec_allocations() > 0,
        ensures
            final(self).spec_allocations() == old(self).spec_allocations() - 1,
            final(self).spec_next() == if final(self).spec_allocations() == 0 {
                old(self).spec_heap_start()
            } else {
                old(self).spec_next()
            },
            final(self).spec_heap_start() == old(self).spec_heap_start(),
            final(self).spec_heap_end() == old(self).spec_heap_end(),
    {
        self.allocations = self.allocations - 1;
        if self.allocations == 0 {
            self.next = self.heap_start;
        }
    }
}

} // verus!
