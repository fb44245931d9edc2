//! A bump allocator over a fixed heap window: memory is never given back.
use vstd::prelude::*;

verus! {

/// The first address of the heap window.
pub const HEAP_START: usize = 0xC000_0000;

/// The end of the heap window; no allocation reaches it.
pub const HEAP_END: usize = 0xD000_0000;

/// `p` rounded down by clearing the bits below `align` (for a power of two, the multiple of
/// `align` at or below `p`).
pub open spec fn align_down(p: usize, align: usize) -> usize {
    p & !((align - 1) as usize)
}

/// The heap pointer: where the next allocation starts, before it is aligned.
pub struct BumpHeap {
    pub next: usize,
}

impl BumpHeap {
    pub open spec fn wf(&self) -> bool {
        self.next < HEAP_END
    }

    /// A heap whose pointer is at the start of the window.
    pub fn new() -> (h: Self)
        ensures
            h.wf(),
            h.next == HEAP_START,
    {
        BumpHeap { next: HEAP_START }
    }

    /// Allocates `size` bytes: the heap pointer is rounded down to `align` and, unless the
    /// block would reach the end of the window (then the null pointer 0 is returned and nothing
    /// changes), the block starts there and the pointer moves past it.
    pub fn rust_allocate(&mut self, size: usize, align: usize) -> (r: usize)
        requires
            old(self).wf(),
            align >= 1,
            size <= usize::MAX - HEAP_END,
        ensures
            final(self).wf(),
            align_down(old(self).next, align) + size >= HEAP_END ==> r == 0 && *final(self) == *old(
                self,
            ),
            align_down(old(self).next, align) + size < HEAP_END ==> r == align_down(
                old(self).next,
                align,
            ) && final(self).next == r + size,
    {
        let p = self.next;
        let m = !(align - 1);
        proof {
            assert(p & m <= p) by (bit_vector);
        }
        let new_heap_ptr = p & m;
        if new_heap_ptr + size >= HEAP_END {
            0
        } else {
            self.next = new_heap_ptr + size;
            new_heap_ptr
        }
    }

    /// Reallocates the block at `ptr` (of `old_size` bytes) as `size` bytes: a new block is
    /// allocated as `rust_allocate` does and, unless `ptr` is null, the caller copies `old_size`
    /// bytes from `ptr` to it. Returns `(result, copy_to, copy_len)`: the pointer handed back to
    /// the caller of reallocation is `ptr` itself, `copy_to` is the new block and `copy_len` the
    /// number of bytes to copy there.
    pub fn rust_reallocate(&mut self, ptr: usize, old_size: usize, size: usize, align: usize) -> (r: (
        usize,
        usize,
        usize,
    ))
        requires
            old(self).wf(),
            align >= 1,
            size <= usize::MAX - HEAP_END,
        ensures
            final(self).wf(),
            r.0 == ptr,
            r.2 == if ptr == 0 {
                0
            } else {
                old_size
            },
            align_down(old(self).next, align) + size >= HEAP_END ==> r.1 == 0 && *final(self)
                == *old(self),
            align_down(old(self).next, align) + size < HEAP_END ==> r.1 == align_down(
                old(self).next,
                align,
            ) && final(self).next == r.1 + size,
    {
        let new_ptr = self.rust_allocate(size, align);
        let copy_len = if ptr == 0 {
            0
        } else {
            old_size
        };
        (ptr, new_ptr, copy_len)
    }
}

/// Growing a block in place always reports the block's old size.
pub fn rust_reallocate_inplace(ptr: usize, old_size: usize, size: usize, align: usize) -> (r: usize)
    ensures
        r == old_size,
{
    old_size
}

/// Blocks are never freed.
pub fn rust_deallocate(ptr: usize, old_size: usize, align: usize) {
}

/// The usable size of a request is the request itself.
pub fn rust_usable_size(size: usize, align: usize) -> (r: usize)
    ensures
        r == size,
{
    size
}

/// There are no statistics to print.
pub fn rust_stats_print() {
}

/// For a power-of-two `align`, rounding down clears exactly the bits below `align`: the
/// result is at or below `p`, has no bit below `align` set, and lies `p`'s remainder below it.
pub proof fn lemma_align_down(p: usize, k: usize)
    requires
        k < usize::BITS,
    ensures
        align_down(p, 1usize << k) <= p,
        align_down(p, 1usize << k) & (((1usize << k) - 1) as usize) == 0,
        p - align_down(p, 1usize << k) == p & (((1usize << k) - 1) as usize),
{
    let a = 1usize << k;
    assert(a >= 1) by (bit_vector)
        requires
            a == 1usize << k,
            k < usize::BITS,
    ;
    let m = (a - 1) as usize;
    assert((p & !m) <= p && (p & !m) & m == 0 && p - (p & !m) == p & m) by (bit_vector);
}

} // verus!
