use vstd::prelude::*;
use crate::kernel::malloc::spec::{span, lemma_span_shift, lemma_span_monotone, lemma_span_values, lemma_span_positive};

verus! {

/// log2 of the smallest block, in bytes.
pub const BLOCK_BITS: u8 = 5;

/// The largest order of a block: the heap is two blocks of this order.
pub const MAX_ORDER: u8 = 22;

/// The order of a block of `size` bytes: the smallest `o` with `2^(o + BLOCK_BITS) >= size`.
pub open spec fn order_for(size: nat) -> nat
    decreases size,
{
    if size <= 32 {
        0
    } else {
        1 + order_for(((size + 1) / 2) as nat)
    }
}

/// `order_for` is the least order whose blocks hold `size` bytes.
pub proof fn lemma_order_for(size: nat)
    ensures
        span(order_for(size) + 5) >= size,
        order_for(size) == 0 || span((order_for(size) + 4) as nat) < size,
    decreases size,
{
    if size > 32 {
        let h = ((size + 1) / 2) as nat;
        lemma_order_for(h);
        assert(span(order_for(size) + 5) == 2 * span(order_for(h) + 5));
        if order_for(h) > 0 {
            assert(span((order_for(size) + 4) as nat) == 2 * span((order_for(h) + 4) as nat));
        } else {
            lemma_span_values();
        }
    } else {
        lemma_span_values();
    }
}

/// The order of the smallest block that holds `size` bytes, computed by rounding `size` up to a
/// power of two and taking its logarithm.
fn order_of(size: usize) -> (r: u8)
    requires
        size <= 0x8000_0000,
    ensures
        r as nat == order_for(size as nat),
        r <= 26,
{
    let mut rounded: usize = 1;
    let mut log: u8 = 0;
    proof {
        lemma_span_shift(0);
    }
    while rounded < size
        invariant
            size <= 0x8000_0000,
            log <= 31,
            1 <= rounded <= 0x8000_0000,
            rounded as nat == span(log as nat),
            log == 0 || span((log - 1) as nat) < size,
        decreases 0x8000_0000 - rounded,
    {
        proof {
            lemma_span_monotone(log as nat, 31);
            lemma_span_values();
            if log == 31 {
                assert(false);
            }
            lemma_span_monotone(log as nat, 30);
            lemma_span_values();
            assert(span(30) * 2 == span(31));
        }
        rounded = rounded * 2;
        log = log + 1;
        assert(rounded <= 0x8000_0000);
    }
    proof {
        lemma_order_of_log(size as nat, log as nat);
    }
    if log < BLOCK_BITS {
        0
    } else {
        log - BLOCK_BITS
    }
}

proof fn lemma_order_of_log(size: nat, log: nat)
    requires
        span(log) >= size,
        log == 0 || span((log - 1) as nat) < size,
        log <= 31,
    ensures
        order_for(size) == if log < 5 { 0 } else { (log - 5) as nat },
    decreases size,
{
    lemma_order_for(size);
    let o = order_for(size);
    let want: nat = if log < 5 { 0 } else { (log - 5) as nat };
    if o < want {
        lemma_span_monotone(o + 5, (log - 1) as nat);
    } else if o > want {
        lemma_span_monotone(if log < 5 { 5 } else { log }, (o + 4) as nat);
        if log < 5 {
            lemma_span_monotone(log, 5);
            lemma_span_values();
        }
    }
}

/// The usable size of a block of order `order`: its size in bytes less the header byte.
pub fn block_size(order: u8) -> (r: usize)
    requires
        order <= 26,
    ensures
        r + 1 == span(order as nat + 5),
{
    proof {
        lemma_span_shift(order as nat + 5);
        lemma_span_positive(order as nat + 5);
    }
    (1usize << (order + BLOCK_BITS)) - 1
}

/// The order of the block that serves a request of `size` bytes aligned to `align`.
pub fn to_order(size: usize, align: usize) -> (r: u8)
    requires
        size <= 0x8000_0000,
        align <= 0x8000_0000,
    ensures
        r as nat == request_order(size as nat, align as nat),
        r <= 26,
{
    let a = order_of(size);
    let b = order_of(align);
    if a < b {
        b
    } else {
        a
    }
}

/// The order that `to_order` picks for `size` and `align`.
pub open spec fn request_order(size: nat, align: nat) -> nat {
    let a = order_for(size);
    let b = order_for(align);
    if a < b {
        b
    } else {
        a
    }
}

/// The number of bytes a request of `size` bytes aligned to `align` may use.
pub fn rust_usable_size(size: usize, align: usize) -> (r: usize)
    requires
        size < 0x8000_0000,
        align <= 0x8000_0000,
    ensures
        r + 1 == span(request_order(size as nat + 1, align as nat) + 5),
{
    let order = to_order(size + 1, align);
    block_size(order)
}

/// A request is always served by a block that holds it: the usable size of the block picked
/// for `size` bytes is at least `size`, and the block is aligned at least to `align`.
pub proof fn lemma_request_fits(size: nat, align: nat)
    ensures
        span(request_order(size + 1, align) + 5) >= size + 1,
        span(request_order(size + 1, align) + 5) >= align,
{
    lemma_order_for(size + 1);
    lemma_order_for(align);
    let o = request_order(size + 1, align);
    lemma_span_monotone(order_for(size + 1) + 5, o + 5);
    lemma_span_monotone(order_for(align) + 5, o + 5);
}

/// The order picked for a request is the least one that serves it: its blocks hold `size` bytes
/// and are aligned to `align`, and a block of the order below would fail one of the two.
pub proof fn lemma_request_order_least(size: nat, align: nat)
    ensures
        span(request_order(size, align) + 5) >= size,
        span(request_order(size, align) + 5) >= align,
        request_order(size, align) == 0
            || span((request_order(size, align) + 4) as nat) < size
            || span((request_order(size, align) + 4) as nat) < align,
{
    lemma_order_for(size);
    lemma_order_for(align);
    let a = order_for(size);
    let b = order_for(align);
    let o = request_order(size, align);
    lemma_span_monotone(a + 5, o + 5);
    lemma_span_monotone(b + 5, o + 5);
    if o > 0 {
        if o == a {
            assert(span((a + 4) as nat) < size);
        } else {
            assert(o == b);
            assert(span((b + 4) as nat) < align);
        }
    }
}

} // verus!
