use vstd::prelude::*;

verus! {

/// `2^k`, the number of smallest blocks in a block of order `k`.
pub open spec fn span(k: nat) -> nat
    decreases k,
{
    if k == 0 {
        1
    } else {
        2 * span((k - 1) as nat)
    }
}

pub proof fn lemma_span_positive(k: nat)
    ensures
        span(k) >= 1,
    decreases k,
{
    if k > 0 {
        lemma_span_positive((k - 1) as nat);
    }
}

pub proof fn lemma_span_monotone(a: nat, b: nat)
    requires
        a <= b,
    ensures
        span(a) <= span(b),
    decreases b,
{
    if a < b {
        lemma_span_monotone(a, (b - 1) as nat);
        lemma_span_positive((b - 1) as nat);
    }
}

pub proof fn lemma_span_values()
    ensures
        span(4) == 16,
        span(5) == 32,
        span(22) == 0x40_0000,
        span(23) == 0x80_0000,
        span(27) == 0x800_0000,
        span(28) == 0x1000_0000,
        span(31) == 0x8000_0000,
{
    reveal_with_fuel(span, 32);
}

proof fn lemma_shift_doubles()
    ensures
        (1usize << 0usize) == 1,
        (1u32 << 0u32) == 1,
        forall|j: usize| j < 31 ==> (1usize << #[trigger] (j + 1)) == 2 * (1usize << j),
        forall|j: u32| j < 31 ==> (1u32 << #[trigger] (j + 1)) == 2 * (1u32 << j),
{
    assert((1usize << 0usize) == 1 && forall|j: usize|
        j < 31 ==> (1usize << #[trigger] (j + 1)) == 2 * (1usize << j)) by (bit_vector);
    assert((1u32 << 0u32) == 1 && forall|j: u32|
        j < 31 ==> (1u32 << #[trigger] (j + 1)) == 2 * (1u32 << j)) by (bit_vector);
}

/// `1 << k` is `span(k)`.
pub proof fn lemma_span_shift(k: nat)
    requires
        k < 32,
    ensures
        (1usize << (k as usize)) as nat == span(k),
        (1u32 << (k as u32)) as nat == span(k),
    decreases k,
{
    lemma_shift_doubles();
    if k > 0 {
        lemma_span_shift((k - 1) as nat);
        let j = (k - 1) as usize;
        let j32 = (k - 1) as u32;
        assert(k as usize == j + 1);
        assert(k as u32 == j32 + 1);
        assert((1usize << (j + 1)) == 2 * (1usize << j));
        assert((1u32 << (j32 + 1)) == 2 * (1u32 << j32));
    }
}

/// `2^(a + b) = 2^a * 2^b`.
pub proof fn lemma_span_add(a: nat, b: nat)
    ensures
        span(a + b) == span(a) * span(b),
    decreases b,
{
    if b > 0 {
        lemma_span_add(a, (b - 1) as nat);
        assert(span(a + b) == 2 * span((a + b - 1) as nat));
        let x = span(a) as int;
        let y = span((b - 1) as nat) as int;
        assert(2 * (x * y) == x * (2 * y)) by (nonlinear_arith);
        assert(span(b) == 2 * y);
        assert((a + b - 1) as nat == a + (b - 1) as nat);
    } else {
        assert(span(a) * 1 == span(a));
    }
}

proof fn lemma_div_mod_exact(g: int, m: int)
    requires
        g >= 0,
        m > 0,
        g % m == 0,
    ensures
        g == (g / m) * m,
        g / m >= 0,
{
    vstd::arithmetic::div_mod::lemma_fundamental_div_mod(g, m);
    let q = g / m;
    assert(q >= 0 && g == q * m) by (nonlinear_arith)
        requires
            g >= 0,
            m > 0,
            g == m * q + 0,
    ;
}

proof fn lemma_multiple(q: int, m: int)
    requires
        q >= 0,
        m > 0,
    ensures
        (q * m) % m == 0,
        (q * m) / m == q,
{
    vstd::arithmetic::div_mod::lemma_mod_multiples_basic(q, m);
    vstd::arithmetic::div_mod::lemma_div_multiples_vanish(q, m);
    assert(m * q == q * m) by (nonlinear_arith);
}

/// A granule aligned to a block of order `k + 1` is aligned to order `k`, at an even index.
pub proof fn lemma_aligned_halves(g: int, k: nat)
    requires
        g >= 0,
        g % span(k + 1) as int == 0,
    ensures
        g % span(k) as int == 0,
        (g / span(k) as int) % 2 == 0,
{
    let m = span(k) as int;
    lemma_span_positive(k);
    assert(span(k + 1) == 2 * span(k));
    lemma_div_mod_exact(g, 2 * m);
    let r = g / (2 * m);
    assert(g == (2 * r) * m) by (nonlinear_arith)
        requires
            g == r * (2 * m),
    ;
    lemma_multiple(2 * r, m);
}

/// A block and its buddy are aligned to their order, are adjacent, and the lower one is
/// aligned to the order above.
pub proof fn lemma_buddy_facts(g: int, k: nat)
    requires
        g >= 0,
        g % span(k) as int == 0,
    ensures
        buddy_of(g, k) >= 0,
        buddy_of(g, k) % span(k) as int == 0,
        g < buddy_of(g, k) ==> buddy_of(g, k) == g + span(k) && g % span(k + 1) as int == 0,
        buddy_of(g, k) < g ==> g == buddy_of(g, k) + span(k) && buddy_of(g, k) % span(k + 1) as int
            == 0,
{
    let m = span(k) as int;
    lemma_span_positive(k);
    assert(span(k + 1) == 2 * span(k));
    lemma_div_mod_exact(g, m);
    let q = g / m;
    if q % 2 == 0 {
        let t = q / 2;
        assert(g == t * (2 * m)) by (nonlinear_arith)
            requires
                g == q * m,
                q == 2 * t,
        ;
        lemma_multiple(t, 2 * m);
        assert(g + m == (q + 1) * m) by (nonlinear_arith)
            requires
                g == q * m,
        ;
        lemma_multiple(q + 1, m);
    } else {
        let t = q / 2;
        assert(g - m == t * (2 * m) && g - m == (q - 1) * m && t >= 0) by (nonlinear_arith)
            requires
                g == q * m,
                q == 2 * t + 1,
                q >= 0,
        ;
        lemma_multiple(t, 2 * m);
        lemma_multiple(q - 1, m);
    }
}

/// An aligned block that starts inside an aligned region of a larger order ends inside it.
pub proof fn lemma_aligned_fits(g: int, k: nat, big: nat)
    requires
        0 <= g < span(big),
        g % span(k) as int == 0,
        k <= big,
    ensures
        g + span(k) <= span(big),
{
    let m = span(k) as int;
    lemma_span_positive(k);
    lemma_span_add(k, (big - k) as nat);
    let s = span((big - k) as nat) as int;
    lemma_div_mod_exact(g, m);
    let q = g / m;
    assert(g + m <= m * s) by (nonlinear_arith)
        requires
            g == q * m,
            g < m * s,
            m > 0,
            q >= 0,
    ;
}

/// The abstract heap: for each granule (32-byte unit, counted from `HEAP_START`) that starts a
/// block, the block's order and whether it is free.
pub type HeapView = Map<int, (nat, bool)>;

/// The heap right after initialisation: two free blocks of the largest order.
pub open spec fn initial_heap() -> HeapView {
    map![0int => (22nat, true), 0x40_0000int => (22nat, true)]
}

/// The pointer handed out for the block that starts at granule `g`.
pub open spec fn pointer_of(g: int) -> int {
    0xC000_0000 + 32 * g
}

/// The granule of the block whose pointer is `ptr`.
pub open spec fn granule_of(ptr: int) -> int {
    (ptr - 0xC000_0000) / 32
}

/// `ptr` is the pointer of an allocated (used) block of the heap.
pub open spec fn is_allocated(v: HeapView, ptr: int) -> bool {
    &&& ptr >= 0xC000_0000
    &&& (ptr - 0xC000_0000) % 32 == 0
    &&& v.contains_key(granule_of(ptr))
    &&& !v[granule_of(ptr)].1
}

/// The buddy of the block of order `k` at granule `g`: the other half of their parent block.
pub open spec fn buddy_of(g: int, k: nat) -> int {
    if (g / span(k) as int) % 2 == 0 {
        g + span(k)
    } else {
        g - span(k)
    }
}

pub open spec fn is_free_of_order(v: HeapView, g: int, k: nat) -> bool {
    v.contains_key(g) && v[g] == (k, true)
}

pub open spec fn has_free_of_order(v: HeapView, k: nat) -> bool {
    exists|g: int| is_free_of_order(v, g, k)
}

/// The lowest-address free block of order `k`.
pub open spec fn is_lowest_free(v: HeapView, g: int, k: nat) -> bool {
    &&& is_free_of_order(v, g, k)
    &&& forall|h: int| #[trigger] is_free_of_order(v, h, k) ==> g <= h
}

/// The smallest order, at least `o`, of which the heap has a free block.
pub open spec fn lowest_free_order(v: HeapView, o: nat) -> Option<nat>
    decreases 23 - o,
{
    if o > 22 {
        None
    } else if has_free_of_order(v, o) {
        Some(o)
    } else {
        lowest_free_order(v, o + 1)
    }
}

/// Splits the block of order `k` at `g` into two free halves.
pub open spec fn split_once(v: HeapView, g: int, k: nat) -> HeapView {
    v.insert(g, ((k - 1) as nat, true)).insert(g + span((k - 1) as nat), ((k - 1) as nat, true))
}

/// Splits the free block of order `j` at `g` down to order `o`, keeping the lower half each time.
pub open spec fn split_down(v: HeapView, g: int, j: nat, o: nat) -> HeapView
    decreases j - o,
{
    if j <= o {
        v
    } else {
        split_once(split_down(v, g, j, o + 1), g, o + 1)
    }
}

/// The heap after `allocate` served a request of order `o` from the lowest free block of order
/// `j` at `g`.
pub open spec fn allocated(v: HeapView, g: int, j: nat, o: nat) -> HeapView {
    split_down(v, g, j, o).insert(g, (o, false))
}

/// Merges the free block at `g` with its buddy, and the result with its buddy, as long as the
/// buddy is a free block of the same order and the largest order is not reached.
pub open spec fn coalesce(v: HeapView, g: int) -> HeapView
    decreases 22 - v[g].0,
{
    let k = v[g].0;
    let b = buddy_of(g, k);
    if v[g].1 && k < 22 && is_free_of_order(v, b, k) {
        let s = if g < b {
            g
        } else {
            b
        };
        let l = if g < b {
            b
        } else {
            g
        };
        coalesce(v.remove(l).insert(s, ((k + 1) as nat, true)), s)
    } else {
        v
    }
}

/// The heap after the allocated block at `g` is freed.
pub open spec fn freed(v: HeapView, g: int) -> HeapView {
    coalesce(v.insert(g, (v[g].0, true)), g)
}

/// Splitting a free block down keeps it, now of the target order, and free.
pub proof fn lemma_split_down_keeps(v: HeapView, g: int, j: nat, o: nat)
    requires
        is_free_of_order(v, g, j),
        o <= j,
    ensures
        is_free_of_order(split_down(v, g, j, o), g, o),
    decreases j - o,
{
    if o < j {
        lemma_split_down_keeps(v, g, j, o + 1);
        lemma_span_positive(o);
    }
}

/// Splitting the block at `g` leaves every granule outside it as it was.
pub proof fn lemma_split_down_outside(v: HeapView, g: int, j: nat, o: nat, h: int)
    requires
        h < g || g + span(j) <= h,
    ensures
        split_down(v, g, j, o).contains_key(h) == v.contains_key(h),
        split_down(v, g, j, o)[h] == v[h],
    decreases j - o,
{
    if o < j {
        lemma_split_down_outside(v, g, j, o + 1, h);
        lemma_span_monotone(o, j);
        lemma_span_positive(o);
        if o + 1 <= j {
            lemma_span_monotone(o + 1, j);
        }
    }
}

/// The order found by `lowest_free_order` is at least the one asked for, and has a free block.
pub proof fn lemma_lowest_free_order(v: HeapView, o: nat)
    ensures
        lowest_free_order(v, o) matches Some(j) ==> o <= j <= 22 && has_free_of_order(v, j),
    decreases 23 - o,
{
    if o <= 22 && !has_free_of_order(v, o) {
        lemma_lowest_free_order(v, o + 1);
    }
}

/// Splitting the block at `g` down to order `o` adds no block start strictly inside its first
/// `span(o)` granules.
pub proof fn lemma_split_down_inside(v: HeapView, g: int, j: nat, o: nat, x: int)
    requires
        g < x < g + span(o),
        o <= j,
    ensures
        split_down(v, g, j, o).contains_key(x) == v.contains_key(x),
    decreases j - o,
{
    if o < j {
        assert(span(o + 1) == 2 * span(o));
        lemma_split_down_inside(v, g, j, o + 1, x);
    }
}

/// No free block has a free buddy of its own order: freeing merges as far as it can.
pub open spec fn fully_merged(v: HeapView) -> bool {
    forall|g: int, k: nat|
        #[trigger] is_free_of_order(v, g, k) && k < 22 ==> !is_free_of_order(v, buddy_of(g, k), k)
}

/// A granule aligned to a block of order `b` is aligned to every smaller order.
proof fn lemma_aligned_down(g: int, a: nat, b: nat)
    requires
        g >= 0,
        a <= b,
        g % span(b) as int == 0,
    ensures
        g % span(a) as int == 0,
    decreases b - a,
{
    if a < b {
        lemma_aligned_halves(g, (b - 1) as nat);
        lemma_aligned_down(g, a, (b - 1) as nat);
    }
}

/// Splitting a free block down and merging it back gives the heap it was split from, when the
/// block is aligned to its order, no other block starts inside it, and its buddy is not a free
/// block of its order.
pub proof fn lemma_coalesce_split_down_at(v: HeapView, g: int, j: nat, i: nat)
    requires
        is_free_of_order(v, g, j),
        j <= 22,
        i <= j,
        g >= 0,
        g % span(j) as int == 0,
        j < 22 ==> !is_free_of_order(v, buddy_of(g, j), j),
        forall|x: int| g < x < g + span(j) ==> !#[trigger] v.contains_key(x),
    ensures
        coalesce(split_down(v, g, j, i), g) == v,
    decreases j - i,
{
    if i == j {
        assert(split_down(v, g, j, j) == v);
    } else {
        lemma_coalesce_split_down_at(v, g, j, i + 1);
        let w1 = split_down(v, g, j, i + 1);
        let w = split_down(v, g, j, i);
        lemma_span_positive(i);
        assert(span(i + 1) == 2 * span(i));
        lemma_aligned_down(g, i + 1, j);
        lemma_aligned_halves(g, i);
        lemma_span_monotone(i + 1, j);
        lemma_split_down_keeps(v, g, j, i + 1);
        lemma_split_down_inside(v, g, j, i + 1, g + span(i));
        assert(!v.contains_key(g + span(i)));
        assert(!w1.contains_key(g + span(i)));
        assert(w == split_once(w1, g, i + 1));
        assert(buddy_of(g, i) == g + span(i));
        assert(w[g] == (i, true));
        assert(is_free_of_order(w, g + span(i), i));
        assert(w.remove(g + span(i)).insert(g, ((i + 1) as nat, true)) =~= w1);
    }
}

/// Every block starts at a granule aligned to its order.
pub open spec fn blocks_aligned(v: HeapView) -> bool {
    forall|h: int| #[trigger] v.contains_key(h) ==> h >= 0 && h % span(v[h].0) as int == 0
}

/// Every free block other than `s`, whose buddy is not `s` either, has no free buddy of its
/// own order.
pub open spec fn merged_except(v: HeapView, s: int) -> bool {
    forall|h: int, k: nat|
        #[trigger] is_free_of_order(v, h, k) && k < 22 && h != s && buddy_of(h, k) != s
            ==> !is_free_of_order(v, buddy_of(h, k), k)
}

/// The buddy of a block's buddy is the block itself.
pub proof fn lemma_buddy_symmetric(g: int, k: nat)
    requires
        g >= 0,
        g % span(k) as int == 0,
    ensures
        buddy_of(buddy_of(g, k), k) == g,
{
    lemma_buddy_facts(g, k);
    let b = buddy_of(g, k);
    let m = span(k) as int;
    lemma_span_positive(k);
    if g < b {
        lemma_aligned_halves(g, k);
        lemma_div_mod_exact(g, m);
        let q = g / m;
        assert(b == (q + 1) * m) by (nonlinear_arith)
            requires
                b == g + m,
                g == q * m,
        ;
        lemma_multiple(q + 1, m);
    } else {
        lemma_aligned_halves(b, k);
    }
}

/// The fresh heap has no free buddies of one order.
pub proof fn lemma_initial_merged()
    ensures
        fully_merged(initial_heap()),
        blocks_aligned(initial_heap()),
{
    lemma_span_values();
    let v = initial_heap();
    assert forall|h: int| #[trigger] v.contains_key(h) implies h >= 0 && h % span(v[h].0) as int
        == 0 by {
        assert(h == 0 || h == 0x40_0000);
        assert(v[h].0 == 22);
    }
}

/// Splitting a free block down leaves every free block but the one split, and those whose
/// buddy it is, without a free buddy of their order; the blocks stay aligned.
proof fn lemma_split_down_merged(v: HeapView, g: int, j: nat, i: nat)
    requires
        fully_merged(v),
        blocks_aligned(v),
        is_free_of_order(v, g, j),
        i <= j,
        j <= 22,
    ensures
        merged_except(split_down(v, g, j, i), g),
        blocks_aligned(split_down(v, g, j, i)),
    decreases j - i,
{
    if i < j {
        lemma_split_down_merged(v, g, j, i + 1);
        let w1 = split_down(v, g, j, i + 1);
        let w = split_down(v, g, j, i);
        assert(w == split_once(w1, g, i + 1));
        lemma_span_positive(i);
        assert(span(i + 1) == 2 * span(i));
        assert(g >= 0 && g % span(j) as int == 0);
        lemma_aligned_down(g, i + 1, j);
        lemma_aligned_halves(g, i);
        let u = g + span(i);
        assert(buddy_of(g, i) == u);
        lemma_buddy_symmetric(g, i);
        assert(u % span(i) as int == 0) by {
            lemma_buddy_facts(g, i);
        }
        assert forall|h: int| #[trigger] w.contains_key(h) implies h >= 0 && h % span(w[h].0) as int
            == 0 by {
            if h != g && h != u {
                assert(w1.contains_key(h));
            }
        }
        assert forall|h: int, k: nat|
            #[trigger] is_free_of_order(w, h, k) && k < 22 && h != g && buddy_of(h, k) != g
                implies !is_free_of_order(w, buddy_of(h, k), k) by {
            let c = buddy_of(h, k);
            if h != u {
                assert(is_free_of_order(w1, h, k));
                assert(w1.contains_key(h));
                if c == u && k == i {
                    lemma_buddy_symmetric(h, k);
                }
                if c != u {
                    assert(!is_free_of_order(w1, c, k));
                }
            }
        }
    }
}

/// Allocating from a heap with no free buddies of one order leaves it so.
pub proof fn lemma_allocated_merged(v: HeapView, g: int, j: nat, o: nat)
    requires
        fully_merged(v),
        blocks_aligned(v),
        is_free_of_order(v, g, j),
        o <= j,
        j <= 22,
    ensures
        fully_merged(allocated(v, g, j, o)),
        blocks_aligned(allocated(v, g, j, o)),
{
    lemma_split_down_merged(v, g, j, o);
    lemma_split_down_keeps(v, g, j, o);
    let w = split_down(v, g, j, o);
    let a = allocated(v, g, j, o);
    assert forall|h: int| #[trigger] a.contains_key(h) implies h >= 0 && h % span(a[h].0) as int
        == 0 by {
        assert(w.contains_key(h));
    }
    assert forall|h: int, k: nat| #[trigger] is_free_of_order(a, h, k) && k < 22 implies
        !is_free_of_order(a, buddy_of(h, k), k) by {
        assert(is_free_of_order(w, h, k));
        if buddy_of(h, k) != g {
            assert(!is_free_of_order(w, buddy_of(h, k), k));
        }
    }
}

/// Merging the free block at `s` with its free buddies (what `free` does after marking a block
/// free), in a heap where only `s` and the blocks whose buddy it is may have a free buddy of
/// their order, leaves no free buddies, and the blocks stay aligned.
pub proof fn lemma_coalesce_merged(w: HeapView, s: int)
    requires
        merged_except(w, s),
        blocks_aligned(w),
        w.contains_key(s),
        w[s].1,
        w[s].0 <= 22,
    ensures
        fully_merged(coalesce(w, s)),
        blocks_aligned(coalesce(w, s)),
    decreases 22 - w[s].0,
{
    let k = w[s].0;
    let b = buddy_of(s, k);
    if k < 22 && is_free_of_order(w, b, k) {
        let sm = if s < b {
            s
        } else {
            b
        };
        let l = if s < b {
            b
        } else {
            s
        };
        let w2 = w.remove(l).insert(sm, ((k + 1) as nat, true));
        lemma_buddy_facts(s, k);
        assert(sm >= 0 && sm % span(k + 1) as int == 0);
        assert forall|h: int| #[trigger] w2.contains_key(h) implies h >= 0 && h % span(w2[h].0) as int
            == 0 by {
            if h != sm {
                assert(w.contains_key(h));
            }
        }
        assert forall|h: int, m: nat|
            #[trigger] is_free_of_order(w2, h, m) && m < 22 && h != sm && buddy_of(h, m) != sm
                implies !is_free_of_order(w2, buddy_of(h, m), m) by {
            let c = buddy_of(h, m);
            assert(h != l);
            assert(is_free_of_order(w, h, m));
            if c != l {
                assert(!is_free_of_order(w, c, m));
            }
        }
        lemma_coalesce_merged(w2, sm);
    } else {
        assert forall|h: int, m: nat| #[trigger] is_free_of_order(w, h, m) && m < 22 implies
            !is_free_of_order(w, buddy_of(h, m), m) by {
            if h != s && buddy_of(h, m) == s && m == k {
                lemma_buddy_symmetric(h, m);
            }
        }
    }
}

/// Granule `x` lies in a free block.
pub open spec fn free_at(v: HeapView, x: int) -> bool {
    exists|h: int| #[trigger] v.contains_key(h) && v[h].1 && h <= x < h + span(v[h].0)
}

/// Merging the free block at `s` with its free buddies (what `maybe_merge` does) frees and
/// takes no granule, and leaves the block that was at `s` inside a free block that is of the
/// largest order or whose buddy is not a free block of its order.
pub proof fn lemma_coalesce_keeps_free(w: HeapView, s: int)
    requires
        blocks_aligned(w),
        w.contains_key(s),
        w[s].1,
        w[s].0 <= 22,
    ensures
        forall|x: int| #[trigger] free_at(coalesce(w, s), x) == free_at(w, x),
        exists|t: int|
            #[trigger] coalesce(w, s).contains_key(t) && coalesce(w, s)[t].1 && t <= s && s + span(
                w[s].0,
            ) <= t + span(coalesce(w, s)[t].0) && (coalesce(w, s)[t].0 == 22 || !is_free_of_order(
                coalesce(w, s),
                buddy_of(t, coalesce(w, s)[t].0),
                coalesce(w, s)[t].0,
            )),
    decreases 22 - w[s].0,
{
    let k = w[s].0;
    let b = buddy_of(s, k);
    lemma_span_positive(k);
    if k < 22 && is_free_of_order(w, b, k) {
        let sm = if s < b {
            s
        } else {
            b
        };
        let l = if s < b {
            b
        } else {
            s
        };
        let w2 = w.remove(l).insert(sm, ((k + 1) as nat, true));
        lemma_buddy_facts(s, k);
        assert(span(k + 1) == 2 * span(k));
        assert(l == sm + span(k));
        assert forall|h: int| #[trigger] w2.contains_key(h) implies h >= 0 && h % span(w2[h].0) as int
            == 0 by {
            if h != sm {
                assert(w.contains_key(h));
            }
        }
        lemma_coalesce_keeps_free(w2, sm);
        assert forall|x: int| #[trigger] free_at(w2, x) == free_at(w, x) by {
            if free_at(w, x) {
                let h = choose|h: int| #[trigger] w.contains_key(h) && w[h].1 && h <= x < h + span(w[h].0);
                if h == s || h == b {
                    assert(w2.contains_key(sm));
                } else {
                    assert(w2.contains_key(h));
                }
            }
            if free_at(w2, x) {
                let h = choose|h: int| #[trigger] w2.contains_key(h) && w2[h].1 && h <= x < h + span(w2[h].0);
                if h == sm {
                    if x < sm + span(k) {
                        assert(w.contains_key(sm));
                    } else {
                        assert(w.contains_key(l));
                    }
                } else {
                    assert(w.contains_key(h));
                }
            }
        }
        let t = choose|t: int|
            #[trigger] coalesce(w2, sm).contains_key(t) && coalesce(w2, sm)[t].1 && t <= sm && sm
                + span(w2[sm].0) <= t + span(coalesce(w2, sm)[t].0) && (coalesce(w2, sm)[t].0 == 22
                || !is_free_of_order(
                coalesce(w2, sm),
                buddy_of(t, coalesce(w2, sm)[t].0),
                coalesce(w2, sm)[t].0,
            ));
        assert(coalesce(w, s) == coalesce(w2, sm));
        assert(coalesce(w, s).contains_key(t));
    } else {
        assert(coalesce(w, s) == w);
        assert(coalesce(w, s).contains_key(s));
    }
}

/// Freeing a block of a heap with no free buddies of one order leaves it so.
pub proof fn lemma_freed_merged(v: HeapView, g: int)
    requires
        fully_merged(v),
        blocks_aligned(v),
        v.contains_key(g),
        v[g].0 <= 22,
    ensures
        fully_merged(freed(v, g)),
        blocks_aligned(freed(v, g)),
{
    let w = v.insert(g, (v[g].0, true));
    assert forall|h: int| #[trigger] w.contains_key(h) implies h >= 0 && h % span(w[h].0) as int
        == 0 by {
        assert(v.contains_key(h));
    }
    assert forall|h: int, k: nat|
        #[trigger] is_free_of_order(w, h, k) && k < 22 && h != g && buddy_of(h, k) != g implies
        !is_free_of_order(w, buddy_of(h, k), k) by {
        assert(is_free_of_order(v, h, k));
    }
    lemma_coalesce_merged(w, g);
}

/// On a fresh heap, a request of any order up to the largest is served from the block at the
/// start of the heap, and freeing that block gives back the fresh heap.
pub proof fn lemma_fresh_allocate_then_free(o: nat)
    requires
        o <= 22,
    ensures
        lowest_free_order(initial_heap(), o) == Some(22nat),
        is_lowest_free(initial_heap(), 0, 22),
        forall|g: int| #[trigger] is_lowest_free(initial_heap(), g, 22) ==> g == 0,
        freed(allocated(initial_heap(), 0, 22, o), 0) == initial_heap(),
{
    let v0 = initial_heap();
    lemma_fresh_lowest_order(o);
    assert(is_free_of_order(v0, 0, 22));
    let a = allocated(v0, 0, 22, o);
    lemma_split_down_keeps(v0, 0, 22, o);
    assert(a.insert(0, (a[0].0, true)) =~= split_down(v0, 0, 22, o));
    lemma_coalesce_split_down(o);
}

proof fn lemma_fresh_lowest_order(o: nat)
    requires
        o <= 22,
    ensures
        lowest_free_order(initial_heap(), o) == Some(22nat),
    decreases 22 - o,
{
    let v0 = initial_heap();
    if o < 22 {
        assert(!has_free_of_order(v0, o)) by {
            if has_free_of_order(v0, o) {
                let g = choose|g: int| is_free_of_order(v0, g, o);
                assert(g == 0 || g == 0x40_0000);
            }
        }
        lemma_fresh_lowest_order(o + 1);
    } else {
        assert(is_free_of_order(v0, 0, 22));
    }
}

/// Merging back a fresh heap that was split down to order `i` gives the fresh heap.
proof fn lemma_coalesce_split_down(i: nat)
    requires
        i <= 22,
    ensures
        coalesce(split_down(initial_heap(), 0, 22, i), 0) == initial_heap(),
    decreases 22 - i,
{
    let v0 = initial_heap();
    assert(is_free_of_order(v0, 0, 22));
    if i == 22 {
        assert(split_down(v0, 0, 22, 22) == v0);
    } else {
        lemma_coalesce_split_down(i + 1);
        let w1 = split_down(v0, 0, 22, i + 1);
        let w = split_down(v0, 0, 22, i);
        lemma_span_positive(i);
        lemma_span_monotone(i + 1, 22);
        lemma_span_values();
        assert(span(i + 1) == 2 * span(i));
        lemma_split_down_keeps(v0, 0, 22, i + 1);
        lemma_split_down_inside(v0, 0, 22, i + 1, span(i) as int);
        assert(!w1.contains_key(span(i) as int));
        assert(w == split_once(w1, 0, i + 1));
        assert(0int / span(i) as int == 0);
        assert(buddy_of(0, i) == span(i));
        assert(w[0] == (i, true));
        assert(is_free_of_order(w, span(i) as int, i));
        assert(w.remove(span(i) as int).insert(0, (i + 1, true)) =~= w1);
    }
}

} // verus!
