use vstd::prelude::*;
use crate::kernel::malloc::order::{MAX_ORDER, BLOCK_BITS, to_order, request_order, block_size};
use crate::kernel::malloc::spec::{span, HeapView, pointer_of, granule_of, buddy_of, lemma_span_shift, lemma_span_positive, lemma_span_add, lemma_span_values, lemma_aligned_halves, lemma_buddy_facts, lemma_aligned_fits, lemma_split_down_keeps, lemma_split_down_outside, lemma_lowest_free_order, is_free_of_order, has_free_of_order, is_lowest_free, lowest_free_order, split_once, split_down, allocated, coalesce, freed, initial_heap, is_allocated, fully_merged, lemma_coalesce_split_down_at, blocks_aligned, lemma_allocated_merged, lemma_freed_merged, free_at, lemma_coalesce_keeps_free};

verus! {

/// The address of the first byte of the heap.
pub const HEAP_START: usize = 0xC000_0000;

/// The size in bytes of a block of order 0.
const BLOCK_BYTES: usize = 32;

/// The number of order-0 blocks (granules) in the heap: two blocks of order `MAX_ORDER`.
const GRANULES: usize = 0x80_0000;

/// Strictly ascending.
pub open spec fn sorted(s: Seq<usize>) -> bool {
    forall|i: int, j: int| 0 <= i < j < s.len() ==> s[i] < s[j]
}

/// The index at which `p` goes to keep `list` ascending.
fn insert_position(list: &Vec<usize>, p: usize) -> (i: usize)
    ensures
        i <= list@.len(),
        forall|j: int| 0 <= j < i ==> list@[j] < p,
        i < list@.len() ==> list@[i as int] >= p,
{
    let mut i: usize = 0;
    while i < list.len() && list[i] < p
        invariant
            i <= list@.len(),
            forall|j: int| 0 <= j < i ==> list@[j] < p,
        decreases list@.len() - i,
    {
        i = i + 1;
    }
    i
}

/// The index of `p` in `list`, if it is there.
fn position_of(list: &Vec<usize>, p: usize) -> (r: Option<usize>)
    ensures
        match r {
            Some(i) => i < list@.len() && list@[i as int] == p,
            None => !list@.contains(p),
        },
{
    let mut i: usize = 0;
    while i < list.len()
        invariant
            i <= list@.len(),
            forall|j: int| 0 <= j < i ==> list@[j] != p,
        decreases list@.len() - i,
    {
        if list[i] == p {
            return Some(i);
        }
        i = i + 1;
    }
    None
}

proof fn lemma_buddy_xor(g: usize, k: usize)
    requires
        g < 0x80_0000,
        k <= 22,
        g % (1usize << k) == 0,
    ensures
        (((0xC000_0000usize + g * 32) as usize) ^ (1usize << ((k + 5) as usize)))
            >= 0xC000_0000usize,
        ((((((0xC000_0000usize + g * 32) as usize) ^ (1usize << ((k + 5) as usize)))
            - 0xC000_0000usize) as usize) / 32) as int == if (g / (1usize << k)) % 2 == 0 {
            g + (1usize << k)
        } else {
            g - (1usize << k)
        },
{
    assert((((0xC000_0000usize + g * 32) as usize) ^ (1usize << ((k + 5) as usize)))
        >= 0xC000_0000usize && ((((((0xC000_0000usize + g * 32) as usize) ^ (1usize << ((k
        + 5) as usize))) - 0xC000_0000usize) as usize) / 32) as int == if (g / (1usize << k)) % 2
        == 0 {
        g + (1usize << k)
    } else {
        g - (1usize << k)
    }) by (bit_vector)
        requires
            g < 0x80_0000,
            k <= 22,
            g % (1usize << k) == 0,
    ;
}

/// The pointer handed out for the block at granule `g`: the byte after its one-byte header.
fn to_pointer(g: usize) -> (p: usize)
    requires
        g < GRANULES,
    ensures
        p as int == pointer_of(g as int),
{
    HEAP_START + g * BLOCK_BYTES
}

/// The granule of the block whose pointer is `ptr`.
fn to_block(ptr: usize) -> (g: usize)
    requires
        ptr >= HEAP_START,
    ensures
        g as int == granule_of(ptr as int),
{
    (ptr - HEAP_START) / BLOCK_BYTES
}

/// After a split of the free block at `g` into halves at `g` and `b`, the heap is consistent and
/// its view is the split of the old view.
proof fn lemma_split_wf(s0: BuddyHeap, s: BuddyHeap, g: int, b: int)
    requires
        s0.wf(),
        s0.blocks@.contains(g),
        s0.free_flags@[g],
        s0.ord(g) >= 1,
        b == g + span((s0.ord(g) - 1) as nat),
        !s0.blocks@.contains(b),
        s.shape_ok(),
        s.orders@ == s0.orders@.update(g, (s0.orders@[g] - 1) as u8).update(
            b,
            (s0.orders@[g] - 1) as u8,
        ),
        s.free_flags@ == s0.free_flags@.update(g, true).update(b, true),
        s.blocks@ == s0.blocks@.insert(b),
        forall|x: int|
            #[trigger] (s.owner@)(x) == if b <= x < b + span((s0.ord(g) - 1) as nat) {
                b
            } else {
                (s0.owner@)(x)
            },
        forall|j: int|
            0 <= j < 23 && j != s0.ord(g) && j != s0.ord(g) - 1 ==> #[trigger] s.list(j) == s0.list(
                j,
            ),
        sorted(s.list(s0.ord(g) as int)),
        forall|e: usize| #[trigger]
            s.list(s0.ord(g) as int).contains(e) <==> (s0.list(s0.ord(g) as int).contains(e) && e
                != pointer_of(g)),
        sorted(s.list(s0.ord(g) - 1)),
        forall|e: usize| #[trigger]
            s.list(s0.ord(g) - 1).contains(e) <==> (s0.list(s0.ord(g) - 1).contains(e) || e
                == pointer_of(g) || e == pointer_of(b)),
    ensures
        s.wf(),
        s@ == split_once(s0@, g, s0.ord(g)),
{
    let k = s0.ord(g);
    let h = span((k - 1) as nat);
    lemma_aligned_halves(g, (k - 1) as nat);
    assert(span(k) == 2 * h);
    lemma_span_positive((k - 1) as nat);
    // the partition
    assert forall|c: int| #[trigger] s.blocks@.contains(c) implies {
        &&& 0 <= c < GRANULES
        &&& s.orders@[c] <= 22
        &&& c % span(s.ord(c)) as int == 0
        &&& c + span(s.ord(c)) <= GRANULES
    } by {
        if c == b {
            assert(b % h as int == 0) by {
                lemma_buddy_facts(g, (k - 1) as nat);
            }
        } else if c != g {
            assert(s0.blocks@.contains(c));
        }
    }
    assert forall|x: int| 0 <= x < GRANULES implies {
        &&& s.blocks@.contains(#[trigger] (s.owner@)(x))
        &&& (s.owner@)(x) <= x < (s.owner@)(x) + span(s.ord((s.owner@)(x)))
    } by {
        let o = (s0.owner@)(x);
        assert(s0.blocks@.contains(o));
        if !(b <= x < b + h) && o != g {
            assert(o != b);
        }
    }
    assert forall|c: int, x: int|
        #![trigger s.blocks@.contains(c), (s.owner@)(x)]
        s.blocks@.contains(c) && c <= x < c + span(s.ord(c)) implies (s.owner@)(x) == c by {
        if c == b {
        } else if c == g {
            assert((s0.owner@)(x) == g);
        } else {
            assert(s0.blocks@.contains(c));
            assert((s0.owner@)(x) == c);
            if b <= x < b + h {
                assert((s0.owner@)(x) == g);
            }
        }
    }
    assert(s.layout_ok());
    // the free lists
    assert forall|j: int| 0 <= j < 23 implies sorted(#[trigger] s.list(j)) by {
        if j != k && j != k - 1 {
            assert(s.list(j) == s0.list(j));
        }
    }
    assert forall|j: int, i: int|
        0 <= j < 23 && 0 <= i < s.list(j).len() implies s.entry_ok(j, #[trigger] s.list(j)[i]) by {
        let e = s.list(j)[i];
        assert(s.list(j).contains(e));
        if j != k && j != k - 1 {
            assert(s.list(j) == s0.list(j));
        }
        if e != pointer_of(g) && e != pointer_of(b) {
            assert(s0.list(j).contains(e));
            let i0 = choose|i0: int| 0 <= i0 < s0.list(j).len() && #[trigger] s0.list(j)[i0] == e;
            assert(s0.entry_ok(j, s0.list(j)[i0]));
            assert(granule_of(e as int) != g);
            assert(granule_of(e as int) != b);
        }
    }
    assert forall|c: int| #[trigger]
        s.blocks@.contains(c) && s.free_flags@[c] implies s.list(s.ord(c) as int).contains(
        pointer_of(c) as usize,
    ) by {
        if c != g && c != b {
            assert(s0.blocks@.contains(c) && s0.free_flags@[c]);
            assert(s0.list(s0.ord(c) as int).contains(pointer_of(c) as usize));
            if s.ord(c) != k && s.ord(c) != k - 1 {
                assert(s.list(s.ord(c) as int) == s0.list(s.ord(c) as int));
            }
        }
    }
    assert forall|x: int|
        0 <= x < GRANULES && !#[trigger] s.blocks@.contains(x) implies !s.free_flags@[x] by {
        assert(!s0.blocks@.contains(x));
    }
    assert(s.lists_ok());
    assert(s@ =~= split_once(s0@, g, k));
}

/// Marking a free block used keeps the heap consistent.
proof fn lemma_make_used_wf(s0: BuddyHeap, s: BuddyHeap, g: int)
    requires
        s0.wf(),
        s0.blocks@.contains(g),
        s.shape_ok(),
        s.orders@ == s0.orders@,
        s.free_flags@ == s0.free_flags@.update(g, false),
        s.blocks@ == s0.blocks@,
        s.owner@ == s0.owner@,
        forall|j: int| 0 <= j < 23 && j != s0.ord(g) ==> #[trigger] s.list(j) == s0.list(j),
        sorted(s.list(s0.ord(g) as int)),
        forall|e: usize| #[trigger]
            s.list(s0.ord(g) as int).contains(e) <==> (s0.list(s0.ord(g) as int).contains(e) && e
                != pointer_of(g)),
    ensures
        s.wf(),
        s@ == s0@.insert(g, (s0.ord(g), false)),
{
    let k = s0.ord(g);
    assert forall|j: int| 0 <= j < 23 implies sorted(#[trigger] s.list(j)) by {
        if j != k {
            assert(s.list(j) == s0.list(j));
        }
    }
    assert forall|j: int, i: int|
        0 <= j < 23 && 0 <= i < s.list(j).len() implies s.entry_ok(j, #[trigger] s.list(j)[i]) by {
        let e = s.list(j)[i];
        assert(s.list(j).contains(e));
        if j != k {
            assert(s.list(j) == s0.list(j));
        }
        assert(s0.list(j).contains(e));
        let i0 = choose|i0: int| 0 <= i0 < s0.list(j).len() && #[trigger] s0.list(j)[i0] == e;
        assert(s0.entry_ok(j, s0.list(j)[i0]));
    }
    assert forall|c: int| #[trigger]
        s.blocks@.contains(c) && s.free_flags@[c] implies s.list(s.ord(c) as int).contains(
        pointer_of(c) as usize,
    ) by {
        assert(s0.list(s0.ord(c) as int).contains(pointer_of(c) as usize));
        if s.ord(c) != k {
            assert(s.list(s.ord(c) as int) == s0.list(s.ord(c) as int));
        }
    }
    assert(s.lists_ok());
    assert(s@ =~= s0@.insert(g, (k, false)));
}

/// Marking a used block free and linking it in keeps the heap consistent.
proof fn lemma_free_block_wf(s0: BuddyHeap, s: BuddyHeap, g: int)
    requires
        s0.wf(),
        s0.blocks@.contains(g),
        !s0.free_flags@[g],
        s.shape_ok(),
        s.orders@ == s0.orders@,
        s.free_flags@ == s0.free_flags@.update(g, true),
        s.blocks@ == s0.blocks@,
        s.owner@ == s0.owner@,
        forall|j: int| 0 <= j < 23 && j != s0.ord(g) ==> #[trigger] s.list(j) == s0.list(j),
        sorted(s.list(s0.ord(g) as int)),
        forall|e: usize| #[trigger]
            s.list(s0.ord(g) as int).contains(e) <==> (s0.list(s0.ord(g) as int).contains(e) || e
                == pointer_of(g)),
    ensures
        s.wf(),
        s@ == s0@.insert(g, (s0.ord(g), true)),
{
    let k = s0.ord(g);
    assert forall|j: int| 0 <= j < 23 implies sorted(#[trigger] s.list(j)) by {
        if j != k {
            assert(s.list(j) == s0.list(j));
        }
    }
    assert forall|j: int, i: int|
        0 <= j < 23 && 0 <= i < s.list(j).len() implies s.entry_ok(j, #[trigger] s.list(j)[i]) by {
        let e = s.list(j)[i];
        assert(s.list(j).contains(e));
        if j != k {
            assert(s.list(j) == s0.list(j));
        }
        if e != pointer_of(g) {
            assert(s0.list(j).contains(e));
            let i0 = choose|i0: int| 0 <= i0 < s0.list(j).len() && #[trigger] s0.list(j)[i0] == e;
            assert(s0.entry_ok(j, s0.list(j)[i0]));
        }
    }
    assert forall|c: int| #[trigger]
        s.blocks@.contains(c) && s.free_flags@[c] implies s.list(s.ord(c) as int).contains(
        pointer_of(c) as usize,
    ) by {
        if c != g {
            assert(s0.list(s0.ord(c) as int).contains(pointer_of(c) as usize));
            if s.ord(c) != k {
                assert(s.list(s.ord(c) as int) == s0.list(s.ord(c) as int));
            }
        }
    }
    assert(s.lists_ok());
    assert(s@ =~= s0@.insert(g, (k, true)));
}

/// Merging two free buddies of order `k` into one free block of order `k + 1` keeps the heap
/// consistent.
proof fn lemma_merge_wf(s0: BuddyHeap, s: BuddyHeap, sm: int, lg: int)
    requires
        s0.wf(),
        s0.blocks@.contains(sm),
        s0.blocks@.contains(lg),
        s0.free_flags@[sm],
        s0.free_flags@[lg],
        s0.ord(sm) == s0.ord(lg),
        s0.ord(sm) < 22,
        lg == sm + span(s0.ord(sm)),
        sm % span(s0.ord(sm) + 1) as int == 0,
        s.shape_ok(),
        s.orders@ == s0.orders@.update(lg, 0).update(sm, (s0.orders@[sm] + 1) as u8),
        s.free_flags@ == s0.free_flags@.update(lg, false),
        s.blocks@ == s0.blocks@.remove(lg),
        forall|x: int|
            #[trigger] (s.owner@)(x) == if (s0.owner@)(x) == lg {
                sm
            } else {
                (s0.owner@)(x)
            },
        forall|j: int|
            0 <= j < 23 && j != s0.ord(sm) && j != s0.ord(sm) + 1 ==> #[trigger] s.list(j)
                == s0.list(j),
        sorted(s.list(s0.ord(sm) as int)),
        forall|e: usize| #[trigger]
            s.list(s0.ord(sm) as int).contains(e) <==> (s0.list(s0.ord(sm) as int).contains(e) && e
                != pointer_of(sm) && e != pointer_of(lg)),
        sorted(s.list(s0.ord(sm) as int + 1)),
        forall|e: usize| #[trigger]
            s.list(s0.ord(sm) as int + 1).contains(e) <==> (s0.list(s0.ord(sm) as int + 1).contains(e) || e
                == pointer_of(sm)),
    ensures
        s.wf(),
        s@ == s0@.remove(lg).insert(sm, (s0.ord(sm) + 1, true)),
{
    let k = s0.ord(sm);
    lemma_span_positive(k);
    assert(span(k + 1) == 2 * span(k));
    assert forall|c: int| #[trigger] s.blocks@.contains(c) implies {
        &&& 0 <= c < GRANULES
        &&& s.orders@[c] <= 22
        &&& c % span(s.ord(c)) as int == 0
        &&& c + span(s.ord(c)) <= GRANULES
    } by {
        if c == sm {
            lemma_span_values();
            lemma_aligned_fits(sm, k + 1, 23);
        }
    }
    assert forall|x: int| 0 <= x < GRANULES implies {
        &&& s.blocks@.contains(#[trigger] (s.owner@)(x))
        &&& (s.owner@)(x) <= x < (s.owner@)(x) + span(s.ord((s.owner@)(x)))
    } by {
        let o = (s0.owner@)(x);
        assert(s0.blocks@.contains(o));
    }
    assert forall|c: int, x: int|
        #![trigger s.blocks@.contains(c), (s.owner@)(x)]
        s.blocks@.contains(c) && c <= x < c + span(s.ord(c)) implies (s.owner@)(x) == c by {
        if c == sm {
            if x < lg {
                assert((s0.owner@)(x) == sm);
            } else {
                assert((s0.owner@)(x) == lg);
            }
        } else {
            assert((s0.owner@)(x) == c);
        }
    }
    assert(s.layout_ok());
    assert forall|j: int| 0 <= j < 23 implies sorted(#[trigger] s.list(j)) by {
        if j != k && j != k + 1 {
            assert(s.list(j) == s0.list(j));
        }
    }
    assert forall|j: int, i: int|
        0 <= j < 23 && 0 <= i < s.list(j).len() implies s.entry_ok(j, #[trigger] s.list(j)[i]) by {
        let e = s.list(j)[i];
        assert(s.list(j).contains(e));
        if j != k && j != k + 1 {
            assert(s.list(j) == s0.list(j));
        }
        if e != pointer_of(sm) {
            assert(s0.list(j).contains(e));
            let i0 = choose|i0: int| 0 <= i0 < s0.list(j).len() && #[trigger] s0.list(j)[i0] == e;
            assert(s0.entry_ok(j, s0.list(j)[i0]));
            assert(granule_of(e as int) != sm);
            if j == k {
                assert(granule_of(e as int) != lg);
            } else {
                assert(granule_of(e as int) != lg);
            }
        }
    }
    assert forall|c: int| #[trigger]
        s.blocks@.contains(c) && s.free_flags@[c] implies s.list(s.ord(c) as int).contains(
        pointer_of(c) as usize,
    ) by {
        if c != sm {
            assert(s0.list(s0.ord(c) as int).contains(pointer_of(c) as usize));
            if s.ord(c) != k && s.ord(c) != k + 1 {
                assert(s.list(s.ord(c) as int) == s0.list(s.ord(c) as int));
            }
        }
    }
    assert forall|x: int|
        0 <= x < GRANULES && !#[trigger] s.blocks@.contains(x) implies !s.free_flags@[x] by {
        if x != lg {
            assert(!s0.blocks@.contains(x));
        }
    }
    assert(s.lists_ok());
    assert(s@ =~= s0@.remove(lg).insert(sm, (k + 1, true)));
}

/// A used block is in no free list.
proof fn lemma_used_not_listed(s: BuddyHeap, g: int, k: int)
    requires
        s.wf(),
        0 <= k < 23,
        0 <= g < GRANULES,
        !s.free_flags@[g],
    ensures
        !s.list(k).contains(pointer_of(g) as usize),
{
    if s.list(k).contains(pointer_of(g) as usize) {
        let i = choose|i: int|
            0 <= i < s.list(k).len() && #[trigger] s.list(k)[i] == pointer_of(g) as usize;
        assert(s.entry_ok(k, s.list(k)[i]));
        assert(granule_of(pointer_of(g)) == g);
    }
}

/// A binary buddy allocator. Each block carries a header (its order and whether it is free) and
/// every free block sits in the free list of its order, kept in ascending address order.
pub struct BuddyHeap {
    orders: Vec<u8>,
    free_flags: Vec<bool>,
    free_lists: Vec<Vec<usize>>,
    blocks: Ghost<Set<int>>,
    owner: Ghost<spec_fn(int) -> int>,
}

impl View for BuddyHeap {
    type V = HeapView;

    closed spec fn view(&self) -> HeapView {
        Map::new(
            |g: int| self.blocks@.contains(g),
            |g: int| (self.orders@[g] as nat, self.free_flags@[g]),
        )
    }
}

impl BuddyHeap {
    spec fn ord(&self, g: int) -> nat {
        self.orders@[g] as nat
    }

    spec fn list(&self, k: int) -> Seq<usize> {
        self.free_lists@[k]@
    }

    spec fn shape_ok(&self) -> bool {
        &&& self.orders@.len() == GRANULES
        &&& self.free_flags@.len() == GRANULES
        &&& self.free_lists@.len() == 23
    }

    /// Every entry of the free list of order `k` is the pointer of a free block of order `k`.
    spec fn entry_ok(&self, k: int, e: usize) -> bool {
        &&& e >= HEAP_START
        &&& (e - HEAP_START) % 32 == 0
        &&& self.blocks@.contains(granule_of(e as int))
        &&& self.free_flags@[granule_of(e as int)]
        &&& self.ord(granule_of(e as int)) == k
    }

    /// The blocks partition the heap: each is aligned to its size and lies inside the heap, and
    /// `owner` maps every granule to the one block that contains it.
    spec fn layout_ok(&self) -> bool {
        &&& forall|g: int| #[trigger]
            self.blocks@.contains(g) ==> {
                &&& 0 <= g < GRANULES
                &&& self.orders@[g] <= 22
                &&& g % span(self.ord(g)) as int == 0
                &&& g + span(self.ord(g)) <= GRANULES
            }
        &&& forall|x: int|
            0 <= x < GRANULES ==> {
                &&& self.blocks@.contains(#[trigger] (self.owner@)(x))
                &&& (self.owner@)(x) <= x < (self.owner@)(x) + span(self.ord((self.owner@)(x)))
            }
        &&& forall|g: int, x: int|
            #![trigger self.blocks@.contains(g), (self.owner@)(x)]
            self.blocks@.contains(g) && g <= x < g + span(self.ord(g)) ==> (self.owner@)(x) == g
    }

    /// The free lists hold exactly the free blocks, each in the list of its order, ascending.
    spec fn lists_ok(&self) -> bool {
        &&& forall|k: int| 0 <= k < 23 ==> sorted(#[trigger] self.list(k))
        &&& forall|k: int, i: int|
            0 <= k < 23 && 0 <= i < self.list(k).len() ==> self.entry_ok(
                k,
                #[trigger] self.list(k)[i],
            )
        &&& forall|g: int| #[trigger]
            self.blocks@.contains(g) && self.free_flags@[g] ==> self.list(
                self.ord(g) as int,
            ).contains(pointer_of(g) as usize)
        &&& forall|x: int|
            0 <= x < GRANULES && !#[trigger] self.blocks@.contains(x) ==> !self.free_flags@[x]
    }

    /// The free list of order `k`.
    pub closed spec fn free_list(&self, k: int) -> Seq<usize> {
        self.list(k)
    }

    /// The heap is consistent.
    pub closed spec fn wf(&self) -> bool {
        &&& self.shape_ok()
        &&& self.layout_ok()
        &&& self.lists_ok()
    }

    /// Puts the block at `g` into the free list of its order, before the first block at a
    /// higher address.
    fn free_insert(&mut self, g: usize)
        requires
            old(self).shape_ok(),
            g < GRANULES,
            old(self).orders@[g as int] <= 22,
            sorted(old(self).list(old(self).ord(g as int) as int)),
            !old(self).list(old(self).ord(g as int) as int).contains(pointer_of(g as int) as usize),
        ensures
            final(self).shape_ok(),
            final(self).orders@ == old(self).orders@,
            final(self).free_flags@ == old(self).free_flags@,
            final(self).blocks@ == old(self).blocks@,
            final(self).owner@ == old(self).owner@,
            forall|k: int|
                0 <= k < 23 && k != old(self).ord(g as int) ==> #[trigger] final(self).list(k)
                    == old(self).list(k),
            sorted(final(self).list(old(self).ord(g as int) as int)),
            forall|e: usize|
                #[trigger] final(self).list(old(self).ord(g as int) as int).contains(e) <==> (old(
                    self,
                ).list(old(self).ord(g as int) as int).contains(e) || e == pointer_of(g as int)),
    {
        let k = self.orders[g] as usize;
        let p = to_pointer(g);
        let i = insert_position(&self.free_lists[k], p);
        let ghost before = self.list(k as int);
        self.free_lists[k].insert(i, p);
        proof {
            assert(self.list(k as int) == before.insert(i as int, p));
            lemma_sorted_insert(before, i as int, p);
        }
    }

    /// Takes the block at `g` out of the free list of its order, if it is there.
    fn free_remove(&mut self, g: usize)
        requires
            old(self).shape_ok(),
            g < GRANULES,
            old(self).orders@[g as int] <= 22,
            sorted(old(self).list(old(self).ord(g as int) as int)),
        ensures
            final(self).shape_ok(),
            final(self).orders@ == old(self).orders@,
            final(self).free_flags@ == old(self).free_flags@,
            final(self).blocks@ == old(self).blocks@,
            final(self).owner@ == old(self).owner@,
            forall|k: int|
                0 <= k < 23 && k != old(self).ord(g as int) ==> #[trigger] final(self).list(k)
                    == old(self).list(k),
            sorted(final(self).list(old(self).ord(g as int) as int)),
            forall|e: usize|
                #[trigger] final(self).list(old(self).ord(g as int) as int).contains(e) <==> (old(
                    self,
                ).list(old(self).ord(g as int) as int).contains(e) && e != pointer_of(g as int)),
    {
        let k = self.orders[g] as usize;
        let p = to_pointer(g);
        match position_of(&self.free_lists[k], p) {
            Some(i) => {
                let ghost before = self.list(k as int);
                self.free_lists[k].remove(i);
                proof {
                    let after = self.list(k as int);
                    assert(after == before.remove(i as int));
                    assert forall|a: int, b: int|
                        0 <= a < b < after.len() implies after[a] < after[b] by {
                        if a >= i {
                            assert(after[a] == before[a + 1]);
                        }
                        if b >= i {
                            assert(after[b] == before[b + 1]);
                        }
                    }
                    assert forall|e: usize|
                        after.contains(e) <==> (before.contains(e) && e != p) by {
                        if after.contains(e) {
                            let j = choose|j: int| 0 <= j < after.len() && after[j] == e;
                            if j < i {
                                assert(before[j] == e);
                                assert(before[j] < before[i as int]);
                            } else {
                                assert(before[j + 1] == e);
                                assert(before[i as int] < before[j + 1]);
                            }
                        }
                        if before.contains(e) && e != p {
                            let j = choose|j: int| 0 <= j < before.len() && before[j] == e;
                            if j < i {
                                assert(after[j] == e);
                            } else {
                                assert(j != i);
                                assert(after[j - 1] == e);
                            }
                        }
                    }
                }
            },
            None => {
                assert(self.list(k as int) =~= old(self).list(k as int));
            },
        }
    }

    /// Marks the header of the block at `g` free and links the block into its free list.
    fn free_block(&mut self, g: usize)
        requires
            old(self).shape_ok(),
            g < GRANULES,
            old(self).orders@[g as int] <= 22,
            sorted(old(self).list(old(self).ord(g as int) as int)),
            !old(self).list(old(self).ord(g as int) as int).contains(pointer_of(g as int) as usize),
        ensures
            final(self).shape_ok(),
            final(self).orders@ == old(self).orders@,
            final(self).free_flags@ == old(self).free_flags@.update(g as int, true),
            final(self).blocks@ == old(self).blocks@,
            final(self).owner@ == old(self).owner@,
            forall|k: int|
                0 <= k < 23 && k != old(self).ord(g as int) ==> #[trigger] final(self).list(k)
                    == old(self).list(k),
            sorted(final(self).list(old(self).ord(g as int) as int)),
            forall|e: usize|
                #[trigger] final(self).list(old(self).ord(g as int) as int).contains(e) <==> (old(
                    self,
                ).list(old(self).ord(g as int) as int).contains(e) || e == pointer_of(g as int)),
    {
        self.free_flags.set(g, true);
        self.free_insert(g);
    }

    /// Marks the header of the block at `g` used and unlinks the block from its free list.
    fn make_used(&mut self, g: usize)
        requires
            old(self).shape_ok(),
            g < GRANULES,
            old(self).orders@[g as int] <= 22,
            sorted(old(self).list(old(self).ord(g as int) as int)),
        ensures
            final(self).shape_ok(),
            final(self).orders@ == old(self).orders@,
            final(self).free_flags@ == old(self).free_flags@.update(g as int, false),
            final(self).blocks@ == old(self).blocks@,
            final(self).owner@ == old(self).owner@,
            forall|k: int|
                0 <= k < 23 && k != old(self).ord(g as int) ==> #[trigger] final(self).list(k)
                    == old(self).list(k),
            sorted(final(self).list(old(self).ord(g as int) as int)),
            forall|e: usize|
                #[trigger] final(self).list(old(self).ord(g as int) as int).contains(e) <==> (old(
                    self,
                ).list(old(self).ord(g as int) as int).contains(e) && e != pointer_of(g as int)),
    {
        self.free_flags.set(g, false);
        self.free_remove(g);
    }

    /// The granule of the buddy of the block at `g`, found by flipping the bit of the block's
    /// size in its address.
    fn buddy(&self, g: usize) -> (b: usize)
        requires
            self.shape_ok(),
            g < GRANULES,
            self.orders@[g as int] <= 22,
            g as int % span(self.ord(g as int)) as int == 0,
        ensures
            b as int == buddy_of(g as int, self.ord(g as int)),
            b < GRANULES,
    {
        let order = self.orders[g];
        proof {
            lemma_span_shift(order as nat);
            lemma_buddy_xor(g, order as usize);
            lemma_buddy_facts(g as int, order as nat);
            lemma_span_values();
            if g < buddy_of(g as int, order as nat) {
                lemma_aligned_fits(g as int, order as nat + 1, 23);
            }
        }
        let addr = to_pointer(g);
        let buddy_addr = addr ^ (1usize << ((order + BLOCK_BITS) as usize));
        to_block(buddy_addr)
    }

    /// An initialised heap: two free blocks of the largest order.
    pub fn new() -> (heap: Self)
        ensures
            heap.wf(),
            heap@ == initial_heap(),
    {
        let mut free_lists: Vec<Vec<usize>> = Vec::new();
        let mut k: usize = 0;
        while k < 23
            invariant
                k <= 23,
                free_lists@.len() == k,
                forall|i: int| 0 <= i < k ==> (#[trigger] free_lists@[i])@.len() == 0,
            decreases 23 - k,
        {
            free_lists.push(Vec::new());
            k = k + 1;
        }
        let mut heap = BuddyHeap {
            orders: vec![0u8; GRANULES],
            free_flags: vec![false; GRANULES],
            free_lists,
            blocks: Ghost(Set::empty()),
            owner: Ghost(|x: int| 0),
        };
        assert forall|i: int| 0 <= i < GRANULES implies !heap.free_flags@[i] by {
            assert(cloned(false, heap.free_flags@[i]));
        }
        heap.init();
        heap
    }

    /// Sets up the two blocks of the largest order, both free.
    fn init(&mut self)
        requires
            old(self).shape_ok(),
            forall|k: int| 0 <= k < 23 ==> (#[trigger] old(self).list(k)).len() == 0,
            forall|i: int| 0 <= i < GRANULES ==> !old(self).free_flags@[i],
        ensures
            final(self).wf(),
            final(self)@ == initial_heap(),
    {
        let top: usize = 0;
        self.orders.set(top, MAX_ORDER);
        assert(old(self).list(22).len() == 0);
        assert(self.list(22).len() == 0);
        assert(self.ord(0) == 22);
        self.free_block(top);
        let ghost l1 = self.list(22);
        assert(forall|k: int| 0 <= k < 23 && k != 22 ==> self.list(k) == old(self).list(k));
        assert(l1.contains(HEAP_START));
        assert forall|e: usize| l1.contains(e) implies e == HEAP_START by {
            assert(!old(self).list(22).contains(e));
        }
        proof {
            lemma_span_values();
        }
        let buddy = self.buddy(top);
        assert(buddy == 0x40_0000) by {
            assert(0int / span(22) as int == 0);
        }
        self.orders.set(buddy, MAX_ORDER);
        assert(self.ord(buddy as int) == 22);
        assert(!self.list(22).contains(pointer_of(buddy as int) as usize)) by {
            assert(pointer_of(buddy as int) != pointer_of(0));
        }
        assert(forall|k: int| 0 <= k < 23 && k != 22 ==> self.list(k) == old(self).list(k));
        self.free_block(buddy);
        assert(forall|k: int| 0 <= k < 23 && k != 22 ==> self.list(k) == old(self).list(k));
        proof {
            let ghost pre = *self;
            self.blocks@ = set![0int, 0x40_0000int];
            self.owner@ = |x: int|
                if x < 0x40_0000 {
                    0int
                } else {
                    0x40_0000int
                };
            assert(self.free_lists == pre.free_lists && self.orders == pre.orders
                && self.free_flags == pre.free_flags);
            assert(forall|k: int| 0 <= k < 23 ==> self.list(k) == pre.list(k));
            let l = self.list(22);
            assert(l.contains(HEAP_START));
            assert(l.contains((HEAP_START + 0x800_0000) as usize));
            assert forall|e: usize| l.contains(e) implies e == HEAP_START || e == (HEAP_START
                + 0x800_0000) as usize by {
                if e != pointer_of(buddy as int) {
                    assert(l1.contains(e));
                }
            }
            assert(self.orders@[0] == 22 && self.orders@[0x40_0000] == 22);
            assert(self.free_flags@[0] && self.free_flags@[0x40_0000]);
            assert forall|g: int| #[trigger] self.blocks@.contains(g) implies {
                &&& 0 <= g < GRANULES
                &&& self.orders@[g] <= 22
                &&& g % span(self.ord(g)) as int == 0
                &&& g + span(self.ord(g)) <= GRANULES
            } by {
                if g == 0 {
                    assert(self.ord(g) == 22);
                } else {
                    assert(g == 0x40_0000);
                    assert(self.ord(g) == 22);
                    assert(g % span(22) as int == 0);
                }
            }
            assert(self.layout_ok());
            assert forall|k: int| 0 <= k < 23 implies sorted(#[trigger] self.list(k)) by {
                if k != 22 {
                    assert(self.list(k) == old(self).list(k));
                }
            }
            assert forall|k: int, i: int|
                0 <= k < 23 && 0 <= i < self.list(k).len() implies self.entry_ok(
                k,
                #[trigger] self.list(k)[i],
            ) by {
                if k != 22 {
                    assert(self.list(k) == old(self).list(k));
                } else {
                    assert(l.contains(l[i]));
                }
            }
            assert forall|x: int|
                0 <= x < GRANULES && !#[trigger] self.blocks@.contains(x) implies !self.free_flags@[x] by {
                assert(x != 0 && x != 0x40_0000);
            }
            assert(self.lists_ok());
            assert(self@ =~= initial_heap());
        }
    }

    /// Splits the free block at `g` into two free halves of the order below and returns the
    /// upper half.
    fn split(&mut self, g: usize) -> (b: usize)
        requires
            old(self).wf(),
            old(self).blocks@.contains(g as int),
            old(self).free_flags@[g as int],
            old(self).orders@[g as int] >= 1,
        ensures
            final(self).wf(),
            final(self)@ == split_once(old(self)@, g as int, old(self).ord(g as int)),
            b as int == g + span((old(self).ord(g as int) - 1) as nat),
    {
        let ghost s0 = *old(self);
        let ghost k = s0.ord(g as int);
        let ghost p = pointer_of(g as int) as usize;
        proof {
            lemma_aligned_halves(g as int, (k - 1) as nat);
            assert(!s0.list(k - 1).contains(p)) by {
                if s0.list(k - 1).contains(p) {
                    let i = choose|i: int| 0 <= i < s0.list(k - 1).len() && #[trigger] s0.list(k - 1)[i] == p;
                    assert(s0.entry_ok(k - 1, s0.list(k - 1)[i]));
                }
            }
        }
        self.make_used(g);
        let ghost s1 = *self;
        assert(s1.list(k - 1) == s0.list(k - 1));
        self.orders.set(g, self.orders[g] - 1);
        let ghost s2 = *self;
        assert(self.free_lists@ == s1.free_lists@);
        assert(self.list(k - 1) == s0.list(k - 1));
        assert(self.ord(g as int) == k - 1);
        assert(g as int % span(k) as int == 0);
        self.free_block(g);
        let ghost s3 = *self;
        assert(self.ord(g as int) == k - 1);
        assert((g as int / span((k - 1) as nat) as int) % 2 == 0);
        let b = self.buddy(g);
        let ghost q = pointer_of(b as int) as usize;
        proof {
            assert(b as int == g + span((k - 1) as nat));
            assert(!s0.blocks@.contains(b as int)) by {
                assert(span(k) == 2 * span((k - 1) as nat));
                lemma_span_positive((k - 1) as nat);
                assert((s0.owner@)(b as int) == g);
                if s0.blocks@.contains(b as int) {
                    lemma_span_positive(s0.ord(b as int));
                    assert((s0.owner@)(b as int) == b);
                }
            }
            assert(!s0.list(k - 1).contains(q)) by {
                if s0.list(k - 1).contains(q) {
                    let i = choose|i: int| 0 <= i < s0.list(k - 1).len() && #[trigger] s0.list(k - 1)[i] == q;
                    assert(s0.entry_ok(k - 1, s0.list(k - 1)[i]));
                }
            }
        }
        self.orders.set(b, self.orders[g]);
        let ghost s4 = *self;
        assert(self.list(k - 1) == s3.list(k - 1));
        self.free_block(b);
        let ghost s5 = *self;
        proof {
            assert forall|j: int| 0 <= j < 23 && j != k && j != k - 1 implies #[trigger] s5.list(j)
                == s0.list(j) by {
                assert(s5.list(j) == s4.list(j));
                assert(s4.free_lists@ == s3.free_lists@);
                assert(s3.list(j) == s2.list(j));
                assert(s2.free_lists@ == s1.free_lists@);
                assert(s1.list(j) == s0.list(j));
            }
            assert forall|e: usize| #[trigger] s5.list(k as int).contains(e) <==> (s0.list(
                k as int,
            ).contains(e) && e != p) by {
                assert(s5.list(k as int) == s4.list(k as int));
                assert(s4.free_lists@ == s3.free_lists@);
                assert(s3.list(k as int) == s2.list(k as int));
                assert(s2.free_lists@ == s1.free_lists@);
            }
            assert(sorted(s5.list(k as int))) by {
                assert(s5.list(k as int) == s4.list(k as int));
                assert(s4.free_lists@ == s3.free_lists@);
                assert(s3.list(k as int) == s2.list(k as int));
                assert(s2.free_lists@ == s1.free_lists@);
            }
            assert forall|e: usize| #[trigger] s5.list(k - 1).contains(e) <==> (s0.list(
                k - 1,
            ).contains(e) || e == p || e == q) by {
                assert(s4.free_lists@ == s3.free_lists@);
                assert(s2.free_lists@ == s1.free_lists@);
            }
            let ghost old_owner = s0.owner@;
            self.blocks@ = s0.blocks@.insert(b as int);
            self.owner@ = |x: int|
                if b <= x < b + span((k - 1) as nat) {
                    b as int
                } else {
                    old_owner(x)
                };
            assert(self.free_lists@ == s5.free_lists@);
            assert(forall|j: int| 0 <= j < 23 ==> #[trigger] self.list(j) == s5.list(j));
            assert(self.free_flags@ =~= s0.free_flags@.update(g as int, true).update(b as int, true));
            assert(self.orders@ =~= s0.orders@.update(g as int, (s0.orders@[g as int] - 1) as u8).update(
                b as int,
                (s0.orders@[g as int] - 1) as u8,
            ));
            lemma_split_wf(s0, *self, g as int, b as int);
        }
        b
    }

    /// A free block of order `order`: the lowest one in its free list, or, when that list is
    /// empty, one split off a block of the next order up. The block stays in its free list.
    fn find_block_of_order(&mut self, order: u8) -> (r: Option<usize>)
        requires
            old(self).wf(),
        ensures
            final(self).wf(),
            match lowest_free_order(old(self)@, order as nat) {
                None => r is None && final(self)@ == old(self)@,
                Some(j) => r matches Some(g) && is_lowest_free(old(self)@, g as int, j)
                    && final(self)@ == split_down(old(self)@, g as int, j, order as nat),
            },
        decreases 23 - order as int,
    {
        if order > MAX_ORDER {
            return None;
        }
        let o = order as usize;
        if self.free_lists[o].len() > 0 {
            let head = self.free_lists[o][0];
            proof {
                assert(self.entry_ok(o as int, self.list(o as int)[0]));
            }
            let g = to_block(head);
            proof {
                let v = self@;
                assert(is_free_of_order(v, g as int, order as nat));
                assert forall|h: int| #[trigger] is_free_of_order(v, h, order as nat) implies g <= h by {
                    assert(self.list(o as int).contains(pointer_of(h) as usize));
                    let i = choose|i: int|
                        0 <= i < self.list(o as int).len() && #[trigger] self.list(o as int)[i]
                            == pointer_of(h) as usize;
                    assert(sorted(self.list(o as int)));
                    if i > 0 {
                        assert(self.list(o as int)[0] < self.list(o as int)[i]);
                    }
                }
            }
            return Some(g);
        }
        proof {
            assert(!has_free_of_order(self@, order as nat)) by {
                if has_free_of_order(self@, order as nat) {
                    let h = choose|h: int| is_free_of_order(self@, h, order as nat);
                    assert(self.list(o as int).contains(pointer_of(h) as usize));
                }
            }
        }
        match self.find_block_of_order(order + 1) {
            Some(g) => {
                proof {
                    assert((order + 1) as nat == order as nat + 1);
                    lemma_lowest_free_order(old(self)@, (order + 1) as nat);
                    let j = lowest_free_order(old(self)@, (order + 1) as nat)->0;
                    lemma_split_down_keeps(old(self)@, g as int, j, (order + 1) as nat);
                }
                self.split(g);
                Some(g)
            },
            None => None,
        }
    }

    /// Marks the free block at `g` used, keeping the heap consistent.
    fn take_block(&mut self, g: usize)
        requires
            old(self).wf(),
            old(self)@.contains_key(g as int),
        ensures
            final(self).wf(),
            final(self)@ == old(self)@.insert(g as int, (old(self)@[g as int].0, false)),
    {
        let ghost s0 = *old(self);
        self.make_used(g);
        proof {
            lemma_make_used_wf(s0, *self, g as int);
        }
    }

    /// Allocates a block of at least `size` bytes, aligned to `align`, and returns its address,
    /// or 0 when no free block is large enough. The block is the lowest-address free block of the
    /// smallest sufficient order, split down to the order of the request.
    pub fn rust_allocate(&mut self, size: usize, align: usize) -> (ptr: usize)
        requires
            old(self).wf(),
            size < 0x8000_0000,
            align <= 0x8000_0000,
        ensures
            final(self).wf(),
            match lowest_free_order(old(self)@, request_order(size as nat + 1, align as nat)) {
                None => ptr == 0 && final(self)@ == old(self)@,
                Some(j) => exists|g: int|
                    #![trigger is_lowest_free(old(self)@, g, j)]
                    is_lowest_free(old(self)@, g, j) && ptr as int == pointer_of(g) && final(self)@
                        == allocated(old(self)@, g, j, request_order(size as nat + 1, align as nat)),
            },
    {
        let order = to_order(size + 1, align);
        match self.find_block_of_order(order) {
            Some(block) => {
                proof {
                    lemma_lowest_free_order(old(self)@, order as nat);
                    let j = lowest_free_order(old(self)@, order as nat)->0;
                    lemma_split_down_keeps(old(self)@, block as int, j, order as nat);
                }
                self.take_block(block);
                to_pointer(block)
            },
            None => 0,
        }
    }

    /// Allocates `size` bytes with no alignment requirement.
    pub fn malloc(&mut self, size: usize) -> (ptr: usize)
        requires
            old(self).wf(),
            size < 0x8000_0000,
        ensures
            final(self).wf(),
            match lowest_free_order(old(self)@, request_order(size as nat + 1, 1)) {
                None => ptr == 0 && final(self)@ == old(self)@,
                Some(j) => exists|g: int|
                    #![trigger is_lowest_free(old(self)@, g, j)]
                    is_lowest_free(old(self)@, g, j) && ptr as int == pointer_of(g) && final(self)@
                        == allocated(old(self)@, g, j, request_order(size as nat + 1, 1)),
            },
    {
        self.rust_allocate(size, 1)
    }

    /// Whether `ptr` is the pointer of an allocated block: it is found by walking the blocks
    /// from the start of the heap, each one after the last.
    pub fn is_allocated_ptr(&self, ptr: usize) -> (r: bool)
        requires
            self.wf(),
        ensures
            r == is_allocated(self@, ptr as int),
    {
        if ptr < HEAP_START || (ptr - HEAP_START) % 32 != 0 {
            return false;
        }
        let g = (ptr - HEAP_START) / 32;
        if g >= GRANULES {
            assert(!self.blocks@.contains(g as int));
            return false;
        }
        let mut cur: usize = 0;
        proof {
            let c = (self.owner@)(0);
            assert(self.blocks@.contains(c));
        }
        while cur < g
            invariant
                self.wf(),
                ptr >= HEAP_START,
                (ptr - HEAP_START) % 32 == 0,
                g == (ptr - HEAP_START) / 32,
                cur <= g < GRANULES,
                self.blocks@.contains(cur as int),
            decreases g - cur,
        {
            let k = self.orders[cur];
            proof {
                lemma_span_shift(k as nat);
            }
            let next = cur + (1usize << (k as usize));
            if next > g {
                proof {
                    assert((self.owner@)(g as int) == cur);
                    if self.blocks@.contains(g as int) {
                        lemma_span_positive(self.ord(g as int));
                        assert((self.owner@)(g as int) == g);
                    }
                }
                return false;
            }
            proof {
                assert(self.layout_ok());
                assert(next == cur + span(self.ord(cur as int)));
                lemma_span_positive(self.ord(cur as int));
                let c = (self.owner@)(next as int);
                assert(self.blocks@.contains(c));
                lemma_span_positive(self.ord(c));
                if c < next {
                    assert((self.owner@)(next - 1) == cur);
                    assert((self.owner@)(next - 1) == c);
                }
            }
            cur = next;
        }
        !self.free_flags[g]
    }

    /// Whether the heap can serve a request of `size` bytes aligned to `align`: some free block
    /// is of the order the request needs or larger.
    pub fn can_allocate(&self, size: usize, align: usize) -> (r: bool)
        requires
            self.wf(),
            size < 0x8000_0000,
            align <= 0x8000_0000,
        ensures
            r == lowest_free_order(self@, request_order(size as nat + 1, align as nat)) is Some,
    {
        let order = to_order(size + 1, align);
        let mut k: usize = order as usize;
        while k <= MAX_ORDER as usize
            invariant
                self.wf(),
                order as nat == request_order(size as nat + 1, align as nat),
                order <= k,
                k <= 23 || k == order,
                lowest_free_order(self@, order as nat) == lowest_free_order(self@, k as nat),
            decreases 23 - k,
        {
            if self.free_lists[k].len() > 0 {
                proof {
                    assert(self.entry_ok(k as int, self.list(k as int)[0]));
                    let g = granule_of(self.list(k as int)[0] as int);
                    assert(is_free_of_order(self@, g, k as nat));
                    assert(has_free_of_order(self@, k as nat));
                    assert(lowest_free_order(self@, k as nat) == Some(k as nat));
                }
                return true;
            }
            proof {
                assert(!has_free_of_order(self@, k as nat)) by {
                    if has_free_of_order(self@, k as nat) {
                        let h = choose|h: int| is_free_of_order(self@, h, k as nat);
                        assert(self.list(k as int).contains(pointer_of(h) as usize));
                    }
                }
            }
            k = k + 1;
        }
        false
    }

    /// Allocates as `rust_allocate` does, for a request that the heap can serve.
    pub fn must_allocate(&mut self, size: usize, align: usize) -> (ptr: usize)
        requires
            old(self).wf(),
            size < 0x8000_0000,
            align <= 0x8000_0000,
            lowest_free_order(old(self)@, request_order(size as nat + 1, align as nat)) is Some,
        ensures
            final(self).wf(),
            ptr != 0,
            exists|g: int|
                #![trigger is_lowest_free(old(self)@, g, lowest_free_order(old(self)@, request_order(size as nat + 1, align as nat))->0)]
                is_lowest_free(
                    old(self)@,
                    g,
                    lowest_free_order(old(self)@, request_order(size as nat + 1, align as nat))->0,
                ) && ptr as int == pointer_of(g) && final(self)@ == allocated(
                    old(self)@,
                    g,
                    lowest_free_order(old(self)@, request_order(size as nat + 1, align as nat))->0,
                    request_order(size as nat + 1, align as nat),
                ),
    {
        let ptr = self.rust_allocate(size, align);
        proof {
            let j = lowest_free_order(old(self)@, request_order(size as nat + 1, align as nat))->0;
            let g = choose|g: int| #[trigger] is_lowest_free(old(self)@, g, j) && ptr as int == pointer_of(g) && self@
                        == allocated(old(self)@, g, j, request_order(size as nat + 1, align as nat));
            assert(g >= 0) by {
                assert(old(self)@.contains_key(g));
            }
        }
        ptr
    }

    /// Whether, in the free list of the block at `s`, the block at `l` comes right after it.
    fn next_in_list(&self, s: usize, l: usize) -> (r: bool)
        requires
            self.wf(),
            self.blocks@.contains(s as int),
            l < GRANULES,
        ensures
            r == exists|i: int|
                0 <= i && i + 1 < self.list(self.ord(s as int) as int).len() && #[trigger] self.list(
                    self.ord(s as int) as int,
                )[i] == pointer_of(s as int) && self.list(self.ord(s as int) as int)[i + 1]
                    == pointer_of(l as int),
    {
        let k = self.orders[s] as usize;
        let list = &self.free_lists[k];
        match position_of(list, to_pointer(s)) {
            Some(i) => {
                let n = list.len();
                let r = i + 1 < n && list[i + 1] == to_pointer(l);
                proof {
                    if !r {
                        assert forall|i2: int|
                            !(0 <= i2 && i2 + 1 < self.list(k as int).len() && #[trigger] self.list(
                                k as int,
                            )[i2] == pointer_of(s as int) && self.list(k as int)[i2 + 1]
                                == pointer_of(l as int)) by {
                            if 0 <= i2 && i2 + 1 < self.list(k as int).len() && self.list(
                                k as int,
                            )[i2] == pointer_of(s as int) {
                                assert(sorted(self.list(k as int)));
                                if i2 < i {
                                    assert(self.list(k as int)[i2] < self.list(k as int)[i as int]);
                                } else if i2 > i {
                                    assert(self.list(k as int)[i as int] < self.list(k as int)[i2]);
                                }
                            }
                        }
                    }
                }
                r
            },
            None => false,
        }
    }

    /// Merges the free block at `g` with its buddy while the buddy is a free block of the same
    /// order (its list neighbour) and the largest order is not reached.
    #[verifier::spinoff_prover]
    #[verifier::rlimit(40)]
    fn maybe_merge(&mut self, g: usize)
        requires
            old(self).wf(),
            old(self)@.contains_key(g as int),
        ensures
            final(self).wf(),
            final(self)@ == coalesce(old(self)@, g as int),
        decreases 22 - old(self).ord(g as int),
    {
        let ghost s0 = *old(self);
        let ghost v = s0@;
        let ghost k = s0.ord(g as int);
        let b = self.buddy(g);
        proof {
            lemma_buddy_facts(g as int, k);
            lemma_span_positive(k);
        }
        if !self.free_flags[g] || !self.free_flags[b] || self.orders[g] == MAX_ORDER {
            proof {
                if is_free_of_order(v, b as int, k) {
                    assert(s0.blocks@.contains(b as int));
                }
            }
            return;
        }
        assert(s0.blocks@.contains(b as int));
        let smaller = if g < b {
            g
        } else {
            b
        };
        let larger = if g < b {
            b
        } else {
            g
        };
        let linked = self.next_in_list(smaller, larger);
        let ghost kk = k as int;
        let ghost ps = pointer_of(smaller as int) as usize;
        let ghost pl = pointer_of(larger as int) as usize;
        proof {
            // linked exactly when the buddy is a free block of the same order
            if linked {
                let i = choose|i: int|
                    0 <= i && i + 1 < s0.list(s0.ord(smaller as int) as int).len()
                        && #[trigger] s0.list(s0.ord(smaller as int) as int)[i] == ps && s0.list(
                        s0.ord(smaller as int) as int,
                    )[i + 1] == pl;
                assert(s0.entry_ok(
                    s0.ord(smaller as int) as int,
                    s0.list(s0.ord(smaller as int) as int)[i + 1],
                ));
                assert(granule_of(pl as int) == larger);
                assert(is_free_of_order(v, b as int, k));
            }
            if is_free_of_order(v, b as int, k) {
                let l = s0.list(kk);
                assert(l.contains(ps));
                assert(l.contains(pl));
                let i = choose|i: int| 0 <= i < l.len() && #[trigger] l[i] == ps;
                let i2 = choose|i2: int| 0 <= i2 < l.len() && #[trigger] l[i2] == pl;
                assert(sorted(l));
                assert(s0.blocks@.contains(smaller as int) && s0.blocks@.contains(larger as int));
                assert(smaller < larger < GRANULES);
                assert(ps < pl);
                if i2 <= i {
                    if i2 < i {
                        assert(l[i2] < l[i]);
                    }
                }
                if i2 > i + 1 {
                    let e = l[i + 1];
                    assert(l[i] < l[i + 1] && l[i + 1] < l[i2]);
                    assert(s0.entry_ok(kk, l[i + 1]));
                    let h = granule_of(e as int);
                    assert(smaller < h < larger);
                    lemma_span_positive(s0.ord(h));
                    assert(s0.blocks@.contains(h));
                    assert(h <= h < h + span(s0.ord(h)));
                    assert((s0.owner@)(h) == h);
                    assert(smaller <= h < smaller + span(s0.ord(smaller as int)));
                    assert((s0.owner@)(h) == smaller);
                }
                assert(i2 == i + 1);
                assert(linked);
            }
        }
        if !linked {
            return;
        }
        self.make_used(smaller);
        let ghost s1 = *self;
        self.make_used(larger);
        let ghost s2 = *self;
        self.orders.set(larger, 0);
        self.orders.set(smaller, self.orders[smaller] + 1);
        let ghost s3 = *self;
        proof {
            assert(s3.free_lists@ == s2.free_lists@);
            assert(s1.list(kk + 1) == s0.list(kk + 1));
            assert(s2.list(kk + 1) == s1.list(kk + 1));
            assert(s3.list(kk + 1) == s0.list(kk + 1));
            assert(sorted(s0.list(kk + 1)));
            assert(s3.ord(smaller as int) == kk + 1);
            assert(!s3.list(kk + 1).contains(ps)) by {
                if s0.list(kk + 1).contains(ps) {
                    let i = choose|i: int|
                        0 <= i < s0.list(kk + 1).len() && #[trigger] s0.list(kk + 1)[i] == ps;
                    assert(s0.entry_ok(kk + 1, s0.list(kk + 1)[i]));
                }
            }
        }
        self.free_block(smaller);
        let ghost s4 = *self;
        proof {
            let ghost old_owner = s0.owner@;
            let ghost lg = larger as int;
            let ghost sm = smaller as int;
            self.blocks@ = s0.blocks@.remove(larger as int);
            self.owner@ = |x: int|
                if old_owner(x) == lg {
                    sm
                } else {
                    old_owner(x)
                };
            assert(self.free_lists@ == s4.free_lists@);
            assert forall|j: int|
                0 <= j < 23 && j != kk && j != kk + 1 implies #[trigger] self.list(j)
                == s0.list(j) by {
                assert(s4.list(j) == s3.list(j));
                assert(s2.list(j) == s1.list(j));
                assert(s1.list(j) == s0.list(j));
            }
            assert forall|e: usize| #[trigger]
                self.list(kk).contains(e) <==> (s0.list(kk).contains(e) && e != ps && e != pl) by {
                assert(s4.list(kk) == s3.list(kk));
            }
            assert(sorted(self.list(kk))) by {
                assert(s4.list(kk) == s3.list(kk));
            }
            assert forall|e: usize| #[trigger]
                self.list(kk + 1).contains(e) <==> (s0.list(kk + 1).contains(e) || e == ps) by {
                assert(s2.list(kk + 1) == s1.list(kk + 1));
                assert(s1.list(kk + 1) == s0.list(kk + 1));
            }
            assert(self.free_flags@ =~= s0.free_flags@.update(larger as int, false));
            assert(self.orders@ =~= s0.orders@.update(larger as int, 0).update(
                smaller as int,
                (s0.orders@[smaller as int] + 1) as u8,
            ));
            lemma_merge_wf(s0, *self, smaller as int, larger as int);
            assert(self@ == v.remove(larger as int).insert(smaller as int, (k + 1, true)));
        }
        self.maybe_merge(smaller);
    }

    /// Marks the used block at `g` free and links it in, keeping the heap consistent.
    fn release_block(&mut self, g: usize)
        requires
            old(self).wf(),
            old(self)@.contains_key(g as int),
            !old(self)@[g as int].1,
        ensures
            final(self).wf(),
            final(self)@ == old(self)@.insert(g as int, (old(self)@[g as int].0, true)),
    {
        let ghost s0 = *old(self);
        proof {
            lemma_used_not_listed(s0, g as int, s0.ord(g as int) as int);
        }
        self.free_block(g);
        proof {
            lemma_free_block_wf(s0, *self, g as int);
        }
    }

    /// Returns the block at `ptr` to the heap, merging it with its free buddies.
    pub fn free(&mut self, ptr: usize)
        requires
            old(self).wf(),
            is_allocated(old(self)@, ptr as int),
        ensures
            final(self).wf(),
            final(self)@ == freed(old(self)@, granule_of(ptr as int)),
    {
        let block = to_block(ptr);
        self.release_block(block);
        self.maybe_merge(block);
    }

    /// Frees the block at `ptr`; the size and alignment it was allocated with are not needed.
    pub fn rust_deallocate(&mut self, ptr: usize, old_size: usize, align: usize)
        requires
            old(self).wf(),
            is_allocated(old(self)@, ptr as int),
        ensures
            final(self).wf(),
            final(self)@ == freed(old(self)@, granule_of(ptr as int)),
    {
        self.free(ptr)
    }

    /// Resizes the allocation at `ptr` to `size` bytes aligned to `align`. When its block is
    /// large enough it is kept and the result is `(ptr, 0)`. Otherwise a new block is allocated
    /// as `rust_allocate` does and the old one is freed: the result is the new address and the
    /// number of bytes the caller copies from the old block (its whole usable size), or `(0, 0)`
    /// when no block is large enough, in which case nothing changes.
    pub fn rust_reallocate(&mut self, ptr: usize, old_size: usize, size: usize, align: usize) -> (r: (
        usize,
        usize,
    ))
        requires
            old(self).wf(),
            is_allocated(old(self)@, ptr as int),
            size < 0x8000_0000,
            align <= 0x8000_0000,
        ensures
            final(self).wf(),
            ({
                let g = granule_of(ptr as int);
                let k = old(self)@[g].0;
                let o = request_order(size as nat + 1, align as nat);
                if k >= o {
                    r == (ptr, 0usize) && final(self)@ == old(self)@
                } else {
                    match lowest_free_order(old(self)@, o) {
                        None => r == (0usize, 0usize) && final(self)@ == old(self)@,
                        Some(j) => exists|ng: int|
                            #![trigger is_lowest_free(old(self)@, ng, j)]
                            is_lowest_free(old(self)@, ng, j) && r.0 as int == pointer_of(ng)
                                && r.1 + 1 == span(k + 5) && final(self)@ == freed(
                                allocated(old(self)@, ng, j, o),
                                g,
                            ),
                    }
                }
            }),
    {
        let block = to_block(ptr);
        let new_order = to_order(size + 1, align);
        if self.orders[block] >= new_order {
            return (ptr, 0);
        }
        let ghost v = old(self)@;
        let ghost s0 = *old(self);
        match self.find_block_of_order(new_order) {
            Some(new_block) => {
                proof {
                    lemma_lowest_free_order(v, new_order as nat);
                    let j = lowest_free_order(v, new_order as nat)->0;
                    lemma_split_down_keeps(v, new_block as int, j, new_order as nat);
                    // the old block lies outside the block that was split
                    assert(s0.blocks@.contains(new_block as int));
                    if new_block <= block < new_block + span(j) {
                        lemma_span_positive(s0.ord(block as int));
                        assert((s0.owner@)(block as int) == new_block);
                        assert((s0.owner@)(block as int) == block);
                    }
                    lemma_split_down_outside(v, new_block as int, j, new_order as nat, block as int);
                }
                self.take_block(new_block);
                proof {
                    assert(new_block != block);
                    assert(self@.contains_key(block as int) && self@[block as int] == v[block as int]);
                    assert(s0.orders@[block as int] <= 22);
                    assert(self.blocks@.contains(block as int));
                }
                let ret = to_pointer(new_block);
                let copy_len = block_size(self.orders[block]);
                self.release_block(block);
                self.maybe_merge(block);
                (ret, copy_len)
            },
            None => (0, 0),
        }
    }

    /// Resizes the allocation at `ptr` to `size` bytes, as `rust_reallocate` does with no
    /// alignment requirement.
    pub fn realloc(&mut self, ptr: usize, size: usize) -> (r: (usize, usize))
        requires
            old(self).wf(),
            is_allocated(old(self)@, ptr as int),
            size < 0x8000_0000,
        ensures
            final(self).wf(),
            ({
                let g = granule_of(ptr as int);
                let k = old(self)@[g].0;
                let o = request_order(size as nat + 1, 1);
                if k >= o {
                    r == (ptr, 0usize) && final(self)@ == old(self)@
                } else {
                    match lowest_free_order(old(self)@, o) {
                        None => r == (0usize, 0usize) && final(self)@ == old(self)@,
                        Some(j) => exists|ng: int|
                            #![trigger is_lowest_free(old(self)@, ng, j)]
                            is_lowest_free(old(self)@, ng, j) && r.0 as int == pointer_of(ng)
                                && r.1 + 1 == span(k + 5) && final(self)@ == freed(
                                allocated(old(self)@, ng, j, o),
                                g,
                            ),
                    }
                }
            }),
    {
        self.rust_reallocate(ptr, 1, size, 1)
    }

    /// The number of bytes the allocation at `ptr` could grow to in place: the usable size of
    /// its block when that block fits `size` bytes aligned to `align`, and otherwise the usable
    /// size of a block for `old_size` bytes.
    pub fn rust_reallocate_inplace(&self, ptr: usize, old_size: usize, size: usize, align: usize) -> (r: usize)
        requires
            self.wf(),
            is_allocated(self@, ptr as int),
            old_size < 0x8000_0000,
            size < 0x8000_0000,
            align <= 0x8000_0000,
        ensures
            ({
                let k = self@[granule_of(ptr as int)].0;
                if k >= request_order(size as nat + 1, align as nat) {
                    r + 1 == span(k + 5)
                } else {
                    r + 1 == span(request_order(old_size as nat + 1, align as nat) + 5)
                }
            }),
    {
        let block = to_block(ptr);
        let new_order = to_order(size + 1, align);
        if self.orders[block] >= new_order {
            block_size(self.orders[block])
        } else {
            crate::kernel::malloc::order::rust_usable_size(old_size, align)
        }
    }

    /// Heap statistics are not kept; this prints nothing.
    pub fn rust_stats_print(&self) {
    }
}


/// Two distinct blocks of a consistent heap never overlap: no allocation shares a byte with
/// another block.
pub proof fn lemma_blocks_disjoint(heap: &BuddyHeap, g: int, h: int)
    requires
        heap.wf(),
        heap@.contains_key(g),
        heap@.contains_key(h),
        g != h,
    ensures
        g + span(heap@[g].0) <= h || h + span(heap@[h].0) <= g,
{
    lemma_span_positive(heap@[g].0);
    lemma_span_positive(heap@[h].0);
    if g <= h < g + span(heap@[g].0) {
        assert((heap.owner@)(h) == g);
        assert((heap.owner@)(h) == h);
    }
    if h <= g < h + span(heap@[h].0) {
        assert((heap.owner@)(g) == h);
        assert((heap.owner@)(g) == g);
    }
}

/// Every block of a consistent heap lies inside the heap and is aligned to its size, so its
/// pointer is aligned to the block's size in bytes.
pub proof fn lemma_block_placement(heap: &BuddyHeap, g: int)
    requires
        heap.wf(),
        heap@.contains_key(g),
    ensures
        heap@[g].0 <= 22,
        0 <= g,
        g + span(heap@[g].0) <= 0x80_0000,
        g % span(heap@[g].0) as int == 0,
        pointer_of(g) % span(heap@[g].0 + 5) as int == 0,
{
    let k = heap@[g].0;
    lemma_span_positive(k);
    lemma_span_add(k, 5);
    lemma_span_add(k, (25 - k) as nat);
    lemma_span_values();
    lemma_pointer_aligned(g, k);
}

proof fn lemma_pointer_aligned(g: int, k: nat)
    requires
        g >= 0,
        k <= 22,
        g % span(k) as int == 0,
    ensures
        pointer_of(g) % span(k + 5) as int == 0,
{
    let m = span(k) as int;
    lemma_span_positive(k);
    lemma_span_add(k, 5);
    lemma_span_add(k, (25 - k) as nat);
    reveal_with_fuel(span, 6);
    assert(span(5) == 32);
    let t = span((25 - k) as nat) as int;
    assert(m * t == 0x200_0000) by {
        lemma_span_values();
        reveal_with_fuel(span, 26);
    }
    let q = g / m;
    vstd::arithmetic::div_mod::lemma_fundamental_div_mod(g, m);
    assert(pointer_of(g) == (32 * m) * (3 * t + q)) by (nonlinear_arith)
        requires
            g == m * q + 0,
            m * t == 0x200_0000,
    ;
    vstd::arithmetic::div_mod::lemma_mod_multiples_basic(3 * t + q, 32 * m);
    assert((32 * m) * (3 * t + q) == (3 * t + q) * (32 * m)) by (nonlinear_arith);
}

/// The blocks of a consistent heap cover it: every granule lies in some block.
pub proof fn lemma_blocks_cover(heap: &BuddyHeap, x: int)
    requires
        heap.wf(),
        0 <= x < 0x80_0000,
    ensures
        exists|g: int| #[trigger] heap@.contains_key(g) && g <= x < g + span(heap@[g].0),
{
    let g = (heap.owner@)(x);
    assert(heap@.contains_key(g));
}


/// Freeing the block just allocated gives back the heap it was allocated from, for every
/// consistent heap in which no free block has a free buddy of its own order.
pub proof fn lemma_allocate_then_free(heap: &BuddyHeap, o: nat)
    requires
        heap.wf(),
        fully_merged(heap@),
    ensures
        lowest_free_order(heap@, o) matches Some(j) ==> forall|g: int|
            #[trigger] is_lowest_free(heap@, g, j) ==> freed(allocated(heap@, g, j, o), g) == heap@,
{
    let v = heap@;
    lemma_lowest_free_order(v, o);
    if let Some(j) = lowest_free_order(v, o) {
        assert forall|g: int| #[trigger] is_lowest_free(v, g, j) implies freed(
            allocated(v, g, j, o),
            g,
        ) == v by {
            lemma_block_placement(heap, g);
            assert forall|x: int| g < x < g + span(j) implies !#[trigger] v.contains_key(x) by {
                if v.contains_key(x) {
                    lemma_blocks_disjoint(heap, g, x);
                    lemma_span_positive(v[x].0);
                }
            }
            lemma_split_down_keeps(v, g, j, o);
            let a = allocated(v, g, j, o);
            assert(a.insert(g, (a[g].0, true)) =~= split_down(v, g, j, o));
            lemma_coalesce_split_down_at(v, g, j, o);
        }
    }
}


/// The blocks of a consistent heap are aligned to their order.
proof fn lemma_heap_aligned(heap: &BuddyHeap)
    requires
        heap.wf(),
    ensures
        blocks_aligned(heap@),
{
    assert forall|h: int| #[trigger] heap@.contains_key(h) implies h >= 0 && h % span(heap@[h].0) as int
        == 0 by {
        lemma_block_placement(heap, h);
    }
}

/// An allocation leaves a heap with no free buddies of one order without them: with
/// `lemma_initial_merged`, every heap built by `new`, allocations and frees is such a heap,
/// so `lemma_allocate_then_free` holds of all of them.
pub proof fn lemma_allocate_keeps_merged(heap: &BuddyHeap, o: nat)
    requires
        heap.wf(),
        fully_merged(heap@),
    ensures
        lowest_free_order(heap@, o) matches Some(j) ==> forall|g: int|
            #[trigger] is_lowest_free(heap@, g, j) ==> fully_merged(allocated(heap@, g, j, o)),
{
    lemma_heap_aligned(heap);
    lemma_lowest_free_order(heap@, o);
    if let Some(j) = lowest_free_order(heap@, o) {
        assert forall|g: int| #[trigger] is_lowest_free(heap@, g, j) implies fully_merged(
            allocated(heap@, g, j, o),
        ) by {
            lemma_allocated_merged(heap@, g, j, o);
        }
    }
}

/// Freeing an allocated block leaves a heap with no free buddies of one order without them.
pub proof fn lemma_free_keeps_merged(heap: &BuddyHeap, ptr: int)
    requires
        heap.wf(),
        fully_merged(heap@),
        is_allocated(heap@, ptr),
    ensures
        fully_merged(freed(heap@, granule_of(ptr))),
{
    lemma_heap_aligned(heap);
    lemma_block_placement(heap, granule_of(ptr));
    lemma_freed_merged(heap@, granule_of(ptr));
}


/// Strictly ascending sequences that hold the same elements are equal.
proof fn lemma_sorted_unique(a: Seq<usize>, b: Seq<usize>)
    requires
        sorted(a),
        sorted(b),
        forall|x: usize| a.contains(x) <==> b.contains(x),
    ensures
        a == b,
    decreases a.len(),
{
    if a.len() == 0 {
        if b.len() > 0 {
            assert(b.contains(b[0]));
        }
        assert(a =~= b);
    } else {
        assert(a.contains(a.last()));
        assert(b.len() > 0);
        assert(b.contains(b.last()));
        let x = a.last();
        let y = b.last();
        let i = choose|i: int| 0 <= i < b.len() && b[i] == x;
        let j = choose|j: int| 0 <= j < a.len() && a[j] == y;
        assert(x <= y) by {
            if i < b.len() - 1 {
                assert(b[i] < b[b.len() - 1]);
            }
        }
        assert(y <= x) by {
            if j < a.len() - 1 {
                assert(a[j] < a[a.len() - 1]);
            }
        }
        let a1 = a.drop_last();
        let b1 = b.drop_last();
        assert forall|z: usize| a1.contains(z) <==> b1.contains(z) by {
            if a1.contains(z) {
                let p = choose|p: int| 0 <= p < a1.len() && a1[p] == z;
                assert(a[p] < a[a.len() - 1]);
                assert(b.contains(z));
                let q = choose|q: int| 0 <= q < b.len() && b[q] == z;
                assert(q != b.len() - 1);
                assert(b1[q] == z);
            }
            if b1.contains(z) {
                let p = choose|p: int| 0 <= p < b1.len() && b1[p] == z;
                assert(b[p] < b[b.len() - 1]);
                assert(a.contains(z));
                let q = choose|q: int| 0 <= q < a.len() && a[q] == z;
                assert(q != a.len() - 1);
                assert(a1[q] == z);
            }
        }
        lemma_sorted_unique(a1, b1);
        assert(a =~= a1.push(x));
        assert(b =~= b1.push(y));
    }
}

/// The free list of each order of a consistent heap holds, in ascending order, exactly the
/// addresses of the free blocks of that order.
pub proof fn lemma_free_lists(heap: &BuddyHeap, k: int)
    requires
        heap.wf(),
        0 <= k < 23,
    ensures
        sorted(heap.free_list(k)),
        forall|e: usize|
            heap.free_list(k).contains(e) <==> exists|g: int|
                #[trigger] is_free_of_order(heap@, g, k as nat) && e as int == pointer_of(g),
{
    assert forall|e: usize| heap.free_list(k).contains(e) implies exists|g: int|
        #[trigger] is_free_of_order(heap@, g, k as nat) && e as int == pointer_of(g) by {
        let i = choose|i: int| 0 <= i < heap.list(k).len() && heap.list(k)[i] == e;
        assert(heap.entry_ok(k, heap.list(k)[i]));
        let g = granule_of(e as int);
        assert(is_free_of_order(heap@, g, k as nat));
        assert(e as int == pointer_of(g));
    }
    assert forall|e: usize| (exists|g: int|
        #[trigger] is_free_of_order(heap@, g, k as nat) && e as int == pointer_of(g)) implies heap.free_list(k).contains(e) by {
        let g = choose|g: int| #[trigger] is_free_of_order(heap@, g, k as nat) && e as int == pointer_of(g);
        assert(heap.blocks@.contains(g) && heap.free_flags@[g]);
        assert(heap.list(heap.ord(g) as int).contains(pointer_of(g) as usize));
    }
}

/// The free lists of a consistent heap are fixed by its view: two consistent heaps with the same
/// blocks have the same free lists, in the same order. So freeing the block just allocated gives
/// back the very free lists the heap had (`lemma_allocate_then_free`).
pub proof fn lemma_view_determines_lists(h1: &BuddyHeap, h2: &BuddyHeap)
    requires
        h1.wf(),
        h2.wf(),
        h1@ == h2@,
    ensures
        forall|k: int| 0 <= k < 23 ==> #[trigger] h1.free_list(k) == h2.free_list(k),
{
    assert forall|k: int| 0 <= k < 23 implies #[trigger] h1.free_list(k) == h2.free_list(k) by {
        lemma_free_lists(h1, k);
        lemma_free_lists(h2, k);
        lemma_sorted_unique(h1.free_list(k), h2.free_list(k));
    }
}


/// What `init` leaves: a consistent heap, the one that was there if there was one, else a
/// fresh one.
pub open spec fn initialized(before: Option<BuddyHeap>, after: Option<BuddyHeap>) -> bool {
    &&& after is Some
    &&& after->0.wf()
    &&& before is Some ==> after == before
    &&& before is None ==> after->0@ == initial_heap()
}

/// Sets up the heap the first time it is needed: an empty slot gets a fresh heap, and a heap
/// already there is kept as it is.
pub fn init(heap: &mut Option<BuddyHeap>)
    requires
        *old(heap) matches Some(h) ==> h.wf(),
    ensures
        initialized(*old(heap), *final(heap)),
{
    if heap.is_none() {
        *heap = Some(BuddyHeap::new());
    }
}

/// Setting up the heap twice does what setting it up once does.
pub proof fn lemma_init_twice(first: Option<BuddyHeap>, once: Option<BuddyHeap>, twice: Option<BuddyHeap>)
    requires
        initialized(first, once),
        initialized(once, twice),
    ensures
        twice == once,
{
}


/// Putting an address into a free list at the place `free_insert` finds for it (after every
/// lower address, before the first that is not lower) keeps the list strictly ascending; the
/// list then holds exactly its old addresses and the new one, and the new one comes first
/// exactly when it is lower than every old one.
pub proof fn lemma_sorted_insert(before: Seq<usize>, i: int, p: usize)
    requires
        sorted(before),
        !before.contains(p),
        0 <= i <= before.len(),
        forall|j: int| 0 <= j < i ==> before[j] < p,
        i < before.len() ==> before[i] >= p,
    ensures
        sorted(before.insert(i, p)),
        forall|e: usize| #[trigger] before.insert(i, p).contains(e) <==> (before.contains(e) || e == p),
        (before.insert(i, p)[0] == p) <==> (forall|j: int| 0 <= j < before.len() ==> p < #[trigger] before[j]),
{
    let after = before.insert(i, p);
    assert forall|a: int, b: int| 0 <= a < b < after.len() implies after[a] < after[b] by {
        if i < before.len() {
            assert(before[i] != p) by {
                assert(before.contains(before[i]));
            }
        }
    }
    assert forall|e: usize| after.contains(e) <==> (before.contains(e) || e == p) by {
        if after.contains(e) {
            let j = choose|j: int| 0 <= j < after.len() && after[j] == e;
            if j < i {
                assert(before[j] == e);
            } else if j > i {
                assert(before[j - 1] == e);
            }
        }
        if before.contains(e) {
            let j = choose|j: int| 0 <= j < before.len() && before[j] == e;
            if j < i {
                assert(after[j] == e);
            } else {
                assert(after[j + 1] == e);
            }
        }
        if e == p {
            assert(after[i] == e);
        }
    }
    if after[0] == p {
        if i > 0 {
            assert(before[0] < p);
            assert(after[0] == before[0]);
        }
        assert forall|j: int| 0 <= j < before.len() implies p < #[trigger] before[j] by {
            assert(before[j] != p) by {
                assert(before.contains(before[j]));
            }
            assert(after[j + 1] == before[j]);
        }
    } else {
        if i == 0 {
            assert(after[0] == p);
        } else {
            assert(before[0] < p);
        }
    }
}


/// Freeing an allocated block frees exactly its granules: afterwards a granule lies in a free
/// block when it did before or lies in the block freed. The merging that follows takes and
/// frees nothing more (`lemma_coalesce_keeps_free`).
pub proof fn lemma_free_frees_the_block(heap: &BuddyHeap, ptr: int, x: int)
    requires
        heap.wf(),
        is_allocated(heap@, ptr),
    ensures
        free_at(freed(heap@, granule_of(ptr)), x) == (free_at(heap@, x) || granule_of(ptr) <= x
            < granule_of(ptr) + span(heap@[granule_of(ptr)].0)),
{
    let v = heap@;
    let g = granule_of(ptr);
    lemma_heap_aligned(heap);
    lemma_block_placement(heap, g);
    let w = v.insert(g, (v[g].0, true));
    assert forall|h: int| #[trigger] w.contains_key(h) implies h >= 0 && h % span(w[h].0) as int
        == 0 by {
        assert(v.contains_key(h));
    }
    lemma_coalesce_keeps_free(w, g);
    assert(free_at(freed(v, g), x) == free_at(w, x));
    if free_at(w, x) {
        let h = choose|h: int| #[trigger] w.contains_key(h) && w[h].1 && h <= x < h + span(w[h].0);
        if h != g {
            assert(v.contains_key(h));
        }
    }
    if free_at(v, x) {
        let h = choose|h: int| #[trigger] v.contains_key(h) && v[h].1 && h <= x < h + span(v[h].0);
        assert(h != g);
        assert(w.contains_key(h));
    }
    if g <= x < g + span(v[g].0) {
        assert(w.contains_key(g));
    }
}

} // verus!
