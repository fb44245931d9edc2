//! Shifts and masks by constants, as division and remainder.
use vstd::prelude::*;

verus! {

/// Shifts, masks and truncations of a 32-bit word by the constants the kernel uses.
pub proof fn lemma_u32_fields()
    ensures
        forall|x: u32| #![trigger x >> 8u32] x >> 8u32 == x / 256,
        forall|x: u32| #![trigger x >> 12u32] x >> 12u32 == x / 4096,
        forall|x: u32| #![trigger x >> 16u32] x >> 16u32 == x / 65536,
        forall|x: u32| #![trigger x >> 22u32] x >> 22u32 == x / 0x40_0000,
        forall|x: u32| #![trigger x >> 24u32] x >> 24u32 == x / 0x100_0000,
        forall|x: u32| #![trigger (x as u8)] (x as u8) == x % 256,
        forall|x: u32| #![trigger x & 0xffu32] x & 0xffu32 == x % 256,
        forall|x: u32| #![trigger x & 0x3ffu32] x & 0x3ffu32 == x % 1024,
        forall|x: u32| #![trigger x << 24u32] x << 24u32 == (x * 0x100_0000) as u32,
        forall|x: u32| #![trigger x & 1u32] x & 1u32 == x % 2,
{
    assert((forall|x: u32| #![trigger x >> 8u32] x >> 8u32 == x / 256) && (forall|x: u32|
        #![trigger x >> 12u32]
        x >> 12u32 == x / 4096) && (forall|x: u32| #![trigger x >> 16u32] x >> 16u32 == x / 65536)
        && (forall|x: u32| #![trigger x >> 22u32] x >> 22u32 == x / 0x40_0000) && (forall|x: u32|
        #![trigger x >> 24u32]
        x >> 24u32 == x / 0x100_0000) && (forall|x: u32| #![trigger (x as u8)] (x as u8) == x % 256)
        && (forall|x: u32| #![trigger x & 0xffu32] x & 0xffu32 == x % 256) && (forall|x: u32|
        #![trigger x & 0x3ffu32]
        x & 0x3ffu32 == x % 1024) && (forall|x: u32|
        #![trigger x << 24u32]
        x << 24u32 == (x * 0x100_0000) as u32) && (forall|x: u32|
        #![trigger x & 1u32]
        x & 1u32 == x % 2)) by (bit_vector);
}

/// Page table entries: an entry built from a frame number and the present and writable bits is
/// present and holds that frame; clearing bit 0 makes an entry not present.
pub proof fn lemma_page_entries()
    ensures
        forall|n: u32|
            #![trigger (n << 12u32) | 3u32]
            ((n << 12u32) | 3u32) & 1u32 == 1u32 && ((n << 12u32) | 3u32) / 4096 == n % 0x10_0000,
        forall|e: u32| #![trigger e & !1u32] (e & !1u32) & 1u32 == 0u32,
        forall|a: u32| #![trigger (a >> 12u32)] ((a >> 12u32) % 0x10_0000) * 4096 + a % 4096 == a,
        forall|e: u32| #![trigger e & 1u32] e & 1u32 != 0u32 ==> e & 1u32 == 1u32,
{
    assert((forall|n: u32|
        #![trigger (n << 12u32) | 3u32]
        ((n << 12u32) | 3u32) & 1u32 == 1u32 && ((n << 12u32) | 3u32) / 4096 == n % 0x10_0000) && (
    forall|e: u32| #![trigger e & !1u32] (e & !1u32) & 1u32 == 0u32) && (forall|a: u32|
        #![trigger (a >> 12u32)]
        ((a >> 12u32) % 0x10_0000) * 4096 + a % 4096 == a) && (forall|e: u32|
        #![trigger e & 1u32]
        e & 1u32 != 0u32 ==> e & 1u32 == 1u32)) by (bit_vector);
}

} // verus!
