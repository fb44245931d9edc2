use vstd::prelude::*;
use crate::kernel::mmu::{Descriptor, tss_word0, tss_word1};

verus! {

/// The number of descriptors of the GDT.
pub const GDT_COUNT: usize = 10;

/// The fixed GDT entries: null, kernel code and data, user code and data. The TSS descriptors
/// of the processors follow, one per local APIC id.
pub const GDT_FIXED_ENTRIES: usize = 5;

/// The size in bytes of a `Tss`.
pub const TSS_BYTES: u32 = 104;

/// A 32-bit task state segment; only the ring-0 stack is used.
pub struct Tss {
    pub _prev: u32,
    pub esp0: u32,
    pub _ss0: u32,
    pub _unused: [u32; 23],
}

impl Default for Tss {
    fn default() -> (t: Tss)
        ensures
            t._prev == 0,
            t.esp0 == 0,
            t._ss0 == 0x10,
            forall|i: int| 0 <= i < 23 ==> t._unused@[i] == 0,
    {
        Tss { _prev: 0, esp0: 0, _ss0: 0x10, _unused: [0; 23] }
    }
}

impl Tss {
    /// Sets the stack the processor switches to on an interrupt from user mode.
    pub fn set_esp0(&mut self, esp0: u32)
        ensures
            final(self).esp0 == esp0,
            final(self)._prev == old(self)._prev,
            final(self)._ss0 == old(self)._ss0,
            final(self)._unused == old(self)._unused,
    {
        self.esp0 = esp0
    }
}

/// Prepares a processor for user mode: for the processor with local APIC id `apic_id`, whose
/// stack pointer is `esp` and whose TSS `tss` lies at `tss_addr`, sets the TSS's ring-0 stack
/// to leave room for 0x200 bytes below `esp`, installs the TSS descriptor (usable from ring 3)
/// in its GDT slot, and returns the selector to load into the task register. Returns `None`
/// when the GDT has no slot for the processor.
pub fn init(apic_id: u8, esp: u32, tss: &mut Tss, tss_addr: u32, gdt: &mut Vec<Descriptor>) -> (r:
    Option<u32>)
    requires
        old(gdt)@.len() == GDT_COUNT,
        esp >= 0x200,
    ensures
        apic_id + GDT_FIXED_ENTRIES >= GDT_COUNT ==> r is None && *final(tss) == *old(tss)
            && final(gdt)@ == old(gdt)@,
        apic_id + GDT_FIXED_ENTRIES < GDT_COUNT ==> {
            let index = apic_id + GDT_FIXED_ENTRIES;
            &&& r == Some((index * 8 + 3) as u32)
            &&& final(tss).esp0 == esp - 0x200
            &&& final(tss)._ss0 == old(tss)._ss0
            &&& final(gdt)@ == old(gdt)@.update(
                index,
                Descriptor { f0: tss_word0(tss_addr, TSS_BYTES as u32), f1: tss_word1(tss_addr, TSS_BYTES as u32, 3) },
            )
        },
{
    let index = apic_id as usize + GDT_FIXED_ENTRIES;
    if index >= GDT_COUNT {
        return None;
    }
    let esp0 = esp - 0x200;
    tss.set_esp0(esp0);
    gdt[index].set_tss_descriptor(tss_addr, TSS_BYTES, 3);
    proof {
        let i = index as u32;
        assert(i < 10 ==> (i << 3u32) | 3u32 == i * 8 + 3) by (bit_vector);
    }
    Some(((index as u32) << 3) | 0x03)
}

} // verus!
