use vstd::prelude::*;
use crate::kernel64::mmu::{Descriptor, entry64_word0, entry64_word1};

verus! {

/// The entry of type `typ` installed for a ring-0 handler at `handler`.
pub open spec fn idt_entry(d: Descriptor, handler: u64, typ: u32) -> Descriptor {
    Descriptor { f0: entry64_word0(0x08, handler), f1: entry64_word1(handler, 0, typ), ..d }
}

/// Installs a ring-0 interrupt gate (type 0xE) for vector `number`.
pub fn register_interrupt(idt: &mut Vec<Descriptor>, number: usize, handler: u64)
    requires
        number < old(idt)@.len(),
    ensures
        final(idt)@ == old(idt)@.update(number as int, idt_entry(old(idt)@[number as int], handler, 0xE)),
{
    idt[number].set_descriptor(0x08, handler, 0, 0xE);
}

/// Installs a ring-0 trap gate (type 0xF) for vector `number`.
pub fn register_trap(idt: &mut Vec<Descriptor>, number: usize, handler: u64)
    requires
        number < old(idt)@.len(),
    ensures
        final(idt)@ == old(idt)@.update(number as int, idt_entry(old(idt)@[number as int], handler, 0xF)),
{
    idt[number].set_descriptor(0x08, handler, 0, 0xF);
}

} // verus!
