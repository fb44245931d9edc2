use vstd::prelude::*;
use crate::kernel::mmu::{Descriptor, TableDescriptor, entry_word0, entry_word1};

verus! {

/// The number of entries of the IDT.
pub const IDT_COUNT: usize = 256;

/// The kernel code segment selector.
pub const KERNEL_CODE_SELECTOR: u32 = 0x08;

/// The `lidt` operand for an IDT of `IDT_COUNT` descriptors at `idt_addr`.
pub fn init(idt_addr: u32) -> (d: TableDescriptor)
    ensures
        d == (TableDescriptor { limit: 2047, base: idt_addr }),
{
    TableDescriptor { limit: (8 * IDT_COUNT - 1) as u16, base: idt_addr }
}

/// The entry that `register_interrupt` (type 0xE) or `register_trap` (type 0xF) installs.
pub open spec fn idt_entry(handler: u32, dpl: u32, typ: u32) -> Descriptor {
    Descriptor { f0: entry_word0(0x08, handler), f1: entry_word1(handler, dpl, typ) }
}

/// Installs an interrupt gate (interrupts disabled on entry) for vector `number`.
pub fn register_interrupt(idt: &mut Vec<Descriptor>, number: usize, handler: u32, dpl: u32)
    requires
        number < old(idt)@.len(),
    ensures
        final(idt)@ == old(idt)@.update(number as int, idt_entry(handler, dpl, 0xE)),
{
    idt[number].set_descriptor(KERNEL_CODE_SELECTOR, handler, dpl, 0xE);
}

/// Installs a trap gate (interrupts left enabled) for vector `number`.
pub fn register_trap(idt: &mut Vec<Descriptor>, number: usize, handler: u32, dpl: u32)
    requires
        number < old(idt)@.len(),
    ensures
        final(idt)@ == old(idt)@.update(number as int, idt_entry(handler, dpl, 0xF)),
{
    idt[number].set_descriptor(KERNEL_CODE_SELECTOR, handler, dpl, 0xF);
}

} // verus!
