use vstd::prelude::*;
use crate::kernel64::mmu::{Descriptor, TableDescriptor, entry64_word0, entry64_word1};

verus! {

/// The number of entries of the IDT.
pub const IDT_COUNT: usize = 256;

/// The `lidt` operand for an IDT of `IDT_COUNT` 16-byte descriptors at `idt_addr`.
pub fn init(idt_addr: u64) -> (d: TableDescriptor)
    ensures
        d == (TableDescriptor { limit: 4095, base: idt_addr }),
{
    TableDescriptor { limit: (16 * IDT_COUNT - 1) as u16, base: idt_addr }
}

/// The entry installed for a ring-0 interrupt handler at `handler`.
pub open spec fn interrupt_entry(d: Descriptor, handler: u64) -> Descriptor {
    Descriptor { f0: entry64_word0(0x08, handler), f1: entry64_word1(handler, 0, 0xE), ..d }
}

/// Installs a ring-0 interrupt gate for vector `number`.
pub fn register_interrupt(idt: &mut Vec<Descriptor>, number: usize, handler: u64)
    requires
        number < old(idt)@.len(),
    ensures
        final(idt)@ == old(idt)@.update(
            number as int,
            interrupt_entry(old(idt)@[number as int], handler),
        ),
{
    idt[number].set_interrupt_descriptor(0x08, handler, 0);
}

} // verus!
