//! Interrupt set-up, the local and I/O APICs, and the page fault decision.
pub mod apic;
pub mod idt;

pub use crate::kernel::interrupts::pic::{remap_pic, mask_pic};
pub use crate::kernel::interrupts::pic_setup;

use vstd::prelude::*;
use crate::hw::PortWrite;
use crate::kernel64::mmu::Descriptor;
use crate::kernel64::paging::{AddressSpace, DIRECTORY_PAGE};
use self::idt::{idt_entry, register_interrupt, register_trap};

verus! {

/// The entry points of the assembly interrupt stubs.
#[derive(Clone, Copy, Debug, PartialEq, Eq, Structural)]
pub struct HandlerAddresses {
    pub double_fault: u64,
    pub gpf: u64,
    pub page_fault: u64,
    pub kbd_interrupt: u64,
    pub spurious: u64,
}

/// The character that reports a general protection fault with error code `code`: its
/// selector index (the code shifted right by 3) past `'!'`, truncated to a byte.
pub fn gpf_code_char(code: u64) -> (c: u8)
    ensures
        c == (code / 8 + 0x21) % 256,
{
    ((code / 8 + 0x21) % 256) as u8
}

/// Sets up interrupt handling: remaps the PICs (whose masks were read as `mask1` and `mask2`)
/// and masks all their lines, which the returned port writes do, and installs ring-0 entries
/// for double fault (0x8, interrupt), general protection (0xD, trap), page fault (0xE, trap),
/// keyboard (0x21, interrupt) and spurious interrupts (0xFF, interrupt).
pub fn init_idt(idt: &mut Vec<Descriptor>, mask1: u8, mask2: u8, handlers: &HandlerAddresses) -> (ws:
    Vec<PortWrite>)
    requires
        old(idt)@.len() == 256,
    ensures
        ws@ == pic_setup(mask1, mask2),
        final(idt)@ == old(idt)@.update(
            0x8,
            idt_entry(old(idt)@[0x8], handlers.double_fault, 0xE),
        ).update(0xD, idt_entry(old(idt)@[0xD], handlers.gpf, 0xF)).update(
            0xE,
            idt_entry(old(idt)@[0xE], handlers.page_fault, 0xF),
        ).update(0x21, idt_entry(old(idt)@[0x21], handlers.kbd_interrupt, 0xE)).update(
            0xFF,
            idt_entry(old(idt)@[0xFF], handlers.spurious, 0xE),
        ),
{
    let mut ws = remap_pic(mask1, mask2);
    let mut masks = mask_pic(0xff, 0xff);
    ws.append(&mut masks);
    register_interrupt(idt, 0x8, handlers.double_fault);
    register_trap(idt, 0xD, handlers.gpf);
    register_trap(idt, 0xE, handlers.page_fault);
    register_interrupt(idt, 0x21, handlers.kbd_interrupt);
    register_interrupt(idt, 0xFF, handlers.spurious);
    assert(ws@ =~= pic_setup(mask1, mask2));
    ws
}

/// Handles a page fault at `address` with error code `error`. A fault on a present page (bit 0
/// of the code) is a protection violation: nothing is mapped and `false` says the kernel stops.
/// Otherwise the page is made present with the next free frame and `true` is returned.
pub fn page_fault_handler(space: &mut AddressSpace, address: u64, error: u64) -> (handled: bool)
    requires
        old(space).wf(),
        error % 2 == 0 ==> address <= u32::MAX,
        error % 2 == 0 ==> old(space).next_frame < u32::MAX - 1,
    ensures
        handled == (error % 2 == 0),
        !handled ==> *final(space) == *old(space),
        handled ==> {
            let a = address as u32;
            &&& final(space).shaped()
            &&& final(space).next_frame == old(space).with_table_for(a).1 + 1
            &&& old(space).entry_written(
                final(space).pd@,
                final(space).tables@,
                a,
                (old(space).with_table_for(a).1 << 12u32) | 3u32,
            )
            &&& a / 4096 != DIRECTORY_PAGE / 4096 ==> final(space).wf() && final(space).translate(a)
                == Some((old(space).with_table_for(a).1 % 0x10_0000) * 4096 + a % 4096)
        },
{
    if error % 2 == 1 {
        return false;
    }
    space.make_present(address as u32);
    true
}

} // verus!
