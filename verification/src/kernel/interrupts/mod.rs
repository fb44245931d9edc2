//! Interrupt descriptors, the 8259 PIC, interrupt frames and fault decisions.
pub mod context;
pub mod handlers;
pub mod idt;
pub mod pic;
pub use self::context::{Context, Contextable};

use vstd::prelude::*;
use crate::hw::PortWrite;
use crate::kernel::mmu::Descriptor;
use self::idt::{idt_entry, register_interrupt, register_trap};
use self::pic::{remap_pic, mask_pic};

verus! {

/// The entry points of the assembly interrupt stubs.
#[derive(Clone, Copy, Debug, PartialEq, Eq, Structural)]
pub struct HandlerAddresses {
    pub double_fault: u32,
    pub gpf: u32,
    pub page_fault: u32,
    pub kbd_interrupt: u32,
    pub syscall: u32,
    pub spurious: u32,
}

/// The port writes of `init_idt`: the PICs remapped (restoring the masks read from them) and
/// then every line masked.
pub open spec fn pic_setup(mask1: u8, mask2: u8) -> Seq<PortWrite> {
    seq![
        PortWrite { port: 0x20, value: 0x11 },
        PortWrite { port: 0xA0, value: 0x11 },
        PortWrite { port: 0x21, value: 0x20 },
        PortWrite { port: 0xA1, value: 0x28 },
        PortWrite { port: 0x21, value: 0x04 },
        PortWrite { port: 0xA1, value: 0x02 },
        PortWrite { port: 0x21, value: 0x01 },
        PortWrite { port: 0xA1, value: 0x01 },
        PortWrite { port: 0x21, value: mask1 },
        PortWrite { port: 0xA1, value: mask2 },
        PortWrite { port: 0x21, value: 0xff },
        PortWrite { port: 0xA1, value: 0xff },
    ]
}

/// Sets up interrupt handling: remaps the PICs (whose masks were read as `mask1` and `mask2`)
/// and masks all their lines, which the returned port writes do, and installs the gates for
/// double fault (0x8), general protection (0xD), page fault (0xE), keyboard (0x21), system
/// call (0x50, callable from ring 3) and spurious interrupts (0xFF).
pub fn init_idt(idt: &mut Vec<Descriptor>, mask1: u8, mask2: u8, handlers: &HandlerAddresses) -> (ws:
    Vec<PortWrite>)
    requires
        old(idt)@.len() == 256,
    ensures
        ws@ == pic_setup(mask1, mask2),
        final(idt)@ == old(idt)@.update(0x8, idt_entry(handlers.double_fault, 0, 0xE)).update(
            0xD,
            idt_entry(handlers.gpf, 0, 0xF),
        ).update(0xE, idt_entry(handlers.page_fault, 0, 0xF)).update(
            0x21,
            idt_entry(handlers.kbd_interrupt, 0, 0xE),
        ).update(0x50, idt_entry(handlers.syscall, 3, 0xF)).update(0xFF, idt_entry(handlers.spurious, 0, 0xE)),
{
    let mut ws = remap_pic(mask1, mask2);
    let mut masks = mask_pic(0xff, 0xff);
    ws.append(&mut masks);
    register_interrupt(idt, 0x8, handlers.double_fault, 0);
    register_trap(idt, 0xD, handlers.gpf, 0);
    register_trap(idt, 0xE, handlers.page_fault, 0);
    register_interrupt(idt, 0x21, handlers.kbd_interrupt, 0);
    register_trap(idt, 0x50, handlers.syscall, 3);
    register_interrupt(idt, 0xFF, handlers.spurious, 0);
    assert(ws@ =~= pic_setup(mask1, mask2));
    ws
}

} // verus!
