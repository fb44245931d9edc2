use vstd::prelude::*;
use crate::hw::PortWrite;

verus! {

pub const PIC1_CMD: u16 = 0x20;

pub const PIC1_DATA: u16 = 0x21;

pub const PIC2_CMD: u16 = 0xA0;

pub const PIC2_DATA: u16 = 0xA1;

pub const PIC_TIMER_DATA: u16 = 0x40;

pub const PIC_TIMER_CMD: u16 = 0x43;

/// Reprograms both PICs so that their interrupts arrive at vectors 0x20 and 0x28, cascaded
/// through line 2, in 8086 mode, and then restores the masks `mask1` and `mask2` that were read
/// from their data ports beforehand.
pub fn remap_pic(mask1: u8, mask2: u8) -> (ws: Vec<PortWrite>)
    ensures
        ws@ == seq![
            PortWrite { port: 0x20, value: 0x11 },
            PortWrite { port: 0xA0, value: 0x11 },
            PortWrite { port: 0x21, value: 0x20 },
            PortWrite { port: 0xA1, value: 0x28 },
            PortWrite { port: 0x21, value: 0x04 },
            PortWrite { port: 0xA1, value: 0x02 },
            PortWrite { port: 0x21, value: 0x01 },
            PortWrite { port: 0xA1, value: 0x01 },
            PortWrite { port: 0x21, value: mask1 },
            PortWrite { port: 0xA1, value: mask2 },
        ],
{
    let mut ws: Vec<PortWrite> = Vec::new();
    ws.push(PortWrite { port: PIC1_CMD, value: 0x11 });
    ws.push(PortWrite { port: PIC2_CMD, value: 0x11 });
    ws.push(PortWrite { port: PIC1_DATA, value: 0x20 });
    ws.push(PortWrite { port: PIC2_DATA, value: 0x28 });
    ws.push(PortWrite { port: PIC1_DATA, value: 0x04 });
    ws.push(PortWrite { port: PIC2_DATA, value: 0x02 });
    ws.push(PortWrite { port: PIC1_DATA, value: 0x01 });
    ws.push(PortWrite { port: PIC2_DATA, value: 0x01 });
    ws.push(PortWrite { port: PIC1_DATA, value: mask1 });
    ws.push(PortWrite { port: PIC2_DATA, value: mask2 });
    ws
}

/// Sets the interrupt masks of the master and slave PIC.
pub fn mask_pic(master_mask: u8, slave_mask: u8) -> (ws: Vec<PortWrite>)
    ensures
        ws@ == seq![
            PortWrite { port: 0x21, value: master_mask },
            PortWrite { port: 0xA1, value: slave_mask },
        ],
{
    let mut ws: Vec<PortWrite> = Vec::new();
    ws.push(PortWrite { port: PIC1_DATA, value: master_mask });
    ws.push(PortWrite { port: PIC2_DATA, value: slave_mask });
    ws
}

/// The reload value that makes the timer fire about every `ms` milliseconds: 1193 ticks per
/// millisecond, doubled because mode 3 counts down by two.
pub open spec fn timer_reload(ms: u16) -> int {
    ms * 2386
}

/// Programs channel 0 of the interval timer in mode 3 to fire about every `ms` milliseconds;
/// the low byte of the reload value is made even.
pub fn timer_init(ms: u16) -> (ws: Vec<PortWrite>)
    requires
        timer_reload(ms) <= u16::MAX,
    ensures
        ws@ == seq![
            PortWrite { port: 0x43, value: 0x36 },
            PortWrite { port: 0x40, value: ((timer_reload(ms) % 256) / 2 * 2) as u8 },
            PortWrite { port: 0x40, value: (timer_reload(ms) / 256) as u8 },
        ],
{
    let ticks_per_ms: u16 = 1193;
    let reload = ms * ticks_per_ms * 2;
    proof {
        assert(reload == timer_reload(ms));
        assert((reload & 0xfe) as u8 == ((reload % 256) / 2 * 2) as u8 && (reload >> 8u16) as u8
            == (reload / 256) as u8) by (bit_vector);
    }
    let mut ws: Vec<PortWrite> = Vec::new();
    ws.push(PortWrite { port: PIC_TIMER_CMD, value: 0b00110110 });
    ws.push(PortWrite { port: PIC_TIMER_DATA, value: (reload & 0xfe) as u8 });
    ws.push(PortWrite { port: PIC_TIMER_DATA, value: (reload >> 8) as u8 });
    ws
}

} // verus!
