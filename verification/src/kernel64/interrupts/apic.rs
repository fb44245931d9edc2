use vstd::prelude::*;
use crate::kernel64::acpi::IOAPIC;
use crate::bits::lemma_u32_fields;

verus! {

/// The model-specific register of the local APIC base.
pub const LAPIC_MSR_ID: u32 = 0x1B;

/// The global enable bit of that register.
pub const LAPIC_ENABLE_BIT: u64 = 0x800;

/// The bootstrap-processor bit of that register.
pub const LAPIC_BSP_BIT: u64 = 0x100;

/// Where the local APIC's registers are mapped.
pub const LAPIC_BASE: usize = 0xFEE0_0000;

/// Where the first I/O APIC's registers are mapped.
pub const IOAPIC_BASE: usize = 0xFEC0_0000;

/// A write of `value` to the local APIC register at offset `reg` (mapped at
/// `LAPIC_BASE | reg`).
#[derive(Clone, Copy, Debug, PartialEq, Eq, Structural)]
pub struct LapicWrite {
    pub reg: u32,
    pub value: u32,
}

/// A write of `value` to register `reg` of the I/O APIC at `addr`: the register number goes to
/// its select register and the value to its window register.
#[derive(Clone, Copy, Debug, PartialEq, Eq, Structural)]
pub struct IoapicWrite {
    pub addr: usize,
    pub reg: u8,
    pub value: u32,
}

/// Enables the local APIC: from the APIC base register value `msr`, the value to write back
/// (base address kept, enable bit set) and the spurious-interrupt register write that enables
/// the APIC with vector 0xFF.
pub fn enable_lapic(msr: u64) -> (r: (u64, LapicWrite))
    ensures
        r == ((msr & 0xffff_f100) | 0x800, LapicWrite { reg: 0xF0, value: 0x1ff }),
{
    let val = (msr & 0xffff_f100) | LAPIC_ENABLE_BIT;
    (val, LapicWrite { reg: 0xF0, value: 0x1ff })
}

/// This processor's local APIC id (from the id register value `id_reg`, bits 24..32) and
/// whether it is the bootstrap processor (from the APIC base register value `msr`).
pub fn whoami(msr: u64, id_reg: u32) -> (r: (u8, bool))
    ensures
        r == ((id_reg / 0x100_0000) as u8, msr & 0x100 != 0),
{
    proof {
        lemma_u32_fields();
    }
    ((id_reg >> 24) as u8, (msr & LAPIC_BSP_BIT) != 0)
}

/// Signals the end of an interrupt to the local APIC.
pub fn eoi() -> (w: LapicWrite)
    ensures
        w == (LapicWrite { reg: 0xB0, value: 0 }),
{
    LapicWrite { reg: 0xB0, value: 0 }
}

/// The I/O APIC that serves `irq`: the first in `list` whose range of interrupts holds it, or
/// the one at `IOAPIC_BASE` when none does.
pub fn ioapic_for(list: &Vec<IOAPIC>, irq: u8) -> (addr: usize)
    ensures
        match first_serving(list@, irq as u32) {
            Some(i) => addr == list@[i].addr,
            None => addr == IOAPIC_BASE,
        },
{
    let mut i: usize = 0;
    while i < list.len()
        invariant
            i <= list@.len(),
            forall|j: int|
                0 <= j < i ==> !((#[trigger] list@[j]).first_interrupt <= irq as u32 <= list@[j].last_interrupt),
        decreases list@.len() - i,
    {
        let apic = &list[i];
        if apic.first_interrupt <= irq as u32 && irq as u32 <= apic.last_interrupt {
            proof {
                lemma_first_serving(list@, irq as u32, i as int);
            }
            return apic.addr;
        }
        i = i + 1;
    }
    proof {
        lemma_first_serving_none(list@, irq as u32);
    }
    IOAPIC_BASE
}

/// The index of the first I/O APIC in `list` whose interrupt range holds `irq`.
pub open spec fn first_serving(list: Seq<IOAPIC>, irq: u32) -> Option<int>
    decreases list.len(),
{
    if list.len() == 0 {
        None
    } else if list[0].first_interrupt <= irq <= list[0].last_interrupt {
        Some(0)
    } else {
        match first_serving(list.drop_first(), irq) {
            Some(i) => Some(i + 1),
            None => None,
        }
    }
}

/// The search picks the first I/O APIC whose range holds `irq`: any such APIC with none before
/// it is the one found.
pub proof fn lemma_first_serving(list: Seq<IOAPIC>, irq: u32, i: int)
    requires
        0 <= i < list.len(),
        list[i].first_interrupt <= irq <= list[i].last_interrupt,
        forall|j: int|
            0 <= j < i ==> !((#[trigger] list[j]).first_interrupt <= irq <= list[j].last_interrupt),
    ensures
        first_serving(list, irq) == Some(i),
    decreases list.len(),
{
    if i > 0 {
        assert(!(list[0].first_interrupt <= irq <= list[0].last_interrupt));
        let rest = list.drop_first();
        assert forall|j: int|
            0 <= j < i - 1 implies !((#[trigger] rest[j]).first_interrupt <= irq <= rest[j].last_interrupt) by {
            assert(rest[j] == list[j + 1]);
        }
        lemma_first_serving(rest, irq, i - 1);
    }
}

/// The search finds nothing only where no I/O APIC's range holds `irq`.
pub proof fn lemma_first_serving_none(list: Seq<IOAPIC>, irq: u32)
    requires
        forall|j: int|
            0 <= j < list.len() ==> !((#[trigger] list[j]).first_interrupt <= irq <= list[j].last_interrupt),
    ensures
        first_serving(list, irq) is None,
    decreases list.len(),
{
    if list.len() > 0 {
        let rest = list.drop_first();
        assert forall|j: int|
            0 <= j < rest.len() implies !((#[trigger] rest[j]).first_interrupt <= irq <= rest[j].last_interrupt) by {
            assert(rest[j] == list[j + 1]);
        }
        lemma_first_serving_none(rest, irq);
    }
}

/// The number of interrupt inputs of an I/O APIC, from its version register value `version`
/// (bits 16..24).
pub fn num_interrupts(version: u32) -> (r: u32)
    ensures
        r == (version / 65536) % 256,
{
    proof {
        lemma_u32_fields();
    }
    (version >> 16) & 0xff
}

/// Sets the id of the I/O APIC at `addr` (bits 24..32 of register 0).
pub fn set_ioapic_id(addr: usize, id: u8) -> (w: IoapicWrite)
    ensures
        w == (IoapicWrite { addr, reg: 0, value: (id as u32 * 0x100_0000) as u32 }),
{
    proof {
        lemma_u32_fields();
        assert((id as u32) < 256);
    }
    IoapicWrite { addr, reg: 0x0, value: (id as u32) << 24 }
}

/// Routes `irq` of the I/O APIC at `addr` to `vector` on the processor with local APIC id
/// `dest`: the low and high words of its redirection entry (registers `0x10 + 2 * irq` and the
/// one after), all other bits zero.
pub fn direct_irq(addr: usize, irq: u8, vector: u8, dest: u32) -> (ws: Vec<IoapicWrite>)
    requires
        irq < 120,
    ensures
        ws@ == seq![
            IoapicWrite { addr, reg: (0x10 + 2 * irq) as u8, value: vector as u32 },
            IoapicWrite { addr, reg: (0x11 + 2 * irq) as u8, value: (dest * 0x100_0000) as u32 },
        ],
{
    let f0 = vector as u32;
    let f1 = dest << 24;
    proof {
        lemma_u32_fields();
    }
    let irq_reg = 0x10 + (2 * irq);
    let mut ws: Vec<IoapicWrite> = Vec::new();
    ws.push(IoapicWrite { addr, reg: irq_reg, value: f0 });
    ws.push(IoapicWrite { addr, reg: irq_reg + 1, value: f1 });
    ws
}

/// Masks `irq` of the I/O APIC at `addr`, whose redirection entry low word reads `direction`:
/// the same word with the mask bit (16) set.
pub fn mask_irq(addr: usize, irq: u8, direction: u32) -> (w: IoapicWrite)
    requires
        irq < 120,
    ensures
        w == (IoapicWrite { addr, reg: (0x10 + 2 * irq) as u8, value: direction | 0x1_0000 }),
{
    let irq_reg = 0x10 + (2 * irq);
    IoapicWrite { addr, reg: irq_reg, value: direction | 0x1_0000 }
}

/// Sends interrupt command `irq` to the processor with local APIC id `lapic_id`: the
/// destination goes to the high word of the interrupt command register, then the command to
/// its low word.
pub fn send_interrupt(lapic_id: u32, irq: u32) -> (ws: Vec<LapicWrite>)
    ensures
        ws@ == seq![
            LapicWrite { reg: 0x310, value: (lapic_id * 0x100_0000) as u32 },
            LapicWrite { reg: 0x300, value: irq },
        ],
{
    proof {
        lemma_u32_fields();
    }
    let mut ws: Vec<LapicWrite> = Vec::new();
    ws.push(LapicWrite { reg: 0x310, value: lapic_id << 24 });
    ws.push(LapicWrite { reg: 0x300, value: irq });
    ws
}

} // verus!
