//! Starting the application processors: where each one's stack goes and the interrupt
//! sequence that wakes it.
use vstd::prelude::*;
use crate::hw::PortWrite;
use crate::kernel::tasks::Tss;
use crate::kernel::user_mode::Process;
use crate::kernel64::interrupts::apic::{LapicWrite, send_interrupt};

verus! {

/// The top of the first processor's stack; each further processor's stack lies 8 KiB higher.
pub const SMP_STACK_BASE: usize = 0x120_000;

/// The size of each processor's stack.
pub const SMP_STACK_SIZE: usize = 8192;

/// What every processor shares: the APIC ids of the processors, the bootstrap processor's,
/// and the user program's code once it has been loaded.
pub struct Globals {
    pub processors: Vec<u8>,
    pub bsp: u8,
    pub the_code: Option<Vec<u32>>,
}

/// What each processor keeps for itself: its task state segment and the process it runs.
pub struct Locals {
    pub tss: Tss,
    pub process: Option<Process>,
}

impl Default for Locals {
    fn default() -> (l: Locals)
        ensures
            l.tss.esp0 == 0,
            l.tss._ss0 == 0x10,
            l.process is None,
    {
        Locals { tss: Tss::default(), process: None }
    }
}

/// The stack of the processor started `number`-th.
pub fn stack_location(number: usize) -> (loc: usize)
    requires
        SMP_STACK_BASE + SMP_STACK_SIZE * number <= usize::MAX,
    ensures
        loc == SMP_STACK_BASE + SMP_STACK_SIZE * number,
{
    SMP_STACK_BASE + SMP_STACK_SIZE * number
}

/// One step of bringing up the processors, for the processor listed `number`-th: its APIC
/// id, its stack, and whether it has to be woken (every processor but the one doing this).
#[derive(Clone, Copy, Debug, PartialEq, Eq, Structural)]
pub struct StartupStep {
    pub number: usize,
    pub id: u8,
    pub stack: usize,
    pub wake: bool,
}

/// The steps of bringing up the processors `processors` (APIC ids, in the order the ACPI
/// tables list them) from the processor whose id is `self_id`.
pub fn startup_plan(processors: &Vec<u8>, self_id: u8) -> (steps: Vec<StartupStep>)
    requires
        SMP_STACK_BASE + SMP_STACK_SIZE * processors@.len() <= usize::MAX,
    ensures
        steps@.len() == processors@.len(),
        forall|k: int|
            0 <= k < steps@.len() ==> #[trigger] steps@[k] == (StartupStep {
                number: k as usize,
                id: processors@[k],
                stack: (SMP_STACK_BASE + SMP_STACK_SIZE * k) as usize,
                wake: processors@[k] != self_id,
            }),
{
    let mut steps: Vec<StartupStep> = Vec::new();
    let mut number: usize = 0;
    while number < processors.len()
        invariant
            number <= processors@.len(),
            SMP_STACK_BASE + SMP_STACK_SIZE * processors@.len() <= usize::MAX,
            steps@.len() == number,
            forall|k: int|
                0 <= k < number ==> #[trigger] steps@[k] == (StartupStep {
                    number: k as usize,
                    id: processors@[k],
                    stack: (SMP_STACK_BASE + SMP_STACK_SIZE * k) as usize,
                    wake: processors@[k] != self_id,
                }),
        decreases processors@.len() - number,
    {
        proof {
            assert(SMP_STACK_SIZE * number <= SMP_STACK_SIZE * processors@.len()) by (nonlinear_arith)
                requires
                    number <= processors@.len(),
            ;
        }
        let id = processors[number];
        let stack = stack_location(number);
        steps.push(StartupStep { number, id, stack, wake: id != self_id });
        number = number + 1;
    }
    steps
}

/// How a sleeping processor is woken to run the code at `address`: the warm-reset code goes
/// to the CMOS shutdown status register, `address` is stored at the warm-reset vector
/// (0x469), then an INIT interrupt and a STARTUP interrupt for the code's page are sent to the
/// processor, each waited on until delivered.
#[derive(Debug)]
pub struct StartupSequence {
    pub cmos: Vec<PortWrite>,
    pub warm_reset_vector: u32,
    pub init: Vec<LapicWrite>,
    pub startup: Vec<LapicWrite>,
}

/// The wake-up sequence for the processor with APIC id `id`, to run the code at `address`.
pub fn send_startup_interrupt(address: u32, id: u8) -> (s: StartupSequence)
    ensures
        s.cmos@ == seq![PortWrite { port: 0x70, value: 0x0F }, PortWrite { port: 0x71, value: 0x0A }],
        s.warm_reset_vector == address,
        s.init@ == seq![
            LapicWrite { reg: 0x310, value: (id * 0x100_0000) as u32 },
            LapicWrite { reg: 0x300, value: 0x4500 },
        ],
        s.startup@ == seq![
            LapicWrite { reg: 0x310, value: (id * 0x100_0000) as u32 },
            LapicWrite { reg: 0x300, value: (address / 4096) as u32 | 0x4600 },
        ],
{
    let mut cmos: Vec<PortWrite> = Vec::new();
    cmos.push(PortWrite { port: 0x70, value: 0x0F });
    cmos.push(PortWrite { port: 0x71, value: 0x0A });
    let init = send_interrupt(id as u32, 0x4500);
    proof {
        crate::bits::lemma_u32_fields();
    }
    let startup = send_interrupt(id as u32, (address >> 12) | 0x4600);
    StartupSequence { cmos, warm_reset_vector: address, init, startup }
}

} // verus!
