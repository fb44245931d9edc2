//! The processors found at boot, and how the others are started.
use vstd::prelude::*;

pub use crate::kernel::smp::{StartupSequence, StartupStep, send_startup_interrupt, stack_location, startup_plan};

verus! {

/// The APIC ids of the processors and the bootstrap processor's.
pub struct SMPInfo {
    pub processors: Vec<u8>,
    pub bsp: u8,
}

} // verus!
