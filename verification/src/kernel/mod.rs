//! The 32-bit kernel.
pub mod boot;
pub mod console;
pub mod ide;
pub mod interrupts;
pub mod lazy_global;
pub mod malloc;
pub mod mmu;
pub mod mutex;
pub mod smp;
pub mod tasks;
pub mod user_mode;
pub mod vga;
