//! The 64-bit-descriptor variant of the kernel.
pub mod acpi;
pub mod console;
pub mod idt;
pub mod interrupts;
pub mod malloc;
pub mod mmu;
pub mod mutex;
pub mod notex;
pub mod paging;
pub mod smp;
pub mod user_mode;
pub mod vga;
