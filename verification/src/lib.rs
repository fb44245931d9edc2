//! A small x86 kernel's logic, verified: descriptor bit fields, a buddy heap,
//! two-level paging, ACPI table parsing, a round-robin scheduler and the
//! command sequences that drive the PIC, IDE, APIC, serial and VGA hardware.
pub mod bits;
pub mod hw;
pub mod kernel;
pub mod kernel64;
pub mod user;
