# rustcode

A small x86 kernel whose logic is written in Verus and proved against its contracts.

## Layout

- `src/` — the verified library.
  - `kernel/` — the 32-bit kernel: GDT/IDT descriptor bit fields (`mmu`), the buddy heap
    (`malloc`), interrupt descriptors, the 8259 PIC and the interval timer, interrupt frames
    and page fault decisions (`interrupts`), the IDE driver's command sequences (`ide`), the
    serial console and VGA text output, task state segments (`tasks`), user processes and the
    round-robin scheduler (`user_mode`), processor start-up (`smp`) and the boot screen.
  - `kernel64/` — the variant with 16-byte interrupt descriptors: two-level paging over an
    explicit address space (`paging`), ACPI table parsing (`acpi`), the local and I/O APIC
    (`interrupts::apic`), a bump allocator (`malloc`), and a lock-free cell (`notex`).
  - `user/` — the user program: its system calls, its console and its prime search.
  - `hw.rs` — the port, VGA and register writes that the library's functions compute; callers
    perform them.
- `tests/` — tests of the library on concrete values.
- `app/` — the program around the library: the privileged instructions, memory-mapped I/O,
  global state, interrupt entry points and the boot sequence.

Hardware access never happens in the library: a function that drives a device returns the
writes to make, and a function that depends on what a device or memory holds takes the values
read as arguments.
