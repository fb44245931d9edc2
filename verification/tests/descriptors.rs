use rustcode::kernel::interrupts::idt as idt32;
use rustcode::kernel::interrupts::{HandlerAddresses, init_idt};
use rustcode::kernel::mmu::{Descriptor, TableDescriptor};
use rustcode::kernel::tasks::{Tss, init as tasks_init};
use rustcode::kernel64::idt as idt64;
use rustcode::kernel64::interrupts::idt as idt64_traps;
use rustcode::kernel64::interrupts::{HandlerAddresses as HandlerAddresses64, init_idt as init_idt64};
use rustcode::kernel64::mmu::{Descriptor as Descriptor64, TableDescriptor as TableDescriptor64};
use rustcode::hw::PortWrite;

fn empty_idt() -> Vec<Descriptor> {
    vec![Descriptor { f0: 0, f1: 0 }; 256]
}

fn empty_idt64() -> Vec<Descriptor64> {
    vec![Descriptor64 { f0: 0, f1: 0, f2: 0, f3: 0 }; 256]
}

#[test]
fn interrupt_descriptor_words() {
    let mut d = Descriptor { f0: 0xFFFF_FFFF, f1: 0xFFFF_FFFF };
    d.set_descriptor(0x08, 0x0012_3456, 0, 0xE);
    assert_eq!(d, Descriptor { f0: 0x0008_3456, f1: 0x0002_8E00 });
    d.set_descriptor(0x08, 0x0012_3456, 3, 0xF);
    assert_eq!(d, Descriptor { f0: 0x0008_3456, f1: 0x0002_EF00 });
}

#[test]
fn tss_descriptor_words() {
    let mut d = Descriptor { f0: 0, f1: 0 };
    d.set_tss_descriptor(0x0012_3456, 103, 3);
    assert_eq!(d, Descriptor { f0: 0x3456_0067, f1: 0x0000_E912 });
    d.set_tss_descriptor(0xAB12_3456, 0x0005_0067, 0);
    assert_eq!(d, Descriptor { f0: 0x3456_0067, f1: 0xAB05_8912 });
}

#[test]
fn idt32_table_and_entries() {
    assert_eq!(idt32::init(0x1000), TableDescriptor { limit: 2047, base: 0x1000 });
    let mut idt = empty_idt();
    idt32::register_interrupt(&mut idt, 0x21, 0x0001_4000, 0);
    idt32::register_trap(&mut idt, 0x50, 0x0001_5000, 3);
    assert_eq!(idt[0x21], Descriptor { f0: 0x0008_4000, f1: 0x0001_8E00 });
    assert_eq!(idt[0x50], Descriptor { f0: 0x0008_5000, f1: 0x0001_EF00 });
    assert_eq!(idt[0x20], Descriptor { f0: 0, f1: 0 });
}

#[test]
fn idt32_init_installs_every_handler() {
    let mut idt = empty_idt();
    let handlers = HandlerAddresses {
        double_fault: 0x1000,
        gpf: 0x2000,
        page_fault: 0x3000,
        kbd_interrupt: 0x4000,
        syscall: 0x5000,
        spurious: 0x6000,
    };
    let ws = init_idt(&mut idt, 0xB8, 0x8E, &handlers);
    assert_eq!(ws.len(), 12);
    assert_eq!(ws[8], PortWrite { port: 0x21, value: 0xB8 });
    assert_eq!(ws[9], PortWrite { port: 0xA1, value: 0x8E });
    assert_eq!(ws[10], PortWrite { port: 0x21, value: 0xFF });
    assert_eq!(ws[11], PortWrite { port: 0xA1, value: 0xFF });
    assert_eq!(idt[0x8], Descriptor { f0: 0x0008_1000, f1: 0x8E00 });
    assert_eq!(idt[0xD], Descriptor { f0: 0x0008_2000, f1: 0x8F00 });
    assert_eq!(idt[0xE], Descriptor { f0: 0x0008_3000, f1: 0x8F00 });
    assert_eq!(idt[0x21], Descriptor { f0: 0x0008_4000, f1: 0x8E00 });
    assert_eq!(idt[0x50], Descriptor { f0: 0x0008_5000, f1: 0xEF00 });
    assert_eq!(idt[0xFF], Descriptor { f0: 0x0008_6000, f1: 0x8E00 });
    assert_eq!(idt[0x0], Descriptor { f0: 0, f1: 0 });
}

#[test]
fn descriptor64_words() {
    let mut d = Descriptor64 { f0: 0, f1: 0, f2: 0x1234, f3: 0x5678 };
    d.set_descriptor(0x08, 0xFFFF_8000_0012_3456, 0, 0xE);
    assert_eq!(d, Descriptor64 { f0: 0x0008_3456, f1: 0x0012_8E00, f2: 0x1234, f3: 0x5678 });
    d.set_interrupt_descriptor(0x10, 0xABCD_0001, 3);
    assert_eq!(d, Descriptor64 { f0: 0x0010_0001, f1: 0xABCD_EE00, f2: 0x1234, f3: 0x5678 });
    assert_eq!(d.get_p(), 1);
}

#[test]
fn descriptor64_fields() {
    let mut d = Descriptor64 { f0: 0xFFFF_FFFF, f1: 0xFFFF_FFFF, f2: 7, f3: 9 };
    d.clear();
    assert_eq!(d, Descriptor64 { f0: 0, f1: 0, f2: 7, f3: 9 });
    d.set_p(1);
    assert_eq!(d.f1, 0x8000);
    assert_eq!(d.get_p(), 1);
    d.set_dpl(2);
    assert_eq!(d.f1, 0xC000);
    d.set_s(1);
    assert_eq!(d.f1, 0xD000);
    d.set_type(0xF);
    assert_eq!(d.f1, 0xDF00);
    d.set_selector(0x28);
    assert_eq!(d.f0, 0x0028_0000);
    d.set_offset(0x1_2345_6789);
    assert_eq!(d.f0, 0x0028_6789);
    assert_eq!(d.f1, 0x2345_DF00);
    assert_eq!(d.f2, 7);
    d.set_p(0);
    assert_eq!(d.get_p(), 0);
}

#[test]
fn idt64_table_and_entries() {
    assert_eq!(idt64::init(0x20_0000), TableDescriptor64 { limit: 4095, base: 0x20_0000 });
    let mut idt = empty_idt64();
    idt64::register_interrupt(&mut idt, 0x21, 0x0010_4000);
    idt64_traps::register_trap(&mut idt, 0xD, 0x0010_5000);
    idt64_traps::register_interrupt(&mut idt, 0x8, 0x0010_6000);
    assert_eq!(idt[0x21], Descriptor64 { f0: 0x0008_4000, f1: 0x0010_8E00, f2: 0, f3: 0 });
    assert_eq!(idt[0xD], Descriptor64 { f0: 0x0008_5000, f1: 0x0010_8F00, f2: 0, f3: 0 });
    assert_eq!(idt[0x8], Descriptor64 { f0: 0x0008_6000, f1: 0x0010_8E00, f2: 0, f3: 0 });
}

#[test]
fn idt64_init_installs_every_handler() {
    let mut idt = empty_idt64();
    let handlers = HandlerAddresses64 {
        double_fault: 0x1000,
        gpf: 0x2000,
        page_fault: 0x3000,
        kbd_interrupt: 0x4000,
        spurious: 0x6000,
    };
    let ws = init_idt64(&mut idt, 1, 2, &handlers);
    assert_eq!(ws.len(), 12);
    assert_eq!(ws[0], PortWrite { port: 0x20, value: 0x11 });
    assert_eq!(ws[8], PortWrite { port: 0x21, value: 1 });
    assert_eq!(ws[9], PortWrite { port: 0xA1, value: 2 });
    assert_eq!(idt[0x8], Descriptor64 { f0: 0x0008_1000, f1: 0x8E00, f2: 0, f3: 0 });
    assert_eq!(idt[0xD], Descriptor64 { f0: 0x0008_2000, f1: 0x8F00, f2: 0, f3: 0 });
    assert_eq!(idt[0xE], Descriptor64 { f0: 0x0008_3000, f1: 0x8F00, f2: 0, f3: 0 });
    assert_eq!(idt[0x21], Descriptor64 { f0: 0x0008_4000, f1: 0x8E00, f2: 0, f3: 0 });
    assert_eq!(idt[0xFF], Descriptor64 { f0: 0x0008_6000, f1: 0x8E00, f2: 0, f3: 0 });
    assert_eq!(idt[0x50], Descriptor64 { f0: 0, f1: 0, f2: 0, f3: 0 });
}

#[test]
fn tss_setup_for_a_processor() {
    let mut tss = Tss::default();
    assert_eq!(tss._ss0, 0x10);
    let mut gdt = vec![Descriptor { f0: 0, f1: 0 }; 10];
    let r = tasks_init(1, 0x9000, &mut tss, 0x0012_3456, &mut gdt);
    assert_eq!(r, Some(0x33));
    assert_eq!(tss.esp0, 0x8E00);
    assert_eq!(tss._ss0, 0x10);
    assert_eq!(gdt[6], Descriptor { f0: 0x3456_0068, f1: 0x0000_E912 });
    assert_eq!(gdt[5], Descriptor { f0: 0, f1: 0 });
}

#[test]
fn tss_setup_without_a_gdt_slot() {
    let mut tss = Tss::default();
    let mut gdt = vec![Descriptor { f0: 0, f1: 0 }; 10];
    assert_eq!(tasks_init(5, 0x9000, &mut tss, 0x1000, &mut gdt), None);
    assert_eq!(tss.esp0, 0);
    assert_eq!(gdt, vec![Descriptor { f0: 0, f1: 0 }; 10]);
    tss.set_esp0(0x4000);
    assert_eq!(tss.esp0, 0x4000);
}
