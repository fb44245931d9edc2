use rustcode::hw::{PortWrite, VgaByte, VgaCell, port_write};
use rustcode::kernel::boot::{clear_screen, processor_digit};
use rustcode::kernel::console::{Console, puts, transmitter_empty};
use rustcode::kernel::ide::{
    data_requested, drive_buffer_len, drive_busy, drive_ready, identify_commands, read_sectors,
    sector_count,
};
use rustcode::kernel::interrupts::pic::{mask_pic, remap_pic, timer_init};
use rustcode::kernel::smp::{StartupStep, send_startup_interrupt, stack_location, startup_plan};
use rustcode::kernel::vga::{
    Color, move_cursor, paint_color, set_color, write_char, write_char_with_color, write_string,
    write_string_with_color,
};
use rustcode::kernel64::acpi::IOAPIC;
use rustcode::kernel64::interrupts::apic::{
    IoapicWrite, LapicWrite, direct_irq, enable_lapic, eoi, ioapic_for, mask_irq, num_interrupts,
    send_interrupt, set_ioapic_id, whoami,
};
use rustcode::kernel64::interrupts::gpf_code_char;

#[test]
fn vga_single_cells() {
    assert_eq!(write_char(1, 2, 'A'), VgaByte { offset: 164, value: 0x41 });
    assert_eq!(set_color(1, 2, Color::White, Color::LightBlue), VgaByte { offset: 165, value: 0x9F });
    assert_eq!(
        write_char_with_color(1, 2, 'A', Color::White, Color::LightBlue),
        VgaCell { index: 82, value: 0x9F41 }
    );
    assert_eq!(Color::White.code(), 15);
    assert_eq!(Color::LightRed.code(), 12);
    assert_eq!(rustcode::kernel64::vga::write_char(0, 0, 'z'), VgaByte { offset: 0, value: 0x7A });
}

#[test]
fn vga_strings_and_colours() {
    assert_eq!(
        write_string(10, 5, "Hi"),
        vec![VgaByte { offset: 1610, value: 0x48 }, VgaByte { offset: 1612, value: 0x69 }]
    );
    assert_eq!(
        paint_color(0, 0, 3, Color::White, Color::LightGreen),
        vec![
            VgaByte { offset: 1, value: 0xAF },
            VgaByte { offset: 3, value: 0xAF },
            VgaByte { offset: 5, value: 0xAF },
        ]
    );
    assert_eq!(
        write_string_with_color(11, 10, "Test", Color::Black, Color::LightRed),
        vec![
            VgaCell { index: 890, value: 0xC054 },
            VgaCell { index: 891, value: 0xC065 },
            VgaCell { index: 892, value: 0xC073 },
            VgaCell { index: 893, value: 0xC074 },
        ]
    );
    assert_eq!(write_string(0, 0, ""), vec![]);
}

#[test]
fn vga_cursor() {
    assert_eq!(
        move_cursor(10, 31),
        vec![
            PortWrite { port: 0x3d4, value: 0x0f },
            PortWrite { port: 0x3d5, value: 0x3F },
            PortWrite { port: 0x3d4, value: 0x0e },
            PortWrite { port: 0x3d5, value: 0x03 },
        ]
    );
}

#[test]
fn boot_screen() {
    let ws = clear_screen(Color::White, Color::LightBlue);
    assert_eq!(ws.len(), 2000);
    assert_eq!(ws[0], VgaCell { index: 0, value: 0x9F20 });
    assert_eq!(ws[81], VgaCell { index: 81, value: 0x9F20 });
    assert_eq!(ws[1999], VgaCell { index: 1999, value: 0x9F20 });
    assert_eq!(processor_digit(3), b'3');
    assert_eq!(processor_digit(256 + 1), b'1');
}

#[test]
fn serial_console() {
    assert_eq!(
        Console.write_bytes(b"ab"),
        vec![PortWrite { port: 0x3F8, value: 0x61 }, PortWrite { port: 0x3F8, value: 0x62 }]
    );
    assert_eq!(
        puts("Hi"),
        vec![PortWrite { port: 0x3F8, value: 0x48 }, PortWrite { port: 0x3F8, value: 0x69 }]
    );
    assert_eq!(rustcode::kernel64::console::puts(""), vec![]);
    assert!(transmitter_empty(0x20));
    assert!(transmitter_empty(0x60));
    assert!(!transmitter_empty(0x1F));
    assert_eq!(port_write(0x80, 7), PortWrite { port: 0x80, value: 7 });
}

#[test]
fn pic_programming() {
    assert_eq!(
        remap_pic(0xB8, 0x8E),
        vec![
            PortWrite { port: 0x20, value: 0x11 },
            PortWrite { port: 0xA0, value: 0x11 },
            PortWrite { port: 0x21, value: 0x20 },
            PortWrite { port: 0xA1, value: 0x28 },
            PortWrite { port: 0x21, value: 0x04 },
            PortWrite { port: 0xA1, value: 0x02 },
            PortWrite { port: 0x21, value: 0x01 },
            PortWrite { port: 0xA1, value: 0x01 },
            PortWrite { port: 0x21, value: 0xB8 },
            PortWrite { port: 0xA1, value: 0x8E },
        ]
    );
    assert_eq!(
        mask_pic(0xFF, 0xFE),
        vec![PortWrite { port: 0x21, value: 0xFF }, PortWrite { port: 0xA1, value: 0xFE }]
    );
}

#[test]
fn interval_timer() {
    assert_eq!(
        timer_init(10),
        vec![
            PortWrite { port: 0x43, value: 0x36 },
            PortWrite { port: 0x40, value: 0x34 },
            PortWrite { port: 0x40, value: 0x5D },
        ]
    );
    assert_eq!(timer_init(1)[1], PortWrite { port: 0x40, value: 0x52 });
    assert_eq!(timer_init(1)[2], PortWrite { port: 0x40, value: 0x09 });
}

#[test]
fn ide_identify() {
    assert_eq!(
        identify_commands(0),
        vec![
            PortWrite { port: 0x1f6, value: 0xA0 },
            PortWrite { port: 0x1f2, value: 0 },
            PortWrite { port: 0x1f3, value: 0 },
            PortWrite { port: 0x1f4, value: 0 },
            PortWrite { port: 0x1f5, value: 0 },
            PortWrite { port: 0x1f7, value: 0xEC },
        ]
    );
    assert_eq!(identify_commands(3)[0], PortWrite { port: 0x176, value: 0xB0 });
    assert_eq!(identify_commands(3)[5], PortWrite { port: 0x177, value: 0xEC });
    let mut identify = vec![0u32; 128];
    identify[30] = 2048;
    identify[31] = 7;
    assert_eq!(sector_count(0x58, &identify), Some(2048));
    assert_eq!(sector_count(0, &[]), None);
    assert_eq!(drive_buffer_len(4), 512);
}

#[test]
fn ide_read_sectors() {
    let batches = read_sectors(1, 0x0123_4567, 256);
    assert_eq!(batches.len(), 1);
    assert_eq!(batches[0].sectors, 2);
    assert_eq!(
        batches[0].commands,
        vec![
            PortWrite { port: 0x1f2, value: 2 },
            PortWrite { port: 0x1f3, value: 0x67 },
            PortWrite { port: 0x1f4, value: 0x45 },
            PortWrite { port: 0x1f5, value: 0x23 },
            PortWrite { port: 0x1f6, value: 0xF1 },
            PortWrite { port: 0x1f7, value: 0x20 },
        ]
    );
    assert!(read_sectors(0, 0, 100).is_empty());
}

#[test]
fn ide_read_whole_drive_in_several_commands() {
    // 600 sectors: two full commands of 256 (count byte 0) and one of 88.
    let batches = read_sectors(2, 0xFF, 600 * 128 + 5);
    assert_eq!(batches.len(), 3);
    assert_eq!(batches[0].sectors, 256);
    assert_eq!(batches[0].commands[0], PortWrite { port: 0x172, value: 0 });
    assert_eq!(batches[0].commands[1], PortWrite { port: 0x173, value: 0xFF });
    assert_eq!(batches[0].commands[4], PortWrite { port: 0x176, value: 0xE0 });
    assert_eq!(batches[1].sectors, 256);
    assert_eq!(batches[1].commands[1], PortWrite { port: 0x173, value: 0xFF });
    assert_eq!(batches[1].commands[2], PortWrite { port: 0x174, value: 0x01 });
    assert_eq!(batches[2].sectors, 88);
    assert_eq!(batches[2].commands[0], PortWrite { port: 0x172, value: 88 });
    assert_eq!(batches[2].commands[2], PortWrite { port: 0x174, value: 0x02 });
    let exact = read_sectors(0, 0, 512 * 128);
    assert_eq!(exact.len(), 2);
    assert_eq!(exact[1].sectors, 256);
}

#[test]
fn local_apic() {
    assert_eq!(enable_lapic(0x1_FEE0_0FFF), (0xFEE0_0900, LapicWrite { reg: 0xF0, value: 0x1ff }));
    assert_eq!(whoami(0x100, 0x0300_0000), (3, true));
    assert_eq!(whoami(0, 0x0100_0000), (1, false));
    assert_eq!(eoi(), LapicWrite { reg: 0xB0, value: 0 });
    assert_eq!(
        send_interrupt(2, 0x4500),
        vec![LapicWrite { reg: 0x310, value: 0x0200_0000 }, LapicWrite { reg: 0x300, value: 0x4500 }]
    );
}

#[test]
fn io_apic() {
    let list = vec![
        IOAPIC { addr: 0xFEC1_0000, id: 1, first_interrupt: 24, last_interrupt: 47 },
        IOAPIC { addr: 0xFEC2_0000, id: 0, first_interrupt: 0, last_interrupt: 23 },
    ];
    assert_eq!(ioapic_for(&list, 30), 0xFEC1_0000);
    assert_eq!(ioapic_for(&list, 5), 0xFEC2_0000);
    assert_eq!(ioapic_for(&list, 100), 0xFEC0_0000);
    assert_eq!(num_interrupts(0x0017_0011), 0x17);
    assert_eq!(
        set_ioapic_id(0xFEC0_0000, 2),
        IoapicWrite { addr: 0xFEC0_0000, reg: 0, value: 0x0200_0000 }
    );
    assert_eq!(
        direct_irq(0xFEC0_0000, 1, 0x21, 3),
        vec![
            IoapicWrite { addr: 0xFEC0_0000, reg: 0x12, value: 0x21 },
            IoapicWrite { addr: 0xFEC0_0000, reg: 0x13, value: 0x0300_0000 },
        ]
    );
    assert_eq!(
        mask_irq(0xFEC0_0000, 2, 0x31),
        IoapicWrite { addr: 0xFEC0_0000, reg: 0x14, value: 0x1_0031 }
    );
    let mut entry = IOAPIC { addr: 0xFEC0_0000, id: 0, first_interrupt: 24, last_interrupt: 24 };
    entry.set_last_interrupt(num_interrupts(0x0017_0011));
    assert_eq!(entry.last_interrupt, 47);
}

#[test]
fn processor_startup() {
    assert_eq!(stack_location(3), 0x126000);
    assert_eq!(
        startup_plan(&vec![0, 1, 3], 0),
        vec![
            StartupStep { number: 0, id: 0, stack: 0x120000, wake: false },
            StartupStep { number: 1, id: 1, stack: 0x122000, wake: true },
            StartupStep { number: 2, id: 3, stack: 0x124000, wake: true },
        ]
    );
    let s = send_startup_interrupt(0x8000, 2);
    assert_eq!(
        s.cmos,
        vec![PortWrite { port: 0x70, value: 0x0F }, PortWrite { port: 0x71, value: 0x0A }]
    );
    assert_eq!(s.warm_reset_vector, 0x8000);
    assert_eq!(
        s.init,
        vec![LapicWrite { reg: 0x310, value: 0x0200_0000 }, LapicWrite { reg: 0x300, value: 0x4500 }]
    );
    assert_eq!(
        s.startup,
        vec![LapicWrite { reg: 0x310, value: 0x0200_0000 }, LapicWrite { reg: 0x300, value: 0x4608 }]
    );
}

#[test]
fn general_protection_report() {
    assert_eq!(gpf_code_char(0x10), b'#');
    assert_eq!(gpf_code_char(0x7F8), 0x20);
}

#[test]
fn ide_status_bits() {
    assert!(drive_busy(0x80));
    assert!(!drive_busy(0x58));
    assert!(drive_ready(0x50));
    assert!(!drive_ready(0x80));
    assert!(data_requested(0x58));
    assert!(!data_requested(0x50));
}

#[test]
fn timer_broadcast() {
    assert_eq!(
        rustcode::kernel::interrupts::handlers::timer_handler(),
        vec![LapicWrite { reg: 0x310, value: 0xFF00_0000 }, LapicWrite { reg: 0x300, value: 0xC_0049 }]
    );
}
