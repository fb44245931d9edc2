use rustcode::kernel64::acpi::{
    Header, IOAPIC, checksum, find_rsdp, find_table, read_u32, rsdt_address, rsdt_entries, smp_info,
    validate_rsdp,
};

fn put_u32(bytes: &mut [u8], at: usize, v: u32) {
    bytes[at..at + 4].copy_from_slice(&v.to_le_bytes());
}

/// A root system description pointer pointing at `rsdt`, with a valid checksum.
fn rsdp(rsdt: u32) -> Vec<u8> {
    let mut r = b"RSD PTR ".to_vec();
    r.extend_from_slice(&[0; 12]);
    r[9] = b'O';
    put_u32(&mut r, 16, rsdt);
    let sum: u32 = r.iter().map(|b| *b as u32).sum();
    r[8] = ((256 - sum % 256) % 256) as u8;
    r
}

fn header(signature: &[u8; 4], length: u32) -> Vec<u8> {
    let mut h = vec![0u8; 36];
    h[0..4].copy_from_slice(signature);
    put_u32(&mut h, 4, length);
    h[8] = 3;
    h[9] = 0x5A;
    h[10..16].copy_from_slice(b"OEMIDX");
    h[16..24].copy_from_slice(b"TABLEID1");
    put_u32(&mut h, 24, 7);
    put_u32(&mut h, 28, 0x4D53_4654);
    put_u32(&mut h, 32, 0x0100_0013);
    h
}

#[test]
fn acpi_checksums() {
    assert!(checksum(&[1, 255]));
    assert!(!checksum(&[1, 2]));
    assert!(checksum(&[]));
    assert_eq!(read_u32(&[0x78, 0x56, 0x34, 0x12, 0xFF], 0), 0x1234_5678);
}

#[test]
fn acpi_rsdp_validation() {
    let good = rsdp(0x7FE_0000);
    assert!(validate_rsdp(&good));
    let mut bad_sum = good.clone();
    bad_sum[19] = bad_sum[19].wrapping_add(1);
    assert!(!validate_rsdp(&bad_sum));
    let mut bad_sig = good.clone();
    bad_sig[0] = b'X';
    assert!(!validate_rsdp(&bad_sig));
    assert_eq!(rsdt_address(&good), 0x7FE_0000);
}

#[test]
fn acpi_rsdp_search_in_bios_area() {
    let mut high = vec![0u8; 0x2_0000 + 4];
    let mut decoy = rsdp(0x1111);
    decoy[19] = decoy[19].wrapping_add(1);
    high[0x40..0x54].copy_from_slice(&decoy);
    high[0x100..0x114].copy_from_slice(&rsdp(0x2222));
    high[0x200..0x214].copy_from_slice(&rsdp(0x3333));
    let ebda = vec![0u8; 1028];
    assert_eq!(find_rsdp(&high, 0x9FC0, &ebda), Some(0xE_0100));
}

#[test]
fn acpi_rsdp_search_in_ebda() {
    let high = vec![0u8; 0x2_0000 + 4];
    let mut ebda = vec![0u8; 1028];
    ebda[0x20..0x34].copy_from_slice(&rsdp(0x4444));
    assert_eq!(find_rsdp(&high, 0x9FC0, &ebda), Some(0x9_FC20));
    let empty = vec![0u8; 1028];
    assert_eq!(find_rsdp(&high, 0x9FC0, &empty), None);
}

#[test]
fn acpi_header_parse() {
    let bytes = header(b"APIC", 0x2C);
    let h = Header::parse(&bytes);
    assert_eq!(&h.signature, b"APIC");
    assert_eq!(h.length, 0x2C);
    assert_eq!(h._revision, 3);
    assert_eq!(h._checksum, 0x5A);
    assert_eq!(&h._oemid, b"OEMIDX");
    assert_eq!(&h._oem_table_id, b"TABLEID1");
    assert_eq!(h._oem_revision, 7);
    assert_eq!(h._creatorid, 0x4D53_4654);
    assert_eq!(h._creator_revision, 0x0100_0013);
}

#[test]
fn acpi_rsdt_entries() {
    let mut rsdt = header(b"RSDT", 44);
    rsdt.extend_from_slice(&[0; 12]);
    put_u32(&mut rsdt, 36, 0x1000);
    put_u32(&mut rsdt, 40, 0x2000);
    assert_eq!(rsdt_entries(&rsdt), vec![0x1000, 0x2000]);
    let mut short = header(b"RSDT", 42);
    short.extend_from_slice(&[0; 12]);
    put_u32(&mut short, 36, 0x1000);
    put_u32(&mut short, 40, 0x3000);
    assert_eq!(rsdt_entries(&short), vec![0x1000, 0x3000]);
    let empty = header(b"RSDT", 36);
    let mut empty = empty;
    empty.extend_from_slice(&[0; 4]);
    assert_eq!(rsdt_entries(&empty), vec![]);
}

#[test]
fn acpi_find_table() {
    let signatures = vec![*b"FACP", *b"APIC", *b"APIC"];
    assert_eq!(find_table(b"APIC", &signatures), Some(1));
    assert_eq!(find_table(b"FACP", &signatures), Some(0));
    assert_eq!(find_table(b"HPET", &signatures), None);
}

#[test]
fn acpi_madt_processors_and_io_apics() {
    let mut entries: Vec<u8> = Vec::new();
    entries.extend_from_slice(&[0, 8, 0, 0, 1, 0, 0, 0]);
    entries.extend_from_slice(&[0, 8, 1, 1, 0, 0, 0, 0]);
    entries.extend_from_slice(&[0, 8, 2, 2, 3, 0, 0, 0]);
    entries.extend_from_slice(&[1, 12, 4, 0, 0x00, 0x00, 0xC0, 0xFE, 0, 0, 0, 0]);
    entries.extend_from_slice(&[2, 10, 0, 0, 2, 0, 0, 0, 0, 0]);
    let length = 44 + entries.len() as u32;
    let mut table = header(b"APIC", length);
    table.extend_from_slice(&[0, 0, 0xE0, 0xFE, 1, 0, 0, 0]);
    table.extend_from_slice(&entries);
    table.extend_from_slice(&[0; 12]);
    assert!(rustcode::kernel64::acpi::madt_walkable(&table));
    let info = smp_info(&table);
    assert_eq!(info.processors, vec![0, 2]);
    assert_eq!(
        info.io_apics,
        vec![IOAPIC { addr: 0xFEC0_0000, id: 4, first_interrupt: 0, last_interrupt: 0 }]
    );
}

#[test]
fn acpi_madt_with_an_empty_entry_is_refused() {
    let mut table = header(b"APIC", 44 + 8);
    table.extend_from_slice(&[0, 0, 0xE0, 0xFE, 1, 0, 0, 0]);
    table.extend_from_slice(&[0, 0, 0, 0, 1, 0, 0, 0]);
    table.extend_from_slice(&[0; 12]);
    assert!(!rustcode::kernel64::acpi::madt_walkable(&table));
    let short = header(b"APIC", 200);
    assert!(!rustcode::kernel64::acpi::madt_walkable(&short));
}
