use rustcode::kernel::interrupts::handlers::{PageFaultAction, page_fault_handler as decide_page_fault};
use rustcode::kernel64::interrupts::page_fault_handler;
use rustcode::kernel64::paging::AddressSpace;

#[test]
fn paging_init_identity_maps_the_first_megabyte() {
    let space = AddressSpace::init(0x1000);
    assert_eq!(space.pd[0], 0x2003);
    assert_eq!(space.pd[1023], 0x1003);
    assert_eq!(space.pd[1], 0);
    assert_eq!(space.tables[0][5], 0x5003);
    assert_eq!(space.tables[0][0xFF], 0xFF003);
    assert_eq!(space.tables[0][0x100], 0);
    assert_eq!(space.next_frame, 0x100);
    assert_eq!(space.translate_addr(0x5123), Some(0x5123));
    assert_eq!(space.translate_addr(0x20_0000), None);
    assert_eq!(space.translate_addr(0x40_0000), None);
}

#[test]
fn paging_identity_map_then_forget() {
    let mut space = AddressSpace::init(0x1000);
    space.identity_map(0x40_0000);
    assert_eq!(space.pd[1], 0x10_0003);
    assert_eq!(space.next_frame, 0x101);
    assert_eq!(space.tables[1][0], 0x40_0003);
    assert_eq!(space.translate_addr(0x40_0ABC), Some(0x40_0ABC));
    space.forget(0x5000);
    assert_eq!(space.tables[0][5], 0x5002);
    assert_eq!(space.translate_addr(0x5000), None);
    assert_eq!(space.translate_addr(0x6000), Some(0x6000));
}

#[test]
fn paging_make_present_takes_fresh_frames() {
    let mut space = AddressSpace::init(0x1000);
    space.identity_map(0x40_0000);
    space.make_present(0x80_1234);
    assert_eq!(space.pd[2], 0x10_1003);
    assert_eq!(space.tables[2][1], 0x10_2003);
    assert_eq!(space.next_frame, 0x103);
    assert_eq!(space.translate_addr(0x80_1234), Some(0x10_2234));
    assert_eq!(space.translate_addr(0x40_0000), Some(0x40_0000));
}

#[test]
fn page_fault_on_missing_page_maps_it() {
    let mut space = AddressSpace::init(0x1000);
    assert!(page_fault_handler(&mut space, 0x30_0000, 0));
    assert_eq!(space.tables[0][0x300], 0x10_0003);
    assert_eq!(space.translate_addr(0x30_0010), Some(0x10_0010));
}

#[test]
fn page_fault_on_present_page_changes_nothing() {
    let mut space = AddressSpace::init(0x1000);
    assert!(!page_fault_handler(&mut space, 0x5000, 3));
    assert_eq!(space.next_frame, 0x100);
    assert_eq!(space.tables[0][5], 0x5003);
}

#[test]
fn page_fault_decisions_of_the_process_kernel() {
    assert_eq!(decide_page_fault(0x40_0000, 1, 10), PageFaultAction::Halt);
    assert_eq!(decide_page_fault(0x40_3000, 4, 1024), PageFaultAction::UserFreshPage { page: 3 });
    assert_eq!(
        decide_page_fault(0x40_0010, 6, 2048),
        PageFaultAction::UserCodePage { page: 0, code_offset: 0x10 }
    );
    assert_eq!(
        decide_page_fault(0x40_2000, 4, 1025),
        PageFaultAction::UserCodePage { page: 2, code_offset: 0x2000 }
    );
    assert_eq!(decide_page_fault(0xC000_1000, 0, 10), PageFaultAction::KernelPage { address: 0xC000_1000 });
}

#[test]
fn paging_frame_for() {
    let mut space = AddressSpace::init(0x1000);
    assert_eq!(space.frame_for(0x5123), Some(0x5000));
    assert_eq!(space.frame_for(0x40_0000), None);
    space.make_present(0x40_0123);
    assert_eq!(space.frame_for(0x40_0123), Some(0x10_1000));
}

#[test]
fn paging_in_the_top_window_writes_directory_entries() {
    let mut space = AddressSpace::init(0x1000);
    // The entry of 0xFFC0_2000 is directory entry 2: a page table for 0x80_0000.. appears.
    space.make_present(0xFFC0_2000);
    assert_eq!(space.next_frame, 0x101);
    assert_eq!(space.pd[2], 0x10_0003);
    assert_eq!(space.translate_addr(0xFFC0_2010), Some(0x10_0010));
    space.make_present(0xFFC0_3000);
    assert_eq!(space.pd[3], 0x10_1003);
    assert_eq!(space.next_frame, 0x102);
    space.identity_map(0xFFC0_5000);
    assert_eq!(space.translate_addr(0xFFC0_5123), Some(0xFFC0_5123));
    space.forget(0xFFC0_5000);
    assert_eq!(space.translate_addr(0xFFC0_5000), None);
    assert_eq!(space.pd[1023], 0x1003);
}

#[test]
fn paging_the_directory_page_writes_the_last_directory_entry() {
    let mut space = AddressSpace::init(0x1000);
    assert!(space.is_wf());
    space.make_present(0xFFFF_F000);
    assert_eq!(space.pd[1023], 0x10_0003);
    assert_eq!(space.next_frame, 0x101);
    space.make_present(0x40_0000);
    assert_eq!(space.next_frame, 0x103);
    let mut other = AddressSpace::init(0x1000);
    other.forget(0xFFFF_F000);
    assert_eq!(other.pd[1023], 0x1002);
    assert!(!other.is_wf());
    let mut third = AddressSpace::init(0x1000);
    third.identity_map(0xFFFF_F000);
    assert_eq!(third.pd[1023], 0xFFFF_F003);
}
