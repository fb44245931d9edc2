use vstd::prelude::*;
use crate::hw::PortWrite;
use crate::kernel::console::{Console, serial_writes};
use crate::kernel::interrupts::context::RawContext;
use crate::kernel::user_mode::{Page, Process, PAGE_TABLE_ENTRIES};
use crate::kernel64::interrupts::apic::{LapicWrite, send_interrupt};

verus! {

/// Where user programs are loaded.
pub const USER_LOAD_ADDR: usize = 0x400_000;

/// What the page fault handler does about a fault.
#[derive(Clone, Copy, Debug, PartialEq, Eq, Structural)]
pub enum PageFaultAction {
    /// The page was present: the fault is a protection violation and the kernel stops.
    Halt,
    /// A user page past the program's code (its data or stack): a fresh frame is mapped at
    /// entry `page` of the process's first page table.
    UserFreshPage { page: usize },
    /// A user page of the program's code: the frame holding the code `code_offset` bytes from
    /// its start is mapped at entry `page` of the process's first page table.
    UserCodePage { page: usize, code_offset: usize },
    /// A kernel page: it is made present.
    KernelPage { address: usize },
}

/// The number of pages the code of `code_len` 32-bit words occupies, rounded up.
pub open spec fn code_pages(code_len: usize) -> int {
    if code_len % 1024 == 0 {
        (code_len / 1024) as int
    } else {
        code_len / 1024 + 1
    }
}

/// Decides what to do about a page fault at `address` with error code `error`, for a current
/// process whose code is `code_len` words long. Bit 0 of the error code says the page was
/// present, bit 2 that the access came from user mode.
pub fn page_fault_handler(address: u32, error: u32, code_len: usize) -> (a: PageFaultAction)
    requires
        error & 0x1 != 1 && error & 0x4 != 0 ==> USER_LOAD_ADDR <= address < 2 * USER_LOAD_ADDR,
    ensures
        a == if error & 0x1 == 1 {
            PageFaultAction::Halt
        } else if error & 0x4 != 0 {
            let offset = (address - USER_LOAD_ADDR) as usize;
            if offset / 4096 > code_pages(code_len) {
                PageFaultAction::UserFreshPage { page: offset / 4096 }
            } else {
                PageFaultAction::UserCodePage { page: offset / 4096, code_offset: offset }
            }
        } else {
            PageFaultAction::KernelPage { address: address as usize }
        },
{
    if (error & 0x1) == 1 {
        return PageFaultAction::Halt;
    }
    let address = address as usize;
    if (error & 0x4) != 0 {
        let maybe_code_offset = address - USER_LOAD_ADDR;
        let page = maybe_code_offset >> 12;
        proof {
            assert(maybe_code_offset >> 12 == maybe_code_offset / 4096) by (bit_vector);
            assert(code_len >> 10 == code_len / 1024) by (bit_vector);
        }
        let code_pages = (code_len >> 10) + if code_len % 1024 == 0 {
            0
        } else {
            1
        };
        if page > code_pages {
            PageFaultAction::UserFreshPage { page }
        } else {
            PageFaultAction::UserCodePage { page, code_offset: maybe_code_offset }
        }
    } else {
        PageFaultAction::KernelPage { address }
    }
}

/// The page fault of a user page is served: the process's first page table gets the entry
/// for page `page`. For a page of the program's code (`UserCodePage`), the entry maps
/// `code_frame`, the frame that holds that part of the code; for a page past the code
/// (`UserFreshPage`), the page table `fresh_page` at frame `fresh_frame` is first added to the
/// process (as `Process::add_page` does) and the entry maps `fresh_frame`. Either entry is user,
/// writable and present (`| 7`). Every other action leaves the process as it is.
pub fn map_user_page(
    process: &mut Process,
    action: PageFaultAction,
    code_frame: u32,
    fresh_page: Page,
    fresh_frame: u32,
)
    requires
        old(process).pages@.len() >= 1,
        old(process).pages@[0]@.len() == PAGE_TABLE_ENTRIES,
        fresh_page@.len() == PAGE_TABLE_ENTRIES,
        action matches PageFaultAction::UserFreshPage { page } ==> page < PAGE_TABLE_ENTRIES,
        action matches PageFaultAction::UserCodePage { page, .. } ==> page < PAGE_TABLE_ENTRIES,
    ensures
        final(process).id == old(process).id,
        final(process).pd == old(process).pd,
        final(process).code_addr == old(process).code_addr,
        final(process).code_len == old(process).code_len,
        final(process).context == old(process).context,
        match action {
            PageFaultAction::UserCodePage { page, .. } => {
                &&& final(process).pages@.len() == old(process).pages@.len()
                &&& final(process).pages@[0]@ == old(process).pages@[0]@.update(page as int, code_frame | 7)
                &&& forall|i: int| 1 <= i < old(process).pages@.len() ==> #[trigger] final(process).pages@[i] == old(process).pages@[i]
            },
            PageFaultAction::UserFreshPage { page } => {
                &&& final(process).pages@.len() == old(process).pages@.len() + 1
                &&& final(process).pages@[0]@ == old(process).pages@[0]@.update(page as int, fresh_frame | 7)
                &&& forall|i: int| 1 <= i < old(process).pages@.len() ==> #[trigger] final(process).pages@[i] == old(process).pages@[i]
                &&& final(process).pages@.last()@ == fresh_page@.update(0, 0u32)
            },
            _ => final(process).pages@ == old(process).pages@,
        },
{
    match action {
        PageFaultAction::UserCodePage { page, .. } => {
            set_first_table_entry(process, page, code_frame | 7);
        },
        PageFaultAction::UserFreshPage { page } => {
            let (_, frame) = process.add_page(fresh_page, fresh_frame);
            set_first_table_entry(process, page, frame | 7);
        },
        _ => {},
    }
}

/// Sets entry `page` of the process's first page table to `entry`.
fn set_first_table_entry(process: &mut Process, page: usize, entry: u32)
    requires
        old(process).pages@.len() >= 1,
        page < old(process).pages@[0]@.len(),
    ensures
        final(process).id == old(process).id,
        final(process).pd == old(process).pd,
        final(process).code_addr == old(process).code_addr,
        final(process).code_len == old(process).code_len,
        final(process).context == old(process).context,
        final(process).pages@.len() == old(process).pages@.len(),
        final(process).pages@[0]@ == old(process).pages@[0]@.update(page as int, entry),
        forall|i: int| 1 <= i < old(process).pages@.len() ==> #[trigger] final(process).pages@[i] == old(process).pages@[i],
{
    let ghost before = process.pages@;
    let mut table = process.pages.remove(0);
    table.set(page, entry);
    process.pages.insert(0, table);
    assert forall|i: int| 1 <= i < before.len() implies #[trigger] process.pages@[i] == before[i] by {
        assert(process.pages@[i] == before.remove(0)[i - 1]);
    }
}

/// The `write` system call: the `bytes` user code passed go to the serial console, and the
/// call returns 0 to user code.
pub fn write_handler(bytes: &[u8], ctx: &mut RawContext) -> (ws: Vec<PortWrite>)
    ensures
        ws@ == serial_writes(bytes@),
        *final(ctx) == (RawContext { eax: 0, ..*old(ctx) }),
{
    let ws = Console.write_bytes(bytes);
    ctx.set_return_code(0);
    ws
}

/// The timer interrupt is passed on to every processor (destination 0xFF) as vector 0x49,
/// delivered to all processors but this one (shorthand 3); each then switches tasks as the
/// broadcast handler does.
pub fn timer_handler() -> (ws: Vec<LapicWrite>)
    ensures
        ws@ == seq![
            LapicWrite { reg: 0x310, value: 0xFF00_0000 },
            LapicWrite { reg: 0x300, value: 0xC_0049 },
        ],
{
    send_interrupt(0xff, 0x49 + 3 * 0x4_0000)
}

} // verus!
