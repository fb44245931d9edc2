use vstd::prelude::*;
use std::collections::VecDeque;
use crate::kernel::interrupts::context::{Context, Contextable, initial_context};
use crate::kernel::interrupts::handlers::USER_LOAD_ADDR;

verus! {

/// The number of entries of a page table or page directory.
pub const PAGE_TABLE_ENTRIES: usize = 1024;

/// The size in bytes of a page table, and of a page.
pub const PAGE_TABLE_SIZE: usize = 4096;

/// A page table or page directory of `PAGE_TABLE_ENTRIES` entries.
pub type Page = Vec<u32>;

/// A user process.
pub struct Process {
    pub id: u32,
    /// Its page directory.
    pub pd: Page,
    /// The address and the length in 32-bit words of its code.
    pub code_addr: usize,
    pub code_len: usize,
    /// Its page tables.
    pub pages: Vec<Page>,
    /// Its saved registers while it is not running.
    pub context: Context,
}

impl Process {
    /// Adds the page table `page`, whose frame is `frame`, to the process, with its first entry
    /// cleared; returns the index of the new page table and its frame.
    pub fn add_page(&mut self, page: Page, frame: u32) -> (r: (usize, u32))
        requires
            page@.len() == PAGE_TABLE_ENTRIES,
        ensures
            r == (old(self).pages@.len() as usize, frame),
            final(self).pages@.len() == old(self).pages@.len() + 1,
            final(self).pages@.subrange(0, old(self).pages@.len() as int) == old(self).pages@,
            final(self).pages@.last()@ == page@.update(0, 0u32),
            final(self).id == old(self).id,
            final(self).pd == old(self).pd,
            final(self).code_addr == old(self).code_addr,
            final(self).code_len == old(self).code_len,
            final(self).context == old(self).context,
    {
        let mut page = page;
        page.set(0, 0);
        let len = self.pages.len();
        self.pages.push(page);
        (len, frame)
    }
}

/// The top of the user stack of a process with `code_len` words of code: 32 pages past the end
/// of the code, then rounded up to the next page boundary (a whole page further when already on
/// one).
pub open spec fn user_stack_limit(code_len: usize) -> int {
    let limit = USER_LOAD_ADDR + code_len * 4 + 32 * 4096;
    limit + 4096 - limit % 4096
}

/// The frames the caller allocated for a new process.
pub struct ProcessFrames {
    /// The page directory, and its physical address.
    pub pd: Page,
    pub cr3: u32,
    /// The first page table, and its frame.
    pub first_page: Page,
    pub first_frame: u32,
    /// The frame that holds the start of the code.
    pub code_frame: u32,
}

/// `p` is the process `create_process` makes with id `id` for the `code_len` words of code
/// at `code_addr`, from the kernel page directory `system_pd`, the TSS at `tss_addr` and the
/// frames `frames`.
pub open spec fn is_created(
    p: Process,
    id: u32,
    code_addr: usize,
    code_len: usize,
    system_pd: Seq<u32>,
    tss_addr: u32,
    frames: ProcessFrames,
) -> bool {
    let tss_pd = tss_addr / 0x40_0000;
    &&& p.id == id
    &&& p.code_addr == code_addr
    &&& p.code_len == code_len
    &&& p.pd@ == frames.pd@.update(0, system_pd[0]).update(tss_pd as int, system_pd[tss_pd as int]).update(
        1,
        frames.first_frame | 0x07,
    )
    &&& p.pages@.len() == 1
    &&& p.pages@[0]@ == frames.first_page@.update(0, frames.code_frame | 0x7)
    &&& p.context == initial_context(
        USER_LOAD_ADDR as u32,
        user_stack_limit(code_len) as u32,
        frames.cr3,
    )
}

/// Queues a new process with id `id` running the `code_len` words of code at `code_addr`. Its
/// page directory shares the kernel's first entry and the entry that maps the processor's TSS
/// (at `tss_addr`) with the kernel page directory `system_pd`, and maps the user area through
/// its first page table, whose first entry maps the code's frame (user, writable, present).
pub fn create_process(
    processes: &mut VecDeque<Process>,
    id: u32,
    code_addr: usize,
    code_len: usize,
    system_pd: &Page,
    tss_addr: u32,
    frames: ProcessFrames,
)
    requires
        system_pd@.len() == PAGE_TABLE_ENTRIES,
        frames.pd@.len() == PAGE_TABLE_ENTRIES,
        frames.first_page@.len() == PAGE_TABLE_ENTRIES,
        user_stack_limit(code_len) <= u32::MAX,
    ensures
        final(processes)@.len() == old(processes)@.len() + 1,
        final(processes)@.subrange(0, old(processes)@.len() as int) == old(processes)@,
        is_created(final(processes)@.last(), id, code_addr, code_len, system_pd@, tss_addr, frames),
{
    let mut pd = frames.pd;
    pd.set(0, system_pd[0]);
    let tss_pd = (tss_addr >> 22) as usize;
    proof {
        assert(tss_addr >> 22u32 == tss_addr / 0x40_0000) by (bit_vector);
    }
    pd.set(tss_pd, system_pd[tss_pd]);
    let mut limit = USER_LOAD_ADDR + code_len * 4 + 32 * PAGE_TABLE_SIZE;
    limit = limit + (PAGE_TABLE_SIZE - (limit % PAGE_TABLE_SIZE));
    let mut process = Process {
        id,
        pd,
        pages: Vec::new(),
        code_addr,
        code_len,
        context: Context::new(USER_LOAD_ADDR as u32, limit as u32, frames.cr3),
    };
    let (idx, frame) = process.add_page(frames.first_page, frames.first_frame);
    let mut first = process.pages.pop().unwrap();
    first.set(0, frames.code_frame | 0x7);
    assert(first@ =~= frames.first_page@.update(0, frames.code_frame | 0x7));
    process.pages.push(first);
    process.pd.set(1, frame | 0x07);
    proof {
        assert(process.pages@ =~= seq![process.pages@[0]]);
        assert(is_created(process, id, code_addr, code_len, system_pd@, tss_addr, frames));
    }
    processes.push_back(process);
}

/// Starts user mode on a processor. The process queue `processes` is set up (empty, with
/// process ids counted from 1) when it is not yet. With no user program (`code` is `None`,
/// the disk held none) nothing more happens and `None` is returned; the caller reports it and
/// halts. Otherwise `code` gives the address and the length in words of the program, two
/// processes running it are queued (with the frames `first` and `second` and the next two ids)
/// and the process at the front of the queue is taken off it and returned, for the caller to
/// switch to.
pub fn init(
    processes: &mut Option<VecDeque<Process>>,
    next_pid: &mut u32,
    code: Option<(usize, usize)>,
    system_pd: &Page,
    tss_addr: u32,
    first: ProcessFrames,
    second: ProcessFrames,
) -> (running: Option<Process>)
    requires
        system_pd@.len() == PAGE_TABLE_ENTRIES,
        first.pd@.len() == PAGE_TABLE_ENTRIES,
        first.first_page@.len() == PAGE_TABLE_ENTRIES,
        second.pd@.len() == PAGE_TABLE_ENTRIES,
        second.first_page@.len() == PAGE_TABLE_ENTRIES,
        code matches Some(c) ==> user_stack_limit(c.1) <= u32::MAX,
        code is Some && *old(processes) is Some ==> *old(next_pid) + 2 <= u32::MAX,
    ensures
        *final(processes) is Some,
        ({
            let q0 = match *old(processes) {
                Some(q) => q@,
                None => Seq::<Process>::empty(),
            };
            let pid0 = if *old(processes) is Some {
                *old(next_pid)
            } else {
                1u32
            };
            let q = final(processes).unwrap()@;
            match code {
                None => running is None && q == q0 && *final(next_pid) == pid0,
                Some(c) => {
                    &&& running is Some
                    &&& *final(next_pid) == pid0 + 2
                    &&& q.len() == q0.len() + 1
                    &&& is_created(q.last(), (pid0 + 1) as u32, c.0, c.1, system_pd@, tss_addr, second)
                    &&& if q0.len() == 0 {
                        is_created(running.unwrap(), pid0, c.0, c.1, system_pd@, tss_addr, first)
                    } else {
                        &&& running.unwrap() == q0[0]
                        &&& q.subrange(0, q0.len() - 1) == q0.subrange(1, q0.len() as int)
                        &&& is_created(q[q0.len() - 1], pid0, c.0, c.1, system_pd@, tss_addr, first)
                    }
                },
            }
        }),
{
    if processes.is_none() {
        *processes = Some(VecDeque::new());
        *next_pid = 1;
    }
    match code {
        None => None,
        Some((addr, len)) => {
            let mut queue = processes.take().unwrap();
            let ghost q0 = queue@;
            let id = *next_pid;
            create_process(&mut queue, id, addr, len, system_pd, tss_addr, first);
            create_process(&mut queue, id + 1, addr, len, system_pd, tss_addr, second);
            *next_pid = id + 2;
            let ghost q2 = queue@;
            let running = queue.pop_front();
            proof {
                assert(q2.subrange(0, q0.len() as int) == q0);
                if q0.len() > 0 {
                    assert(queue@.subrange(0, q0.len() - 1) =~= q0.subrange(1, q0.len() as int));
                }
            }
            *processes = Some(queue);
            running
        },
    }
}

/// The process entry after it has been saved from the frame `ctx`.
pub open spec fn saved<T: Contextable>(p: Process, ctx: T) -> Process {
    Process { context: ctx.context(), ..p }
}

/// Switches from the current process to the next: saves the frame into the current process,
/// puts it at the back of the queue, takes the process at the front, and loads its state into
/// the frame.
pub fn switch_tasks<T: Contextable>(
    ctx: &mut T,
    current: &mut Option<Process>,
    processes: &mut VecDeque<Process>,
)
    requires
        *old(current) is Some,
    ensures
        ({
            let queue = old(processes)@.push(saved((*old(current))->0, *old(ctx)));
            &&& *final(current) == Some(queue[0])
            &&& final(processes)@ == queue.subrange(1, queue.len() as int)
            &&& final(ctx).context() == queue[0].context
        }),
{
    let mut current_process = current.take().unwrap();
    ctx.save(&mut current_process.context);
    processes.push_back(current_process);
    let new_process = processes.pop_front().unwrap();
    ctx.load(&new_process.context);
    *current = Some(new_process);
}

/// Ends the current process: saves the frame into it and drops it; then takes the process at
/// the front of the queue, loads its state into the frame and returns true, or returns false
/// when no process is left (the processor then stops).
pub fn kill_current_process<T: Contextable>(
    ctx: &mut T,
    current: &mut Option<Process>,
    processes: &mut VecDeque<Process>,
) -> (resumed: bool)
    requires
        *old(current) is Some,
    ensures
        old(processes)@.len() == 0 ==> !resumed && *final(current) is None && final(processes)@
            == old(processes)@ && *final(ctx) == *old(ctx),
        old(processes)@.len() > 0 ==> resumed && *final(current) == Some(old(processes)@[0])
            && final(processes)@ == old(processes)@.subrange(1, old(processes)@.len() as int)
            && final(ctx).context() == old(processes)@[0].context,
{
    let mut current_process = current.take().unwrap();
    ctx.save(&mut current_process.context);
    match processes.pop_front() {
        Some(p) => {
            ctx.load(&p.context);
            *current = Some(p);
            true
        },
        None => false,
    }
}

/// With no other process queued, a task switch resumes the process that was running, with the
/// state it was interrupted in.
pub proof fn lemma_switch_alone<T: Contextable>(
    old_ctx: T,
    new_ctx: T,
    old_current: Process,
    new_current: Option<Process>,
    old_queue: Seq<Process>,
    new_queue: Seq<Process>,
)
    requires
        old_queue.len() == 0,
        ({
            let queue = old_queue.push(saved(old_current, old_ctx));
            &&& new_current == Some(queue[0])
            &&& new_queue == queue.subrange(1, queue.len() as int)
            &&& new_ctx.context() == queue[0].context
        }),
    ensures
        new_current == Some(saved(old_current, old_ctx)),
        new_queue.len() == 0,
        new_ctx.context() == old_ctx.context(),
{
}

/// A task switch is a rotation: the queue after it, followed by the process now running, is
/// the queue before it followed by the process that was running.
pub proof fn lemma_switch_rotates<T: Contextable>(
    old_ctx: T,
    old_current: Process,
    new_current: Option<Process>,
    old_queue: Seq<Process>,
    new_queue: Seq<Process>,
)
    requires
        ({
            let queue = old_queue.push(saved(old_current, old_ctx));
            &&& new_current == Some(queue[0])
            &&& new_queue == queue.subrange(1, queue.len() as int)
        }),
    ensures
        seq![new_current->0] + new_queue == old_queue.push(saved(old_current, old_ctx)),
{
    let queue = old_queue.push(saved(old_current, old_ctx));
    assert(seq![new_current->0] + new_queue =~= queue);
}

} // verus!
