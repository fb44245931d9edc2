//! Entering user mode: the pages handed to user code and the console user code writes to.
use vstd::prelude::*;
use crate::user::console::WriteError;
use crate::user::syscall::Syscall;

verus! {

/// The first and the end (excluded) of the page numbers handed to user code besides its stack.
pub const USER_FIRST_PAGE: usize = 0x8;
pub const USER_END_PAGE: usize = 0xE0;

/// The addresses of the pages handed to user code before it starts, for a processor whose
/// stack pointer is `esp`: the stack's page, then the pages 0x8 to 0xDF.
pub fn init(esp: usize) -> (pages: Vec<usize>)
    ensures
        pages@.len() == 1 + (USER_END_PAGE - USER_FIRST_PAGE),
        pages@[0] == esp,
        forall|k: int| 1 <= k < pages@.len() ==> #[trigger] pages@[k] == (USER_FIRST_PAGE + k - 1) * 4096,
{
    let mut pages: Vec<usize> = Vec::new();
    pages.push(esp);
    let mut page: usize = USER_FIRST_PAGE;
    while page < USER_END_PAGE
        invariant
            USER_FIRST_PAGE <= page <= USER_END_PAGE,
            pages@.len() == 1 + (page - USER_FIRST_PAGE),
            pages@[0] == esp,
            forall|k: int| 1 <= k < pages@.len() ==> #[trigger] pages@[k] == (USER_FIRST_PAGE + k - 1) * 4096,
        decreases USER_END_PAGE - page,
    {
        pages.push(page * 4096);
        page = page + 1;
    }
    pages
}

/// The console of code running in user mode: it writes through the `write` system call.
pub struct UserConsole;

impl UserConsole {
    /// The system call that writes the `len` bytes of a string held at address `ptr`.
    pub fn write_str(&self, ptr: u32, len: u32) -> (call: Syscall)
        ensures
            call == (Syscall { number: 1, arg1: ptr, arg2: len }),
    {
        crate::user::syscall::write(ptr, len)
    }

    /// The outcome of a string write whose system call returned `ret`: success when it
    /// returned 0.
    pub fn write_outcome(&self, ret: u32) -> (r: Result<(), WriteError>)
        ensures
            r is Ok <==> ret == 0,
    {
        if ret == 0 {
            Ok(())
        } else {
            Err(WriteError)
        }
    }
}

} // verus!
