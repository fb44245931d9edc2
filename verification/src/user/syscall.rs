//! The system calls a user program makes: a call number and two arguments, which the
//! assembly stub passes to the kernel's system call vector.
use vstd::prelude::*;

verus! {

/// The call number of `write`.
pub const SYS_WRITE: u32 = 1;

/// The call number of `sleep`.
pub const SYS_SLEEP: u32 = 8;

/// The call number of `exit`.
pub const SYS_EXIT: u32 = 9;

/// A system call: its number and its two arguments.
#[derive(Clone, Copy, Debug, PartialEq, Eq, Structural)]
pub struct Syscall {
    pub number: u32,
    pub arg1: u32,
    pub arg2: u32,
}

/// Writes the `len` bytes at address `ptr` to the console.
pub fn write(ptr: u32, len: u32) -> (call: Syscall)
    ensures
        call == (Syscall { number: SYS_WRITE, arg1: ptr, arg2: len }),
{
    Syscall { number: SYS_WRITE, arg1: ptr, arg2: len }
}

/// Whether a `write` succeeded, from the value the kernel returned: it did when that is 0.
pub fn write_succeeded(ret: u32) -> (ok: bool)
    ensures
        ok == (ret == 0),
{
    ret == 0
}

/// Gives up the processor to the next process.
pub fn sleep() -> (call: Syscall)
    ensures
        call == (Syscall { number: SYS_SLEEP, arg1: 0, arg2: 0 }),
{
    Syscall { number: SYS_SLEEP, arg1: 0, arg2: 0 }
}

/// Ends the process with exit code `code`; the kernel never returns from it.
pub fn exit(code: u32) -> (call: Syscall)
    ensures
        call == (Syscall { number: SYS_EXIT, arg1: code, arg2: 0 }),
{
    Syscall { number: SYS_EXIT, arg1: code, arg2: 0 }
}

} // verus!
