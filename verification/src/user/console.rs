//! The user program's console: text goes to the kernel through the `write` system call.
use vstd::prelude::*;
use crate::user::syscall::{Syscall, write_succeeded};

verus! {

/// A console write was refused by the kernel.
#[derive(Clone, Copy, Debug, PartialEq, Eq, Structural)]
pub struct WriteError;

/// The console of a user program.
pub struct Console;

impl Console {
    /// The system call that writes the `len` bytes of a string held at address `ptr`.
    pub fn write_str(&self, ptr: u32, len: u32) -> (call: Syscall)
        ensures
            call == (Syscall { number: 1, arg1: ptr, arg2: len }),
    {
        crate::user::syscall::write(ptr, len)
    }

    /// The outcome of a string write whose system call returned `ret`: success when it
    /// returned 0.
    pub fn write_outcome(&self, ret: u32) -> (r: Result<(), WriteError>)
        ensures
            r is Ok <==> ret == 0,
    {
        if write_succeeded(ret) {
            Ok(())
        } else {
            Err(WriteError)
        }
    }
}

/// Writes the `len` bytes of a string held at address `ptr`, whatever the outcome.
pub fn puts(ptr: u32, len: u32) -> (call: Syscall)
    ensures
        call == (Syscall { number: 1, arg1: ptr, arg2: len }),
{
    Console.write_str(ptr, len)
}

} // verus!
