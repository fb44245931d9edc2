//! The user program: its system call requests, its console and its prime search.
pub mod console;
pub mod primes;
pub mod syscall;
