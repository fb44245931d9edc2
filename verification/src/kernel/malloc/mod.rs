//! The kernel heap: a binary buddy allocator over 256 MiB starting at `HEAP_START`.
pub mod heap;
pub mod order;
pub mod spec;
