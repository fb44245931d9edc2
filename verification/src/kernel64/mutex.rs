//! The spin lock, shared with the 32-bit kernel.
pub use crate::kernel::mutex::{HeldMutex, Mutex};
