//! The serial console: the same port and byte sequence as the 32-bit kernel.
pub use crate::kernel::console::{Console, PORT, puts};
