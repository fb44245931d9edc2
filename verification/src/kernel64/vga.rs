//! VGA text output: the same cell layout, colours and cursor registers as the 32-bit kernel.
pub use crate::kernel::vga::{Color, COLS, ROWS, move_cursor, set_color, write_char, write_char_with_color};
