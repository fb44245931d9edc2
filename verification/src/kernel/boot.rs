//! What the bootstrap processor puts on the screen once the kernel is up.
use vstd::prelude::*;
use crate::hw::VgaCell;
use crate::kernel::vga::{Color, COLS, ROWS, attribute, write_char_with_color};

verus! {

/// Fills the screen with blanks in `foregnd` on `backgnd`, row by row: cell `k` of the result
/// writes cell `k` of the screen.
pub fn clear_screen(foregnd: Color, backgnd: Color) -> (ws: Vec<VgaCell>)
    ensures
        ws@.len() == ROWS * COLS,
        forall|k: int|
            0 <= k < ROWS * COLS ==> #[trigger] ws@[k] == (VgaCell {
                index: k as usize,
                value: (0x20 + 256 * attribute(foregnd, backgnd)) as u16,
            }),
{
    let mut ws: Vec<VgaCell> = Vec::new();
    let mut i: usize = 0;
    while i < ROWS
        invariant
            i <= ROWS,
            ws@.len() == i * COLS,
            forall|k: int|
                0 <= k < i * COLS ==> #[trigger] ws@[k] == (VgaCell {
                    index: k as usize,
                    value: (0x20 + 256 * attribute(foregnd, backgnd)) as u16,
                }),
        decreases ROWS - i,
    {
        let mut j: usize = 0;
        while j < COLS
            invariant
                i < ROWS,
                j <= COLS,
                ws@.len() == i * COLS + j,
                forall|k: int|
                    0 <= k < i * COLS + j ==> #[trigger] ws@[k] == (VgaCell {
                        index: k as usize,
                        value: (0x20 + 256 * attribute(foregnd, backgnd)) as u16,
                    }),
            decreases COLS - j,
        {
            let w = write_char_with_color(i, j, ' ', foregnd, backgnd);
            ws.push(w);
            j = j + 1;
        }
        i = i + 1;
    }
    ws
}

/// The character shown for `count` processors: its low byte past `'0'` (the digit itself for
/// counts up to 9).
pub fn processor_digit(count: usize) -> (d: u8)
    requires
        count % 256 + 0x30 < 256,
    ensures
        d == count % 256 + 0x30,
{
    (count % 256) as u8 + 0x30
}

} // verus!
