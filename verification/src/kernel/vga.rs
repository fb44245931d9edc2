use vstd::prelude::*;
use crate::hw::{PortWrite, VgaByte, VgaCell};
use vstd::string::StringSliceAdditionalSpecFns;

verus! {

/// The sixteen VGA text colours.
#[derive(Clone, Copy, Debug, PartialEq, Eq, Structural)]
pub enum Color {
    Black,
    Blue,
    Green,
    Cyan,
    Red,
    Pink,
    Brown,
    LightGray,
    DarkGray,
    LightBlue,
    LightGreen,
    LightCyan,
    LightRed,
    LightPink,
    Yellow,
    White,
}

/// The hardware number of a colour.
pub open spec fn color_code(c: Color) -> u8 {
    match c {
        Color::Black => 0,
        Color::Blue => 1,
        Color::Green => 2,
        Color::Cyan => 3,
        Color::Red => 4,
        Color::Pink => 5,
        Color::Brown => 6,
        Color::LightGray => 7,
        Color::DarkGray => 8,
        Color::LightBlue => 9,
        Color::LightGreen => 10,
        Color::LightCyan => 11,
        Color::LightRed => 12,
        Color::LightPink => 13,
        Color::Yellow => 14,
        Color::White => 15,
    }
}

impl Color {
    /// The hardware number of this colour.
    pub fn code(self) -> (r: u8)
        ensures
            r == color_code(self),
    {
        match self {
            Color::Black => 0,
            Color::Blue => 1,
            Color::Green => 2,
            Color::Cyan => 3,
            Color::Red => 4,
            Color::Pink => 5,
            Color::Brown => 6,
            Color::LightGray => 7,
            Color::DarkGray => 8,
            Color::LightBlue => 9,
            Color::LightGreen => 10,
            Color::LightCyan => 11,
            Color::LightRed => 12,
            Color::LightPink => 13,
            Color::Yellow => 14,
            Color::White => 15,
        }
    }
}

pub const ROWS: usize = 25;

pub const COLS: usize = 80;

/// The sixteen colours in the order of the VGA text-mode palette, black first and white last.
pub open spec fn palette() -> Seq<Color> {
    seq![
        Color::Black, Color::Blue, Color::Green, Color::Cyan,
        Color::Red, Color::Pink, Color::Brown, Color::LightGray,
        Color::DarkGray, Color::LightBlue, Color::LightGreen, Color::LightCyan,
        Color::LightRed, Color::LightPink, Color::Yellow, Color::White,
    ]
}

/// Every colour's hardware number is its index in the VGA palette, so the numbers of the
/// sixteen colours are exactly 0 to 15, each used once; the attribute of a foreground on a
/// background holds the foreground's number in its low nibble and the background's in its
/// high nibble.
pub proof fn lemma_vga_palette()
    ensures
        palette().len() == 16,
        forall|i: int| 0 <= i < 16 ==> color_code(#[trigger] palette()[i]) == i,
        forall|c: Color| palette()[#[trigger] color_code(c) as int] == c,
        forall|f: Color, b: Color|
            #[trigger] attribute(f, b) % 16 == color_code(f) && attribute(f, b) / 16 == color_code(b),
{
    assert forall|i: int| 0 <= i < 16 implies color_code(#[trigger] palette()[i]) == i by {
        if i == 0 {} else if i == 1 {} else if i == 2 {} else if i == 3 {}
        else if i == 4 {} else if i == 5 {} else if i == 6 {} else if i == 7 {}
        else if i == 8 {} else if i == 9 {} else if i == 10 {} else if i == 11 {}
        else if i == 12 {} else if i == 13 {} else if i == 14 {} else {}
    }
    assert forall|c: Color| palette()[#[trigger] color_code(c) as int] == c by {
        match c {
            Color::Black => {}, Color::Blue => {}, Color::Green => {}, Color::Cyan => {},
            Color::Red => {}, Color::Pink => {}, Color::Brown => {}, Color::LightGray => {},
            Color::DarkGray => {}, Color::LightBlue => {}, Color::LightGreen => {},
            Color::LightCyan => {}, Color::LightRed => {}, Color::LightPink => {},
            Color::Yellow => {}, Color::White => {},
        }
    }
}

/// The attribute byte for `foregnd` on `backgnd`.
pub open spec fn attribute(foregnd: Color, backgnd: Color) -> u8 {
    (color_code(foregnd) + 16 * color_code(backgnd)) as u8
}

/// The index of the cell at `row`, `col`.
pub open spec fn cell_index(row: usize, col: usize) -> int {
    row * 80 + col
}

/// The screen's cells are laid out row by row: the first cell is 0, the next column is the next
/// cell, the first column of a row follows the last column of the row above, and the last cell
/// of the screen is `ROWS * COLS - 1`.
pub proof fn lemma_cells_row_major(row: usize, col: usize)
    requires
        row < ROWS,
        col < COLS,
    ensures
        cell_index(0, 0) == 0,
        col + 1 < COLS ==> cell_index(row, (col + 1) as usize) == cell_index(row, col) + 1,
        row + 1 < ROWS ==> cell_index((row + 1) as usize, 0) == cell_index(row, (COLS - 1) as usize) + 1,
        cell_index((ROWS - 1) as usize, (COLS - 1) as usize) == ROWS * COLS - 1,
        0 <= cell_index(row, col) < ROWS * COLS,
{
}

proof fn lemma_pack_bits()
    ensures
        forall|x: u8, y: u8| x < 16 && y < 16 ==> #[trigger] (x | (y << 4u8)) == x + 16 * y,
        forall|c: u32, e: u8|
            (#[trigger] (((c as u16) & 0xffu16) | ((e as u16) << 8u16))) as int == (c % 256) as int
                + 256 * (e as int),
        forall|c: u32| #[trigger] (c as u8) as int == (c % 256) as int,
{
    assert(forall|c: u32| #[trigger] (c as u8) as int == (c % 256) as int) by (bit_vector);
    assert(forall|x: u8, y: u8| x < 16 && y < 16 ==> #[trigger] (x | (y << 4u8)) == x + 16 * y)
        by (bit_vector);
    assert(forall|c: u32, e: u8|
        (#[trigger] (((c as u16) & 0xffu16) | ((e as u16) << 8u16))) as int == (c % 256) as int
            + 256 * (e as int)) by (bit_vector);
}

/// Writes `letter` (its low byte) at `row`, `col`.
pub fn write_char(row: usize, col: usize, letter: char) -> (w: VgaByte)
    requires
        cell_index(row, col) * 2 <= usize::MAX,
    ensures
        w.offset == cell_index(row, col) * 2,
        w.value == (letter as u32) % 256,
{
    proof {
        lemma_pack_bits();
    }
    let code = (letter as u32) as u8;
    let offset = (row * COLS + col) * 2;
    VgaByte { offset, value: code }
}

fn encode_color(foregnd: Color, backgnd: Color) -> (r: u8)
    ensures
        r == attribute(foregnd, backgnd),
{
    let fcode = foregnd.code();
    let bcode = backgnd.code();
    proof {
        lemma_pack_bits();
    }
    fcode | (bcode << 4)
}

/// Sets the colours of the cell at `row`, `col`.
pub fn set_color(row: usize, col: usize, foregnd: Color, backgnd: Color) -> (w: VgaByte)
    requires
        cell_index(row, col) * 2 + 1 <= usize::MAX,
    ensures
        w.offset == cell_index(row, col) * 2 + 1,
        w.value == attribute(foregnd, backgnd),
{
    let code = encode_color(foregnd, backgnd);
    let offset = (row * COLS + col) * 2 + 1;
    VgaByte { offset, value: code }
}

/// Writes `letter` (its low byte) in `foregnd` on `backgnd` at `row`, `col`.
pub fn write_char_with_color(
    row: usize,
    col: usize,
    letter: char,
    foregnd: Color,
    backgnd: Color,
) -> (w: VgaCell)
    requires
        cell_index(row, col) <= usize::MAX,
    ensures
        w.index == cell_index(row, col),
        w.value == (letter as u32) % 256 + 256 * attribute(foregnd, backgnd),
{
    let char_code = (letter as u32) as u16;
    let color_code = encode_color(foregnd, backgnd) as u16;
    let offset = (row * COLS) + col;
    proof {
        lemma_pack_bits();
        assert((((letter as u32) as u16 & 0xffu16) | ((attribute(foregnd, backgnd) as u16) << 8u16))
            as int == ((letter as u32) % 256) as int + 256 * (attribute(foregnd, backgnd) as int));
    }
    let code = (char_code & 0xFF) | (color_code << 8);
    VgaCell { index: offset, value: code }
}

/// Writes the bytes of `string` from `row`, `col` on.
pub fn write_string(row: usize, col: usize, string: &str) -> (ws: Vec<VgaByte>)
    requires
        (cell_index(row, col) + string.spec_bytes().len()) * 2 <= usize::MAX,
    ensures
        ws@.len() == string.spec_bytes().len(),
        forall|i: int|
            0 <= i < ws@.len() ==> (#[trigger] ws@[i]).offset == (cell_index(row, col) + i) * 2
                && ws@[i].value == string.spec_bytes()[i],
{
    let bytes = string.as_bytes();
    let mut ws: Vec<VgaByte> = Vec::new();
    let mut i: usize = 0;
    while i < bytes.len()
        invariant
            i <= bytes@.len(),
            bytes@ == string.spec_bytes(),
            (cell_index(row, col) + bytes@.len()) * 2 <= usize::MAX,
            ws@.len() == i,
            forall|j: int|
                0 <= j < i ==> (#[trigger] ws@[j]).offset == (cell_index(row, col) + j) * 2
                    && ws@[j].value == bytes@[j],
        decreases bytes@.len() - i,
    {
        let chr = bytes[i];
        let w = write_char(row, col + i, chr as char);
        ws.push(w);
        i = i + 1;
    }
    ws
}

/// Sets the colours of `len` cells from `row`, `col` on.
pub fn paint_color(row: usize, col: usize, len: usize, foregnd: Color, backgnd: Color) -> (ws: Vec<
    VgaByte,
>)
    requires
        (cell_index(row, col) + len) * 2 <= usize::MAX,
    ensures
        ws@.len() == len,
        forall|i: int|
            0 <= i < len ==> (#[trigger] ws@[i]).offset == (cell_index(row, col) + i) * 2 + 1
                && ws@[i].value == attribute(foregnd, backgnd),
{
    let mut ws: Vec<VgaByte> = Vec::new();
    let mut i: usize = 0;
    while i < len
        invariant
            i <= len,
            (cell_index(row, col) + len) * 2 <= usize::MAX,
            ws@.len() == i,
            forall|j: int|
                0 <= j < i ==> (#[trigger] ws@[j]).offset == (cell_index(row, col) + j) * 2 + 1
                    && ws@[j].value == attribute(foregnd, backgnd),
        decreases len - i,
    {
        ws.push(set_color(row, col + i, foregnd, backgnd));
        i = i + 1;
    }
    ws
}

/// Writes the bytes of `string` in `foregnd` on `backgnd` from `row`, `col` on.
pub fn write_string_with_color(
    row: usize,
    col: usize,
    string: &str,
    foregnd: Color,
    backgnd: Color,
) -> (ws: Vec<VgaCell>)
    requires
        cell_index(row, col) + string.spec_bytes().len() <= usize::MAX,
    ensures
        ws@.len() == string.spec_bytes().len(),
        forall|i: int|
            0 <= i < ws@.len() ==> (#[trigger] ws@[i]).index == cell_index(row, col) + i
                && ws@[i].value == string.spec_bytes()[i] + 256 * attribute(foregnd, backgnd),
{
    let bytes = string.as_bytes();
    let mut ws: Vec<VgaCell> = Vec::new();
    let mut i: usize = 0;
    while i < bytes.len()
        invariant
            i <= bytes@.len(),
            bytes@ == string.spec_bytes(),
            cell_index(row, col) + bytes@.len() <= usize::MAX,
            ws@.len() == i,
            forall|j: int|
                0 <= j < i ==> (#[trigger] ws@[j]).index == cell_index(row, col) + j && ws@[j].value
                    == bytes@[j] + 256 * attribute(foregnd, backgnd),
        decreases bytes@.len() - i,
    {
        let chr = bytes[i];
        let w = write_char_with_color(row, col + i, chr as char, foregnd, backgnd);
        ws.push(w);
        i = i + 1;
    }
    ws
}

/// The cursor position register value for `row`, `col`: the cell index, truncated to 16 bits.
pub open spec fn cursor_offset(row: usize, col: usize) -> int {
    cell_index(row, col) % 0x10000
}

/// Moves the hardware cursor to `row`, `col`: the low and then the high byte of the cell index
/// go to the CRT controller's cursor location registers.
pub fn move_cursor(row: usize, col: usize) -> (ws: Vec<PortWrite>)
    requires
        cell_index(row, col) <= usize::MAX,
    ensures
        ws@ == seq![
            PortWrite { port: 0x3d4, value: 0x0f },
            PortWrite { port: 0x3d5, value: (cursor_offset(row, col) % 256) as u8 },
            PortWrite { port: 0x3d4, value: 0x0e },
            PortWrite { port: 0x3d5, value: (cursor_offset(row, col) / 256) as u8 },
        ],
{
    let vga_cmd: u16 = 0x3d4;
    let vga_data: u16 = 0x3d5;
    let cursor_offset = (row * COLS + col) as u16;
    let lsb = (cursor_offset & 0xFF) as u8;
    let msb = (cursor_offset >> 8) as u8;
    proof {
        let x = (row * COLS + col) as usize;
        assert(((x as u16) & 0xffu16) as u8 == ((x as u16) % 256) as u8 && ((x as u16) >> 8u16) as u8
            == ((x as u16) / 256) as u8 && (x as u16) as int == x as int % 0x10000) by (bit_vector);
    }
    let mut ws: Vec<PortWrite> = Vec::new();
    ws.push(PortWrite { port: vga_cmd, value: 0x0f });
    ws.push(PortWrite { port: vga_data, value: lsb });
    ws.push(PortWrite { port: vga_cmd, value: 0x0e });
    ws.push(PortWrite { port: vga_data, value: msb });
    ws
}

} // verus!
