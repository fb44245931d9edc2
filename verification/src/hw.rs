//! The hardware operations the library's functions compute and their callers perform.
use vstd::prelude::*;

verus! {

/// A byte written to an I/O port.
#[derive(Clone, Copy, Debug, PartialEq, Eq, Structural)]
pub struct PortWrite {
    pub port: u16,
    pub value: u8,
}

/// A byte written into VGA text memory, `offset` bytes from its start.
#[derive(Clone, Copy, Debug, PartialEq, Eq, Structural)]
pub struct VgaByte {
    pub offset: usize,
    pub value: u8,
}

/// A character cell (character in the low byte, colours in the high byte) written into VGA text
/// memory, `index` cells from its start.
#[derive(Clone, Copy, Debug, PartialEq, Eq, Structural)]
pub struct VgaCell {
    pub index: usize,
    pub value: u16,
}

pub fn port_write(port: u16, value: u8) -> (w: PortWrite)
    ensures
        w == (PortWrite { port, value }),
{
    PortWrite { port, value }
}

} // verus!
