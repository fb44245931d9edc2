use vstd::prelude::*;
use crate::hw::PortWrite;
use vstd::string::StringSliceAdditionalSpecFns;

verus! {

/// The data port of the first serial line.
pub const PORT: u16 = 0x3F8;

/// The serial console.
pub struct Console;

/// Whether a line status register value (read at `PORT + 5`) says the transmitter holding
/// register is empty, so that the next byte may be written.
pub fn transmitter_empty(status: u8) -> (r: bool)
    ensures
        r == (status & 0x20 != 0),
{
    status & 0x20 != 0
}

/// Each byte of `bytes` written to the serial data port, in order.
pub open spec fn serial_writes(bytes: Seq<u8>) -> Seq<PortWrite> {
    bytes.map_values(|b: u8| PortWrite { port: 0x3F8, value: b })
}

/// Sending bytes writes each byte once, in order, to the data port: one write per byte, and
/// sending two runs of bytes one after the other writes what sending them joined writes.
pub proof fn lemma_serial_writes(a: Seq<u8>, b: Seq<u8>)
    ensures
        serial_writes(a).len() == a.len(),
        forall|i: int| 0 <= i < a.len() ==> #[trigger] serial_writes(a)[i] == (PortWrite { port: PORT, value: a[i] }),
        serial_writes(a + b) == serial_writes(a) + serial_writes(b),
{
    assert(serial_writes(a + b) =~= serial_writes(a) + serial_writes(b));
}

impl Console {
    /// Sends `bytes` over the serial line: one write to the data port per byte, each made once
    /// `transmitter_empty` holds for the line status.
    pub fn write_bytes(&self, bytes: &[u8]) -> (ws: Vec<PortWrite>)
        ensures
            ws@ == serial_writes(bytes@),
    {
        let mut ws: Vec<PortWrite> = Vec::new();
        let mut i: usize = 0;
        while i < bytes.len()
            invariant
                i <= bytes@.len(),
                ws@ == serial_writes(bytes@.subrange(0, i as int)),
            decreases bytes@.len() - i,
        {
            ws.push(PortWrite { port: PORT, value: bytes[i] });
            i = i + 1;
            assert(bytes@.subrange(0, i as int) == bytes@.subrange(0, i - 1).push(bytes@[i - 1]));
            assert(ws@ =~= serial_writes(bytes@.subrange(0, i as int)));
        }
        assert(bytes@.subrange(0, i as int) == bytes@);
        ws
    }
}

/// Sends `string` over the serial line.
pub fn puts(string: &str) -> (ws: Vec<PortWrite>)
    ensures
        ws@ == serial_writes(string.spec_bytes()),
{
    Console.write_bytes(string.as_bytes())
}

} // verus!
