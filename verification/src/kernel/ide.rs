use vstd::prelude::*;
use crate::hw::PortWrite;

verus! {

/// The size of a sector in bytes.
pub const SECTOR_BYTES: usize = 512;

/// Status: the drive is busy.
pub const BSY: u8 = 0x80;

/// Status: the drive is ready.
pub const RDY: u8 = 0x40;

/// Status: the drive has data to transfer.
pub const DRQ: u8 = 0x8;

/// Drives 0 and 1 are on the first controller, 2 and 3 on the second.
pub open spec fn spec_controller(drive: u8) -> u8 {
    (drive / 2) % 2
}

/// Drives 0 and 2 are masters, 1 and 3 slaves.
pub open spec fn spec_channel(drive: u8) -> u8 {
    drive % 2
}

/// The command block base port of the drive's controller.
pub open spec fn spec_port(drive: u8) -> u16 {
    if spec_controller(drive) == 0 {
        0x1f0
    } else {
        0x170
    }
}

fn controller(drive: u8) -> (r: u8)
    ensures
        r == spec_controller(drive),
{
    proof {
        assert((drive >> 1u8) & 1 == (drive / 2) % 2) by (bit_vector);
    }
    (drive >> 1) & 1
}

fn channel(drive: u8) -> (r: u8)
    ensures
        r == spec_channel(drive),
{
    proof {
        assert(drive & 1 == drive % 2) by (bit_vector);
    }
    drive & 1
}

/// The command block base port of the drive's controller; its data port.
pub fn port(drive: u8) -> (r: u16)
    ensures
        r == spec_port(drive),
{
    if controller(drive) == 0 {
        0x1f0
    } else {
        0x170
    }
}

/// The status says the drive is busy: the caller keeps reading it until this is false.
pub fn drive_busy(status: u8) -> (r: bool)
    ensures
        r == (status & BSY != 0),
{
    status & BSY != 0
}

/// The status says the drive is ready for a command: after it stops being busy, the caller
/// keeps reading the status until this holds.
pub fn drive_ready(status: u8) -> (r: bool)
    ensures
        r == (status & RDY != 0),
{
    status & RDY != 0
}

/// The status says the drive has data to transfer: before each sector, the caller waits for
/// the drive and then until this holds.
pub fn data_requested(status: u8) -> (r: bool)
    ensures
        r == (status & DRQ != 0),
{
    status & DRQ != 0
}

/// The commands that ask the drive for its IDENTIFY data: select it (LBA mode), clear the
/// sector count and address registers, and send command 0xEC.
pub fn identify_commands(drive: u8) -> (ws: Vec<PortWrite>)
    ensures
        ws@ == seq![
            PortWrite { port: (spec_port(drive) + 6) as u16, value: (0xA0 + 16 * spec_channel(drive)) as u8 },
            PortWrite { port: (spec_port(drive) + 2) as u16, value: 0 },
            PortWrite { port: (spec_port(drive) + 3) as u16, value: 0 },
            PortWrite { port: (spec_port(drive) + 4) as u16, value: 0 },
            PortWrite { port: (spec_port(drive) + 5) as u16, value: 0 },
            PortWrite { port: (spec_port(drive) + 7) as u16, value: 0xEC },
        ],
{
    let base = port(drive);
    let channel = channel(drive);
    proof {
        assert(channel < 2 ==> 0xA0u8 | (channel << 4u8) == 0xA0 + 16 * channel) by (bit_vector);
    }
    let mut ws: Vec<PortWrite> = Vec::new();
    ws.push(PortWrite { port: base + 6, value: 0xA0 | (channel << 4) });
    let mut i: u16 = 2;
    while i < 6
        invariant
            2 <= i <= 6,
            base == spec_port(drive),
            ws@.len() == i - 1,
            ws@[0] == (PortWrite { port: (spec_port(drive) + 6) as u16, value: (0xA0 + 16 * spec_channel(drive)) as u8 }),
            forall|j: int| 1 <= j < i - 1 ==> ws@[j] == (PortWrite { port: (base + j + 1) as u16, value: 0 }),
        decreases 6 - i,
    {
        ws.push(PortWrite { port: base + i, value: 0 });
        i = i + 1;
    }
    ws.push(PortWrite { port: base + 7, value: 0xEC });
    assert(ws@ =~= seq![
        PortWrite { port: (spec_port(drive) + 6) as u16, value: (0xA0 + 16 * spec_channel(drive)) as u8 },
        PortWrite { port: (spec_port(drive) + 2) as u16, value: 0 },
        PortWrite { port: (spec_port(drive) + 3) as u16, value: 0 },
        PortWrite { port: (spec_port(drive) + 4) as u16, value: 0 },
        PortWrite { port: (spec_port(drive) + 5) as u16, value: 0 },
        PortWrite { port: (spec_port(drive) + 7) as u16, value: 0xEC },
    ]);
    ws
}

/// The number of LBA28 sectors of the drive, from the status read after `identify_commands`
/// and the 128 double words of IDENTIFY data that follow: none when the status is 0 (there is
/// no drive), otherwise double word 30 (words 60 and 61).
pub fn sector_count(status: u8, identify: &[u32]) -> (r: Option<u32>)
    requires
        status != 0 ==> identify@.len() == 128,
    ensures
        r == if status == 0 {
            None
        } else {
            Some(identify@[30])
        },
{
    if status == 0 {
        return None;
    }
    let mut sector_count: u32 = 0;
    let mut i: usize = 0;
    while i < 128
        invariant
            i <= 128,
            identify@.len() == 128,
            i > 30 ==> sector_count == identify@[30],
        decreases 128 - i,
    {
        let result = identify[i];
        if i == 30 {
            sector_count = result;
        }
        i = i + 1;
    }
    Some(sector_count)
}

/// The number of whole sectors a buffer of `buffer_len` double words holds.
pub open spec fn buffer_sectors(buffer_len: usize) -> int {
    (buffer_len / 128) as int
}

/// The register writes of one read command for `count` sectors (0 meaning 256) from LBA
/// `sector`: the count, the address bytes, the drive select with address bits 24..28, and
/// command 0x20.
pub open spec fn read_command(drive: u8, sector: u32, count: u8) -> Seq<PortWrite> {
    seq![
        PortWrite { port: (spec_port(drive) + 2) as u16, value: count },
        PortWrite { port: (spec_port(drive) + 3) as u16, value: (sector % 256) as u8 },
        PortWrite { port: (spec_port(drive) + 4) as u16, value: ((sector / 256) % 256) as u8 },
        PortWrite { port: (spec_port(drive) + 5) as u16, value: ((sector / 65536) % 256) as u8 },
        PortWrite {
            port: (spec_port(drive) + 6) as u16,
            value: (0xE0 + 16 * spec_channel(drive) + (sector / 0x100_0000) % 16) as u8,
        },
        PortWrite { port: (spec_port(drive) + 7) as u16, value: 0x20 },
    ]
}

/// The number of commands a read of `total` sectors takes: one per 256 sectors, rounded up.
pub open spec fn batch_count(total: int) -> int {
    (total + 255) / 256
}

/// The number of sectors command `k` of a read of `total` sectors transfers: 256, but for the
/// last command, which takes what is left.
pub open spec fn batch_sectors(total: int, k: int) -> int {
    if total - 256 * k >= 256 {
        256
    } else {
        total - 256 * k
    }
}

/// A read of `total` sectors is split into commands that each transfer from 1 to 256 sectors,
/// all but the last transferring 256, which together transfer exactly `total` sectors; no
/// command is issued for an empty read.
pub proof fn lemma_batches_cover(total: int)
    requires
        total >= 0,
    ensures
        batch_count(total) >= 0,
        batch_count(total) == 0 <==> total == 0,
        forall|k: int| 0 <= k < batch_count(total) ==> 1 <= #[trigger] batch_sectors(total, k) <= 256,
        forall|k: int| 0 <= k < batch_count(total) - 1 ==> #[trigger] batch_sectors(total, k) == 256,
        batch_count(total) > 0 ==> 256 * (batch_count(total) - 1) + batch_sectors(total, batch_count(total) - 1)
            == total,
{
    let n = batch_count(total);
    assert(n >= 0);
    assert(total > 0 ==> n > 0);
    assert(256 * n <= total + 255 && total + 255 < 256 * n + 256);
    assert forall|k: int| 0 <= k < n implies 1 <= #[trigger] batch_sectors(total, k) <= 256 by {
        assert(256 * k <= 256 * (n - 1)) by (nonlinear_arith)
            requires k <= n - 1;
    }
    assert forall|k: int| 0 <= k < n - 1 implies #[trigger] batch_sectors(total, k) == 256 by {
        assert(256 * k + 256 <= 256 * (n - 1)) by (nonlinear_arith)
            requires k <= n - 2;
    }
}

/// One read command and the number of sectors whose 128 double words each the caller then
/// reads from the data port, waiting for `DRQ` before each.
#[derive(Debug)]
pub struct ReadBatch {
    pub commands: Vec<PortWrite>,
    pub sectors: u32,
}

fn read_command_writes(drive: u8, sector: u32, count: u8) -> (ws: Vec<PortWrite>)
    ensures
        ws@ == read_command(drive, sector, count),
{
    let base = port(drive);
    let channel = channel(drive);
    proof {
        assert(channel < 2 ==> (0xE0u8 | (channel << 4u8) | (((sector >> 24u32) & 0xf) as u8)) == 0xE0
            + 16 * channel + (sector / 0x100_0000) % 16 && (sector as u8) == sector % 256 && ((
        sector >> 8u32) as u8) == (sector / 256) % 256 && ((sector >> 16u32) as u8) == (sector
            / 65536) % 256) by (bit_vector);
    }
    let mut ws: Vec<PortWrite> = Vec::new();
    ws.push(PortWrite { port: base + 2, value: count });
    ws.push(PortWrite { port: base + 3, value: sector as u8 });
    ws.push(PortWrite { port: base + 4, value: (sector >> 8) as u8 });
    ws.push(PortWrite { port: base + 5, value: (sector >> 16) as u8 });
    ws.push(
        PortWrite {
            port: base + 6,
            value: 0xE0 | (channel << 4) | (((sector >> 24) & 0xf) as u8),
        },
    );
    ws.push(PortWrite { port: base + 7, value: 0x20 });
    assert(ws@ =~= read_command(drive, sector, count));
    ws
}

/// The commands that read sectors `start_sector..` of the drive into a buffer of `buffer_len`
/// double words (as many whole sectors as it holds). Each command reads as many sectors as it
/// can: the count register is 8 bits wide, so a command takes at most 256 sectors (a count
/// byte of 0), and the commands follow one another until every sector is read.
pub fn read_sectors(drive: u8, start_sector: u32, buffer_len: usize) -> (batches: Vec<ReadBatch>)
    requires
        start_sector + buffer_sectors(buffer_len) <= u32::MAX,
    ensures
        batches@.len() == batch_count(buffer_sectors(buffer_len)),
        forall|k: int|
            0 <= k < batches@.len() ==> {
                let n = batch_sectors(buffer_sectors(buffer_len), k);
                &&& (#[trigger] batches@[k]).sectors == n
                &&& batches@[k].commands@ == read_command(
                    drive,
                    (start_sector + 256 * k) as u32,
                    (n % 256) as u8,
                )
            },
{
    let total = buffer_len / 128;
    let ghost t = total as int;
    let end_sector = start_sector + total as u32;
    let mut sector = start_sector;
    let mut batches: Vec<ReadBatch> = Vec::new();
    while sector < end_sector
        invariant
            t == buffer_sectors(buffer_len),
            end_sector == start_sector + t,
            start_sector <= sector <= end_sector,
            batches@.len() == (sector - start_sector + 255) / 256,
            (sector - start_sector) % 256 == 0 || sector == end_sector,
            forall|k: int|
                0 <= k < batches@.len() ==> {
                    let n = batch_sectors(t, k);
                    &&& (#[trigger] batches@[k]).sectors == n
                    &&& batches@[k].commands@ == read_command(
                        drive,
                        (start_sector + 256 * k) as u32,
                        (n % 256) as u8,
                    )
                },
        decreases end_sector - sector,
    {
        let left = end_sector - sector;
        let n: u32 = if left >= 256 {
            256
        } else {
            left
        };
        let ghost k = batches@.len() as int;
        assert(sector == start_sector + 256 * k);
        let commands = read_command_writes(drive, sector, (n % 256) as u8);
        batches.push(ReadBatch { commands, sectors: n });
        sector = sector + n;
        assert(batches@[k].sectors == batch_sectors(t, k));
    }
    batches
}

/// The size in double words of the buffer that holds a whole drive of `count` sectors.
pub fn drive_buffer_len(count: u32) -> (r: usize)
    requires
        count * 512 <= usize::MAX,
    ensures
        r == count * 128,
{
    let bytes = (count as usize) * SECTOR_BYTES;
    proof {
        assert(bytes >> 2usize == bytes / 4) by (bit_vector);
    }
    bytes >> 2
}

} // verus!
