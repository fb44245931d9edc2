use vstd::prelude::*;

verus! {

/// How far `pos` is below `stop`.
pub open spec fn distance(pos: int, stop: int) -> nat {
    if pos < stop {
        (stop - pos) as nat
    } else {
        0
    }
}

/// The little-endian 32-bit value of the four bytes of `s` at `i`.
pub open spec fn le32(s: Seq<u8>, i: int) -> int {
    s[i] + 256 * s[i + 1] + 65536 * s[i + 2] + 0x100_0000 * s[i + 3]
}

/// Reads the little-endian 32-bit value at `i`.
pub fn read_u32(bytes: &[u8], i: usize) -> (r: u32)
    requires
        i + 4 <= bytes@.len(),
    ensures
        r == le32(bytes@, i as int),
{
    let b0 = bytes[i] as u32;
    let b1 = bytes[i + 1] as u32;
    let b2 = bytes[i + 2] as u32;
    let b3 = bytes[i + 3] as u32;
    proof {
        assert(b0 < 256 && b1 < 256 && b2 < 256 && b3 < 256 ==> (b0 | (b1 << 8u32) | (b2 << 16u32) | (
        b3 << 24u32)) == b0 + 256 * b1 + 65536 * b2 + 0x100_0000 * b3) by (bit_vector);
    }
    b0 | (b1 << 8) | (b2 << 16) | (b3 << 24)
}

/// The sum of the bytes of `s`.
pub open spec fn byte_sum(s: Seq<u8>) -> int
    decreases s.len(),
{
    if s.len() == 0 {
        0
    } else {
        byte_sum(s.drop_last()) + s.last()
    }
}

/// `byte_sum` is the plain sum of the bytes: a single byte sums to itself, and the sum of two
/// runs of bytes laid end to end is the sum of their sums.
pub proof fn lemma_byte_sum_adds(a: Seq<u8>, b: Seq<u8>, x: u8)
    ensures
        byte_sum(seq![x]) == x,
        byte_sum(Seq::<u8>::empty()) == 0,
        byte_sum(a + b) == byte_sum(a) + byte_sum(b),
    decreases b.len(),
{
    assert(seq![x].drop_last() =~= Seq::<u8>::empty());
    assert(byte_sum(Seq::<u8>::empty()) == 0);
    assert(byte_sum(seq![x]) == byte_sum(seq![x].drop_last()) + seq![x].last());
    if b.len() == 0 {
        assert(a + b =~= a);
    } else {
        lemma_byte_sum_adds(a, b.drop_last(), x);
        assert((a + b).drop_last() =~= a + b.drop_last());
    }
}

/// Whether the bytes of an ACPI structure sum to 0 modulo 256. The sum is kept modulo 256 as
/// it goes, which gives the low byte of the whole sum however long the structure is.
pub fn checksum(bytes: &[u8]) -> (r: bool)
    ensures
        r == (byte_sum(bytes@) % 256 == 0),
{
    let mut sum: u32 = 0;
    let mut i: usize = 0;
    while i < bytes.len()
        invariant
            i <= bytes@.len(),
            sum == byte_sum(bytes@.subrange(0, i as int)) % 256,
        decreases bytes@.len() - i,
    {
        proof {
            let prefix = bytes@.subrange(0, i as int);
            assert(bytes@.subrange(0, i + 1).drop_last() == prefix);
            vstd::arithmetic::div_mod::lemma_add_mod_noop(byte_sum(prefix), bytes@[i as int] as int, 256);
            vstd::arithmetic::div_mod::lemma_small_mod(bytes@[i as int] as nat, 256);
            vstd::arithmetic::div_mod::lemma_mod_twice(byte_sum(prefix), 256);
        }
        sum = (sum + bytes[i] as u32) % 256;
        i = i + 1;
    }
    assert(bytes@.subrange(0, i as int) == bytes@);
    sum == 0
}

/// The size of the root system description pointer.
pub const RSDP_BYTES: usize = 20;

/// The signature of the root system description pointer, "RSD PTR ".
pub open spec fn rsdp_signature() -> Seq<u8> {
    seq![0x52u8, 0x53, 0x44, 0x20, 0x50, 0x54, 0x52, 0x20]
}

/// Whether the 20 bytes `s` are a root system description pointer: the signature and a zero
/// checksum.
pub open spec fn is_rsdp(s: Seq<u8>) -> bool {
    s.subrange(0, 8) == rsdp_signature() && byte_sum(s) % 256 == 0
}

/// Whether `candidate` (20 bytes) is a root system description pointer.
pub fn validate_rsdp(candidate: &[u8]) -> (r: bool)
    requires
        candidate@.len() == RSDP_BYTES,
    ensures
        r == is_rsdp(candidate@),
{
    let signature: [u8; 8] = [0x52, 0x53, 0x44, 0x20, 0x50, 0x54, 0x52, 0x20];
    let mut i: usize = 0;
    while i < 8
        invariant
            i <= 8,
            candidate@.len() == 20,
            signature@ == rsdp_signature(),
            forall|j: int| 0 <= j < i ==> candidate@[j] == rsdp_signature()[j],
        decreases 8 - i,
    {
        if candidate[i] != signature[i] {
            assert(candidate@.subrange(0, 8)[i as int] != rsdp_signature()[i as int]);
            return false;
        }
        i = i + 1;
    }
    assert(candidate@.subrange(0, 8) =~= rsdp_signature());
    checksum(candidate)
}

/// The start of the BIOS area searched for the root system description pointer.
pub const HIGH_MEM_START: usize = 0xE_0000;

/// The end of that area.
pub const HIGH_MEM_END: usize = 0x10_0000;

/// The 20 bytes at address `addr` of the memory region `region` that starts at `base`.
pub open spec fn bytes_at(region: Seq<u8>, base: int, addr: int) -> Seq<u8> {
    region.subrange(addr - base, addr - base + 20)
}

/// The first address of the form `start + 16 * k` below `end` that holds a root system
/// description pointer in `region`, which starts at `start`.
pub open spec fn first_rsdp_in(region: Seq<u8>, start: int, end: int, from: int) -> Option<int>
    decreases distance(from, end),
{
    if from >= end {
        None
    } else if is_rsdp(bytes_at(region, start, from)) {
        Some(from)
    } else {
        first_rsdp_in(region, start, end, from + 16)
    }
}

/// The address of the root system description pointer: the first 16-byte aligned candidate
/// that validates, searching the BIOS area `high_mem` (the bytes from `HIGH_MEM_START`) and
/// then the first KiB of the extended BIOS data area `ebda` (the bytes from segment
/// `ebda_segment`, as read from the BIOS data area).
pub fn find_rsdp(high_mem: &[u8], ebda_segment: u16, ebda: &[u8]) -> (r: Option<usize>)
    requires
        high_mem@.len() == HIGH_MEM_END - HIGH_MEM_START + 4,
        ebda@.len() == 1024 + 4,
    ensures
        r == match first_rsdp_in(high_mem@, HIGH_MEM_START as int, HIGH_MEM_END as int, HIGH_MEM_START as int) {
            Some(a) => Some(a as usize),
            None => match first_rsdp_in(
                ebda@,
                ebda_segment * 16,
                ebda_segment * 16 + 1024,
                ebda_segment * 16,
            ) {
                Some(a) => Some(a as usize),
                None => None,
            },
        },
{
    let ebda_address = ebda_segment as usize * 0x10;
    match scan_for_rsdp(high_mem, HIGH_MEM_START, HIGH_MEM_END) {
        Some(addr) => Some(addr),
        None => scan_for_rsdp(ebda, ebda_address, ebda_address + 1024),
    }
}

/// The address the search finds holds a root system description pointer, lies in the range
/// searched, on a 16-byte step from its start, and no earlier step holds one.
pub proof fn lemma_first_rsdp_valid(region: Seq<u8>, start: int, end: int, from: int)
    requires
        start <= from,
        (from - start) % 16 == 0,
    ensures
        first_rsdp_in(region, start, end, from) matches Some(a) ==> {
            &&& from <= a < end
            &&& (a - start) % 16 == 0
            &&& is_rsdp(bytes_at(region, start, a))
            &&& forall|b: int|
                from <= b < a && (b - start) % 16 == 0 ==> !is_rsdp(#[trigger] bytes_at(region, start, b))
        },
    decreases distance(from, end),
{
    if from < end && !is_rsdp(bytes_at(region, start, from)) {
        lemma_first_rsdp_valid(region, start, end, from + 16);
        if let Some(a) = first_rsdp_in(region, start, end, from) {
            assert forall|b: int|
                from <= b < a && (b - start) % 16 == 0 implies !is_rsdp(#[trigger] bytes_at(region, start, b)) by {
                if b != from {
                    assert(from + 16 <= b);
                }
            }
        }
    }
}

/// The search misses nothing: when any address on a 16-byte step from `start` at or after
/// `from` and below `end` holds a root system description pointer, the search finds one.
pub proof fn lemma_first_rsdp_complete(region: Seq<u8>, start: int, end: int, from: int, a: int)
    requires
        start <= from <= a < end,
        (from - start) % 16 == 0,
        (a - start) % 16 == 0,
        is_rsdp(bytes_at(region, start, a)),
    ensures
        first_rsdp_in(region, start, end, from) is Some,
    decreases distance(from, end),
{
    if !is_rsdp(bytes_at(region, start, from)) {
        assert(from != a);
        assert(from + 16 <= a);
        lemma_first_rsdp_complete(region, start, end, from + 16, a);
    }
}

/// Scans `region`, which holds the memory from `start` to `end + 4`, every 16 bytes.
fn scan_for_rsdp(region: &[u8], start: usize, end: usize) -> (r: Option<usize>)
    requires
        start <= end,
        end <= 0x11_0000,
        region@.len() == end - start + 4,
        (end - start) % 16 == 0,
    ensures
        r == match first_rsdp_in(region@, start as int, end as int, start as int) {
            Some(a) => Some(a as usize),
            None => None,
        },
{
    let mut addr = start;
    while addr < end
        invariant
            start <= addr <= end <= 0x11_0000,
            (addr - start) % 16 == 0,
            (end - start) % 16 == 0,
            region@.len() == end - start + 4,
            first_rsdp_in(region@, start as int, end as int, start as int) == first_rsdp_in(
                region@,
                start as int,
                end as int,
                addr as int,
            ),
        decreases end - addr,
    {
        let off = addr - start;
        let candidate = &region[off..off + RSDP_BYTES];
        if validate_rsdp(candidate) {
            return Some(addr);
        }
        addr = addr + 16;
    }
    None
}

/// The size of a system description table header.
pub const HEADER_BYTES: usize = 36;

/// The header of a system description table.
#[derive(Clone, Copy, Debug)]
pub struct Header {
    pub signature: [u8; 4],
    pub length: u32,
    pub _revision: u8,
    pub _checksum: u8,
    pub _oemid: [u8; 6],
    pub _oem_table_id: [u8; 8],
    pub _oem_revision: u32,
    pub _creatorid: u32,
    pub _creator_revision: u32,
}

impl Header {
    /// The header held by the first 36 bytes of `bytes`.
    pub fn parse(bytes: &[u8]) -> (h: Header)
        requires
            bytes@.len() >= HEADER_BYTES,
        ensures
            h.signature@ == bytes@.subrange(0, 4),
            h.length == le32(bytes@, 4),
            h._revision == bytes@[8],
            h._checksum == bytes@[9],
            h._oemid@ == bytes@.subrange(10, 16),
            h._oem_table_id@ == bytes@.subrange(16, 24),
            h._oem_revision == le32(bytes@, 24),
            h._creatorid == le32(bytes@, 28),
            h._creator_revision == le32(bytes@, 32),
    {
        let h = Header {
            signature: [bytes[0], bytes[1], bytes[2], bytes[3]],
            length: read_u32(bytes, 4),
            _revision: bytes[8],
            _checksum: bytes[9],
            _oemid: [bytes[10], bytes[11], bytes[12], bytes[13], bytes[14], bytes[15]],
            _oem_table_id: [
                bytes[16],
                bytes[17],
                bytes[18],
                bytes[19],
                bytes[20],
                bytes[21],
                bytes[22],
                bytes[23],
            ],
            _oem_revision: read_u32(bytes, 24),
            _creatorid: read_u32(bytes, 28),
            _creator_revision: read_u32(bytes, 32),
        };
        assert(h.signature@ =~= bytes@.subrange(0, 4));
        assert(h._oemid@ =~= bytes@.subrange(10, 16));
        assert(h._oem_table_id@ =~= bytes@.subrange(16, 24));
        h
    }
}

/// The address of the root system description table, held by a root system description
/// pointer at bytes 16..20.
pub fn rsdt_address(rsdp: &[u8]) -> (r: u32)
    requires
        rsdp@.len() == RSDP_BYTES,
    ensures
        r == le32(rsdp@, 16),
{
    read_u32(rsdp, 16)
}

/// The number of 4-byte table pointers a root table of `length` bytes is read as holding: one
/// for each 4-byte step from the end of its header while below `length`.
pub open spec fn rsdt_entry_count(length: int) -> int {
    if length <= 36 {
        0
    } else {
        (length - 36 + 3) / 4
    }
}

/// A root table of `length` bytes is read as holding one pointer for each 4-byte step from the
/// end of its header that starts below `length`, and for no other.
pub proof fn lemma_rsdt_entry_count(length: int)
    ensures
        rsdt_entry_count(length) >= 0,
        forall|k: int| 0 <= k ==> (k < rsdt_entry_count(length) <==> #[trigger] (36 + 4 * k) < length),
{
}

/// The addresses of the tables the root system description table `rsdt` points to; the table's
/// length is read from its header.
pub fn rsdt_entries(rsdt: &[u8]) -> (entries: Vec<u32>)
    requires
        rsdt@.len() >= 8,
        rsdt@.len() >= le32(rsdt@, 4) + 4,
    ensures
        entries@.len() == rsdt_entry_count(le32(rsdt@, 4)),
        forall|k: int| 0 <= k < entries@.len() ==> #[trigger] entries@[k] == le32(rsdt@, 36 + 4 * k),
{
    let stop = read_u32(rsdt, 4) as usize;
    let len = rsdt.len();
    let mut addr = HEADER_BYTES;
    let mut entries: Vec<u32> = Vec::new();
    while addr < stop
        invariant
            36 <= addr,
            (addr - 36) % 4 == 0,
            stop == le32(rsdt@, 4),
            len == rsdt@.len(),
            rsdt@.len() >= stop + 4,
            addr == 36 || addr < stop + 4,
            entries@.len() == (addr - 36) / 4,
            forall|k: int| 0 <= k < entries@.len() ==> #[trigger] entries@[k] == le32(rsdt@, 36 + 4 * k),
        decreases stop + 4 - addr,
    {
        entries.push(read_u32(rsdt, addr));
        addr = addr + 4;
    }
    entries
}

/// The index of the first signature in `signatures` that is `name`.
pub open spec fn first_named(signatures: Seq<[u8; 4]>, name: [u8; 4]) -> Option<int> {
    if exists|i: int| 0 <= i < signatures.len() && signatures[i] == name {
        Some(choose|i: int| 0 <= i < signatures.len() && signatures[i] == name && forall|j: int| 0 <= j < i ==> signatures[j] != name)
    } else {
        None
    }
}

/// The index of the table named `name` among the tables whose signatures are `signatures`
/// (in the order of the root table's pointers): the first one, or none.
pub fn find_table(name: &[u8; 4], signatures: &Vec<[u8; 4]>) -> (r: Option<usize>)
    ensures
        match r {
            Some(i) => i < signatures@.len() && signatures@[i as int] == *name && forall|j: int|
                0 <= j < i ==> signatures@[j] != *name,
            None => forall|j: int| 0 <= j < signatures@.len() ==> signatures@[j] != *name,
        },
{
    let mut i: usize = 0;
    while i < signatures.len()
        invariant
            i <= signatures@.len(),
            forall|j: int| 0 <= j < i ==> signatures@[j] != *name,
        decreases signatures@.len() - i,
    {
        let s = &signatures[i];
        if s[0] == name[0] && s[1] == name[1] && s[2] == name[2] && s[3] == name[3] {
            assert(*s =~= *name) by {
                broadcast use vstd::array::axiom_array_ext_equal;
            }
            return Some(i);
        }
        assert(signatures@[i as int][0] != name[0] || signatures@[i as int][1] != name[1]
            || signatures@[i as int][2] != name[2] || signatures@[i as int][3] != name[3]);
        i = i + 1;
    }
    None
}

/// An I/O APIC: where its registers are, its id, and the range of interrupts it serves.
#[derive(Clone, Copy, Debug, PartialEq, Eq, Structural)]
pub struct IOAPIC {
    pub addr: usize,
    pub id: u8,
    pub first_interrupt: u32,
    pub last_interrupt: u32,
}

impl IOAPIC {
    /// Completes the entry once the number of its interrupt inputs is known (it is read from
    /// the I/O APIC's version register).
    pub fn set_last_interrupt(&mut self, num_interrupts: u32)
        requires
            old(self).first_interrupt + num_interrupts <= u32::MAX,
        ensures
            *final(self) == (IOAPIC {
                last_interrupt: (old(self).first_interrupt + num_interrupts) as u32,
                ..*old(self)
            }),
    {
        self.last_interrupt = self.first_interrupt + num_interrupts;
    }
}

/// The processors and I/O APICs of the machine.
pub struct SMPInfo {
    pub processors: Vec<u8>,
    pub io_apics: Vec<IOAPIC>,
}

/// The offset of the first entry of the multiple APIC description table: its header, then the
/// local APIC address and flags.
pub const MADT_ENTRIES: usize = 44;

/// Every entry from `pos` on, below `stop`, has a nonzero length, so the walk ends.
pub open spec fn madt_walk_ends(t: Seq<u8>, pos: int, stop: int) -> bool
    decreases distance(pos, stop),
{
    if pos >= stop {
        true
    } else if t[pos + 1] == 0 {
        false
    } else {
        madt_walk_ends(t, pos + t[pos + 1], stop)
    }
}

/// The offsets of the entries that a walk from `pos` reaches below `stop`, each entry's length
/// being its second byte; an entry of length 0 is the last one reached.
pub open spec fn madt_entries(t: Seq<u8>, pos: int, stop: int) -> Seq<int>
    decreases distance(pos, stop),
{
    if pos >= stop {
        seq![]
    } else if t[pos + 1] == 0 {
        seq![pos]
    } else {
        seq![pos] + madt_entries(t, pos + t[pos + 1], stop)
    }
}

/// The APIC ids of the enabled processors among the entries from `pos` on.
pub open spec fn madt_processors(t: Seq<u8>, pos: int, stop: int) -> Seq<u8>
    decreases distance(pos, stop),
{
    if pos >= stop || t[pos + 1] == 0 {
        seq![]
    } else {
        let rest = madt_processors(t, pos + t[pos + 1], stop);
        if t[pos] == 0 && le32(t, pos + 4) % 2 == 1 {
            seq![t[pos + 3]] + rest
        } else {
            rest
        }
    }
}

/// The I/O APICs among the entries from `pos` on, each with an empty range of interrupts from
/// its first one.
pub open spec fn madt_io_apics(t: Seq<u8>, pos: int, stop: int) -> Seq<IOAPIC>
    decreases distance(pos, stop),
{
    if pos >= stop || t[pos + 1] == 0 {
        seq![]
    } else {
        let rest = madt_io_apics(t, pos + t[pos + 1], stop);
        if t[pos] == 1 {
            seq![
                IOAPIC {
                    addr: le32(t, pos + 4) as usize,
                    id: t[pos + 2],
                    first_interrupt: le32(t, pos + 8) as u32,
                    last_interrupt: le32(t, pos + 8) as u32,
                },
            ] + rest
        } else {
            rest
        }
    }
}

/// Whether `smp_info` accepts `table`: its bytes cover the length its header gives, with room
/// for the last entry, and every entry it walks over has a nonzero length.
pub fn madt_walkable(table: &[u8]) -> (r: bool)
    ensures
        r == (table@.len() >= 8 && table@.len() >= le32(table@, 4) + 12 && le32(table@, 4) + 256
            <= usize::MAX && madt_walk_ends(table@, MADT_ENTRIES as int, le32(table@, 4))),
{
    let len = table.len();
    if len < 8 {
        return false;
    }
    let stop = read_u32(table, 4) as usize;
    if stop > len || len - stop < 12 || stop > usize::MAX - 256 {
        return false;
    }
    let ghost t = table@;
    let mut addr = MADT_ENTRIES;
    while addr < stop
        invariant
            stop == le32(t, 4),
            t == table@,
            t.len() >= stop + 12,
            stop + 256 <= usize::MAX,
            addr < stop + 256,
            madt_walk_ends(t, MADT_ENTRIES as int, stop as int) == madt_walk_ends(
                t,
                addr as int,
                stop as int,
            ),
        decreases stop + 256 - addr,
    {
        let length = table[addr + 1];
        if length == 0 {
            return false;
        }
        addr = addr + length as usize;
    }
    true
}

/// The processors and I/O APICs listed by the multiple APIC description table `table` (whose
/// length is read from its header): the enabled processors' APIC ids (entries of type 0 with
/// bit 0 of their flags set) and the I/O APICs (entries of type 1), in table order. Each I/O
/// APIC's range of interrupts is left empty, to be completed with `set_last_interrupt` once its
/// registers are mapped and read. An entry of length 0 would stop the walk from advancing, so
/// tables with one are not accepted.
pub fn smp_info(table: &[u8]) -> (info: SMPInfo)
    requires
        table@.len() >= 8,
        table@.len() >= le32(table@, 4) + 12,
        le32(table@, 4) + 256 <= usize::MAX,
        madt_walk_ends(table@, MADT_ENTRIES as int, le32(table@, 4)),
    ensures
        info.processors@ == madt_processors(table@, MADT_ENTRIES as int, le32(table@, 4)),
        info.io_apics@ == madt_io_apics(table@, MADT_ENTRIES as int, le32(table@, 4)),
{
    let ghost t = table@;
    let stop = read_u32(table, 4) as usize;
    let mut processors: Vec<u8> = Vec::new();
    let mut io_apics: Vec<IOAPIC> = Vec::new();
    let mut addr = MADT_ENTRIES;
    proof {
        crate::bits::lemma_u32_fields();
    }
    while addr < stop
        invariant
            stop == le32(t, 4),
            t == table@,
            t.len() >= stop + 12,
            stop + 256 <= usize::MAX,
            addr < stop + 256,
            madt_walk_ends(t, addr as int, stop as int),
            processors@ + madt_processors(t, addr as int, stop as int) == madt_processors(
                t,
                MADT_ENTRIES as int,
                stop as int,
            ),
            io_apics@ + madt_io_apics(t, addr as int, stop as int) == madt_io_apics(
                t,
                MADT_ENTRIES as int,
                stop as int,
            ),
        decreases stop + 256 - addr,
    {
        let entry = addr;
        let kind = table[entry];
        let length = table[entry + 1];
        addr = addr + length as usize;
        proof {
            crate::bits::lemma_u32_fields();
        }
        let ghost rest_p = madt_processors(t, addr as int, stop as int);
        let ghost rest_i = madt_io_apics(t, addr as int, stop as int);
        if kind == 0 {
            let flags = read_u32(table, entry + 4);
            if flags & 1 == 1 {
                processors.push(table[entry + 3]);
                assert(processors@ + rest_p =~= processors@.drop_last() + (seq![t[entry + 3]]
                    + rest_p));
            }
        } else if kind == 1 {
            let id = table[entry + 2];
            let ioapic_addr = read_u32(table, entry + 4) as usize;
            let first_interrupt = read_u32(table, entry + 8);
            io_apics.push(
                IOAPIC {
                    id,
                    addr: ioapic_addr,
                    first_interrupt,
                    last_interrupt: first_interrupt,
                },
            );
            assert(io_apics@ + rest_i =~= io_apics@.drop_last() + (seq![io_apics@.last()]
                + rest_i));
        }
    }
    assert(madt_processors(t, addr as int, stop as int) == Seq::<u8>::empty());
    assert(madt_io_apics(t, addr as int, stop as int) == Seq::<IOAPIC>::empty());
    assert(processors@ =~= processors@ + Seq::<u8>::empty());
    assert(io_apics@ =~= io_apics@ + Seq::<IOAPIC>::empty());
    SMPInfo { processors, io_apics }
}

/// The walk over the entries starts at `pos`, steps from each entry to the next by the
/// entry's length, reaches only offsets from `pos` to below `stop`, and ends at an entry of
/// length 0 or where the next step would reach `stop`.
pub proof fn lemma_madt_entries_walk(t: Seq<u8>, pos: int, stop: int)
    ensures
        pos < stop ==> madt_entries(t, pos, stop).len() > 0 && madt_entries(t, pos, stop)[0] == pos,
        pos >= stop ==> madt_entries(t, pos, stop).len() == 0,
        forall|k: int|
            0 <= k < madt_entries(t, pos, stop).len() ==> pos <= #[trigger] madt_entries(t, pos, stop)[k] < stop,
        forall|k: int|
            0 < k < madt_entries(t, pos, stop).len() ==> #[trigger] madt_entries(t, pos, stop)[k]
                == madt_entries(t, pos, stop)[k - 1] + t[madt_entries(t, pos, stop)[k - 1] + 1]
                && t[madt_entries(t, pos, stop)[k - 1] + 1] != 0,
        madt_entries(t, pos, stop).len() > 0 ==> {
            let last = madt_entries(t, pos, stop).last();
            t[last + 1] == 0 || last + t[last + 1] >= stop
        },
    decreases distance(pos, stop),
{
    if pos < stop && t[pos + 1] != 0 {
        let next = pos + t[pos + 1];
        lemma_madt_entries_walk(t, next, stop);
        let rest = madt_entries(t, next, stop);
        let es = madt_entries(t, pos, stop);
        assert(es == seq![pos] + rest);
        assert forall|k: int| 0 <= k < es.len() implies pos <= #[trigger] es[k] < stop by {
            if k > 0 {
                assert(es[k] == rest[k - 1]);
            }
        }
        assert forall|k: int| 0 < k < es.len() implies #[trigger] es[k] == es[k - 1] + t[es[k - 1] + 1]
            && t[es[k - 1] + 1] != 0 by {
            assert(es[k] == rest[k - 1]);
            if k == 1 {
                assert(rest[0] == next);
            } else {
                assert(es[k - 1] == rest[k - 2]);
                assert(rest[k - 1] == rest[k - 2] + t[rest[k - 2] + 1]);
            }
        }
        if rest.len() > 0 {
            assert(es.last() == rest.last());
        }
    }
}

/// A table is walkable exactly when no entry that the walk reaches has length 0: entries of
/// any kind and any other length are stepped over.
pub proof fn lemma_madt_walk_ends_iff(t: Seq<u8>, pos: int, stop: int)
    ensures
        madt_walk_ends(t, pos, stop) == forall|k: int|
            0 <= k < madt_entries(t, pos, stop).len() ==> t[#[trigger] madt_entries(t, pos, stop)[k] + 1] != 0,
    decreases distance(pos, stop),
{
    let es = madt_entries(t, pos, stop);
    if pos < stop {
        if t[pos + 1] == 0 {
            assert(es[0] == pos);
        } else {
            let next = pos + t[pos + 1];
            lemma_madt_walk_ends_iff(t, next, stop);
            let rest = madt_entries(t, next, stop);
            assert(es == seq![pos] + rest);
            if madt_walk_ends(t, pos, stop) {
                assert forall|k: int| 0 <= k < es.len() implies t[#[trigger] es[k] + 1] != 0 by {
                    if k > 0 {
                        assert(es[k] == rest[k - 1]);
                    }
                }
            } else {
                let j = choose|j: int| 0 <= j < rest.len() && t[#[trigger] rest[j] + 1] == 0;
                assert(es[j + 1] == rest[j]);
            }
        }
    }
}

/// Whether the entry at `e` lists an enabled processor: type 0, a nonzero length, and bit 0 of
/// its flags set.
pub open spec fn lists_enabled_processor(t: Seq<u8>, e: int) -> bool {
    t[e] == 0 && t[e + 1] != 0 && le32(t, e + 4) % 2 == 1
}

/// The processors listed are the local APIC ids (byte 3) of the enabled processor entries that
/// the walk reaches, in table order.
pub proof fn lemma_madt_processors_are_apic_ids(t: Seq<u8>, pos: int, stop: int)
    ensures
        madt_processors(t, pos, stop) == madt_entries(t, pos, stop).filter(
            |e: int| lists_enabled_processor(t, e),
        ).map_values(|e: int| t[e + 3]),
    decreases distance(pos, stop),
{
    let pred = |e: int| lists_enabled_processor(t, e);
    let f = |e: int| t[e + 3];
    let es = madt_entries(t, pos, stop);
    reveal_with_fuel(Seq::filter, 2);
    if pos >= stop {
        assert(es.filter(pred).map_values(f) =~= seq![]);
    } else if t[pos + 1] == 0 {
        assert(es.filter(pred) =~= seq![]);
        assert(es.filter(pred).map_values(f) =~= seq![]);
    } else {
        let next = pos + t[pos + 1];
        lemma_madt_processors_are_apic_ids(t, next, stop);
        let rest = madt_entries(t, next, stop);
        assert(es == seq![pos] + rest);
        Seq::filter_distributes_over_add(seq![pos], rest, pred);
        let head = seq![pos].filter(pred);
        assert(seq![pos].drop_last() =~= Seq::<int>::empty());
        assert(es.filter(pred).map_values(f) =~= head.map_values(f) + rest.filter(pred).map_values(f));
        if pred(pos) {
            assert(head =~= seq![pos]);
            assert(head.map_values(f) =~= seq![t[pos + 3]]);
        } else {
            assert(head =~= Seq::<int>::empty());
            assert(head.map_values(f) =~= Seq::<u8>::empty());
            assert(madt_processors(t, pos, stop) =~= Seq::<u8>::empty() + madt_processors(t, next, stop));
        }
    }
}

/// Whether the entry at `e` describes an I/O APIC: type 1 and a nonzero length.
pub open spec fn lists_io_apic(t: Seq<u8>, e: int) -> bool {
    t[e] == 1 && t[e + 1] != 0
}

/// The I/O APIC that the entry at `e` describes: its id is byte 2, its register address the
/// 32-bit field at byte 4 and its first global interrupt the 32-bit field at byte 8; its range
/// of interrupts is still empty.
pub open spec fn io_apic_at(t: Seq<u8>, e: int) -> IOAPIC {
    IOAPIC {
        addr: le32(t, e + 4) as usize,
        id: t[e + 2],
        first_interrupt: le32(t, e + 8) as u32,
        last_interrupt: le32(t, e + 8) as u32,
    }
}

/// The I/O APICs listed are those described by the I/O APIC entries that the walk reaches, in
/// table order.
pub proof fn lemma_madt_io_apics_are_entries(t: Seq<u8>, pos: int, stop: int)
    ensures
        madt_io_apics(t, pos, stop) == madt_entries(t, pos, stop).filter(
            |e: int| lists_io_apic(t, e),
        ).map_values(|e: int| io_apic_at(t, e)),
    decreases distance(pos, stop),
{
    let pred = |e: int| lists_io_apic(t, e);
    let f = |e: int| io_apic_at(t, e);
    let es = madt_entries(t, pos, stop);
    reveal_with_fuel(Seq::filter, 2);
    if pos >= stop {
        assert(es.filter(pred).map_values(f) =~= seq![]);
    } else if t[pos + 1] == 0 {
        assert(es.filter(pred) =~= seq![]);
        assert(es.filter(pred).map_values(f) =~= seq![]);
    } else {
        let next = pos + t[pos + 1];
        lemma_madt_io_apics_are_entries(t, next, stop);
        let rest = madt_entries(t, next, stop);
        assert(es == seq![pos] + rest);
        Seq::filter_distributes_over_add(seq![pos], rest, pred);
        let head = seq![pos].filter(pred);
        assert(seq![pos].drop_last() =~= Seq::<int>::empty());
        assert(es.filter(pred).map_values(f) =~= head.map_values(f) + rest.filter(pred).map_values(f));
        if pred(pos) {
            assert(head =~= seq![pos]);
            assert(head.map_values(f) =~= seq![io_apic_at(t, pos)]);
        } else {
            assert(head =~= Seq::<int>::empty());
            assert(head.map_values(f) =~= Seq::<IOAPIC>::empty());
            assert(madt_io_apics(t, pos, stop) =~= Seq::<IOAPIC>::empty() + madt_io_apics(t, next, stop));
        }
    }
}

} // verus!
