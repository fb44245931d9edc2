use vstd::prelude::*;

verus! {

/// The mask of the bit field `right..=left` of a 32-bit word, both bounds taken mod 32.
/// The field width is a shift count, so a field that spans all 32 bits shifts by 32, which the
/// kernel's optimized build wraps to a shift by 0: its mask is empty.
pub open spec fn field_mask(left: u32, right: u32) -> u32 {
    let l = left & 31u32;
    let r = right & 31u32;
    let n = ((l - r + 1) as u32) & 31u32;
    ((((1u32 << n) - 1u32) as u32) << r) as u32
}

/// `word` with the field `right..=left` replaced by the low bits of `value`.
pub open spec fn with_field(word: u32, value: u32, left: u32, right: u32) -> u32 {
    (word & !field_mask(left, right)) | ((value << right) & field_mask(left, right))
}

/// The field `right..=left` of `word`, shifted down to bit 0.
pub open spec fn field(word: u32, left: u32, right: u32) -> u32 {
    (word & field_mask(left, right)) >> right
}

proof fn lemma_mask_steps(l: u32, r: u32)
    ensures
        l & 31u32 <= 31,
        r & 31u32 <= 31,
        forall|n: u32| #![trigger (n & 31u32)] (n & 31u32) < 32 && (1u32 << (n & 31u32)) >= 1,
{
    assert(l & 31u32 <= 31 && r & 31u32 <= 31) by (bit_vector);
    assert(forall|n: u32| #![trigger (n & 31u32)] (n & 31u32) < 32 && (1u32 << (n & 31u32)) >= 1)
        by (bit_vector);
}

pub(crate) fn mask(left_bit: u32, right_bit: u32) -> (m: u32)
    requires
        left_bit & 31 >= right_bit & 31,
    ensures
        m == field_mask(left_bit, right_bit),
{
    proof {
        lemma_mask_steps(left_bit, right_bit);
    }
    let left_bit = left_bit & 0x1f;
    let right_bit = right_bit & 0x1f;
    let n = left_bit - right_bit + 1;
    let n = n & 0x1f;
    ((1u32 << n) - 1) << right_bit
}

/// Writes `v` into the field `right_bit..=left_bit` of `*p`.
pub(crate) fn mms(p: &mut u32, v: u32, left_bit: u32, right_bit: u32)
    requires
        right_bit <= left_bit < 32,
    ensures
        *final(p) == with_field(*old(p), v, left_bit, right_bit),
{
    proof {
        assert(left_bit & 31 == left_bit && right_bit & 31 == right_bit) by (bit_vector)
            requires
                right_bit <= left_bit < 32,
        ;
    }
    let sm = mask(left_bit, right_bit);
    *p = (*p & (!sm)) | ((v << right_bit) & sm)
}

/// Reads the field `right_bit..=left_bit` of `v`.
pub(crate) fn mme(v: u32, left_bit: u32, right_bit: u32) -> (r: u32)
    requires
        right_bit <= left_bit < 32,
    ensures
        r == field(v, left_bit, right_bit),
{
    proof {
        assert(left_bit & 31 == left_bit && right_bit & 31 == right_bit) by (bit_vector)
            requires
                right_bit <= left_bit < 32,
        ;
    }
    (v & mask(left_bit, right_bit)) >> right_bit
}

/// A segment or gate descriptor of the 32-bit GDT/IDT: two little-endian words.
#[derive(Copy, Clone, Debug, PartialEq, Eq, Structural)]
pub struct Descriptor {
    pub f0: u32,
    pub f1: u32,
}

/// The operand of `lgdt`/`lidt`.
#[derive(Copy, Clone, Debug, PartialEq, Eq, Structural)]
pub struct TableDescriptor {
    pub limit: u16,
    pub base: u32,
}

/// The first word of the interrupt gate built by `set_descriptor`.
pub open spec fn entry_word0(selector: u32, offset: u32) -> u32 {
    ((selector & 0xffff) << 16) | (offset & 0xffff)
}

/// The second word of the interrupt gate built by `set_descriptor`: bits 16..20 of the
/// offset, present, the privilege level, a system descriptor, and the entry type.
pub open spec fn entry_word1(offset: u32, dpl: u32, typ: u32) -> u32 {
    (((offset >> 16) & 0xf) << 16) | 0x8000 | ((dpl & 3) << 13) | ((typ & 0xf) << 8)
}

/// The first word of the TSS descriptor built by `set_tss_descriptor`.
pub open spec fn tss_word0(base: u32, limit: u32) -> u32 {
    ((base & 0xffff) << 16) | (limit & 0xffff)
}

/// The second word of the TSS descriptor built by `set_tss_descriptor`: base bits 16..24 and
/// 24..32, limit bits 16..20, present, the privilege level, and type 9 (available TSS).
pub open spec fn tss_word1(base: u32, limit: u32, dpl: u32) -> u32 {
    ((base >> 16) & 0xff) | (((base >> 24) & 0xff) << 24) | (((limit >> 16) & 0xf) << 16) | 0x8000
        | ((dpl & 3) << 13) | 0x900
}

impl Descriptor {
    fn clear(&mut self)
        ensures
            final(self).f0 == 0,
            final(self).f1 == 0,
    {
        self.f0 = 0;
        self.f1 = 0;
    }

    fn set_p(&mut self, v: u32)
        ensures
            final(self).f0 == old(self).f0,
            final(self).f1 == with_field(old(self).f1, v, 15, 15),
    {
        mms(&mut self.f1, v, 15, 15)
    }

    fn get_p(&self) -> (r: u32)
        ensures
            r == field(self.f1, 15, 15),
    {
        mme(self.f1, 15, 15)
    }

    fn set_dpl(&mut self, v: u32)
        ensures
            final(self).f0 == old(self).f0,
            final(self).f1 == with_field(old(self).f1, v, 14, 13),
    {
        mms(&mut self.f1, v, 14, 13)
    }

    fn set_s(&mut self, v: u32)
        ensures
            final(self).f0 == old(self).f0,
            final(self).f1 == with_field(old(self).f1, v, 12, 12),
    {
        mms(&mut self.f1, v, 12, 12)
    }

    fn set_type(&mut self, v: u32)
        ensures
            final(self).f0 == old(self).f0,
            final(self).f1 == with_field(old(self).f1, v, 11, 8),
    {
        mms(&mut self.f1, v, 11, 8)
    }

    fn set_selector(&mut self, v: u32)
        ensures
            final(self).f0 == with_field(old(self).f0, v, 31, 16),
            final(self).f1 == old(self).f1,
    {
        mms(&mut self.f0, v, 31, 16)
    }

    fn set_offset(&mut self, v: u32)
        ensures
            final(self).f0 == with_field(old(self).f0, v, 15, 0),
            final(self).f1 == with_field(old(self).f1, v >> 16, 19, 16),
    {
        mms(&mut self.f0, v, 15, 0);
        mms(&mut self.f1, v >> 16, 19, 16)
    }

    fn set_base(&mut self, v: u32)
        ensures
            final(self).f0 == with_field(old(self).f0, v, 31, 16),
            final(self).f1 == with_field(
                with_field(old(self).f1, v >> 16, 7, 0),
                v >> 24,
                31,
                24,
            ),
    {
        mms(&mut self.f0, v >> 0, 31, 16);
        mms(&mut self.f1, v >> 16, 7, 0);
        mms(&mut self.f1, v >> 24, 31, 24);
        assert(v >> 0 == v) by (bit_vector);
    }

    fn set_limit(&mut self, v: u32)
        ensures
            final(self).f0 == with_field(old(self).f0, v, 15, 0),
            final(self).f1 == with_field(old(self).f1, v >> 16, 19, 16),
    {
        mms(&mut self.f0, v, 15, 0);
        mms(&mut self.f1, v >> 16, 19, 16);
    }

    /// Makes this descriptor a present system gate: code segment `selector`, entry point
    /// `offset`, privilege level `dpl`, descriptor type `typ`.
    pub fn set_descriptor(&mut self, selector: u32, offset: u32, dpl: u32, typ: u32)
        ensures
            final(self).f0 == entry_word0(selector, offset),
            final(self).f1 == entry_word1(offset, dpl, typ),
    {
        self.clear();
        self.set_selector(selector);
        self.set_offset(offset);
        self.set_p(1);
        self.set_dpl(dpl);
        self.set_s(0);
        self.set_type(typ);
        assert(with_field(with_field(0, selector, 31, 16), offset, 15, 0) == entry_word0(
            selector,
            offset,
        )) by (bit_vector);
        assert(with_field(
            with_field(
                with_field(with_field(with_field(0, offset >> 16, 19, 16), 1, 15, 15), dpl, 14, 13),
                0,
                12,
                12,
            ),
            typ,
            11,
            8,
        ) == entry_word1(offset, dpl, typ)) by (bit_vector);
    }

    /// Makes this descriptor a present, available 32-bit TSS descriptor for the segment at
    /// `base` with limit `limit`, usable from privilege level `dpl`.
    pub fn set_tss_descriptor(&mut self, base: u32, limit: u32, dpl: u32)
        ensures
            final(self).f0 == tss_word0(base, limit),
            final(self).f1 == tss_word1(base, limit, dpl),
    {
        self.clear();
        self.set_base(base);
        self.set_limit(limit);
        self.set_p(1);
        self.set_dpl(dpl);
        self.set_s(0);
        self.set_type(0x9);
        assert(with_field(with_field(0, base, 31, 16), limit, 15, 0) == tss_word0(base, limit))
            by (bit_vector);
        assert(with_field(
            with_field(
                with_field(
                    with_field(
                        with_field(with_field(with_field(0, base >> 16, 7, 0), base >> 24, 31, 24), limit >> 16, 19, 16),
                        1,
                        15,
                        15,
                    ),
                    dpl,
                    14,
                    13,
                ),
                0,
                12,
                12,
            ),
            9,
            11,
            8,
        ) == tss_word1(base, limit, dpl)) by (bit_vector);
    }
}

/// Reading back a field gives the low bits of what was written into it, for every field
/// narrower than the whole word.
pub proof fn lemma_field_read_back(word: u32, value: u32, left: u32, right: u32)
    requires
        right <= left < 32,
        left - right < 31,
    ensures
        field(with_field(word, value, left, right), left, right) == value & ((1u32 << ((
        left - right + 1) as u32)) - 1) as u32,
{
    assert(field(with_field(word, value, left, right), left, right) == value & ((1u32 << ((left
        - right + 1) as u32)) - 1) as u32) by (bit_vector)
        requires
            right <= left < 32,
            left - right < 31,
    ;
}

/// Writing a field leaves every bit outside it unchanged.
pub proof fn lemma_field_frame(word: u32, value: u32, left: u32, right: u32)
    ensures
        with_field(word, value, left, right) & !field_mask(left, right) == word & !field_mask(
            left,
            right,
        ),
{
    assert(with_field(word, value, left, right) & !field_mask(left, right) == word & !field_mask(
        left,
        right,
    )) by (bit_vector);
}

} // verus!
