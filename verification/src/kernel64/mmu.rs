use vstd::prelude::*;
use crate::kernel::mmu::{mms, mme, with_field, field, field_mask};

verus! {

/// A 16-byte interrupt gate descriptor of the 64-bit IDT: four little-endian words.
#[derive(Copy, Clone, Debug, PartialEq, Eq, Structural)]
pub struct Descriptor {
    pub f0: u32,
    pub f1: u32,
    pub f2: u32,
    pub f3: u32,
}

/// The operand of `lidt` in long mode.
#[derive(Copy, Clone, Debug, PartialEq, Eq, Structural)]
pub struct TableDescriptor {
    pub limit: u16,
    pub base: u64,
}

/// The first word of the entry built by `set_interrupt_descriptor` and `set_descriptor`.
pub open spec fn entry64_word0(selector: u32, offset: u64) -> u32 {
    ((selector & 0xffff) << 16) | ((offset as u32) & 0xffff)
}

/// The second word of the entry built by `set_descriptor`: offset bits 16..32, present, the
/// privilege level, a system descriptor, and the entry type.
pub open spec fn entry64_word1(offset: u64, dpl: u32, typ: u32) -> u32 {
    ((((offset >> 16u64) as u32) & 0xffff) << 16) | 0x8000 | ((dpl & 3) << 13) | ((typ & 0xf) << 8)
}

proof fn lemma_full_width_field(word: u32, value: u32)
    ensures
        field_mask(31, 0) == 0,
        with_field(word, value, 31, 0) == word,
{
    assert(field_mask(31, 0) == 0 && with_field(word, value, 31, 0) == word) by (bit_vector);
}

impl Descriptor {
    /// Clears the first two words.
    pub fn clear(&mut self)
        ensures
            *final(self) == (Descriptor { f0: 0, f1: 0, ..*old(self) }),
    {
        self.f0 = 0;
        self.f1 = 0;
    }

    /// Sets the present bit (bit 15 of the second word) to the low bit of `v`.
    pub fn set_p(&mut self, v: u32)
        ensures
            *final(self) == (Descriptor { f1: with_field(old(self).f1, v, 15, 15), ..*old(self) }),
    {
        mms(&mut self.f1, v, 15, 15)
    }

    /// The present bit.
    pub fn get_p(&self) -> (r: u32)
        ensures
            r == field(self.f1, 15, 15),
    {
        mme(self.f1, 15, 15)
    }

    /// Sets the privilege level (bits 13..15 of the second word).
    pub fn set_dpl(&mut self, v: u32)
        ensures
            *final(self) == (Descriptor { f1: with_field(old(self).f1, v, 14, 13), ..*old(self) }),
    {
        mms(&mut self.f1, v, 14, 13)
    }

    /// Sets the system bit (bit 12 of the second word).
    pub fn set_s(&mut self, v: u32)
        ensures
            *final(self) == (Descriptor { f1: with_field(old(self).f1, v, 12, 12), ..*old(self) }),
    {
        mms(&mut self.f1, v, 12, 12)
    }

    /// Sets the entry type (bits 8..12 of the second word).
    pub fn set_type(&mut self, v: u32)
        ensures
            *final(self) == (Descriptor { f1: with_field(old(self).f1, v, 11, 8), ..*old(self) }),
    {
        mms(&mut self.f1, v, 11, 8)
    }

    /// Sets the code segment selector (the high half of the first word).
    pub fn set_selector(&mut self, v: u32)
        ensures
            *final(self) == (Descriptor { f0: with_field(old(self).f0, v, 31, 16), ..*old(self) }),
    {
        mms(&mut self.f0, v, 31, 16)
    }

    /// Sets the entry point: bits 0..16 into the low half of the first word and bits 16..32
    /// into the high half of the second. The third word would take bits 32..64 as a field of
    /// all 32 bits, whose mask is empty, so it is left as it was.
    pub fn set_offset(&mut self, v: u64)
        ensures
            final(self).f0 == with_field(old(self).f0, v as u32, 15, 0),
            final(self).f1 == with_field(old(self).f1, (v >> 16u64) as u32, 31, 16),
            final(self).f2 == old(self).f2,
            final(self).f3 == old(self).f3,
    {
        mms(&mut self.f0, v as u32, 15, 0);
        mms(&mut self.f1, (v >> 16) as u32, 31, 16);
        proof {
            lemma_full_width_field(self.f2, (v >> 32u64) as u32);
        }
        mms(&mut self.f2, (v >> 32) as u32, 31, 0);
    }

    /// Makes this descriptor a present ring-`dpl` interrupt gate (type 0xE) into code segment
    /// `selector` at `offset`.
    pub fn set_interrupt_descriptor(&mut self, selector: u32, offset: u64, dpl: u32)
        ensures
            final(self).f0 == entry64_word0(selector, offset),
            final(self).f1 == entry64_word1(offset, dpl, 0xE),
            final(self).f2 == old(self).f2,
            final(self).f3 == old(self).f3,
    {
        self.set_descriptor(selector, offset, dpl, 0xE);
    }

    /// Makes this descriptor a present ring-`dpl` gate of type `typ` into code segment
    /// `selector` at `offset`: the steps of `set_interrupt_descriptor` with the type given.
    pub fn set_descriptor(&mut self, selector: u32, offset: u64, dpl: u32, typ: u32)
        ensures
            final(self).f0 == entry64_word0(selector, offset),
            final(self).f1 == entry64_word1(offset, dpl, typ),
            final(self).f2 == old(self).f2,
            final(self).f3 == old(self).f3,
    {
        self.clear();
        self.set_selector(selector);
        self.set_offset(offset);
        self.set_p(1);
        self.set_dpl(dpl);
        self.set_s(0);
        self.set_type(typ);
        let lo = offset as u32;
        let hi = (offset >> 16) as u32;
        assert(with_field(with_field(0, selector, 31, 16), lo, 15, 0) == ((selector & 0xffff) << 16)
            | (lo & 0xffff)) by (bit_vector);
        assert(with_field(
            with_field(
                with_field(with_field(with_field(0, hi, 31, 16), 1, 15, 15), dpl, 14, 13),
                0,
                12,
                12,
            ),
            typ,
            11,
            8,
        ) == ((hi & 0xffff) << 16) | 0x8000 | ((dpl & 3) << 13) | ((typ & 0xf) << 8)) by (bit_vector);
    }
}

/// Reading back the present bit gives the low bit of what was written.
pub proof fn lemma_present_read_back(d: Descriptor, v: u32)
    ensures
        field(with_field(d.f1, v, 15, 15), 15, 15) == v & 1,
{
    crate::kernel::mmu::lemma_field_read_back(d.f1, v, 15, 15);
    assert((1u32 << 1u32) - 1 == 1) by (bit_vector);
}

} // verus!
