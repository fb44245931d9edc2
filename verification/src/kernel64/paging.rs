use vstd::prelude::*;
use crate::bits::{lemma_u32_fields, lemma_page_entries};

verus! {

/// The number of entries of a page directory or page table.
pub const PAGE_TABLE_ENTRIES: usize = 1024;

/// The size in bytes of a page table, and of a page.
pub const PAGE_TABLE_SIZE: usize = 4096;

/// An entry's present and writable bits.
pub const PRESENT_RW: u32 = 0b11;

/// The first frame handed out for page tables and pages after start-up: the frames below it
/// hold the identity-mapped first megabyte.
pub const FIRST_FREE_FRAME: u32 = 0x100;

/// The start of the top 4 MiB of the address space, through which the page directory's last
/// entry (pointing at the directory itself) shows every page table.
pub const RECURSIVE_WINDOW: u32 = 0xFFC0_0000;

/// The kernel's two-level address space: the page directory, the page table that each
/// directory entry points to, and the next free physical frame.
pub struct AddressSpace {
    pub pd: Vec<u32>,
    pub tables: Vec<Vec<u32>>,
    pub next_frame: u32,
}

/// The page directory index of `vaddr`.
pub open spec fn pd_index(vaddr: u32) -> int {
    (vaddr / 0x40_0000) as int
}

/// The page table index of `vaddr`.
pub open spec fn pt_index(vaddr: u32) -> int {
    ((vaddr / 4096) % 1024) as int
}

/// `new` is `old` with entry `j` of page table `i` set to `v`.
pub open spec fn table_entry_set(old: Seq<Vec<u32>>, new: Seq<Vec<u32>>, i: int, j: int, v: u32) -> bool {
    &&& new.len() == old.len()
    &&& forall|k: int| 0 <= k < old.len() && k != i ==> #[trigger] new[k] == old[k]
    &&& new[i]@ == old[i]@.update(j, v)
}

/// The page directory's own page, which its last entry shows at the top of the address space.
/// Its entry is that last entry, through which the code reaches the directory: setting it
/// writes the directory's last entry, after which that entry no longer leads to the directory,
/// so nothing more is said of the address space than the write.
pub const DIRECTORY_PAGE: u32 = 0xFFFF_F000;

impl AddressSpace {
    /// The directory `new_pd` and tables `new_tables` are this address space's after the entry
    /// for `vaddr` was set to `v` in the page table `page_table_for(vaddr)` gives: through the
    /// last directory entry, a page in the top 4 MiB has the directory itself as its table, so
    /// its entry is a directory entry.
    pub open spec fn entry_written(
        &self,
        new_pd: Seq<u32>,
        new_tables: Seq<Vec<u32>>,
        vaddr: u32,
        v: u32,
    ) -> bool {
        if pd_index(vaddr) == 1023 {
            new_pd == self.pd@.update(pt_index(vaddr), v) && new_tables == self.tables@
        } else {
            new_pd == self.with_table_for(vaddr).0 && table_entry_set(
                self.tables@,
                new_tables,
                pd_index(vaddr),
                pt_index(vaddr),
                v,
            )
        }
    }

    /// The shape of the address space, and the directory's last entry present: it points at
    /// the directory itself, so the page table of the top 4 MiB is the directory.
    pub open spec fn wf(&self) -> bool {
        &&& self.shaped()
        &&& self.pd@[1023] & 1 == 1
    }

    /// A directory and 1024 page tables of 1024 entries each.
    pub open spec fn shaped(&self) -> bool {
        &&& self.pd@.len() == 1024
        &&& self.tables@.len() == 1024
        &&& forall|i: int| 0 <= i < 1024 ==> (#[trigger] self.tables@[i])@.len() == 1024
    }

    /// Whether the address space is consistent: shaped, with the directory's last entry present.
    pub fn is_wf(&self) -> (r: bool)
        ensures
            r == self.wf(),
    {
        if self.pd.len() != 1024 || self.tables.len() != 1024 {
            return false;
        }
        let mut i: usize = 0;
        while i < 1024
            invariant
                i <= 1024,
                self.tables@.len() == 1024,
                forall|k: int| 0 <= k < i ==> (#[trigger] self.tables@[k])@.len() == 1024,
            decreases 1024 - i,
        {
            if self.tables[i].len() != 1024 {
                return false;
            }
            i = i + 1;
        }
        self.pd[1023] & 1 == 1
    }

    /// The page table that directory entry `i` points to: the directory itself for the last
    /// entry, else the table kept for that entry.
    pub open spec fn table(&self, i: int) -> Seq<u32> {
        if i == 1023 {
            self.pd@
        } else {
            self.tables@[i]@
        }
    }

    /// The directory entry for `vaddr`.
    pub open spec fn pde(&self, vaddr: u32) -> u32 {
        self.pd@[pd_index(vaddr)]
    }

    /// The page table entry for `vaddr`.
    pub open spec fn pte(&self, vaddr: u32) -> u32 {
        self.table(pd_index(vaddr))[pt_index(vaddr)]
    }

    /// The physical address `vaddr` maps to, if its directory and table entries are present.
    pub open spec fn translate(&self, vaddr: u32) -> Option<int> {
        if self.pde(vaddr) & 1 == 1 && self.pte(vaddr) & 1 == 1 {
            Some((self.pte(vaddr) / 4096) * 4096 + vaddr % 4096)
        } else {
            None
        }
    }

    /// The directory after `page_table_for(vaddr)`: a missing page table for `vaddr` gets the
    /// next free frame.
    pub open spec fn with_table_for(&self, vaddr: u32) -> (Seq<u32>, u32) {
        if self.pde(vaddr) & 1 == 0 {
            (self.pd@.update(pd_index(vaddr), (self.next_frame << 12u32) | 3u32), (self.next_frame
                + 1) as u32)
        } else {
            (self.pd@, self.next_frame)
        }
    }

    /// Sets up paging: a page directory at `pd_addr` (page aligned) whose first entry points to
    /// the page table in the next page, which identity-maps the first megabyte, and whose last
    /// entry points to the directory itself.
    pub fn init(pd_addr: u32) -> (space: Self)
        requires
            pd_addr % 4096 == 0,
            pd_addr + 4096 <= u32::MAX,
        ensures
            space.wf(),
            space.next_frame == FIRST_FREE_FRAME,
            space.pd@[0] == ((pd_addr + 4096) as u32) | 3,
            space.pd@[1023] == pd_addr | 3,
            forall|i: int| 1 <= i < 1023 ==> space.pd@[i] == 0,
            forall|f: int| 0 <= f < 0x100 ==> space.tables@[0]@[f] == ((f as u32) << 12u32) | 3u32,
            forall|f: int| 0x100 <= f < 1024 ==> space.tables@[0]@[f] == 0,
    {
        let mut pd: Vec<u32> = Vec::new();
        let mut tables: Vec<Vec<u32>> = Vec::new();
        let mut i: usize = 0;
        while i < PAGE_TABLE_ENTRIES
            invariant
                i <= 1024,
                pd@.len() == i,
                tables@.len() == i,
                forall|k: int| 0 <= k < i ==> pd@[k] == 0,
                forall|k: int| 0 <= k < i ==> (#[trigger] tables@[k])@.len() == 1024,
                forall|k: int, f: int| 0 <= k < i && 0 <= f < 1024 ==> tables@[k]@[f] == 0,
            decreases 1024 - i,
        {
            pd.push(0);
            let mut table: Vec<u32> = Vec::new();
            let mut f: usize = 0;
            while f < PAGE_TABLE_ENTRIES
                invariant
                    f <= 1024,
                    table@.len() == f,
                    forall|k: int| 0 <= k < f ==> table@[k] == 0,
                decreases 1024 - f,
            {
                table.push(0);
                f = f + 1;
            }
            tables.push(table);
            i = i + 1;
        }
        let first_pt = pd_addr + PAGE_TABLE_SIZE as u32;
        pd.set(0, first_pt | PRESENT_RW);
        let mut first: Vec<u32> = tables.remove(0);
        let mut frame_num: u32 = 0;
        while frame_num < 0x100
            invariant
                frame_num <= 0x100,
                first@.len() == 1024,
                forall|f: int| 0 <= f < frame_num ==> first@[f] == ((f as u32) << 12u32) | 3u32,
                forall|f: int| frame_num <= f < 1024 ==> first@[f] == 0,
            decreases 0x100 - frame_num,
        {
            first.set(frame_num as usize, (frame_num << 12) | PRESENT_RW);
            frame_num = frame_num + 1;
        }
        tables.insert(0, first);
        pd.set(1023, pd_addr | PRESENT_RW);
        assert((pd_addr | 3u32) & 1u32 == 1u32) by (bit_vector);
        AddressSpace { pd, tables, next_frame: FIRST_FREE_FRAME }
    }

    /// The index of the page table that maps `vaddr`, giving it the next free frame when the
    /// directory has none for it.
    fn page_table_for(&mut self, vaddr: u32) -> (index: usize)
        requires
            old(self).wf(),
            old(self).next_frame < u32::MAX,
        ensures
            final(self).wf(),
            index == pd_index(vaddr),
            (final(self).pd@, final(self).next_frame) == old(self).with_table_for(vaddr),
            final(self).tables == old(self).tables,
            final(self).pde(vaddr) & 1 == 1,
    {
        proof {
            lemma_u32_fields();
            lemma_page_entries();
        }
        let pd_index = (vaddr >> 22) as usize;
        if self.pd[pd_index] & 1 == 0 {
            self.pd.set(pd_index, (self.next_frame << 12) | PRESENT_RW);
            self.next_frame = self.next_frame + 1;
        }
        pd_index
    }

    /// Sets entry `page_index` of page table `pt` (the directory itself for the last one) to
    /// `v`.
    fn set_entry(&mut self, pt: usize, page_index: usize, v: u32)
        requires
            old(self).wf(),
            pt < 1024,
            page_index < 1024,
        ensures
            final(self).shaped(),
            pt != 1023 || page_index != 1023 || v & 1 == 1 ==> final(self).wf(),
            final(self).next_frame == old(self).next_frame,
            pt == 1023 ==> final(self).pd@ == old(self).pd@.update(page_index as int, v)
                && final(self).tables@ == old(self).tables@,
            pt != 1023 ==> final(self).pd@ == old(self).pd@ && table_entry_set(
                old(self).tables@,
                final(self).tables@,
                pt as int,
                page_index as int,
                v,
            ),
    {
        if pt == 1023 {
            self.pd.set(page_index, v);
        } else {
            let ghost before = self.tables@;
            let mut table = self.tables.remove(pt);
            table.set(page_index, v);
            self.tables.insert(pt, table);
            proof {
                assert(self.tables@ =~= before.update(pt as int, table));
            }
        }
    }

    /// Maps the page of `addr` to the frame of the same address.
    pub fn identity_map(&mut self, addr: usize)
        requires
            old(self).wf(),
            addr < 0x1_0000_0000,
            old(self).next_frame < u32::MAX,
        ensures
            final(self).shaped(),
            final(self).next_frame == old(self).with_table_for(addr as u32).1,
            old(self).entry_written(
                final(self).pd@,
                final(self).tables@,
                addr as u32,
                (((addr / 4096) as u32) << 12u32) | 3u32,
            ),
            addr / 4096 != DIRECTORY_PAGE / 4096 ==> final(self).wf() && final(self).translate(
                addr as u32,
            ) == Some(addr as int),
    {
        proof {
            lemma_u32_fields();
            lemma_page_entries();
            assert(addr >> 12usize == addr / 4096 && (addr >> 12usize) & 0x3ffusize == (addr / 4096)
                % 1024) by (bit_vector);
        }
        let frame_num = addr >> 12;
        let page_index = frame_num & 0x3ff;
        let pt = self.page_table_for(addr as u32);
        self.set_entry(pt, page_index, ((frame_num as u32) << 12) | PRESENT_RW);
        proof {
            let a = addr as u32;
            assert((a >> 12u32) == (addr / 4096) as u32);
        }
    }

    /// Marks the page of `addr` not present; the caller then flushes it from the TLB.
    pub fn forget(&mut self, addr: usize)
        requires
            old(self).wf(),
            addr < 0x1_0000_0000,
            old(self).next_frame < u32::MAX,
        ensures
            final(self).shaped(),
            final(self).next_frame == old(self).with_table_for(addr as u32).1,
            old(self).entry_written(
                final(self).pd@,
                final(self).tables@,
                addr as u32,
                old(self).pte(addr as u32) & !1u32,
            ),
            addr / 4096 != DIRECTORY_PAGE / 4096 ==> final(self).wf() && final(self).translate(
                addr as u32,
            ) is None,
    {
        proof {
            lemma_u32_fields();
            lemma_page_entries();
            assert((addr >> 12usize) & 0x3ffusize == (addr / 4096) % 1024) by (bit_vector);
        }
        let page_index = (addr >> 12) & 0x3ff;
        let pt = self.page_table_for(addr as u32);
        let entry = if pt == 1023 {
            self.pd[page_index]
        } else {
            self.tables[pt][page_index]
        };
        self.set_entry(pt, page_index, entry & !1);
    }

    /// Maps the page of `addr` to the next free frame.
    pub fn make_present(&mut self, addr: u32)
        requires
            old(self).wf(),
            old(self).next_frame < u32::MAX - 1,
        ensures
            final(self).shaped(),
            final(self).next_frame == old(self).with_table_for(addr).1 + 1,
            old(self).entry_written(
                final(self).pd@,
                final(self).tables@,
                addr,
                (old(self).with_table_for(addr).1 << 12u32) | 3u32,
            ),
            addr / 4096 != DIRECTORY_PAGE / 4096 ==> final(self).wf() && final(self).translate(addr)
                == Some((old(self).with_table_for(addr).1 % 0x10_0000) * 4096 + addr % 4096),
    {
        proof {
            lemma_u32_fields();
            lemma_page_entries();
        }
        let page_number = (addr >> 12) & 0x3ff;
        let pt = self.page_table_for(addr);
        self.set_entry(pt, page_number as usize, (self.next_frame << 12) | PRESENT_RW);
        self.next_frame = self.next_frame + 1;
    }

    /// The physical frame (its address) that `vaddr` lies in, if it is mapped.
    pub fn frame_for(&self, vaddr: u32) -> (r: Option<u32>)
        requires
            self.wf(),
        ensures
            r matches Some(f) ==> self.translate(vaddr) == Some(f + vaddr % 4096),
            r is None ==> self.translate(vaddr) is None,
    {
        match self.translate_addr(vaddr) {
            Some(p) => Some(p - vaddr % 4096),
            None => None,
        }
    }

    /// The physical address `vaddr` maps to, if it is mapped.
    pub fn translate_addr(&self, vaddr: u32) -> (r: Option<u32>)
        requires
            self.wf(),
        ensures
            r matches Some(p) ==> self.translate(vaddr) == Some(p as int),
            r is None ==> self.translate(vaddr) is None,
    {
        proof {
            lemma_u32_fields();
        }
        let pde = self.pd[(vaddr >> 22) as usize];
        let pdi = (vaddr >> 22) as usize;
        let pti = ((vaddr >> 12) & 0x3ff) as usize;
        let pte = if pdi == 1023 {
            self.pd[pti]
        } else {
            self.tables[pdi][pti]
        };
        if pde & 1 == 1 && pte & 1 == 1 {
            Some((pte / 4096) * 4096 + vaddr % 4096)
        } else {
            None
        }
    }
}

/// Setting the entry of one page leaves the translation of every other page as it was, as
/// long as that page lies under another directory entry or its page table was already in
/// place (a page table newly put in place brings the entries its frame happens to hold), and
/// the entry set is not the directory entry of that page (an entry of the top 4 MiB is a
/// directory entry, and a new directory entry shows as an entry of the top 4 MiB).
pub proof fn lemma_other_pages_unchanged(
    before: AddressSpace,
    after: AddressSpace,
    a: u32,
    v: u32,
    b: u32,
)
    requires
        before.wf(),
        a / 4096 != DIRECTORY_PAGE / 4096,
        before.entry_written(after.pd@, after.tables@, a, v),
        b / 4096 != a / 4096,
        pd_index(b) != pd_index(a) || before.pde(a) & 1 == 1,
        pd_index(a) == 1023 ==> pd_index(b) != pt_index(a),
        pd_index(b) == 1023 ==> pt_index(b) != pd_index(a) || before.pde(a) & 1 == 1,
    ensures
        after.translate(b) == before.translate(b),
{
    assert(pd_index(a) < 1024);
    assert(pd_index(b) < 1024);
    assert(pt_index(a) < 1024);
    assert(pt_index(b) < 1024);
    assert(pd_index(a) == 1023 && pd_index(b) == 1023 ==> pt_index(b) != pt_index(a));
    assert(pd_index(a) == 1023 ==> pt_index(a) != 1023);
    if pd_index(a) != 1023 && pd_index(b) != 1023 {
        if pd_index(b) == pd_index(a) {
            assert(pt_index(b) != pt_index(a));
            assert(after.tables@[pd_index(a)]@[pt_index(b)] == before.tables@[pd_index(a)]@[pt_index(b)]);
        } else {
            assert(after.tables@[pd_index(b)] == before.tables@[pd_index(b)]);
        }
    }
}

} // verus!
