//! Page geometry and hardware-format page-table structures.

use vstd::prelude::*;

verus! {


/// Size in bytes of a base-granularity page.
pub const PAGE_SIZE: usize = 4096;

/// Offset mask within a 4K page.
pub const PAGE_OFFSET_4K: u64 = 0xfff;

/// Offset mask within a 2M page.
pub const PAGE_OFFSET_2M: u64 = 0x1f_ffff;

/// Offset mask within a 1G page.
pub const PAGE_OFFSET_1G: u64 = 0x3fff_ffff;

/// Number of entries in one translation table.
pub const PAGE_TABLE_NUMBER_ENTRIES: u64 = 512;

/// Bits of an entry word that hold the packed physical address.
pub const PAGE_TABLE_ENTRY_PHYSADDR_MASK: u64 = 0x3f_ffff_ffff_fc00;

/// The three translation granularities the hardware supports.
#[derive(Debug, Clone, Copy, PartialEq, Eq, Structural)]
pub enum PageType {
    Page,
    MegaPage,
    GigaPage,
}

impl PageType {
    /// Number of 4K pages one unit of this granularity occupies.
    pub open spec fn nb_pages_spec(self) -> nat {
        match self {
            PageType::Page => 1,
            PageType::MegaPage => 512,
            PageType::GigaPage => 512 * 512,
        }
    }

    /// Return the number of 4K pages in the page type.
    pub fn get_nb_pages(&self) -> (r: usize)
        ensures
            r == self.nb_pages_spec(),
            1 <= r <= 512 * 512,
    {
        match self {
            PageType::Page => 1,
            PageType::MegaPage => 512,
            PageType::GigaPage => 512 * 512,
        }
    }
}

impl PageType {
    /// Human-readable form for boot-time tracing.
    pub fn render(&self) -> (r: String)
        ensures
            *self == PageType::Page ==> r@ == "Page (4K)"@,
            *self == PageType::MegaPage ==> r@ == "MegaPage (2M)"@,
            *self == PageType::GigaPage ==> r@ == "GigaPage (1G)"@,
    {
        match self {
            PageType::Page => "Page (4K)".to_owned(),
            PageType::MegaPage => "MegaPage (2M)".to_owned(),
            PageType::GigaPage => "GigaPage (1G)".to_owned(),
        }
    }
}

/// The eight 1-bit flags of a translation entry, in the hardware's order:
/// `Valid` is bit 0, `Dirty` bit 7.
#[derive(Debug, Clone, Copy, PartialEq, Eq, Structural)]
pub enum PageTableEntryFlags {
    Valid,
    Readable,
    Writable,
    Executable,
    User,
    Global,
    Accessed,
    Dirty,
}

impl PageTableEntryFlags {
    /// The single-bit mask of this flag inside an entry word.
    pub open spec fn mask_spec(self) -> u64 {
        match self {
            PageTableEntryFlags::Valid => 0x1,
            PageTableEntryFlags::Readable => 0x2,
            PageTableEntryFlags::Writable => 0x4,
            PageTableEntryFlags::Executable => 0x8,
            PageTableEntryFlags::User => 0x10,
            PageTableEntryFlags::Global => 0x20,
            PageTableEntryFlags::Accessed => 0x40,
            PageTableEntryFlags::Dirty => 0x80,
        }
    }

    /// The flag's bit mask, as the hardware lays it out.
    pub fn mask(&self) -> (r: u64)
        ensures
            r == self.mask_spec(),
    {
        match self {
            PageTableEntryFlags::Valid => 0x1,
            PageTableEntryFlags::Readable => 0x2,
            PageTableEntryFlags::Writable => 0x4,
            PageTableEntryFlags::Executable => 0x8,
            PageTableEntryFlags::User => 0x10,
            PageTableEntryFlags::Global => 0x20,
            PageTableEntryFlags::Accessed => 0x40,
            PageTableEntryFlags::Dirty => 0x80,
        }
    }
}

proof fn lemma_flag_update(e: u64, m: u64, m2: u64)
    by (bit_vector)
    requires
        m == 1 || m == 2 || m == 4 || m == 8 || m == 0x10 || m == 0x20 || m == 0x40 || m == 0x80,
        m2 == 1 || m2 == 2 || m2 == 4 || m2 == 8 || m2 == 0x10 || m2 == 0x20 || m2 == 0x40
            || m2 == 0x80,
    ensures
        (e | m) & m != 0,
        (e & !m) & m == 0,
        m2 != m ==> ((e | m) & m2 != 0) == (e & m2 != 0),
        m2 != m ==> ((e & !m) & m2 != 0) == (e & m2 != 0),
{
}

proof fn lemma_addr_write_keeps_flag(e: u64, p: u64, m: u64)
    by (bit_vector)
    requires
        p & 0xfff == 0,
        m == 1 || m == 2 || m == 4 || m == 8 || m == 0x10 || m == 0x20 || m == 0x40 || m == 0x80,
    ensures
        (((e & !0x3f_ffff_ffff_fc00u64) | (p >> 2)) & m != 0) == (e & m != 0),
{
}

/// One 64-bit translation-table slot: permission/status flags in the low 8
/// bits and a packed physical frame pointer in bits 10..54 (the 4K-aligned
/// address divided by 4).
#[derive(Debug, Clone, Copy, PartialEq, Eq, Structural)]
pub struct PageTableEntry(u64);

impl PageTableEntry {
    /// The raw 64-bit entry word.
    pub closed spec fn view(self) -> u64 {
        self.0
    }

    /// The physical address packed into entry word `e`: shift the address
    /// field back into place, mask to the implemented width, and clear the
    /// flag residue out of the low 12 bits.
    pub open spec fn physaddr_spec(e: u64) -> u64 {
        ((((e << 2) & 0xff_ffff_ffff_ffffu64) >> 12) << 12)
    }

    /// An entry with exactly the given raw word.
    pub fn new(entry: u64) -> (r: Self)
        ensures
            r@ == entry,
    {
        Self(entry)
    }

    /// Status of a Flag.
    pub fn is_set(&self, bit: PageTableEntryFlags) -> (r: bool)
        ensures
            r == (self@ & bit.mask_spec() != 0),
    {
        self.0 & bit.mask() != 0
    }

    /// Set a Flag; every other bit of the entry, that flag's bit included
    /// in the others' reading, is untouched.
    pub fn set(&mut self, bit: PageTableEntryFlags)
        ensures
            final(self)@ == old(self)@ | bit.mask_spec(),
            final(self)@ & bit.mask_spec() != 0,
            forall|f2: PageTableEntryFlags|
                f2 != bit ==> ((final(self)@ & #[trigger] f2.mask_spec() != 0) == (old(self)@
                    & f2.mask_spec() != 0)),
    {
        proof {
            let e = self.0;
            assert forall|f2: PageTableEntryFlags| f2 != bit implies (((e | bit.mask_spec())
                & #[trigger] f2.mask_spec() != 0) == (e & f2.mask_spec() != 0)) by {
                lemma_flag_update(e, bit.mask_spec(), f2.mask_spec());
            }
            lemma_flag_update(e, bit.mask_spec(), bit.mask_spec());
        }
        self.0 = self.0 | bit.mask();
    }

    /// Unset a Flag; every other bit of the entry is untouched.
    pub fn unset(&mut self, bit: PageTableEntryFlags)
        ensures
            final(self)@ == old(self)@ & !bit.mask_spec(),
            final(self)@ & bit.mask_spec() == 0,
            forall|f2: PageTableEntryFlags|
                f2 != bit ==> ((final(self)@ & #[trigger] f2.mask_spec() != 0) == (old(self)@
                    & f2.mask_spec() != 0)),
    {
        proof {
            let e = self.0;
            assert forall|f2: PageTableEntryFlags| f2 != bit implies (((e & !bit.mask_spec())
                & #[trigger] f2.mask_spec() != 0) == (e & f2.mask_spec() != 0)) by {
                lemma_flag_update(e, bit.mask_spec(), f2.mask_spec());
            }
            lemma_flag_update(e, bit.mask_spec(), bit.mask_spec());
        }
        self.0 = self.0 & !bit.mask();
    }

    /// The Valid flag is set.
    pub open spec fn is_valid_spec(self) -> bool {
        self@ & 0x1 != 0
    }

    /// Return true if the Valid flag is set.
    pub fn is_valid(&self) -> (r: bool)
        ensures
            r == self.is_valid_spec(),
    {
        self.is_set(PageTableEntryFlags::Valid)
    }

    /// One of Readable, Writable or Executable is set: the entry terminates
    /// the translation instead of pointing at the next table level.
    pub open spec fn is_leaf_spec(self) -> bool {
        self@ & 0x2 != 0 || self@ & 0x4 != 0 || self@ & 0x8 != 0
    }

    /// Return true if one of Readable, Writable or Executable flag are set.
    pub fn is_leaf(&self) -> (r: bool)
        ensures
            r == self.is_leaf_spec(),
    {
        self.is_set(PageTableEntryFlags::Readable) || self.is_set(PageTableEntryFlags::Writable)
            || self.is_set(PageTableEntryFlags::Executable)
    }

    /// Return the Physical Address stored in the entry.
    pub fn get_physaddr(&self) -> (r: crate::physical::PhysAddr)
        ensures
            r@ == Self::physaddr_spec(self@),
    {
        crate::physical::PhysAddr::new(self.0 << 2u64).clear_nth_last_bit(12)
    }

    /// Pack a 4K-aligned physical address into the entry. The flag bits and
    /// the other low software bits are untouched; the old address field is
    /// replaced whole.
    pub fn set_physaddr(&mut self, phys: crate::physical::PhysAddr)
        requires
            phys@ & 0xfff == 0,
        ensures
            final(self)@ == (old(self)@ & !0x3f_ffff_ffff_fc00u64) | (phys@ >> 2),
            Self::physaddr_spec(final(self)@) == phys@,
            final(self)@ & 0x3ff == old(self)@ & 0x3ff,
            forall|f: PageTableEntryFlags|
                (final(self)@ & #[trigger] f.mask_spec() != 0) == (old(self)@ & f.mask_spec()
                    != 0),
    {
        let p = phys.get_u64();
        proof {
            assert forall|f: PageTableEntryFlags| ((((self.0 & !0x3f_ffff_ffff_fc00u64) | (p
                >> 2)) & #[trigger] f.mask_spec() != 0) == (self.0 & f.mask_spec() != 0)) by {
                lemma_addr_write_keeps_flag(self.0, p, f.mask_spec());
            }
        }
        let e = self.0;
        proof {
            assert((p >> 2) & 0x3f_ffff_ffff_fc00u64 == p >> 2) by (bit_vector)
                requires p < 0x100_0000_0000_0000u64, p & 0xfff == 0;
            let w = (e & !0x3f_ffff_ffff_fc00u64) | (p >> 2);
            assert(((((w << 2) & 0xff_ffff_ffff_ffffu64) >> 12) << 12) == p) by (bit_vector)
                requires
                    w == (e & !0x3f_ffff_ffff_fc00u64) | (p >> 2),
                    p < 0x100_0000_0000_0000u64,
                    p & 0xfff == 0,
            ;
            assert(w & 0x3ff == e & 0x3ff) by (bit_vector)
                requires w == (e & !0x3f_ffff_ffff_fc00u64) | (p >> 2), p & 0xfff == 0;
        }
        self.0 = (e & !PAGE_TABLE_ENTRY_PHYSADDR_MASK) | ((p >> 2u64) & PAGE_TABLE_ENTRY_PHYSADDR_MASK);
    }

    /// Where translation continues: the packed physical address of the next
    /// table level, present exactly when the entry is valid and not a leaf.
    /// Turning that address into an actual table is the caller's business —
    /// only the caller can know the pointed-at memory really holds one.
    pub fn get_next_level_table(&self) -> (r: Option<crate::physical::PhysAddr>)
        ensures
            r is Some <==> (self.is_valid_spec() && !self.is_leaf_spec()),
            r is Some ==> r.unwrap()@ == Self::physaddr_spec(self@),
    {
        if self.is_valid() && !self.is_leaf() {
            Some(self.get_physaddr())
        } else {
            None
        }
    }
}

/// One translation table: exactly 512 entries, indexed by the per-level
/// slice of a virtual address. An out-of-range index is a caller bug and is
/// rejected by precondition instead of being wrapped around silently.
#[derive(Debug, PartialEq, Eq)]
pub struct PageTable {
    entries: Vec<PageTableEntry>,
}

impl PageTable {
    /// The table's 512 entries in slot order.
    pub closed spec fn view(self) -> Seq<PageTableEntry> {
        self.entries@
    }

    /// A table always holds exactly 512 slots.
    pub open spec fn wf(self) -> bool {
        self@.len() == 512
    }

    /// A fresh table with every entry zeroed: nothing valid, nothing mapped.
    pub fn new() -> (r: Self)
        ensures
            r.wf(),
            forall|i: int| 0 <= i < 512 ==> r@[i]@ == 0,
    {
        let mut entries: Vec<PageTableEntry> = Vec::new();
        while entries.len() < 512
            invariant
                entries@.len() <= 512,
                forall|i: int| 0 <= i < entries@.len() ==> entries@[i]@ == 0,
            decreases 512 - entries@.len(),
        {
            entries.push(PageTableEntry::new(0));
        }
        PageTable { entries }
    }

    /// Read the entry in slot `index`.
    pub fn get(&self, index: usize) -> (r: PageTableEntry)
        requires
            self.wf(),
            index < 512,
        ensures
            r == self@[index as int],
    {
        self.entries[index]
    }

    /// Replace the entry in slot `index`.
    pub fn set_entry(&mut self, index: usize, entry: PageTableEntry)
        requires
            old(self).wf(),
            index < 512,
        ensures
            final(self).wf(),
            final(self)@ == old(self)@.update(index as int, entry),
    {
        self.entries.set(index, entry);
    }
}

/// Law: packing and unpacking are exact inverses. For every 4K-aligned
/// address in the implemented physical range, decoding an entry that was
/// encoded from it gives the address back, whatever the entry held before;
/// and the flag bits are independent of the address field: an address write
/// leaves every flag alone, and flag writes leave the packed address alone.
pub proof fn lemma_entry_encode_decode(e: u64, p: u64, f: PageTableEntryFlags)
    requires
        p < 0x100_0000_0000_0000,
        p & 0xfff == 0,
    ensures
        PageTableEntry::physaddr_spec((e & !0x3f_ffff_ffff_fc00u64) | (p >> 2)) == p,
        ({
            let w = (e & !0x3f_ffff_ffff_fc00u64) | (p >> 2);
            (w & f.mask_spec() != 0) == (e & f.mask_spec() != 0)
        }),
        ({
            let m = f.mask_spec();
            PageTableEntry::physaddr_spec(e | m) == PageTableEntry::physaddr_spec(e)
                && PageTableEntry::physaddr_spec(e & !m) == PageTableEntry::physaddr_spec(e)
        }),
{
    let w = (e & !0x3f_ffff_ffff_fc00u64) | (p >> 2);
    assert(((((w << 2) & 0xff_ffff_ffff_ffffu64) >> 12) << 12) == p) by (bit_vector)
        requires
            w == (e & !0x3f_ffff_ffff_fc00u64) | (p >> 2),
            p < 0x100_0000_0000_0000u64,
            p & 0xfff == 0,
    ;
    let m = f.mask_spec();
    assert((w & m != 0) == (e & m != 0)) by (bit_vector)
        requires
            w == (e & !0x3f_ffff_ffff_fc00u64) | (p >> 2),
            p & 0xfff == 0,
            m == 1 || m == 2 || m == 4 || m == 8 || m == 0x10 || m == 0x20 || m == 0x40
                || m == 0x80,
    ;
    assert(((((((e | m) << 2) & 0xff_ffff_ffff_ffffu64) >> 12) << 12) == ((((e << 2)
        & 0xff_ffff_ffff_ffffu64) >> 12) << 12)) && ((((((e & !m) << 2)
        & 0xff_ffff_ffff_ffffu64) >> 12) << 12) == ((((e << 2) & 0xff_ffff_ffff_ffffu64) >> 12)
        << 12))) by (bit_vector)
        requires
            m == 1 || m == 2 || m == 4 || m == 8 || m == 0x10 || m == 0x20 || m == 0x40
                || m == 0x80,
    ;
}

} // verus!
