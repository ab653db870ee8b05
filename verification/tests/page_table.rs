use kmem::page::{PageTable, PageTableEntry, PageTableEntryFlags, PageType};
use kmem::physical::PhysAddr;

#[test]
fn page_type_frame_counts() {
    assert_eq!(PageType::Page.get_nb_pages(), 1);
    assert_eq!(PageType::MegaPage.get_nb_pages(), 512);
    assert_eq!(PageType::GigaPage.get_nb_pages(), 512 * 512);
}

#[test]
fn page_type_render() {
    assert_eq!(PageType::Page.render(), "Page (4K)");
    assert_eq!(PageType::MegaPage.render(), "MegaPage (2M)");
    assert_eq!(PageType::GigaPage.render(), "GigaPage (1G)");
}

#[test]
fn flag_masks_match_hardware_layout() {
    assert_eq!(PageTableEntryFlags::Valid.mask(), 0x01);
    assert_eq!(PageTableEntryFlags::Readable.mask(), 0x02);
    assert_eq!(PageTableEntryFlags::Writable.mask(), 0x04);
    assert_eq!(PageTableEntryFlags::Executable.mask(), 0x08);
    assert_eq!(PageTableEntryFlags::User.mask(), 0x10);
    assert_eq!(PageTableEntryFlags::Global.mask(), 0x20);
    assert_eq!(PageTableEntryFlags::Accessed.mask(), 0x40);
    assert_eq!(PageTableEntryFlags::Dirty.mask(), 0x80);
}

#[test]
fn entry_flag_set_unset_is_set() {
    let mut e = PageTableEntry::new(0);
    assert!(!e.is_set(PageTableEntryFlags::Writable));
    e.set(PageTableEntryFlags::Writable);
    assert!(e.is_set(PageTableEntryFlags::Writable));
    e.set(PageTableEntryFlags::Valid);
    assert!(e.is_valid());
    assert!(e.is_leaf());
    e.unset(PageTableEntryFlags::Writable);
    assert!(!e.is_set(PageTableEntryFlags::Writable));
    assert!(e.is_valid());
    assert!(!e.is_leaf());
}

#[test]
fn entry_leaf_needs_rwx() {
    let mut e = PageTableEntry::new(0);
    e.set(PageTableEntryFlags::Valid);
    e.set(PageTableEntryFlags::Accessed);
    e.set(PageTableEntryFlags::Dirty);
    assert!(!e.is_leaf());
    e.set(PageTableEntryFlags::Executable);
    assert!(e.is_leaf());
}

#[test]
fn entry_encode_decode_roundtrip() {
    let addrs = [0x0u64, 0x1000, 0x8000_0000, 0xff_ffff_ffff_f000];
    for &a in addrs.iter() {
        let mut e = PageTableEntry::new(0);
        e.set_physaddr(PhysAddr::new(a));
        assert_eq!(e.get_physaddr().get_u64(), a);
    }
}

#[test]
fn entry_address_write_leaves_flags_alone() {
    let mut e = PageTableEntry::new(0);
    e.set(PageTableEntryFlags::Valid);
    e.set(PageTableEntryFlags::Dirty);
    e.set_physaddr(PhysAddr::new(0x8000_1000));
    assert!(e.is_set(PageTableEntryFlags::Valid));
    assert!(e.is_set(PageTableEntryFlags::Dirty));
    assert!(!e.is_set(PageTableEntryFlags::Readable));
    assert_eq!(e.get_physaddr().get_u64(), 0x8000_1000);
    // Writing a second address replaces the first whole.
    e.set_physaddr(PhysAddr::new(0x4000));
    assert_eq!(e.get_physaddr().get_u64(), 0x4000);
    assert!(e.is_set(PageTableEntryFlags::Dirty));
}

#[test]
fn entry_flag_write_leaves_address_alone() {
    let mut e = PageTableEntry::new(0);
    e.set_physaddr(PhysAddr::new(0x1234_5000));
    e.set(PageTableEntryFlags::User);
    e.set(PageTableEntryFlags::Valid);
    e.unset(PageTableEntryFlags::User);
    assert_eq!(e.get_physaddr().get_u64(), 0x1234_5000);
}

#[test]
fn next_table_none_when_invalid() {
    // Garbage in the address field must not matter.
    let mut e = PageTableEntry::new(0);
    e.set_physaddr(PhysAddr::new(0xdead_b000));
    assert!(e.get_next_level_table().is_none());
}

#[test]
fn next_table_none_for_leaf() {
    let mut e = PageTableEntry::new(0);
    e.set(PageTableEntryFlags::Valid);
    e.set(PageTableEntryFlags::Readable);
    e.set_physaddr(PhysAddr::new(0xdead_b000));
    assert!(e.get_next_level_table().is_none());
    let mut w = PageTableEntry::new(0);
    w.set(PageTableEntryFlags::Valid);
    w.set(PageTableEntryFlags::Writable);
    assert!(w.get_next_level_table().is_none());
}

#[test]
fn next_table_some_for_valid_pointer_entry() {
    let mut e = PageTableEntry::new(0);
    e.set(PageTableEntryFlags::Valid);
    e.set_physaddr(PhysAddr::new(0x8000_2000));
    let next = e.get_next_level_table().unwrap();
    assert_eq!(next.get_u64(), 0x8000_2000);
}

#[test]
fn table_starts_zeroed_and_updates() {
    let mut t = PageTable::new();
    for i in [0usize, 1, 255, 511] {
        assert!(!t.get(i).is_valid());
    }
    let mut e = PageTableEntry::new(0);
    e.set(PageTableEntryFlags::Valid);
    e.set_physaddr(PhysAddr::new(0x8000_3000));
    t.set_entry(511, e);
    assert!(t.get(511).is_valid());
    assert_eq!(t.get(511).get_physaddr().get_u64(), 0x8000_3000);
    assert!(!t.get(510).is_valid());
}
