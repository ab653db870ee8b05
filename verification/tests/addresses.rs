use kmem::physical::PhysAddr;
use kmem::virt::VirtAddr;

#[test]
fn phys_addr_new_masks_to_56_bits() {
    let a = PhysAddr::new(0xffff_ffff_ffff_ffff);
    assert_eq!(a.get_u64(), 0x00ff_ffff_ffff_ffff);
    let b = PhysAddr::new(0x8000_0000);
    assert_eq!(b.get_u64(), 0x8000_0000);
}

#[test]
fn phys_addr_clear_nth_last_bit_aligns_down() {
    let a = PhysAddr::new(0xdead_beef);
    assert_eq!(a.clear_nth_last_bit(12).get_u64(), 0xdead_b000);
    assert_eq!(a.clear_nth_last_bit(0).get_u64(), 0xdead_beef);
    assert_eq!(a.clear_nth_last_bit(32).get_u64(), 0);
}

#[test]
fn phys_addr_page_offset_and_ppn() {
    let a = PhysAddr::new(0xdead_beef);
    assert_eq!(a.get_page_offset(), 0xeef);
    assert_eq!(a.get_ppn(), 0xdead_b);
}

#[test]
fn phys_addr_add_wraps_in_width() {
    let a = PhysAddr::new(0xff_ffff_ffff_f000);
    let r = a.add_u64(0x2000);
    assert_eq!(r.get_u64(), 0x1000);
    let s = PhysAddr::new(0x1000).add_addr(PhysAddr::new(0x234));
    assert_eq!(s.get_u64(), 0x1234);
}

#[test]
fn phys_addr_sub_wraps_in_width() {
    let a = PhysAddr::new(0x1000);
    let r = a.sub_u64(0x2000);
    assert_eq!(r.get_u64(), 0xff_ffff_ffff_f000);
    let d = PhysAddr::new(0x9000).sub_addr(PhysAddr::new(0x8000));
    assert_eq!(d.get_u64(), 0x1000);
}

#[test]
fn phys_addr_bit_ops_and_shifts() {
    let a = PhysAddr::new(0xff00).bit_and(PhysAddr::new(0x0ff0));
    assert_eq!(a.get_u64(), 0x0f00);
    let o = PhysAddr::new(0xf000).bit_or(PhysAddr::new(0x000f));
    assert_eq!(o.get_u64(), 0xf00f);
    let l = PhysAddr::new(0x1).shift_left(12);
    assert_eq!(l.get_u64(), 0x1000);
    let r = PhysAddr::new(0x1000).shift_right(12);
    assert_eq!(r.get_u64(), 0x1);
}

#[test]
fn phys_addr_get_ptr_roundtrip() {
    let a = PhysAddr::new(0x8000_0000);
    assert_eq!(a.get_ptr(), 0x8000_0000usize);
}

#[test]
fn phys_addr_render_is_hex() {
    assert_eq!(PhysAddr::new(0x8000_0000).render(), "PhysAddr(0x80000000)");
    assert_eq!(PhysAddr::new(0).render(), "PhysAddr(0x0)");
    assert_eq!(PhysAddr::new(0xdead_beef).render(), "PhysAddr(0xdeadbeef)");
}

#[test]
fn virt_addr_new_masks_and_clears() {
    let v = VirtAddr::new(0xffff_ffff_ffff_ffff);
    assert_eq!(v.get_u64(), 0x00ff_ffff_ffff_ffff);
    let w = VirtAddr::new(0xdead_beef).clear_nth_last_bit(12);
    assert_eq!(w.get_u64(), 0xdead_b000);
    assert_eq!(VirtAddr::new(0x4000).get_ptr(), 0x4000usize);
}

#[test]
fn virt_addr_render_is_hex() {
    assert_eq!(VirtAddr::new(0x1234_5678).render(), "VirtAddr(0x12345678)");
}
