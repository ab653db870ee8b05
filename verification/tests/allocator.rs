use kmem::page::PageType;
use kmem::physical::{PhysAddr, PhysFrameAllocError, PhysFrameAllocator};

fn fresh(frames: usize) -> PhysFrameAllocator {
    PhysFrameAllocator::new(PhysAddr::new(0x8000_0000), frames * 4096)
}

#[test]
fn fresh_allocator_counts() {
    let a = fresh(8192);
    assert_eq!(a.nb_pages(), 8192);
    assert_eq!(a.free_pages(), 8192);
    assert_eq!(a.start_addr().get_u64(), 0x8000_0000);
}

#[test]
fn first_base_frame_is_region_base() {
    let mut a = fresh(8192);
    let f = a.allocate(PageType::Page, 1).unwrap();
    assert_eq!(f.addr.get_u64(), 0x8000_0000);
    assert_eq!(f.page_type, PageType::Page);
    assert_eq!(f.size, 1);
    assert_eq!(a.free_pages(), 8191);
}

#[test]
fn mega_allocation_reduces_free_by_512_per_unit() {
    let mut a = fresh(8192);
    let f = a.allocate(PageType::MegaPage, 3).unwrap();
    assert_eq!(f.addr.get_u64(), 0x8000_0000);
    assert_eq!(a.free_pages(), 8192 - 3 * 512);
}

#[test]
fn request_beyond_total_is_insufficient() {
    let mut a = fresh(100);
    let e = a.allocate(PageType::Page, 101).unwrap_err();
    assert_eq!(e, PhysFrameAllocError::InsufficientTotal);
    assert_eq!(a.free_pages(), 100);
    let e2 = a.allocate(PageType::MegaPage, 1).unwrap_err();
    assert_eq!(e2, PhysFrameAllocError::InsufficientTotal);
    let e3 = a.allocate(PageType::GigaPage, 1).unwrap_err();
    assert_eq!(e3, PhysFrameAllocError::InsufficientTotal);
}

#[test]
fn overflowing_request_is_insufficient() {
    let mut a = fresh(100);
    let e = a.allocate(PageType::GigaPage, usize::MAX / 4).unwrap_err();
    assert_eq!(e, PhysFrameAllocError::InsufficientTotal);
}

#[test]
fn consecutive_allocations_do_not_overlap() {
    let mut a = fresh(64);
    let f1 = a.allocate(PageType::Page, 10).unwrap();
    let f2 = a.allocate(PageType::Page, 10).unwrap();
    let end1 = f1.addr.get_u64() + 10 * 4096;
    assert!(end1 <= f2.addr.get_u64() || f2.addr.get_u64() + 10 * 4096 <= f1.addr.get_u64());
    assert_eq!(f2.addr.get_u64(), 0x8000_0000 + 10 * 4096);
}

#[test]
fn region_fills_then_fails() {
    let mut a = fresh(16);
    for i in 0..16 {
        let f = a.allocate(PageType::Page, 1).unwrap();
        assert_eq!(f.addr.get_u64(), 0x8000_0000 + i * 4096);
    }
    assert_eq!(a.free_pages(), 0);
    let e = a.allocate(PageType::Page, 1).unwrap_err();
    assert_eq!(e, PhysFrameAllocError::Fragmented);
}

#[test]
fn fragmented_is_distinct_from_insufficient() {
    // 24 frames; one base frame allocated at the start. A request for 16
    // frames fits the total but the skip-ahead scan probes [0,16) and then
    // [16,32), which runs past the region: Fragmented.
    let mut a = fresh(24);
    a.allocate(PageType::Page, 1).unwrap();
    let e = a.allocate(PageType::Page, 16).unwrap_err();
    assert_eq!(e, PhysFrameAllocError::Fragmented);
    assert_eq!(a.free_pages(), 23);
}

#[test]
fn zero_count_allocation_succeeds_empty() {
    let mut a = fresh(8);
    let f = a.allocate(PageType::Page, 0).unwrap();
    assert_eq!(f.addr.get_u64(), 0x8000_0000);
    assert_eq!(f.size, 0);
    assert_eq!(a.free_pages(), 8);
}

#[test]
fn boot_scenario_32_mib_region() {
    // Region of 8192 base frames (32 MiB) at 0x8000_0000.
    let mut a = fresh(8192);

    // One base frame comes from the region base.
    let f1 = a.allocate(PageType::Page, 1).unwrap();
    assert_eq!(f1.addr.get_u64(), 0x8000_0000);
    assert_eq!(f1.page_type, PageType::Page);
    assert_eq!(f1.size, 1);
    assert_eq!(a.free_pages(), 8191);

    // Eight 2M units need 4096 base frames. The scan probes the window
    // [0, 4096), hits the allocated frame 0, skips the whole window, and
    // lands at frame 4096: address 0x8000_0000 + 4096 * 4096.
    let f2 = a.allocate(PageType::MegaPage, 8).unwrap();
    assert_eq!(f2.addr.get_u64(), 0x8100_0000);
    assert_eq!(f2.page_type, PageType::MegaPage);
    assert_eq!(f2.size, 8);
    assert_eq!(a.free_pages(), 8191 - 4096);

    // 4096 more base frames fit the free total (4095 < 4096 does not), so
    // the request fails; frames 1..4096 are free but every window the scan
    // probes is blocked: Fragmented.
    let e = a.allocate(PageType::Page, 4096).unwrap_err();
    assert_eq!(e, PhysFrameAllocError::Fragmented);
    assert_eq!(a.free_pages(), 4095);
}

#[test]
fn empty_region_rejects_everything_but_nothing() {
    let mut a = fresh(0);
    assert_eq!(a.nb_pages(), 0);
    assert_eq!(a.free_pages(), 0);
    let e = a.allocate(PageType::Page, 1).unwrap_err();
    assert_eq!(e, PhysFrameAllocError::InsufficientTotal);
    let f = a.allocate(PageType::Page, 0).unwrap();
    assert_eq!(f.size, 0);
}

#[test]
fn region_size_rounds_down_to_whole_frames() {
    let a = PhysFrameAllocator::new(PhysAddr::new(0x8000_0000), 10000);
    assert_eq!(a.nb_pages(), 2);
    assert_eq!(a.free_pages(), 2);
}

#[test]
fn error_render_distinguishes_variants() {
    assert_eq!(
        PhysFrameAllocError::InsufficientTotal.render(),
        "PhysAllocError{ Not enough memory! }"
    );
    assert_eq!(
        PhysFrameAllocError::Fragmented.render(),
        "PhysAllocError{ Not enough contiguous memory! }"
    );
}

#[test]
fn frame_render_shows_address_and_bytes() {
    let mut a = fresh(8192);
    let f = a.allocate(PageType::MegaPage, 2).unwrap();
    assert_eq!(f.render(), "PhysFrame{ PhysAddr(0x80000000), 4194304 bytes }");
}
