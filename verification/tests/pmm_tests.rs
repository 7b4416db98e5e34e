use pangea_kernel::pmm::{MemmapEntry, PageFrameAllocator, LIMINE_MEMMAP_USABLE, PAGE_SIZE};

fn entry(base: u64, length: u64, type_: u64) -> MemmapEntry {
    MemmapEntry { base, length, type_ }
}

fn sample_map() -> Vec<MemmapEntry> {
    vec![
        entry(0, 0x1000, 2),
        entry(0x1000, 0x9000, LIMINE_MEMMAP_USABLE),
        entry(0x10_0000, 0x10_0000, LIMINE_MEMMAP_USABLE),
    ]
}

#[test]
fn init_counts_usable_frames_less_the_bitmap() {
    let pmm = PageFrameAllocator::init(&sample_map(), 0xffff_8000_0000_0000);
    // 9 + 256 usable frames, one of which holds the bitmap
    assert_eq!(pmm.get_usable_ram_mb(), (264 * PAGE_SIZE) / (1024 * 1024));
    assert_eq!(pmm.get_usable_ram_mb(), 1);
}

#[test]
fn allocate_skips_reserved_and_bitmap_frames() {
    let mut pmm = PageFrameAllocator::init(&sample_map(), 0);
    // frame 0 is reserved and frame 1 holds the bitmap
    assert_eq!(pmm.allocate_frame(), Some(0x2000));
    assert_eq!(pmm.allocate_frame(), Some(0x3000));
}

#[test]
fn allocate_scans_on_from_the_last_frame_handed_out() {
    let mut pmm = PageFrameAllocator::init(&sample_map(), 0);
    assert_eq!(pmm.allocate_frame(), Some(0x2000));
    assert_eq!(pmm.allocate_frame(), Some(0x3000));
    pmm.free_frame(0x2000);
    // the scan starts at the last frame handed out, not at the freed one
    assert_eq!(pmm.allocate_frame(), Some(0x4000));
}

#[test]
fn allocate_wraps_around_and_frees_are_reused() {
    let mut pmm = PageFrameAllocator::init(&sample_map(), 0);
    let mut got = Vec::new();
    while let Some(a) = pmm.allocate_frame() {
        got.push(a);
    }
    // frames 2..10 and 256..512
    assert_eq!(got.len(), 8 + 256);
    assert_eq!(got[0], 0x2000);
    assert_eq!(*got.last().unwrap(), 511 * 0x1000);
    pmm.free_frame(0x5000);
    assert_eq!(pmm.allocate_frame(), Some(0x5000));
    assert_eq!(pmm.allocate_frame(), None);
}

#[test]
fn frames_outside_usable_entries_are_never_handed_out() {
    let mut pmm = PageFrameAllocator::init(&sample_map(), 0);
    while let Some(a) = pmm.allocate_frame() {
        let page = a / PAGE_SIZE;
        assert!((2..10).contains(&page) || (256..512).contains(&page));
    }
}

#[test]
fn bitmap_rounds_up_to_cover_every_frame() {
    // 32769 frames: one more than a single bitmap page has bits for
    let map = vec![entry(0, 0x1000, 2), entry(0x1000, 0x800_0000, LIMINE_MEMMAP_USABLE)];
    assert!(pangea_kernel::pmm::map_is_accepted(&map, 0));
    let mut pmm = PageFrameAllocator::init(&map, 0);
    // the bitmap takes two pages, frames 1 and 2
    assert_eq!(pmm.allocate_frame(), Some(0x3000));
    // 32768 usable frames less the two bitmap frames
    assert_eq!(pmm.get_usable_ram_mb(), (32766 * PAGE_SIZE) / (1024 * 1024));
}
