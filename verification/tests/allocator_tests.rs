use pangea_kernel::allocator::mesh::{align_up, BumpAllocator, MeshAllocator};
use pangea_kernel::allocator::{HEAP_SIZE, HEAP_START};

#[test]
fn align_up_rounds_to_multiples() {
    assert_eq!(align_up(0, 8), 0);
    assert_eq!(align_up(1, 8), 8);
    assert_eq!(align_up(8, 8), 8);
    assert_eq!(align_up(9, 1), 9);
    assert_eq!(align_up(4097, 4096), 8192);
    assert_eq!(align_up(4096, 4096), 4096);
}

#[test]
fn bump_allocates_aligned_blocks_in_order() {
    let mut b = BumpAllocator::new();
    b.init(0x1000, 0x100);
    assert_eq!(b.allocate(16, 16), 0x1000);
    assert_eq!(b.allocate(1, 8), 0x1010);
    // the cursor is at 0x1011; the next 16-aligned address is 0x1020
    assert_eq!(b.allocate(8, 16), 0x1020);
}

#[test]
fn bump_returns_null_when_exhausted() {
    let mut b = BumpAllocator::new();
    b.init(0x1000, 0x20);
    assert_eq!(b.allocate(0x10, 8), 0x1000);
    assert_eq!(b.allocate(0x11, 8), 0);
    // the failed request did not move the cursor
    assert_eq!(b.allocate(0x10, 8), 0x1010);
    assert_eq!(b.allocate(1, 1), 0);
}

#[test]
fn bump_uninitialised_heap_is_empty() {
    let mut b = BumpAllocator::new();
    assert_eq!(b.allocate(8, 8), 0);
}

#[test]
fn bump_allocations_are_disjoint() {
    let mut b = BumpAllocator::new();
    b.init(0x10_0000, 0x1000);
    let p1 = b.allocate(100, 4);
    let p2 = b.allocate(50, 64);
    assert!(p1 != 0 && p2 != 0);
    assert!(p1 + 100 <= p2);
    assert_eq!(p2 % 64, 0);
}

#[test]
fn mesh_small_requests_get_class_sized_blocks() {
    let mut m = MeshAllocator::new();
    m.init(0x10_0000, 0x10_000);
    // 24 bytes falls in the 32-byte class: a 32-byte block aligned to 32
    let p = m.allocate(24, 8);
    assert_eq!(p, 0x10_0000);
    let q = m.allocate(24, 8);
    assert_eq!(q, 0x10_0020);
    // alignment larger than the size picks the class of the alignment
    let r = m.allocate(1, 64);
    assert_eq!(r % 64, 0);
    assert_eq!(r, 0x10_0040);
}

#[test]
fn mesh_reuses_freed_block_of_same_class() {
    let mut m = MeshAllocator::new();
    m.init(0x10_0000, 0x10_000);
    let p = m.allocate(24, 8);
    let _q = m.allocate(24, 8);
    m.dealloc(p, 24, 8);
    // any request of the 32-byte class gets the freed block back
    assert_eq!(m.allocate(20, 4), p);
    // and then the list is empty again, so a fresh block comes next
    assert_eq!(m.allocate(20, 4), 0x10_0040);
}

#[test]
fn mesh_free_lists_are_last_in_first_out() {
    let mut m = MeshAllocator::new();
    m.init(0x10_0000, 0x10_000);
    let a = m.allocate(8, 8);
    let b = m.allocate(8, 8);
    m.dealloc(a, 8, 8);
    m.dealloc(b, 8, 8);
    assert_eq!(m.allocate(8, 8), b);
    assert_eq!(m.allocate(8, 8), a);
}

#[test]
fn mesh_large_blocks_are_not_reused() {
    let mut m = MeshAllocator::new();
    m.init(0x10_0000, 0x10_000);
    let p = m.allocate(4096, 8);
    assert_eq!(p, 0x10_0000);
    m.dealloc(p, 4096, 8);
    let q = m.allocate(4096, 8);
    assert_eq!(q, 0x10_1000);
}

#[test]
fn mesh_exhausted_heap_returns_null() {
    let mut m = MeshAllocator::new();
    m.init(0x10_0000, 64);
    assert_eq!(m.allocate(2048, 8), 0);
    assert_eq!(m.allocate(64, 8), 0x10_0000);
    assert_eq!(m.allocate(8, 8), 0);
}

#[test]
fn heap_constants() {
    assert_eq!(HEAP_START, 0x4444_4444_0000);
    assert_eq!(HEAP_SIZE, 10 * 1024 * 1024);
}

#[test]
fn mesh_free_list_serves_at_top_of_address_space() {
    let mut m = MeshAllocator::new();
    m.init(usize::MAX - 3, 3);
    // the bump path for an 8-byte block would overflow the cursor arithmetic
    assert!(!m.cursor_fits(8, 8));
    m.dealloc(0x1000, 8, 8);
    // but a freed block of the class is reused without touching the cursor
    assert!(m.cursor_fits(5, 1));
    assert_eq!(m.allocate(5, 1), 0x1000);
    assert!(!m.cursor_fits(8, 8));
}

#[test]
fn bump_run_blocks_never_overlap() {
    let mut b = BumpAllocator::new();
    b.init(0x10_0000, 0x1000);
    let reqs = [(24usize, 8usize), (1, 1), (100, 64), (7, 4), (0x800, 0x100), (0x1000, 8), (16, 16)];
    let mut blocks: Vec<(usize, usize)> = Vec::new();
    let mut last = 0x10_0000;
    for &(size, align) in reqs.iter() {
        let p = b.allocate(size, align);
        if p != 0 {
            assert_eq!(p % align, 0);
            assert!(p >= last && p + size <= 0x10_1000);
            for &(q, qs) in blocks.iter() {
                assert!(q + qs <= p);
            }
            last = p + size;
            blocks.push((p, size));
        }
    }
    // the 0x1000-byte request did not fit
    assert_eq!(blocks.len(), 6);
}
