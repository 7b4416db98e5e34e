//! Physical page-frame allocator: one bit per 4 KiB frame, 1 = in use.
use vstd::prelude::*;
use crate::allocator::mesh::{align_up, align_up_spec, is_pow2, lemma_align_up};

verus! {

pub const PAGE_SIZE: usize = 4096;

/// Memory-map entry type of usable RAM.
pub const LIMINE_MEMMAP_USABLE: u64 = 0;

/// One entry of the boot loader's memory map.
#[derive(Clone, Copy)]
pub struct MemmapEntry {
    pub base: u64,
    pub length: u64,
    pub type_: u64,
}

/// Bit `k` (0 = least significant) of the byte `b`.
pub open spec fn byte_bit(b: u8, k: int) -> bool {
    (b >> (k as u8)) & 1u8 == 1u8
}

/// The frame bits that a bitmap holds, frame `i` at bit `i % 8` of byte `i / 8`.
pub open spec fn bits_of(bitmap: Seq<u8>) -> Seq<bool> {
    Seq::new(bitmap.len() * 8, |i: int| byte_bit(bitmap[i / 8], i % 8))
}

/// The end address of the highest entry among the first `n`.
pub open spec fn max_end(s: Seq<MemmapEntry>, n: int) -> int
    decreases n,
{
    if n <= 0 {
        0
    } else {
        let m = max_end(s, n - 1);
        let e = s[n - 1].base + s[n - 1].length;
        if e > m { e } else { m }
    }
}

/// The number of frames that the map spans.
pub open spec fn total_pages_of(s: Seq<MemmapEntry>) -> int {
    max_end(s, s.len() as int) / PAGE_SIZE as int
}

/// The size in bytes of the bitmap for the map: one bit per frame, rounded
/// up to whole pages.
pub open spec fn bitmap_size_of(s: Seq<MemmapEntry>) -> int {
    align_up_spec((total_pages_of(s) + 7) / 8, PAGE_SIZE as int)
}

/// The bitmap rounded up to whole pages holds a bit for every frame, and
/// its bits can be counted in a `usize`.
proof fn lemma_bitmap_size(s: Seq<MemmapEntry>)
    requires
        0 <= max_end(s, s.len() as int) <= usize::MAX,
    ensures
        0 <= total_pages_of(s) <= usize::MAX as int / PAGE_SIZE as int,
        total_pages_of(s) <= 8 * bitmap_size_of(s),
        8 * bitmap_size_of(s) <= usize::MAX,
        bitmap_size_of(s) % PAGE_SIZE as int == 0,
{
    let total = total_pages_of(s);
    vstd::arithmetic::div_mod::lemma_div_is_ordered(max_end(s, s.len() as int), usize::MAX as int, PAGE_SIZE as int);
    let a = (total + 7) / 8;
    assert(is_pow2(PAGE_SIZE as int)) by {
        vstd::arithmetic::power2::lemma2_to64();
        assert(vstd::arithmetic::power2::pow2(12) == 4096);
    }
    lemma_align_up(a as usize, PAGE_SIZE);
}

pub open spec fn is_usable(e: MemmapEntry) -> bool {
    e.type_ == LIMINE_MEMMAP_USABLE
}

/// The first frame of an entry.
pub open spec fn first_page(e: MemmapEntry) -> int {
    e.base as int / PAGE_SIZE as int
}

/// The number of whole frames an entry is counted with.
pub open spec fn page_count(e: MemmapEntry) -> int {
    e.length as int / PAGE_SIZE as int
}

/// Frame `p` lies in a usable entry among the first `n`.
pub open spec fn covered(s: Seq<MemmapEntry>, n: int, p: int) -> bool
    decreases n,
{
    if n <= 0 {
        false
    } else {
        covered(s, n - 1, p) || (is_usable(s[n - 1]) && first_page(s[n - 1]) <= p < first_page(s[n - 1]) + page_count(s[n - 1]))
    }
}

/// The number of frames in the usable entries among the first `n`.
pub open spec fn usable_count(s: Seq<MemmapEntry>, n: int) -> int
    decreases n,
{
    if n <= 0 {
        0
    } else {
        usable_count(s, n - 1) + if is_usable(s[n - 1]) { page_count(s[n - 1]) } else { 0 }
    }
}

/// The base of the first usable entry at or after index `k` that is at
/// least `size` bytes long, or 0 when there is none.
pub open spec fn first_fit(s: Seq<MemmapEntry>, k: int, size: int) -> u64
    decreases s.len() - k,
{
    if k < 0 || k >= s.len() {
        0
    } else if is_usable(s[k]) && s[k].length >= size {
        s[k].base
    } else {
        first_fit(s, k + 1, size)
    }
}

/// The maps the allocator can be built from: their addresses fit a `usize`,
/// a usable entry can hold the bitmap at a non-zero address, and the
/// higher-half address of the bitmap does not overflow.
pub open spec fn map_accepted(s: Seq<MemmapEntry>, hhdm_offset: u64) -> bool {
    &&& forall|i: int| 0 <= i < s.len() ==> s[i].base + s[i].length <= u64::MAX
    &&& max_end(s, s.len() as int) <= usize::MAX
    &&& usable_count(s, s.len() as int) <= usize::MAX
    &&& first_fit(s, 0, bitmap_size_of(s)) != 0
    &&& first_fit(s, 0, bitmap_size_of(s)) + hhdm_offset <= u64::MAX
}

/// Whether the allocator can be built from the map (see [`map_accepted`]).
pub fn map_is_accepted(mem_map: &[MemmapEntry], hhdm_offset: u64) -> (r: bool)
    ensures
        r == map_accepted(mem_map@, hhdm_offset),
{
    let ghost s = mem_map@;
    let n = mem_map.len();
    let mut max_addr: u64 = 0;
    let mut usable: usize = 0;
    let mut k: usize = 0;
    while k < n
        invariant
            s == mem_map@,
            n == s.len(),
            k <= n,
            forall|i: int| 0 <= i < k ==> s[i].base + s[i].length <= u64::MAX,
            max_addr == max_end(s, k as int),
            usable == usable_count(s, k as int),
        decreases n - k,
    {
        let entry = mem_map[k];
        let end = match entry.base.checked_add(entry.length) {
            Some(e) => e,
            None => return false,
        };
        if end > max_addr {
            max_addr = end;
        }
        if entry.type_ == LIMINE_MEMMAP_USABLE {
            let pages = entry.length / (PAGE_SIZE as u64);
            if pages > (usize::MAX - usable) as u64 {
                proof {
                    lemma_usable_count_nonneg(s, k as int);
                    lemma_usable_count_mono(s, k as int + 1, n as int);
                }
                return false;
            }
            usable = usable + pages as usize;
        }
        k = k + 1;
    }
    if max_addr > usize::MAX as u64 {
        return false;
    }
    let total_pages = (max_addr as usize) / PAGE_SIZE;
    proof {
        assert(is_pow2(PAGE_SIZE as int)) by {
            vstd::arithmetic::power2::lemma2_to64();
            assert(vstd::arithmetic::power2::pow2(12) == 4096);
        }
    }
    proof {
        lemma_bitmap_size(s);
    }
    let bitmap_size = align_up((total_pages + 7) / 8, PAGE_SIZE);
    let mut fit: u64 = 0;
    k = 0;
    while k < n
        invariant_except_break
            first_fit(s, 0, bitmap_size as int) == first_fit(s, k as int, bitmap_size as int),
            fit == 0,
        invariant
            s == mem_map@,
            n == s.len(),
            k <= n,
            bitmap_size == bitmap_size_of(s),
        ensures
            fit == first_fit(s, 0, bitmap_size as int),
        decreases n - k,
    {
        let entry = mem_map[k];
        if entry.type_ == LIMINE_MEMMAP_USABLE && entry.length >= bitmap_size as u64 {
            fit = entry.base;
            break;
        }
        k = k + 1;
    }
    fit != 0 && fit <= u64::MAX - hhdm_offset
}

/// Frame `p` is in use right after the allocator is built from the map:
/// it lies in no usable entry, or it holds the bitmap itself.
pub open spec fn initially_used(s: Seq<MemmapEntry>, p: int) -> bool {
    let phys = first_fit(s, 0, bitmap_size_of(s)) as int;
    !covered(s, s.len() as int, p)
        || (phys as int / PAGE_SIZE as int <= p < phys as int / PAGE_SIZE as int + bitmap_size_of(s) / PAGE_SIZE as int)
}

proof fn lemma_set_bit(b: u8, k: u8, j: u8)
    requires
        k < 8,
        j < 8,
    ensures
        byte_bit(b | (1u8 << k), j as int) == (j == k || byte_bit(b, j as int)),
        byte_bit(b & !(1u8 << k), j as int) == (j != k && byte_bit(b, j as int)),
{
    assert(((b | (1u8 << k)) >> j) & 1u8 == 1u8 <==> (j == k || (b >> j) & 1u8 == 1u8)) by (bit_vector)
        requires k < 8, j < 8;
    assert(((b & !(1u8 << k)) >> j) & 1u8 == 1u8 <==> (j != k && (b >> j) & 1u8 == 1u8)) by (bit_vector)
        requires k < 8, j < 8;
}

proof fn lemma_all_ones(j: u8)
    requires
        j < 8,
    ensures
        byte_bit(0xffu8, j as int),
{
    assert((0xffu8 >> j) & 1u8 == 1u8) by (bit_vector)
        requires j < 8;
}

proof fn lemma_max_end_ge(s: Seq<MemmapEntry>, n: int, k: int)
    requires
        0 <= k < n <= s.len(),
    ensures
        s[k].base + s[k].length <= max_end(s, n),
    decreases n,
{
    if k < n - 1 {
        lemma_max_end_ge(s, n - 1, k);
    }
}

proof fn lemma_usable_count_ge(s: Seq<MemmapEntry>, n: int, k: int)
    requires
        0 <= k < n <= s.len(),
        is_usable(s[k]),
    ensures
        page_count(s[k]) <= usable_count(s, n),
        usable_count(s, n) >= 0,
    decreases n,
{
    lemma_usable_count_nonneg(s, n - 1);
    if k < n - 1 {
        lemma_usable_count_ge(s, n - 1, k);
    }
}

proof fn lemma_usable_count_mono(s: Seq<MemmapEntry>, a: int, b: int)
    requires
        0 <= a <= b <= s.len(),
    ensures
        usable_count(s, a) <= usable_count(s, b),
    decreases b - a,
{
    if a < b {
        lemma_usable_count_mono(s, a, b - 1);
    }
}

proof fn lemma_usable_count_nonneg(s: Seq<MemmapEntry>, n: int)
    ensures
        usable_count(s, n) >= 0,
    decreases n,
{
    if n > 0 {
        lemma_usable_count_nonneg(s, n - 1);
    }
}

proof fn lemma_first_fit(s: Seq<MemmapEntry>, k: int, size: int) -> (j: int)
    requires
        0 <= k,
        first_fit(s, k, size) != 0,
    ensures
        k <= j < s.len(),
        is_usable(s[j]),
        s[j].length >= size,
        s[j].base == first_fit(s, k, size),
    decreases s.len() - k,
{
    if is_usable(s[k]) && s[k].length >= size {
        k
    } else {
        lemma_first_fit(s, k + 1, size)
    }
}

/// The frame looked at in step `j` of a scan that starts after `last`.
pub open spec fn scan_slot(last: int, total: int, j: int) -> int {
    (last + j) % total
}

/// The bitmap-backed frame allocator.
pub struct PageFrameAllocator {
    bitmap: Vec<u8>,
    bitmap_addr: u64,
    total_pages: usize,
    usable_pages: usize,
    used_pages: usize,
    last_scanned_page: usize,
}

impl PageFrameAllocator {
    /// One bit per frame of the bitmap, `true` for a frame in use.
    pub closed spec fn frames(&self) -> Seq<bool> {
        bits_of(self.bitmap@)
    }

    /// The number of frames of physical memory the allocator manages.
    pub closed spec fn total(&self) -> int {
        self.total_pages as int
    }

    /// Usable frames as counted from the memory map, less the bitmap's own.
    pub closed spec fn usable(&self) -> int {
        self.usable_pages as int
    }

    /// Allocations less frees.
    pub closed spec fn used(&self) -> int {
        self.used_pages as int
    }

    /// Where the scan for a free frame starts.
    pub closed spec fn last_scanned(&self) -> int {
        self.last_scanned_page as int
    }

    /// The higher-half virtual address of the bitmap.
    pub closed spec fn bitmap_address(&self) -> u64 {
        self.bitmap_addr
    }

    pub open spec fn wf(&self) -> bool {
        &&& self.total() <= self.frames().len()
        &&& self.total() * PAGE_SIZE <= usize::MAX
        &&& (self.total() == 0 || self.last_scanned() < self.total())
        &&& 0 <= self.last_scanned()
    }

    fn set_bit(&mut self, page_idx: usize, value: bool)
        requires
            page_idx < old(self).frames().len(),
        ensures
            final(self).frames() == old(self).frames().update(page_idx as int, value),
            final(self).total() == old(self).total(),
            final(self).usable() == old(self).usable(),
            final(self).used() == old(self).used(),
            final(self).last_scanned() == old(self).last_scanned(),
            final(self).bitmap_address() == old(self).bitmap_address(),
    {
        let byte_idx = page_idx / 8;
        let bit_idx = (page_idx % 8) as u8;
        let old_byte = self.bitmap[byte_idx];
        let new_byte = if value { old_byte | (1u8 << bit_idx) } else { old_byte & !(1u8 << bit_idx) };
        self.bitmap.set(byte_idx, new_byte);
        proof {
            assert forall|i: int| 0 <= i < self.frames().len() implies self.frames()[i]
                == old(self).frames().update(page_idx as int, value)[i] by {
                if i / 8 == byte_idx as int {
                    lemma_set_bit(old_byte, bit_idx, (i % 8) as u8);
                }
            }
            assert(self.frames() =~= old(self).frames().update(page_idx as int, value));
        }
    }

    fn free_frame_internal(&mut self, page_idx: usize)
        requires
            page_idx < old(self).frames().len(),
        ensures
            final(self).frames() == old(self).frames().update(page_idx as int, false),
            final(self).total() == old(self).total(),
            final(self).usable() == old(self).usable(),
            final(self).used() == old(self).used(),
            final(self).last_scanned() == old(self).last_scanned(),
            final(self).bitmap_address() == old(self).bitmap_address(),
    {
        self.set_bit(page_idx, false);
    }

    fn lock_frame_internal(&mut self, page_idx: usize)
        requires
            page_idx < old(self).frames().len(),
        ensures
            final(self).frames() == old(self).frames().update(page_idx as int, true),
            final(self).total() == old(self).total(),
            final(self).usable() == old(self).usable(),
            final(self).used() == old(self).used(),
            final(self).last_scanned() == old(self).last_scanned(),
            final(self).bitmap_address() == old(self).bitmap_address(),
    {
        self.set_bit(page_idx, true);
    }

    /// Hands out the first free frame at or after the last frame handed out,
    /// wrapping around, and marks it in use; `None` when every frame is in
    /// use.  The result is the frame's physical address.
    pub fn allocate_frame(&mut self) -> (r: Option<usize>)
        requires
            old(self).wf(),
            old(self).used() < usize::MAX,
        ensures
            final(self).wf(),
            final(self).total() == old(self).total(),
            final(self).usable() == old(self).usable(),
            final(self).bitmap_address() == old(self).bitmap_address(),
            match r {
                Some(addr) => exists|j: int| 0 <= j < old(self).total() && {
                    let p = #[trigger] scan_slot(old(self).last_scanned(), old(self).total(), j);
                    &&& !old(self).frames()[p]
                    &&& forall|k: int| 0 <= k < j ==> old(self).frames()[#[trigger] scan_slot(old(self).last_scanned(), old(self).total(), k)]
                    &&& addr == p * PAGE_SIZE
                    &&& final(self).frames() == old(self).frames().update(p, true)
                    &&& final(self).last_scanned() == p
                    &&& final(self).used() == old(self).used() + 1
                },
                None => {
                    &&& forall|p: int| 0 <= p < old(self).total() ==> old(self).frames()[p]
                    &&& *final(self) == *old(self)
                },
            },
    {
        let total = self.total_pages;
        let last = self.last_scanned_page;
        let mut i: usize = 0;
        while i < total
            invariant
                *self == *old(self),
                total == self.total(),
                last == self.last_scanned(),
                self.wf(),
                self.used() < usize::MAX,
                i <= total,
                forall|k: int| 0 <= k < i ==> self.frames()[#[trigger] scan_slot(last as int, total as int, k)],
            decreases total - i,
        {
            let page_idx = (last + i) % total;
            assert(page_idx == scan_slot(last as int, total as int, i as int));
            if !self.get_bit(page_idx) {
                self.lock_frame_internal(page_idx);
                self.last_scanned_page = page_idx;
                self.used_pages = self.used_pages + 1;
                return Some(page_idx * PAGE_SIZE);
            }
            i = i + 1;
        }
        proof {
            assert forall|p: int| 0 <= p < total implies old(self).frames()[p] by {
                let k = if p >= last { p - last } else { p + total - last };
                if p >= last {
                    vstd::arithmetic::div_mod::lemma_small_mod(p as nat, total as nat);
                } else {
                    vstd::arithmetic::div_mod::lemma_small_mod(p as nat, total as nat);
                    vstd::arithmetic::div_mod::lemma_mod_add_multiples_vanish(p, total as int);
                }
                assert(scan_slot(last as int, total as int, k) == p);
            }
        }
        None
    }

    fn get_bit(&self, page_idx: usize) -> (r: bool)
        requires
            page_idx < self.frames().len(),
        ensures
            r == self.frames()[page_idx as int],
    {
        let byte = self.bitmap[page_idx / 8];
        let bit_idx = (page_idx % 8) as u8;
        (byte >> bit_idx) & 1u8 == 1u8
    }

    /// The number of frames the bitmap has a bit for.
    pub fn frame_count(&self) -> (r: usize)
        requires
            self.frames().len() <= usize::MAX,
        ensures
            r == self.frames().len(),
    {
        self.bitmap.len() * 8
    }

    /// Allocations less frees.
    pub fn used_frames(&self) -> (r: usize)
        ensures
            r == self.used(),
    {
        self.used_pages
    }

    /// Usable frames counted at start-up, less the bitmap's own.
    pub fn usable_frames(&self) -> (r: usize)
        ensures
            r == self.usable(),
    {
        self.usable_pages
    }

    /// Marks the frame at `phys_addr` free and counts one allocation less.
    pub fn free_frame(&mut self, phys_addr: usize)
        requires
            old(self).wf(),
            phys_addr / PAGE_SIZE < old(self).frames().len(),
            old(self).used() > 0,
        ensures
            final(self).wf(),
            final(self).frames() == old(self).frames().update(phys_addr as int / PAGE_SIZE as int, false),
            final(self).used() == old(self).used() - 1,
            final(self).total() == old(self).total(),
            final(self).usable() == old(self).usable(),
            final(self).last_scanned() == old(self).last_scanned(),
            final(self).bitmap_address() == old(self).bitmap_address(),
    {
        let page_idx = phys_addr / PAGE_SIZE;
        self.free_frame_internal(page_idx);
        self.used_pages = self.used_pages - 1;
    }

    /// The usable RAM in whole MiB.
    pub fn get_usable_ram_mb(&self) -> (r: usize)
        requires
            self.usable() * PAGE_SIZE <= usize::MAX,
        ensures
            r == (self.usable() * PAGE_SIZE as int) / (1024 * 1024) as int,
    {
        (self.usable_pages * PAGE_SIZE) / (1024 * 1024)
    }

    /// Builds the allocator from the boot loader's memory map: the bitmap
    /// spans every frame up to the highest mapped address, lives at the
    /// start of the first usable entry large enough to hold it, and marks
    /// every frame in use except those of usable entries that do not hold
    /// the bitmap itself.
    pub fn init(mem_map: &[MemmapEntry], hhdm_offset: u64) -> (r: PageFrameAllocator)
        requires
            map_accepted(mem_map@, hhdm_offset),
        ensures
            r.wf(),
            r.total() == total_pages_of(mem_map@),
            r.frames().len() == 8 * bitmap_size_of(mem_map@),
            forall|p: int| 0 <= p < r.frames().len() ==> r.frames()[p] == initially_used(mem_map@, p),
            r.usable() == usable_count(mem_map@, mem_map@.len() as int) - bitmap_size_of(mem_map@) / PAGE_SIZE as int,
            r.used() == 0,
            r.last_scanned() == 0,
            r.bitmap_address() == first_fit(mem_map@, 0, bitmap_size_of(mem_map@)) + hhdm_offset,
    {
        let ghost s = mem_map@;
        let n = mem_map.len();
        let mut max_addr: u64 = 0;
        let mut k: usize = 0;
        while k < n
            invariant
                s == mem_map@,
                n == s.len(),
                k <= n,
                map_accepted(s, hhdm_offset),
                max_addr == max_end(s, k as int),
            decreases n - k,
        {
            let entry = mem_map[k];
            let end = entry.base + entry.length;
            if end > max_addr {
                max_addr = end;
            }
            k = k + 1;
        }

        let total_pages = (max_addr as usize) / PAGE_SIZE;
        proof {
            assert(is_pow2(PAGE_SIZE as int)) by {
                vstd::arithmetic::power2::lemma2_to64();
                assert(vstd::arithmetic::power2::pow2(12) == 4096);
            }
        }
        proof {
            lemma_bitmap_size(s);
        }
        let bitmap_size = align_up((total_pages + 7) / 8, PAGE_SIZE);

        let mut bitmap_phys_addr: u64 = 0;
        k = 0;
        while k < n
            invariant_except_break
                first_fit(s, 0, bitmap_size as int) == first_fit(s, k as int, bitmap_size as int),
                bitmap_phys_addr == 0,
            invariant
                s == mem_map@,
                n == s.len(),
                k <= n,
                map_accepted(s, hhdm_offset),
                bitmap_size == bitmap_size_of(s),
            ensures
                bitmap_phys_addr == first_fit(s, 0, bitmap_size as int),
            decreases n - k,
        {
            let entry = mem_map[k];
            proof {
                lemma_max_end_ge(s, n as int, k as int);
            }
            if entry.type_ == LIMINE_MEMMAP_USABLE && entry.length as usize >= bitmap_size {
                bitmap_phys_addr = entry.base;
                break;
            }
            k = k + 1;
        }
        let ghost phys: u64 = first_fit(s, 0, bitmap_size as int);
        assert(bitmap_phys_addr == phys);
        let ghost fit = lemma_first_fit(s, 0, bitmap_size as int);
        proof {
            lemma_max_end_ge(s, n as int, fit);
        }

        let bitmap_virt_addr = bitmap_phys_addr + hhdm_offset;
        let bitmap = vec![0xFFu8; bitmap_size];
        let mut allocator = PageFrameAllocator {
            bitmap,
            bitmap_addr: bitmap_virt_addr,
            total_pages,
            usable_pages: 0,
            used_pages: 0,
            last_scanned_page: 0,
        };
        let ghost len = 8 * bitmap_size as int;
        proof {
            assert forall|p: int| 0 <= p < len implies allocator.frames()[p] by {
                lemma_all_ones((p % 8) as u8);
            }
            assert(allocator.frames() =~= Seq::new(len as nat, |p: int| !covered(s, 0, p)));
        }

        k = 0;
        while k < n
            invariant
                s == mem_map@,
                n == s.len(),
                k <= n,
                map_accepted(s, hhdm_offset),
                total_pages == total_pages_of(s),
                len == 8 * bitmap_size_of(s),
                allocator.frames() == Seq::new(len as nat, |p: int| !covered(s, k as int, p)),
                allocator.usable() == usable_count(s, k as int),
                allocator.total() == total_pages,
                allocator.used() == 0,
                allocator.last_scanned() == 0,
                allocator.bitmap_address() == bitmap_virt_addr,
            decreases n - k,
        {
            let entry = mem_map[k];
            proof {
                lemma_max_end_ge(s, n as int, k as int);
                lemma_usable_count_nonneg(s, k as int);
            }
            if entry.type_ == LIMINE_MEMMAP_USABLE {
                let start_page = (entry.base as usize) / PAGE_SIZE;
                let end_page = start_page + ((entry.length as usize) / PAGE_SIZE);
                proof {
                    lemma_usable_count_ge(s, n as int, k as int);
                    assert(usable_count(s, k as int + 1) <= usable_count(s, n as int)) by {
                        lemma_usable_count_mono(s, k as int + 1, n as int);
                    }
                }
                let mut i = start_page;
                while i < end_page
                    invariant
                        s == mem_map@,
                        n == s.len(),
                        k < n,
                        entry == s[k as int],
                        is_usable(entry),
                        map_accepted(s, hhdm_offset),
                        start_page == first_page(entry),
                        end_page == first_page(entry) + page_count(entry),
                        end_page <= total_pages,
                        total_pages == total_pages_of(s),
                        len == 8 * bitmap_size_of(s),
                        total_pages <= len,
                        start_page <= i <= end_page,
                        usable_count(s, k as int + 1) <= usize::MAX,
                        allocator.frames() == Seq::new(len as nat, |p: int| !(covered(s, k as int, p) || (start_page <= p < i))),
                        allocator.usable() == usable_count(s, k as int) + (i - start_page),
                        allocator.total() == total_pages,
                        allocator.used() == 0,
                        allocator.last_scanned() == 0,
                        allocator.bitmap_address() == bitmap_virt_addr,
                    decreases end_page - i,
                {
                    allocator.free_frame_internal(i);
                    allocator.usable_pages = allocator.usable_pages + 1;
                    assert(allocator.frames() =~= Seq::new(len as nat, |p: int| !(covered(s, k as int, p) || (start_page <= p < i + 1))));
                    i = i + 1;
                }
                assert(allocator.frames() =~= Seq::new(len as nat, |p: int| !covered(s, k as int + 1, p)));
            } else {
                assert(allocator.frames() =~= Seq::new(len as nat, |p: int| !covered(s, k as int + 1, p)));
            }
            k = k + 1;
        }

        let bitmap_start_page = (bitmap_phys_addr as usize) / PAGE_SIZE;
        let bitmap_end_page = bitmap_start_page + (bitmap_size / PAGE_SIZE);
        proof {
            lemma_usable_count_ge(s, n as int, fit);
        }
        let mut j = bitmap_start_page;
        while j < bitmap_end_page
            invariant
                s == mem_map@,
                n == s.len(),
                map_accepted(s, hhdm_offset),
                total_pages == total_pages_of(s),
                len == 8 * bitmap_size_of(s),
                bitmap_size == bitmap_size_of(s),
                bitmap_end_page <= total_pages <= len,
                bitmap_start_page == phys as int / PAGE_SIZE as int,
                bitmap_end_page == phys as int / PAGE_SIZE as int + bitmap_size as int / PAGE_SIZE as int,
                bitmap_start_page <= j <= bitmap_end_page,
                bitmap_size as int / PAGE_SIZE as int <= usable_count(s, n as int),
                allocator.frames() == Seq::new(len as nat, |p: int| !covered(s, n as int, p) || (bitmap_start_page <= p < j)),
                allocator.usable() == usable_count(s, n as int) - (j - bitmap_start_page),
                allocator.total() == total_pages,
                allocator.used() == 0,
                allocator.last_scanned() == 0,
                allocator.bitmap_address() == bitmap_virt_addr,
            decreases bitmap_end_page - j,
        {
            allocator.lock_frame_internal(j);
            allocator.usable_pages = allocator.usable_pages - 1;
            assert(allocator.frames() =~= Seq::new(len as nat, |p: int| !covered(s, n as int, p) || (bitmap_start_page <= p < j + 1)));
            j = j + 1;
        }
        allocator
    }
}

/// Freeing a frame right after it was handed out gives back the bitmap the
/// allocator had before the allocation.
pub proof fn lemma_allocate_then_free_restores(frames: Seq<bool>, p: int)
    requires
        0 <= p < frames.len(),
        !frames[p],
    ensures
        frames.update(p, true).update(p, false) == frames,
{
    assert(frames.update(p, true).update(p, false) =~= frames);
}

/// Two allocations with no free between them hand out different frames.
pub proof fn lemma_allocations_distinct(frames: Seq<bool>, p1: int, p2: int)
    requires
        0 <= p1 < frames.len(),
        0 <= p2 < frames.len(),
        !frames[p1],
        !frames.update(p1, true)[p2],
    ensures
        p1 != p2,
{
}

/// The frames holding the bitmap are in use from the start, and so is every
/// frame that no usable entry covers.
pub proof fn lemma_init_reserves_bitmap(s: Seq<MemmapEntry>, p: int)
    requires
        ({
            let phys = first_fit(s, 0, bitmap_size_of(s)) as int;
            phys / PAGE_SIZE as int <= p < phys / PAGE_SIZE as int + bitmap_size_of(s) / PAGE_SIZE as int
        }) || !covered(s, s.len() as int, p),
    ensures
        initially_used(s, p),
{
}

} // verus!
