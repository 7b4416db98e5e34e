//! Size-class free-list allocator with a bump allocator behind it.
use vstd::prelude::*;
use vstd::arithmetic::power2::pow2;
use vstd::arithmetic::div_mod::lemma_fundamental_div_mod;
use vstd::bits::{low_bits_mask, lemma_usize_low_bits_mask_is_mod};

verus! {

/// Number of size classes.
pub const NUM_CLASSES: usize = 9;

/// Block size of size class `i` (8, 16, ..., 2048 bytes).
pub open spec fn class_size(i: int) -> int {
    if i == 0 { 8 }
    else if i == 1 { 16 }
    else if i == 2 { 32 }
    else if i == 3 { 64 }
    else if i == 4 { 128 }
    else if i == 5 { 256 }
    else if i == 6 { 512 }
    else if i == 7 { 1024 }
    else { 2048 }
}

/// The first size class whose block holds `required` bytes, if any.
pub open spec fn size_class_of(required: int) -> Option<int> {
    if required <= 8 { Some(0) }
    else if required <= 16 { Some(1) }
    else if required <= 32 { Some(2) }
    else if required <= 64 { Some(3) }
    else if required <= 128 { Some(4) }
    else if required <= 256 { Some(5) }
    else if required <= 512 { Some(6) }
    else if required <= 1024 { Some(7) }
    else if required <= 2048 { Some(8) }
    else { None }
}

/// `x` is a power of two.
pub open spec fn is_pow2(x: int) -> bool {
    exists|n: nat| n < usize::BITS && pow2(n) == x
}

/// `addr` rounded up to the next multiple of `align`.
pub open spec fn align_up_spec(addr: int, align: int) -> int {
    ((addr + align - 1) / align) * align
}

fn block_size(i: usize) -> (r: usize)
    requires
        i < NUM_CLASSES,
    ensures
        r == class_size(i as int),
{
    match i {
        0 => 8,
        1 => 16,
        2 => 32,
        3 => 64,
        4 => 128,
        5 => 256,
        6 => 512,
        7 => 1024,
        _ => 2048,
    }
}

pub(crate) proof fn lemma_align_up(addr: usize, align: usize)
    requires
        is_pow2(align as int),
        addr + align - 1 <= usize::MAX,
    ensures
        ((addr + align - 1) as usize) & !((align - 1) as usize) == align_up_spec(addr as int, align as int),
        align_up_spec(addr as int, align as int) >= addr,
        align_up_spec(addr as int, align as int) < addr + align,
        align_up_spec(addr as int, align as int) % (align as int) == 0,
{
    let n = choose|n: nat| n < usize::BITS && pow2(n) == align as int;
    vstd::arithmetic::power2::lemma_pow2_pos(n);
    let x: usize = (addr + align - 1) as usize;
    let m: usize = (align - 1) as usize;
    assert(low_bits_mask(n) == m);
    lemma_usize_low_bits_mask_is_mod(x, n);
    assert(x & m == x % align);
    assert((x & !m) as int == x as int - (x & m) as int) by (bit_vector);
    assert(x & m <= x) by (bit_vector);
    lemma_fundamental_div_mod(x as int, align as int);
    assert((x as int / align as int) * align as int == x - x % align);
    assert(align_up_spec(addr as int, align as int) == x - x % align);
    vstd::arithmetic::div_mod::lemma_mod_multiples_basic(x as int / align as int, align as int);
    assert(((x as int / align as int) * align as int) % align as int == 0) by {
        vstd::arithmetic::mul::lemma_mul_is_commutative(x as int / align as int, align as int);
    }
}

/// Rounds `addr` up to the next multiple of the power of two `align`.
pub fn align_up(addr: usize, align: usize) -> (r: usize)
    requires
        is_pow2(align as int),
        addr + align - 1 <= usize::MAX,
    ensures
        r == align_up_spec(addr as int, align as int),
        addr <= r < addr + align,
        r % align == 0,
{
    proof {
        lemma_align_up(addr, align);
    }
    (addr + (align - 1)) & !(align - 1)
}

/// The `(next, result)` pair that a bump allocation of `size` bytes aligned to
/// `align` produces from the cursor `next` in a heap ending at `heap_end`;
/// a result of 0 is the null pointer and leaves the cursor where it was.
pub open spec fn bump_step(next: int, heap_end: int, size: int, align: int) -> (int, int) {
    let start = align_up_spec(next, align);
    if start + size > usize::MAX {
        (next, 0)
    } else if start + size <= heap_end {
        (start + size, start)
    } else {
        (next, 0)
    }
}

/// A bump allocator over the address range `[heap_start, heap_end)`.
pub struct BumpAllocator {
    heap_start: usize,
    heap_end: usize,
    next: usize,
}

impl BumpAllocator {
    /// First address of the heap.
    pub closed spec fn start(&self) -> int {
        self.heap_start as int
    }

    /// One past the last address of the heap.
    pub closed spec fn end(&self) -> int {
        self.heap_end as int
    }

    /// The first address not yet handed out.
    pub closed spec fn cursor(&self) -> int {
        self.next as int
    }

    /// The cursor lies inside the heap.
    pub open spec fn wf(&self) -> bool {
        self.start() <= self.cursor() <= self.end()
    }

    /// An allocator over the empty heap at address 0.
    pub fn new() -> (r: Self)
        ensures
            r.start() == 0,
            r.end() == 0,
            r.cursor() == 0,
            r.wf(),
    {
        BumpAllocator { heap_start: 0, heap_end: 0, next: 0 }
    }

    /// Resets the allocator to the heap `[heap_start, heap_start + heap_size)`.
    pub fn init(&mut self, heap_start: usize, heap_size: usize)
        requires
            heap_start + heap_size <= usize::MAX,
        ensures
            final(self).start() == heap_start,
            final(self).end() == heap_start + heap_size,
            final(self).cursor() == heap_start,
            final(self).wf(),
    {
        self.heap_start = heap_start;
        self.heap_end = heap_start + heap_size;
        self.next = heap_start;
    }

    /// Hands out `size` bytes aligned to `align` from the cursor, or 0 when
    /// they do not fit before the end of the heap.
    pub fn allocate(&mut self, size: usize, align: usize) -> (r: usize)
        requires
            is_pow2(align as int),
            old(self).cursor() + align - 1 <= usize::MAX,
        ensures
            (final(self).cursor(), r as int) == bump_step(old(self).cursor(), old(self).end(), size as int, align as int),
            final(self).start() == old(self).start(),
            final(self).end() == old(self).end(),
            old(self).wf() ==> final(self).wf(),
            r != 0 ==> r % align == 0,
    {
        let alloc_start = align_up(self.next, align);
        let alloc_end = match alloc_start.checked_add(size) {
            Some(end) => end,
            None => return 0,
        };
        if alloc_end <= self.heap_end {
            self.next = alloc_end;
            alloc_start
        } else {
            0
        }
    }
}

/// The abstract state of a [`MeshAllocator`]: one LIFO free list per size
/// class (the last element is the head) and the bump allocator behind them.
pub struct MeshModel {
    pub lists: Seq<Seq<usize>>,
    pub heap_start: int,
    pub heap_end: int,
    pub next: int,
}

/// The block size the allocator works with for a request: the larger of the
/// size and the alignment.
pub open spec fn required_size(size: int, align: int) -> int {
    if size >= align { size } else { align }
}

impl MeshModel {
    pub open spec fn wf(self) -> bool {
        &&& self.lists.len() == NUM_CLASSES
        &&& self.heap_start <= self.next <= self.heap_end
    }

    /// The state after a bump allocation that moved the cursor to `next`.
    pub open spec fn with_next(self, next: int) -> MeshModel {
        MeshModel { next, ..self }
    }

    /// The requests that are served from a free list, or whose bump path
    /// cannot overflow the cursor arithmetic.
    pub open spec fn can_alloc(self, size: int, align: int) -> bool {
        &&& is_pow2(align)
        &&& self.cursor_fits(size, align)
    }

    /// A request is served from a non-empty free list, or its bump path
    /// cannot overflow the cursor arithmetic.
    pub open spec fn cursor_fits(self, size: int, align: int) -> bool {
        match size_class_of(required_size(size, align)) {
            Some(i) => self.lists[i].len() > 0 || self.next + class_size(i) - 1 <= usize::MAX,
            None => self.next + align - 1 <= usize::MAX,
        }
    }

    /// The state after, and the address returned by, an allocation of
    /// `size` bytes aligned to `align`.
    pub open spec fn alloc_step(self, size: int, align: int) -> (MeshModel, int) {
        match size_class_of(required_size(size, align)) {
            Some(i) => {
                let list = self.lists[i];
                if list.len() > 0 {
                    (MeshModel { lists: self.lists.update(i, list.drop_last()), ..self }, list.last() as int)
                } else {
                    let (n, r) = bump_step(self.next, self.heap_end, class_size(i), class_size(i));
                    (self.with_next(n), r)
                }
            },
            None => {
                let (n, r) = bump_step(self.next, self.heap_end, size, align);
                (self.with_next(n), r)
            },
        }
    }

    /// The state after the block at `ptr`, allocated with `size` and
    /// `align`, is given back.  Blocks larger than the largest size class
    /// are not reused.
    pub open spec fn dealloc_step(self, ptr: usize, size: int, align: int) -> MeshModel {
        match size_class_of(required_size(size, align)) {
            Some(i) => MeshModel { lists: self.lists.update(i, self.lists[i].push(ptr)), ..self },
            None => self,
        }
    }
}

/// The size classes are the powers of two from 8 to 2048 bytes, and a
/// request is given the smallest class whose blocks hold it; only requests
/// larger than the largest class have none.
pub proof fn lemma_size_classes(required: int)
    ensures
        forall|i: int| 0 <= i < NUM_CLASSES ==> #[trigger] class_size(i) == pow2((i + 3) as nat),
        match size_class_of(required) {
            Some(i) => 0 <= i < NUM_CLASSES && required <= class_size(i) && (i == 0 || class_size(i - 1) < required),
            None => required > class_size(NUM_CLASSES - 1),
        },
{
    vstd::arithmetic::power2::lemma2_to64();
    assert forall|i: int| 0 <= i < NUM_CLASSES implies #[trigger] class_size(i) == pow2((i + 3) as nat) by {
        assert(pow2(3) == 8 && pow2(4) == 16 && pow2(5) == 32 && pow2(6) == 64 && pow2(7) == 128);
        assert(pow2(8) == 256 && pow2(9) == 512 && pow2(10) == 1024 && pow2(11) == 2048);
    }
}

proof fn lemma_pow2_divides(r: int, n: nat, m: nat)
    requires
        n <= m,
        r % (pow2(m) as int) == 0,
    ensures
        r % (pow2(n) as int) == 0,
{
    let a = pow2(n) as int;
    let b = pow2((m - n) as nat) as int;
    vstd::arithmetic::power2::lemma_pow2_adds(n, (m - n) as nat);
    vstd::arithmetic::power2::lemma_pow2_pos(n);
    vstd::arithmetic::power2::lemma_pow2_pos(m);
    assert(pow2(m) == a * b);
    lemma_fundamental_div_mod(r, pow2(m) as int);
    let q = r / (pow2(m) as int);
    assert(r == (a * b) * q);
    assert(r == (b * q) * a) by (nonlinear_arith)
        requires r == (a * b) * q;
    vstd::arithmetic::div_mod::lemma_mod_multiples_basic(b * q, a);
}

/// A request served from the bump allocator gets a block that holds all it
/// asked for and is aligned as asked: the block starts at or after the old
/// cursor, the new cursor lies at or after its end and inside the heap.
/// With `lemma_bump_run`, blocks handed out one after another never overlap.
pub proof fn lemma_bump_block_holds_request(m: MeshModel, size: int, align: int)
    requires
        m.wf(),
        m.can_alloc(size, align),
        0 <= size,
        0 <= m.next,
        match size_class_of(required_size(size, align)) {
            Some(i) => m.lists[i].len() == 0,
            None => true,
        },
    ensures
        ({
            let (m2, r) = m.alloc_step(size, align);
            &&& m.next <= m2.next <= m.heap_end
            &&& r != 0 ==> m.next <= r && r + size <= m2.next && r % align == 0
        }),
{
    let req = required_size(size, align);
    lemma_size_classes(req);
    match size_class_of(req) {
        Some(i) => {
            let c = class_size(i);
            let e = (i + 3) as nat;
            assert(c == pow2(e));
            assert(is_pow2(c)) by {
                assert(e < usize::BITS);
            }
            lemma_bump_block_in_heap(m.next, m.heap_start, m.heap_end, c, c);
            let (n2, r) = bump_step(m.next, m.heap_end, c, c);
            if r != 0 {
                let an = choose|an: nat| an < usize::BITS && pow2(an) == align;
                if e < an {
                    vstd::arithmetic::power2::lemma_pow2_strictly_increases(e, an);
                }
                lemma_pow2_divides(r, an, e);
            }
        },
        None => {
            lemma_bump_block_in_heap(m.next, m.heap_start, m.heap_end, size, align);
        },
    }
}

/// A block given back is the next one handed out for any request of the same
/// size class, and that round trip leaves the allocator as it was.
pub proof fn lemma_dealloc_then_alloc_reuses(
    m: MeshModel,
    ptr: usize,
    size: int,
    align: int,
    size2: int,
    align2: int,
)
    requires
        m.wf(),
        size_class_of(required_size(size, align)) is Some,
        size_class_of(required_size(size2, align2)) == size_class_of(required_size(size, align)),
    ensures
        m.dealloc_step(ptr, size, align).alloc_step(size2, align2) == (m, ptr as int),
        is_pow2(align2) ==> m.dealloc_step(ptr, size, align).can_alloc(size2, align2),
{
    let i = size_class_of(required_size(size, align))->0;
    let d = m.dealloc_step(ptr, size, align);
    assert(d.lists[i] == m.lists[i].push(ptr));
    assert(d.lists[i].drop_last() =~= m.lists[i]);
    assert(d.lists.update(i, d.lists[i].drop_last()) =~= m.lists);
}

/// An allocation taken from a non-empty free list and given back restores
/// the allocator.
pub proof fn lemma_alloc_then_dealloc_restores(m: MeshModel, size: int, align: int)
    requires
        m.wf(),
        size_class_of(required_size(size, align)) matches Some(i) && m.lists[i].len() > 0,
    ensures
        ({
            let (m2, p) = m.alloc_step(size, align);
            m2.dealloc_step(p as usize, size, align) == m
        }),
{
    let i = size_class_of(required_size(size, align))->0;
    let (m2, p) = m.alloc_step(size, align);
    assert(m.lists[i].drop_last().push(m.lists[i].last()) =~= m.lists[i]);
    assert(m2.lists.update(i, m2.lists[i].push(p as usize)) =~= m.lists);
}

/// A bump allocation either fails, returning null and keeping the cursor, or
/// hands out a block aligned as asked that lies inside the heap at or after
/// the old cursor, and moves the cursor to the end of that block.
pub proof fn lemma_bump_block_in_heap(next: int, heap_start: int, heap_end: int, size: int, align: int)
    requires
        heap_start <= next <= heap_end,
        is_pow2(align),
        0 <= size,
        0 <= next,
        next + align - 1 <= usize::MAX,
    ensures
        ({
            let (n, r) = bump_step(next, heap_end, size, align);
            ||| r == 0 && n == next
            ||| next <= r && r + size == n && n <= heap_end && r % align == 0
        }),
{
    let n = choose|n: nat| n < usize::BITS && pow2(n) == align;
    vstd::bits::lemma_usize_pow2_no_overflow(n);
    assert(is_pow2((align as usize) as int));
    assert((next as usize) as int == next);
    lemma_align_up(next as usize, align as usize);
}

/// The addresses a run of bump allocations hands out, request by request
/// (`(size, align)` pairs), from the cursor `next`; 0 for a request that
/// failed.
pub open spec fn bump_results(next: int, heap_end: int, reqs: Seq<(int, int)>) -> Seq<int>
    decreases reqs.len(),
{
    if reqs.len() == 0 {
        Seq::empty()
    } else {
        let (n, r) = bump_step(next, heap_end, reqs[0].0, reqs[0].1);
        seq![r] + bump_results(n, heap_end, reqs.drop_first())
    }
}

/// The cursor after a run of bump allocations.
pub open spec fn bump_cursor(next: int, heap_end: int, reqs: Seq<(int, int)>) -> int
    decreases reqs.len(),
{
    if reqs.len() == 0 {
        next
    } else {
        bump_cursor(bump_step(next, heap_end, reqs[0].0, reqs[0].1).0, heap_end, reqs.drop_first())
    }
}

/// Over any run of bump allocations: the cursor only moves forward and
/// stays in the heap; every block handed out is aligned as asked and lies
/// between the starting cursor and the final one; and each block ends at or
/// before the start of every block handed out after it, so no two overlap.
pub proof fn lemma_bump_run(next: int, heap_end: int, reqs: Seq<(int, int)>)
    requires
        0 <= next <= heap_end,
        forall|i: int| 0 <= i < reqs.len() ==> 0 <= (#[trigger] reqs[i]).0 && is_pow2(reqs[i].1)
            && heap_end + reqs[i].1 - 1 <= usize::MAX,
    ensures
        ({
            let rs = bump_results(next, heap_end, reqs);
            let last = bump_cursor(next, heap_end, reqs);
            &&& rs.len() == reqs.len()
            &&& next <= last <= heap_end
            &&& forall|i: int| 0 <= i < rs.len() && rs[i] != 0 ==> next <= #[trigger] rs[i]
                && rs[i] + reqs[i].0 <= last && rs[i] % reqs[i].1 == 0
            &&& forall|i: int, j: int| 0 <= i < j < rs.len() && rs[i] != 0 && rs[j] != 0
                ==> #[trigger] rs[i] + reqs[i].0 <= #[trigger] rs[j]
        }),
    decreases reqs.len(),
{
    if reqs.len() > 0 {
        let (size, align) = reqs[0];
        assert(0 <= reqs[0].0 && is_pow2(reqs[0].1) && heap_end + reqs[0].1 - 1 <= usize::MAX);
        lemma_bump_block_in_heap(next, next, heap_end, size, align);
        let (n, r) = bump_step(next, heap_end, size, align);
        let tail = reqs.drop_first();
        assert forall|i: int| 0 <= i < tail.len() implies 0 <= (#[trigger] tail[i]).0 && is_pow2(tail[i].1)
            && heap_end + tail[i].1 - 1 <= usize::MAX by {
            assert(tail[i] == reqs[i + 1]);
        }
        lemma_bump_run(n, heap_end, tail);
        let rs = bump_results(next, heap_end, reqs);
        let trs = bump_results(n, heap_end, tail);
        let last = bump_cursor(next, heap_end, reqs);
        assert(rs =~= seq![r] + trs);
        assert forall|i: int| 0 <= i < rs.len() && rs[i] != 0 implies next <= #[trigger] rs[i]
            && rs[i] + reqs[i].0 <= last && rs[i] % reqs[i].1 == 0 by {
            if i > 0 {
                assert(rs[i] == trs[i - 1]);
                assert(reqs[i] == tail[i - 1]);
            }
        }
        assert forall|i: int, j: int| 0 <= i < j < rs.len() && rs[i] != 0 && rs[j] != 0
            implies #[trigger] rs[i] + reqs[i].0 <= #[trigger] rs[j] by {
            assert(rs[j] == trs[j - 1]);
            if i > 0 {
                assert(rs[i] == trs[i - 1]);
                assert(reqs[i] == tail[i - 1]);
            }
        }
    }
}

/// Segregated free lists for blocks of 8 to 2048 bytes, refilled from a
/// bump allocator; larger requests go to the bump allocator directly.
pub struct MeshAllocator {
    list_heads: Vec<Vec<usize>>,
    fallback_allocator: BumpAllocator,
}

impl View for MeshAllocator {
    type V = MeshModel;

    closed spec fn view(&self) -> MeshModel {
        MeshModel {
            lists: Seq::new(self.list_heads@.len(), |i: int| self.list_heads@[i]@),
            heap_start: self.fallback_allocator.start(),
            heap_end: self.fallback_allocator.end(),
            next: self.fallback_allocator.cursor(),
        }
    }
}

fn size_class_index(size: usize) -> (r: Option<usize>)
    ensures
        match r {
            Some(i) => size_class_of(size as int) == Some(i as int),
            None => size_class_of(size as int) is None,
        },
{
    let mut i: usize = 0;
    while i < NUM_CLASSES
        invariant
            i <= NUM_CLASSES,
            forall|j: int| 0 <= j < i ==> class_size(j) < size,
        decreases NUM_CLASSES - i,
    {
        if block_size(i) >= size {
            proof {
                if i > 0 {
                    assert(class_size(i - 1) < size);
                }
            }
            return Some(i);
        }
        i = i + 1;
    }
    proof {
        assert(class_size(8) < size);
    }
    None
}

impl MeshAllocator {
    /// An allocator with empty free lists over the empty heap at address 0.
    pub fn new() -> (r: Self)
        ensures
            r@.wf(),
            r@.lists == Seq::new(NUM_CLASSES as nat, |i: int| Seq::<usize>::empty()),
            r@.heap_start == 0,
            r@.heap_end == 0,
            r@.next == 0,
    {
        let mut list_heads: Vec<Vec<usize>> = Vec::new();
        let mut i: usize = 0;
        while i < NUM_CLASSES
            invariant
                i <= NUM_CLASSES,
                list_heads@.len() == i,
                forall|j: int| 0 <= j < i ==> list_heads@[j]@ == Seq::<usize>::empty(),
            decreases NUM_CLASSES - i,
        {
            list_heads.push(Vec::new());
            i = i + 1;
        }
        let r = MeshAllocator { list_heads, fallback_allocator: BumpAllocator::new() };
        assert(r@.lists =~= Seq::new(NUM_CLASSES as nat, |i: int| Seq::<usize>::empty()));
        r
    }

    /// Gives the bump allocator behind the free lists the heap
    /// `[heap_start, heap_start + heap_size)`; the free lists are kept.
    pub fn init(&mut self, heap_start: usize, heap_size: usize)
        requires
            heap_start + heap_size <= usize::MAX,
        ensures
            final(self)@ == (MeshModel {
                heap_start: heap_start as int,
                heap_end: heap_start + heap_size,
                next: heap_start as int,
                ..old(self)@
            }),
            old(self)@.wf() ==> final(self)@.wf(),
    {
        self.fallback_allocator.init(heap_start, heap_size);
    }

    fn fallback_alloc(&mut self, size: usize, align: usize) -> (r: usize)
        requires
            is_pow2(align as int),
            old(self)@.next + align - 1 <= usize::MAX,
        ensures
            ({
                let (n, p) = bump_step(old(self)@.next, old(self)@.heap_end, size as int, align as int);
                final(self)@ == old(self)@.with_next(n) && r as int == p
            }),
            old(self)@.wf() ==> final(self)@.wf(),
    {
        self.fallback_allocator.allocate(size, align)
    }

    /// Allocates `size` bytes aligned to `align` (a power of two): from the
    /// free list of the smallest size class that holds them if that list is
    /// not empty, else from the bump allocator (a whole block of the class
    /// size, aligned to that size, for small requests).  Returns 0 when the
    /// heap is exhausted.
    pub fn allocate(&mut self, size: usize, align: usize) -> (r: usize)
        requires
            old(self)@.wf(),
            old(self)@.can_alloc(size as int, align as int),
        ensures
            (final(self)@, r as int) == old(self)@.alloc_step(size as int, align as int),
            final(self)@.wf(),
    {
        let required_size = if size >= align { size } else { align };
        let index_opt = size_class_index(required_size);
        match index_opt {
            Some(index) => {
                let size = block_size(index);
                let popped = self.list_heads[index].pop();
                match popped {
                    Some(node) => {
                        assert(self@.lists =~= old(self)@.lists.update(index as int, old(self)@.lists[index as int].drop_last()));
                        assert(self@.lists.len() == NUM_CLASSES);
                        node
                    },
                    None => {
                        assert(self@.lists =~= old(self)@.lists);
                        assert(self@ == old(self)@);
                        proof {
                            assert(is_pow2(class_size(index as int))) by {
                                vstd::arithmetic::power2::lemma2_to64();
                                assert(pow2(3) == 8 && pow2(4) == 16 && pow2(5) == 32 && pow2(6) == 64);
                                assert(pow2(7) == 128 && pow2(8) == 256 && pow2(9) == 512 && pow2(10) == 1024 && pow2(11) == 2048);
                            }
                        }
                        self.fallback_alloc(size, size)
                    },
                }
            },
            None => self.fallback_alloc(size, align),
        }
    }

    /// Whether a request is served from a non-empty free list or its bump
    /// path leaves the cursor arithmetic in range (the part of
    /// [`MeshModel::can_alloc`] beyond the alignment being a power of two).
    pub fn cursor_fits(&self, size: usize, align: usize) -> (r: bool)
        requires
            self@.wf(),
        ensures
            r == self@.cursor_fits(size as int, align as int),
    {
        let required_size = if size >= align { size } else { align };
        let next = self.fallback_allocator.next;
        match size_class_index(required_size) {
            Some(index) => {
                if self.list_heads[index].len() > 0 {
                    return true;
                }
                let step = block_size(index);
                next <= usize::MAX - (step - 1)
            },
            None => {
                if align == 0 {
                    true
                } else {
                    next <= usize::MAX - (align - 1)
                }
            },
        }
    }

    /// Returns the block at `ptr`, allocated with `size` and `align`, to the
    /// free list of its size class; blocks above the largest class are
    /// leaked.
    pub fn dealloc(&mut self, ptr: usize, size: usize, align: usize)
        requires
            old(self)@.wf(),
        ensures
            final(self)@ == old(self)@.dealloc_step(ptr, size as int, align as int),
            final(self)@.wf(),
    {
        let required_size = if size >= align { size } else { align };
        let index_opt = size_class_index(required_size);
        if let Some(index) = index_opt {
            self.list_heads[index].push(ptr);
            assert(self@.lists =~= old(self)@.lists.update(index as int, old(self)@.lists[index as int].push(ptr)));
        }
    }
}

} // verus!
