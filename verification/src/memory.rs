//! Physical frames and process address spaces: the boot frame allocator,
//! the regions a process may touch, the pages `fork` shares, and the page
//! flags of copy-on-write.
use vstd::prelude::*;
use std::collections::BTreeSet;
use crate::smp::TRAMPOLINE_PHYS;

verus! {

/// A page's size.
pub const PAGE_SIZE: u64 = 4096;

/// The first address past physical memory the paging structures can name.
pub const PHYS_LIMIT: u64 = 0x10_0000_0000_0000;

/// The writable flag of a page-table entry.
pub const WRITABLE: u64 = 0x2;

/// The flag bit (9, free for the kernel) marking a copy-on-write page.
pub const COPY_ON_WRITE: u64 = 0x200;

/// A region of physical memory the boot loader reported.
#[derive(Debug, Clone, Copy, PartialEq, Eq, Structural)]
pub struct MemRegion {
    pub start: u64,
    pub end: u64,
    pub usable: bool,
}

/// The frame allocator: it walks the regions in order and hands out the
/// usable ones frame by frame, never the AP start-up page.
pub struct BootInfoFrameAllocator {
    pub regions: Vec<MemRegion>,
    pub region_idx: usize,
    pub next_addr_in_region: u64,
}

/// The allocator's invariant: every region ends within physical memory, and
/// while a region is current the next address is in or past it.
pub open spec fn alloc_wf(a: BootInfoFrameAllocator) -> bool {
    &&& forall|i: int| 0 <= i < a.regions@.len() ==> #[trigger] a.regions@[i].end <= PHYS_LIMIT
    &&& a.region_idx < a.regions@.len() ==> a.regions@[a.region_idx as int].start
        <= a.next_addr_in_region
}

/// The page-aligned frame holding `addr`.
pub open spec fn frame_of(addr: u64) -> u64 {
    (addr - addr % 4096) as u64
}

/// The allocator hands out `frame` (holding address `addr`) and moves from
/// `a` to `b`: `addr` lies in a usable region, is not the AP start-up page,
/// and comes at or after where `a` stood; `b` stands just past it.
pub open spec fn allocation(
    a: BootInfoFrameAllocator,
    b: BootInfoFrameAllocator,
    addr: u64,
    frame: u64,
) -> bool {
    &&& b.regions@ == a.regions@
    &&& b.region_idx < b.regions@.len()
    &&& b.regions@[b.region_idx as int].usable
    &&& b.regions@[b.region_idx as int].start <= addr < b.regions@[b.region_idx as int].end
    &&& addr != TRAMPOLINE_PHYS
    &&& frame == frame_of(addr)
    &&& b.next_addr_in_region == addr + PAGE_SIZE
    &&& (a.region_idx < b.region_idx || (a.region_idx == b.region_idx && a.next_addr_in_region
        <= addr))
}

/// Where the allocator in state `a` walks region `i` from: the next address
/// in the current region, the start of a later one.
pub open spec fn walk_base(a: BootInfoFrameAllocator, i: int) -> int {
    if i == a.region_idx {
        a.next_addr_in_region as int
    } else {
        a.regions@[i].start as int
    }
}

/// `addr` is one the allocator in state `a` can still hand out from region
/// `i`: the region is usable and not behind the current one, and `addr` is a
/// whole number of pages past where the walk of the region starts, before
/// the region's end, and not the AP start-up page.
pub open spec fn offered(a: BootInfoFrameAllocator, i: int, addr: int) -> bool {
    &&& a.region_idx <= i < a.regions@.len()
    &&& a.regions@[i].usable
    &&& walk_base(a, i) <= addr < a.regions@[i].end
    &&& (addr - walk_base(a, i)) % 4096 == 0
    &&& addr != TRAMPOLINE_PHYS
}

/// Address `addr` of region `i` comes no later in the walk than address `x`
/// of region `j`.
pub open spec fn walk_before(i: int, addr: int, j: int, x: int) -> bool {
    i < j || (i == j && addr <= x)
}

/// The allocator in state `a` hands out `frame`, holding `addr` of region
/// `i`, the first address on offer in region order, and moves to `b`, which
/// stands just past it.
pub open spec fn takes(
    a: BootInfoFrameAllocator,
    b: BootInfoFrameAllocator,
    i: int,
    addr: u64,
    frame: u64,
) -> bool {
    &&& offered(a, i, addr as int)
    &&& forall|j: int, x: int| #[trigger] offered(a, j, x) ==> walk_before(i, addr as int, j, x)
    &&& b.regions@ == a.regions@
    &&& b.region_idx == i
    &&& b.next_addr_in_region == addr + PAGE_SIZE
    &&& frame == frame_of(addr)
}

/// No frame is skipped and none is handed out twice: after the allocator
/// takes `addr`, what it still has on offer is exactly what it had, less
/// `addr`.
pub proof fn lemma_take_removes_one(
    a: BootInfoFrameAllocator,
    b: BootInfoFrameAllocator,
    i: int,
    addr: u64,
    frame: u64,
)
    requires
        alloc_wf(a),
        takes(a, b, i, addr, frame),
    ensures
        forall|j: int, x: int|
            #[trigger] offered(b, j, x) <==> (offered(a, j, x) && !(j == i && x == addr)),
{
    assert forall|j: int, x: int| #[trigger] offered(b, j, x) <==> (offered(a, j, x) && !(j == i
        && x == addr)) by {
        if offered(a, j, x) && !(j == i && x == addr) {
            assert(walk_before(i, addr as int, j, x));
            if j == i {
                let w = walk_base(a, i);
                assert(x > addr);
                assert((x - w) % 4096 == 0 && (addr - w) % 4096 == 0);
                assert((x - (addr + 4096)) % 4096 == 0 && x >= addr + 4096) by {
                    lemma_same_residue(x - w, addr - w);
                }
            }
        }
        if offered(b, j, x) && j == i {
            let w = walk_base(a, i);
            assert(x >= addr + 4096);
            assert((x - w) % 4096 == 0) by {
                lemma_residue_shift(x - (addr + 4096), addr - w);
            }
        }
    }
}

/// Two multiples of a page apart by more than nothing are a page apart.
proof fn lemma_same_residue(p: int, q: int)
    requires
        p % 4096 == 0,
        q % 4096 == 0,
        p > q,
    ensures
        (p - (q + 4096)) % 4096 == 0,
        p >= q + 4096,
{
    assert(p == 4096 * (p / 4096)) by (nonlinear_arith)
        requires
            p % 4096 == 0,
    ;
    assert(q == 4096 * (q / 4096)) by (nonlinear_arith)
        requires
            q % 4096 == 0,
    ;
    assert(p / 4096 > q / 4096) by (nonlinear_arith)
        requires
            p == 4096 * (p / 4096),
            q == 4096 * (q / 4096),
            p > q,
    ;
    assert(p - (q + 4096) == 4096 * (p / 4096 - q / 4096 - 1)) by (nonlinear_arith)
        requires
            p == 4096 * (p / 4096),
            q == 4096 * (q / 4096),
    ;
    vstd::arithmetic::div_mod::lemma_mod_multiples_basic(p / 4096 - q / 4096 - 1, 4096);
    assert((p / 4096 - q / 4096 - 1) * 4096 == 4096 * (p / 4096 - q / 4096 - 1)) by (nonlinear_arith);
}

/// A multiple of a page plus a page past a multiple of a page is one too.
proof fn lemma_residue_shift(d: int, q: int)
    requires
        d % 4096 == 0,
        q % 4096 == 0,
    ensures
        (d + q + 4096) % 4096 == 0,
{
    assert(d == 4096 * (d / 4096)) by (nonlinear_arith)
        requires
            d % 4096 == 0,
    ;
    assert(q == 4096 * (q / 4096)) by (nonlinear_arith)
        requires
            q % 4096 == 0,
    ;
    assert(d + q + 4096 == (d / 4096 + q / 4096 + 1) * 4096) by (nonlinear_arith)
        requires
            d == 4096 * (d / 4096),
            q == 4096 * (q / 4096),
    ;
    vstd::arithmetic::div_mod::lemma_mod_multiples_basic(d / 4096 + q / 4096 + 1, 4096);
}

impl BootInfoFrameAllocator {
    /// An allocator at the start of the first region.
    pub fn init(regions: Vec<MemRegion>) -> (r: Self)
        requires
            forall|i: int| 0 <= i < regions@.len() ==> #[trigger] regions@[i].end <= PHYS_LIMIT,
        ensures
            alloc_wf(r),
            r.regions@ == regions@,
            r.region_idx == 0,
            r.next_addr_in_region == (if regions@.len() > 0 {
                regions@[0].start
            } else {
                u64::MAX
            }),
    {
        let next = if regions.len() > 0 {
            regions[0].start
        } else {
            u64::MAX
        };
        proof {
            if regions@.len() > 0 {
                assert(regions@[0].end <= PHYS_LIMIT);
            }
        }
        BootInfoFrameAllocator { regions, region_idx: 0, next_addr_in_region: next }
    }

    /// The next free frame: the frame of the first address on offer, in
    /// region order, after which the allocator stands just past it; `None`
    /// exactly when no usable memory is left on offer.
    pub fn allocate_frame(&mut self) -> (r: Option<u64>)
        requires
            alloc_wf(*old(self)),
        ensures
            alloc_wf(*final(self)),
            final(self).regions@ == old(self).regions@,
            match r {
                Some(frame) => exists|i: int, addr: u64|
                    takes(*old(self), *final(self), i, addr, frame) && allocation(
                        *old(self),
                        *final(self),
                        addr,
                        frame,
                    ),
                None => forall|j: int, x: int| !#[trigger] offered(*old(self), j, x),
            },
    {
        let ghost start = *self;
        let mut result: Option<u64> = None;
        let ghost mut found: u64 = 0;
        loop
            invariant_except_break
                result is None,
                alloc_wf(*self),
                start == *old(self),
                self.regions@ == start.regions@,
                start.region_idx <= self.region_idx,
                self.region_idx < self.regions@.len() ==> walk_base(start, self.region_idx as int)
                    <= self.next_addr_in_region && (self.next_addr_in_region - walk_base(
                    start,
                    self.region_idx as int,
                )) % 4096 == 0,
                forall|j: int, x: int|
                    #[trigger] offered(start, j, x) ==> walk_before(
                        self.region_idx as int,
                        self.next_addr_in_region as int,
                        j,
                        x,
                    ),
            ensures
                alloc_wf(*self),
                self.regions@ == old(self).regions@,
                match result {
                    Some(frame) => takes(*old(self), *self, self.region_idx as int, found, frame)
                        && allocation(*old(self), *self, found, frame),
                    None => forall|j: int, x: int| !#[trigger] offered(*old(self), j, x),
                },
            decreases self.regions@.len() - self.region_idx, PHYS_LIMIT + PAGE_SIZE
                - self.next_addr_in_region,
        {
            if self.region_idx >= self.regions.len() {
                break;
            }
            let region = self.regions[self.region_idx];
            let ghost idx = self.region_idx as int;
            assert(self.regions@[idx] == region);
            if !region.usable || self.next_addr_in_region >= region.end {
                self.region_idx = self.region_idx + 1;
                self.next_addr_in_region = if self.region_idx < self.regions.len() {
                    self.regions[self.region_idx].start
                } else {
                    u64::MAX
                };
                continue;
            }
            let addr = self.next_addr_in_region;
            assert(region.end <= PHYS_LIMIT);
            self.next_addr_in_region = addr + PAGE_SIZE;
            if addr == TRAMPOLINE_PHYS {
                proof {
                    assert forall|j: int, x: int| #[trigger] offered(start, j, x) implies walk_before(
                        idx,
                        addr + 4096,
                        j,
                        x,
                    ) by {
                        if j == idx {
                            let w = walk_base(start, idx);
                            assert(x != addr);
                            lemma_same_residue(x - w, addr - w);
                        }
                    }
                    lemma_residue_shift(0, addr - walk_base(start, idx));
                }
                continue;
            }
            let frame = addr - addr % PAGE_SIZE;
            proof {
                found = addr;
            }
            result = Some(frame);
            break;
        }
        result
    }
}

/// The regions sit in ascending order without overlap.
pub open spec fn sorted_disjoint(regions: Seq<MemRegion>) -> bool {
    &&& forall|i: int| 0 <= i < regions.len() ==> #[trigger] regions[i].start <= regions[i].end
    &&& forall|i: int, j: int|
        0 <= i < j < regions.len() ==> #[trigger] regions[i].end <= #[trigger] regions[j].start
}

/// Frames are never handed out twice: over regions in ascending order
/// without overlap, each allocation's address is above the one before.
pub proof fn lemma_allocations_increase(
    a: BootInfoFrameAllocator,
    b: BootInfoFrameAllocator,
    c: BootInfoFrameAllocator,
    addr1: u64,
    frame1: u64,
    addr2: u64,
    frame2: u64,
)
    requires
        sorted_disjoint(a.regions@),
        allocation(a, b, addr1, frame1),
        allocation(b, c, addr2, frame2),
    ensures
        addr1 < addr2,
{
    if b.region_idx < c.region_idx {
        assert(a.regions@[b.region_idx as int].end <= a.regions@[c.region_idx as int].start);
    }
}

/// What a process may touch: its top-level page table and the address
/// ranges it has registered.
pub struct AddressSpace {
    pub pml4_frame: u64,
    pub regions: Vec<(u64, u64)>,
}

impl AddressSpace {
    /// A space with no regions, whose top-level table is at `pml4_frame`.
    pub fn new(pml4_frame: u64) -> (r: Self)
        ensures
            r.pml4_frame == pml4_frame,
            r.regions@.len() == 0,
    {
        AddressSpace { pml4_frame, regions: Vec::new() }
    }

    /// The physical address loaded into CR3 to run in this space.
    pub fn cr3_frame(&self) -> (r: u64)
        ensures
            r == self.pml4_frame,
    {
        self.pml4_frame
    }

    /// Adds the range `start..end` to what the process may touch.
    pub fn register_region(&mut self, start: u64, end: u64)
        ensures
            final(self).regions@ == old(self).regions@.push((start, end)),
            final(self).pml4_frame == old(self).pml4_frame,
    {
        self.regions.push((start, end));
    }

    /// Whether `start..end` lies within one registered range.
    pub fn contains(&self, start: u64, end: u64) -> (r: bool)
        ensures
            r == exists|i: int|
                0 <= i < self.regions@.len() && start >= (#[trigger] self.regions@[i]).0 && end
                    <= self.regions@[i].1,
    {
        let mut i: usize = 0;
        while i < self.regions.len()
            invariant
                i <= self.regions@.len(),
                forall|j: int|
                    0 <= j < i ==> !(start >= (#[trigger] self.regions@[j]).0 && end
                        <= self.regions@[j].1),
            decreases self.regions@.len() - i,
        {
            let (lo, hi) = self.regions[i];
            if start >= lo && end <= hi {
                return true;
            }
            i = i + 1;
        }
        false
    }
}

/// The index of the top-level page-table slot that maps `vaddr`.
pub fn pml4_index(vaddr: u64) -> (r: usize)
    ensures
        r == (vaddr / 0x80_0000_0000) % 512,
        r < 512,
{
    let i = (vaddr >> 39u64) & 0x1FF;
    assert(i == (vaddr / 0x80_0000_0000) % 512 && i < 512) by (bit_vector)
        requires
            i == (vaddr >> 39u64) & 0x1FF,
    ;
    i as usize
}

/// The flags `fork` gives the parent's copy of a writable page: read-only and
/// marked copy-on-write; other pages keep theirs.
pub fn parent_flags_after_fork(flags: u64) -> (r: u64)
    ensures
        r == (if flags & WRITABLE != 0 {
            (flags & !WRITABLE) | COPY_ON_WRITE
        } else {
            flags
        }),
{
    if flags & WRITABLE != 0 {
        (flags & !WRITABLE) | COPY_ON_WRITE
    } else {
        flags
    }
}

/// The flags the child's mapping of a shared page gets: read-only and
/// marked copy-on-write.
pub fn child_flags_after_fork(flags: u64) -> (r: u64)
    ensures
        r == (flags & !WRITABLE) | COPY_ON_WRITE,
{
    (flags & !WRITABLE) | COPY_ON_WRITE
}

/// A write fault on a page with these flags is a copy-on-write fault the
/// kernel resolves: the page is read-only and marked copy-on-write.
pub fn is_cow_fault(flags: u64) -> (r: bool)
    ensures
        r == (flags & WRITABLE == 0 && flags & COPY_ON_WRITE != 0),
{
    flags & WRITABLE == 0 && flags & COPY_ON_WRITE != 0
}

/// The flags of the private copy that resolves a copy-on-write fault:
/// writable again, no longer marked.
pub fn flags_after_cow_copy(flags: u64) -> (r: u64)
    ensures
        r == (flags | WRITABLE) & !COPY_ON_WRITE,
{
    (flags | WRITABLE) & !COPY_ON_WRITE
}

/// Copy-on-write gives a page back its flags: a writable page that `fork`
/// marked (in the parent or the child) is a copy-on-write fault, and the
/// copy that resolves it has the flags the page had before the fork, as
/// long as bit 9 was clear then.
pub proof fn lemma_cow_roundtrip(flags: u64)
    requires
        flags & WRITABLE != 0,
        flags & COPY_ON_WRITE == 0,
    ensures
        ({
            let p = (flags & !WRITABLE) | COPY_ON_WRITE;
            &&& p & WRITABLE == 0 && p & COPY_ON_WRITE != 0
            &&& (p | WRITABLE) & !COPY_ON_WRITE == flags
        }),
{
    assert(((flags & !0x2u64) | 0x200u64) & 0x2u64 == 0 && ((flags & !0x2u64) | 0x200u64) & 0x200u64
        != 0 && ((((flags & !0x2u64) | 0x200u64) | 0x2u64) & !0x200u64) == flags) by (bit_vector)
        requires
            flags & 0x2u64 != 0,
            flags & 0x200u64 == 0,
    ;
}

/// Whether `a` is a canonical virtual address: bits 47 to 63 all equal.
pub open spec fn canonical(a: u64) -> bool {
    a < 0x8000_0000_0000 || a >= 0xFFFF_8000_0000_0000
}

/// A region `start..end` whose first and last byte have canonical addresses.
pub open spec fn region_ok(r: (u64, u64)) -> bool {
    &&& r.1 >= 1
    &&& canonical(r.0)
    &&& canonical((r.1 - 1) as u64)
}

/// Whether the region `start..end` is one whose pages can be named:
/// not empty at address 0, with canonical first and last bytes.
pub fn is_region_ok(r: (u64, u64)) -> (b: bool)
    ensures
        b == region_ok(r),
{
    r.1 >= 1 && (r.0 < 0x8000_0000_0000 || r.0 >= 0xFFFF_8000_0000_0000) && (r.1 - 1
        < 0x8000_0000_0000 || r.1 - 1 >= 0xFFFF_8000_0000_0000)
}

/// Page `p` (by its start address) holds a byte of the region `start..end`
/// or lies between its first and last page.
pub open spec fn page_in_region(p: u64, r: (u64, u64)) -> bool {
    &&& p % PAGE_SIZE == 0
    &&& frame_of(r.0) <= p <= frame_of((r.1 - 1) as u64)
}

/// The pages of the regions `regions[..n]`.
pub open spec fn region_pages(regions: Seq<(u64, u64)>, n: int) -> Set<u64> {
    Set::new(|p: u64| exists|j: int| 0 <= j < n && page_in_region(p, #[trigger] regions[j]))
}

/// The pages of the first `i` regions.
pub open spec fn pages_upto(regions: Seq<(u64, u64)>, i: usize) -> Set<u64> {
    region_pages(regions, i as int)
}

/// The pages from `first` up to, not including, `p`.
pub open spec fn page_range(first: u64, p: u64) -> Set<u64> {
    Set::new(|q: u64| q % PAGE_SIZE == 0 && first <= q < p)
}

/// The pages from `first` to `last`, both included.
pub open spec fn page_span(first: u64, last: u64) -> Set<u64> {
    Set::new(|q: u64| q % PAGE_SIZE == 0 && first <= q <= last)
}

/// The pages of all the regions.
pub open spec fn all_region_pages(regions: Seq<(u64, u64)>) -> Set<u64> {
    region_pages(regions, regions.len() as int)
}

/// The start of the page holding `a`.
fn page_start(a: u64) -> (r: u64)
    ensures
        r == frame_of(a),
        r % PAGE_SIZE == 0,
        r <= a,
{
    a - a % PAGE_SIZE
}

/// Adding the pages of region `i` to those of the regions before it.
proof fn lemma_pages_step(regions: Seq<(u64, u64)>, i: usize, first: u64, last: u64, s: Set<u64>)
    requires
        i < regions.len(),
        i < usize::MAX,
        first == frame_of(regions[i as int].0),
        last == frame_of((regions[i as int].1 - 1) as u64),
        s == pages_upto(regions, i) + (if first <= last {
            page_span(first, last)
        } else {
            Set::empty()
        }),
    ensures
        s == pages_upto(regions, (i + 1) as usize),
{
    let next = pages_upto(regions, (i + 1) as usize);
    assert forall|q: u64| #[trigger] s.contains(q) == next.contains(q) by {
        if page_in_region(q, regions[i as int]) {
            assert(next.contains(q));
        }
        if next.contains(q) {
            let j = choose|j: int| 0 <= j < i + 1 && page_in_region(q, #[trigger] regions[j]);
            if j < i {
                assert(pages_upto(regions, i).contains(q));
            }
        }
        if pages_upto(regions, i).contains(q) {
            let j = choose|j: int| 0 <= j < i && page_in_region(q, #[trigger] regions[j]);
            assert(next.contains(q));
        }
    }
    assert(s =~= next);
}

/// The pages `fork` shares with the child: every page from the first to the
/// last page of each registered region, each once.
pub fn fork_pages(regions: &[(u64, u64)]) -> (r: BTreeSet<u64>)
    requires
        forall|i: int| 0 <= i < regions@.len() ==> region_ok(#[trigger] regions@[i]),
    ensures
        r@ == all_region_pages(regions@),
{
    broadcast use vstd::std_specs::btree::group_btree_axioms, vstd::laws_cmp::group_laws_cmp;

    let mut pages: BTreeSet<u64> = BTreeSet::new();
    let mut i: usize = 0;
    assert(pages@ =~= pages_upto(regions@, 0));
    while i < regions.len()
        invariant
            i <= regions@.len(),
            forall|k: int| 0 <= k < regions@.len() ==> region_ok(#[trigger] regions@[k]),
            pages@ == pages_upto(regions@, i),
        decreases regions@.len() - i,
    {
        let (start, end) = regions[i];
        let first = page_start(start);
        let last = page_start(end - 1);
        let ghost before = pages@;
        if first <= last {
            let mut p = first;
            loop
                invariant_except_break
                    first <= p <= last,
                    p % PAGE_SIZE == 0,
                    last % PAGE_SIZE == 0,
                    pages@ == before + page_range(first, p),
                ensures
                    pages@ == before + page_span(first, last),
                decreases last - p,
            {
                pages.insert(p);
                if p == last {
                    assert(pages@ =~= before + page_span(first, last));
                    break;
                }
                p = p + PAGE_SIZE;
                assert(pages@ =~= before + page_range(first, p));
            }
        } else {
            assert(pages@ =~= before + Set::empty());
        }
        proof {
            lemma_pages_step(regions@, i, first, last, pages@);
        }
        i = i + 1;
    }
    assert(pages_upto(regions@, i) == all_region_pages(regions@));
    pages
}

/// Whether frames were handed out back to back, as a DMA buffer needs.
pub fn contiguous(frames: &[u64]) -> (r: bool)
    ensures
        r == (forall|i: int|
            0 < i < frames@.len() ==> #[trigger] frames@[i] == frames@[i - 1] + PAGE_SIZE),
{
    let mut i: usize = 1;
    while i < frames.len()
        invariant
            1 <= i,
            i <= frames@.len() || frames@.len() == 0,
            forall|j: int| 0 < j < i && j < frames@.len() ==> #[trigger] frames@[j] == frames@[j
                - 1] + PAGE_SIZE,
        decreases frames@.len() - i,
    {
        if frames[i - 1] > u64::MAX - PAGE_SIZE || frames[i] != frames[i - 1] + PAGE_SIZE {
            assert(frames@[i as int] != frames@[i - 1] + PAGE_SIZE);
            return false;
        }
        i = i + 1;
    }
    true
}

} // verus!
