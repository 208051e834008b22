//! Boot-time physical memory: a bump allocator over the RAM regions the platform
//! reports, and the capabilities minted from it.
use vstd::prelude::*;
use super::addr::{PhysAddr, spec_align_up, is_pow2, lemma_align_up_pow2};
use super::physmem::PhysMem;
use super::untyped::UntypedRegion;
use crate::cap::{CapType, Capability, Rights, RIGHTS_ALL, CNODE_PAGES, vspace_data};
use crate::proc::asid::{AsidManager, Asid, next_asid_state, MAX_ASID};
use crate::platform::{MemoryRegion, MemoryType};
use crate::proc::thread::TCB;

verus! {

/// The most RAM regions the allocator tracks.
pub const MAX_PMEM_REGIONS: usize = 16;

/// One RAM region: memory below `current` has been handed out, `[current, end)` is free.
#[derive(Clone, Copy, PartialEq, Eq, Structural, Debug)]
pub struct RegionState {
    pub start: PhysAddr,
    pub current: PhysAddr,
    pub end: PhysAddr,
}

/// The physical memory allocator.
pub struct PmemManager {
    pub regions: Vec<RegionState>,
    /// The frames given back, in the order they came back. Blocks are handed
    /// out from the regions only, so a frame given back is not handed out again.
    pub freed: Vec<PhysAddr>,
}

/// A run of physical frames.
#[derive(Clone, Copy, PartialEq, Eq, Structural, Debug)]
pub struct PhysFrame {
    pub paddr: PhysAddr,
    pub pages: usize,
}

/// A range of physical memory.
#[derive(Clone, Copy, PartialEq, Eq, Structural, Debug)]
pub struct MemoryRange {
    pub start: PhysAddr,
    pub size: usize,
}

impl MemoryRange {
    pub fn from(start: PhysAddr, size: usize) -> (r: MemoryRange)
        ensures
            r.start == start && r.size == size,
    {
        MemoryRange { start, size }
    }

    pub fn end(&self) -> (r: PhysAddr)
        requires
            self.start.0 + self.size <= u64::MAX,
        ensures
            r.0 == self.start.0 + self.size,
    {
        PhysAddr(self.start.0 + self.size as u64)
    }

    pub fn empty() -> (r: Self)
        ensures
            r.start.0 == 0 && r.size == 0,
    {
        Self { start: PhysAddr::null(), size: 0 }
    }
}

/// A region can serve `size` bytes at `align` when the aligned free pointer plus `size` stays within it.
pub open spec fn region_fits(r: RegionState, size: u64, align: u64) -> bool {
    spec_align_up(r.current.0, align) + size <= r.end.0
}

/// The first region that can serve the request.
pub open spec fn first_fit(regions: Seq<RegionState>, size: u64, align: u64) -> Option<int> {
    if exists|i: int| 0 <= i < regions.len() && region_fits(regions[i], size, align) {
        Some(
            choose|i: int|
                0 <= i < regions.len() && region_fits(regions[i], size, align) && (forall|j: int|
                    0 <= j < i ==> !region_fits(regions[j], size, align)),
        )
    } else {
        None
    }
}

pub proof fn lemma_first_fit(regions: Seq<RegionState>, size: u64, align: u64)
    ensures
        match first_fit(regions, size, align) {
            Some(i) => 0 <= i < regions.len() && region_fits(regions[i], size, align),
            None => forall|i: int| 0 <= i < regions.len() ==> !region_fits(#[trigger] regions[i], size, align),
        },
{
    if exists|i: int| 0 <= i < regions.len() && region_fits(regions[i], size, align) {
        let w = choose|i: int| 0 <= i < regions.len() && region_fits(regions[i], size, align);
        lemma_least_fit(regions, size, align, w);
    }
}

proof fn lemma_least_fit(regions: Seq<RegionState>, size: u64, align: u64, w: int)
    requires
        0 <= w < regions.len(),
        region_fits(regions[w], size, align),
    ensures
        exists|i: int|
            0 <= i < regions.len() && region_fits(regions[i], size, align) && (forall|j: int|
                0 <= j < i ==> !region_fits(regions[j], size, align)),
    decreases w,
{
    if exists|j: int| 0 <= j < w && region_fits(regions[j], size, align) {
        let j = choose|j: int| 0 <= j < w && region_fits(regions[j], size, align);
        lemma_least_fit(regions, size, align, j);
    } else {
        assert(forall|j: int| 0 <= j < w ==> !region_fits(regions[j], size, align));
    }
}

/// The free parts `[current, end)` of the regions do not overlap.
pub open spec fn free_parts_disjoint(regions: Seq<RegionState>) -> bool {
    forall|i: int, j: int|
        0 <= i < regions.len() && 0 <= j < regions.len() && i != j ==> #[trigger] regions[i].end.0 <= #[trigger] regions[j].current.0
            || regions[j].end.0 <= regions[i].current.0
}

/// With a power-of-two alignment, an allocation lies within the free part of the
/// region it comes from, starts at a multiple of the alignment, and the region's
/// free part afterwards starts where the allocation ends.
pub proof fn law_allocation_within_free_part(regions: Seq<RegionState>, size: u64, align: u64)
    requires
        crate::mem::addr::is_pow2(align),
        forall|i: int| 0 <= i < regions.len() ==> #[trigger] regions[i].current.0 <= regions[i].end.0,
        forall|i: int| 0 <= i < regions.len() ==> #[trigger] regions[i].end.0 + align + size <= u64::MAX,
    ensures
        first_fit(regions, size, align) matches Some(i) ==> {
            let a = spec_align_up(regions[i].current.0, align);
            &&& regions[i].current.0 <= a
            &&& a + size <= regions[i].end.0
            &&& a % align == 0
        },
{
    lemma_first_fit(regions, size, align);
    if let Some(i) = first_fit(regions, size, align) {
        let r = regions[i];
        assert(r.current.0 <= r.end.0);
        assert(r.end.0 + align + size <= u64::MAX);
        crate::mem::addr::lemma_align_up_pow2(r.current.0, align);
    }
}

/// The outcome of an allocation: the block's address and the regions afterwards.
pub open spec fn alloc_spec(regions: Seq<RegionState>, size: u64, align: u64) -> Option<(u64, Seq<RegionState>)> {
    match first_fit(regions, size, align) {
        Some(i) => {
            let a = spec_align_up(regions[i].current.0, align);
            Some((a, regions.update(i, RegionState { current: PhysAddr((a + size) as u64), ..regions[i] })))
        },
        None => None,
    }
}

/// Two successive allocations of non-empty blocks never overlap, when the regions'
/// free parts are disjoint and the alignments are powers of two.
pub proof fn law_successive_allocations_disjoint(
    regions: Seq<RegionState>,
    size1: u64,
    align1: u64,
    size2: u64,
    align2: u64,
)
    requires
        crate::mem::addr::is_pow2(align1),
        crate::mem::addr::is_pow2(align2),
        size1 > 0,
        size2 > 0,
        free_parts_disjoint(regions),
        forall|i: int| 0 <= i < regions.len() ==> #[trigger] regions[i].current.0 <= regions[i].end.0,
        forall|i: int| 0 <= i < regions.len() ==> #[trigger] regions[i].end.0 + align1 + size1 <= u64::MAX,
        forall|i: int| 0 <= i < regions.len() ==> #[trigger] regions[i].end.0 + align2 + size2 <= u64::MAX,
    ensures
        alloc_spec(regions, size1, align1) matches Some((a1, after)) ==> (alloc_spec(after, size2, align2) matches Some(
            (a2, _),
        ) ==> a2 + size2 <= a1 || a1 + size1 <= a2),
{
    law_allocation_within_free_part(regions, size1, align1);
    lemma_first_fit(regions, size1, align1);
    match first_fit(regions, size1, align1) {
        None => {},
        Some(i) => {
            let ri = regions[i];
            let a1 = spec_align_up(ri.current.0, align1);
            let c = (a1 + size1) as u64;
            let after = regions.update(i, RegionState { current: PhysAddr(c), ..ri });
            assert(alloc_spec(regions, size1, align1) == Some((a1, after)));
            lemma_after_alloc_bounds(regions, i, c, align2, size2);
            law_allocation_within_free_part(after, size2, align2);
            lemma_first_fit(after, size2, align2);
            match first_fit(after, size2, align2) {
                None => {},
                Some(j) => {
                    let a2 = spec_align_up(after[j].current.0, align2);
                    assert(after[j].current.0 <= a2 && a2 + size2 <= after[j].end.0);
                    if j == i {
                        assert(after[j].current.0 == c);
                        assert(a1 + size1 <= a2);
                    } else {
                        assert(after[j] == regions[j]);
                        let rj = regions[j];
                        assert(ri.end.0 <= rj.current.0 || rj.end.0 <= ri.current.0);
                        assert(a2 + size2 <= a1 || a1 + size1 <= a2);
                    }
                },
            }
        },
    }
}

proof fn lemma_after_alloc_bounds(regions: Seq<RegionState>, i: int, c: u64, align: u64, size: u64)
    requires
        0 <= i < regions.len(),
        c <= regions[i].end.0,
        forall|k: int| 0 <= k < regions.len() ==> #[trigger] regions[k].current.0 <= regions[k].end.0,
        forall|k: int| 0 <= k < regions.len() ==> #[trigger] regions[k].end.0 + align + size <= u64::MAX,
    ensures
        ({
            let after = regions.update(i, RegionState { current: PhysAddr(c), ..regions[i] });
            &&& forall|k: int| 0 <= k < after.len() ==> #[trigger] after[k].current.0 <= after[k].end.0
            &&& forall|k: int| 0 <= k < after.len() ==> #[trigger] after[k].end.0 + align + size <= u64::MAX
        }),
{
    let after = regions.update(i, RegionState { current: PhysAddr(c), ..regions[i] });
    assert forall|k: int| 0 <= k < after.len() implies #[trigger] after[k].current.0 <= after[k].end.0 by {
        if k != i {
            assert(after[k] == regions[k]);
        }
    }
    assert forall|k: int| 0 <= k < after.len() implies #[trigger] after[k].end.0 + align + size <= u64::MAX by {
        assert(after[k].end == regions[k].end);
    }
}

/// The untyped regions made of the free parts of at least one page, in region order.
pub open spec fn untyped_of(regions: Seq<RegionState>) -> Seq<UntypedRegion>
    decreases regions.len(),
{
    if regions.len() == 0 {
        Seq::empty()
    } else {
        let rest = untyped_of(regions.drop_last());
        let r = regions.last();
        if r.end.0 - r.current.0 >= 4096 {
            rest.push(
                UntypedRegion {
                    start: r.current,
                    pages: ((r.end.0 - r.current.0) / 4096) as usize,
                    watermark: 0,
                },
            )
        } else {
            rest
        }
    }
}

/// The regions after handing over their free parts of at least one page.
pub open spec fn drained(regions: Seq<RegionState>) -> Seq<RegionState> {
    regions.map_values(
        |r: RegionState|
            if r.end.0 - r.current.0 >= 4096 {
                RegionState { current: r.end, ..r }
            } else {
                r
            },
    )
}

/// Where the allocator's free space starts for a RAM region of the platform, given
/// the end of the kernel image: regions wholly below it are skipped, a region that
/// straddles it starts at it.
pub open spec fn ram_start(r: MemoryRegion, kernel_end: u64) -> Option<u64> {
    let r_end = r.start.0 + r.size;
    if r.start.0 < kernel_end && r_end > kernel_end {
        Some(kernel_end)
    } else if r_end <= kernel_end {
        None
    } else {
        Some(r.start.0)
    }
}

/// The regions the allocator tracks after reading the platform's regions:
/// each RAM region with free space past the kernel, in order, up to the limit.
pub open spec fn regions_of(info: Seq<MemoryRegion>, kernel_end: u64) -> Seq<RegionState>
    decreases info.len(),
{
    if info.len() == 0 {
        Seq::empty()
    } else {
        let rest = regions_of(info.drop_last(), kernel_end);
        let r = info.last();
        if r.region_type == MemoryType::Ram {
            match ram_start(r, kernel_end) {
                Some(s) => {
                    let e = (r.start.0 + r.size) as u64;
                    if rest.len() < MAX_PMEM_REGIONS && s < e {
                        rest.push(RegionState { start: PhysAddr(s), current: PhysAddr(s), end: PhysAddr(e) })
                    } else {
                        rest
                    }
                },
                None => rest,
            }
        } else {
            rest
        }
    }
}

impl PmemManager {
    pub open spec fn wf(&self) -> bool {
        &&& self.regions@.len() <= MAX_PMEM_REGIONS
        &&& forall|i: int| 0 <= i < self.regions@.len() ==> #[trigger] self.regions@[i].current.0 <= self.regions@[i].end.0
    }

    /// An allocator with no regions.
    pub fn new() -> (r: Self)
        ensures
            r.wf(),
            r.regions@.len() == 0,
            r.freed@.len() == 0,
    {
        PmemManager { regions: Vec::new(), freed: Vec::new() }
    }

    /// Takes back the frame at `pa`; the regions do not change.
    pub fn free_frame(&mut self, pa: PhysAddr)
        requires
            old(self).wf(),
        ensures
            final(self).wf(),
            final(self).regions@ == old(self).regions@,
            final(self).freed@ == old(self).freed@.push(pa),
    {
        self.freed.push(pa);
    }

    /// Adds the region `[start, end)`; a full table or an empty range is ignored.
    pub fn add_region(&mut self, start: PhysAddr, end: PhysAddr)
        requires
            old(self).wf(),
        ensures
            final(self).wf(),
            final(self).regions@ == if old(self).regions@.len() < MAX_PMEM_REGIONS && start.0 < end.0 {
                old(self).regions@.push(RegionState { start, current: start, end })
            } else {
                old(self).regions@
            },
    {
        if self.regions.len() >= MAX_PMEM_REGIONS {
            return;
        }
        if end.0 <= start.0 {
            return;
        }
        self.regions.push(RegionState { start, current: start, end });
    }

    /// Replaces the regions by the RAM regions of `info` that lie past `kernel_end`.
    pub fn init(&mut self, kernel_end: PhysAddr, info: &Vec<MemoryRegion>)
        requires
            forall|i: int| 0 <= i < info@.len() ==> #[trigger] info@[i].start.0 + info@[i].size <= u64::MAX,
        ensures
            final(self).wf(),
            final(self).regions@ == regions_of(info@, kernel_end.0),
    {
        self.regions = Vec::new();
        let mut i: usize = 0;
        while i < info.len()
            invariant
                i <= info@.len(),
                self.wf(),
                forall|k: int| 0 <= k < info@.len() ==> #[trigger] info@[k].start.0 + info@[k].size <= u64::MAX,
                self.regions@ == regions_of(info@.subrange(0, i as int), kernel_end.0),
            decreases info@.len() - i,
        {
            let r = info[i];
            proof {
                assert(info@.subrange(0, i as int + 1).drop_last() == info@.subrange(0, i as int));
            }
            if r.region_type == MemoryType::Ram {
                let r_start = r.start.0;
                let r_end = r.start.0 + r.size as u64;
                if r_start < kernel_end.0 && r_end > kernel_end.0 {
                    self.add_region(kernel_end, PhysAddr(r_end));
                } else if r_end <= kernel_end.0 {
                } else {
                    self.add_region(PhysAddr(r_start), PhysAddr(r_end));
                }
            }
            i += 1;
        }
        proof {
            assert(info@.subrange(0, info@.len() as int) == info@);
        }
    }

    /// Hands out `size` bytes at an `align`-aligned address from the first region
    /// with room; `None` when no region has room.
    pub fn alloc_addr(&mut self, size: u64, align: u64) -> (r: Option<PhysAddr>)
        requires
            old(self).wf(),
            align > 0,
            forall|i: int| 0 <= i < old(self).regions@.len() ==> #[trigger] old(self).regions@[i].end.0 + align + size <= u64::MAX,
        ensures
            final(self).wf(),
            match first_fit(old(self).regions@, size, align) {
                Some(i) => {
                    let reg = old(self).regions@[i];
                    let a = spec_align_up(reg.current.0, align);
                    &&& r == Some(PhysAddr(a))
                    &&& final(self).regions@ == old(self).regions@.update(i, RegionState { current: PhysAddr((a + size) as u64), ..reg })
                },
                None => r.is_none() && final(self).regions@ == old(self).regions@,
            },
    {
        let mut i: usize = 0;
        while i < self.regions.len()
            invariant
                self.regions@ == old(self).regions@,
                i <= self.regions@.len(),
                align > 0,
                forall|j: int| 0 <= j < i ==> !region_fits(self.regions@[j], size, align),
                forall|k: int| 0 <= k < old(self).regions@.len() ==> #[trigger] old(self).regions@[k].end.0 + align + size <= u64::MAX,
                old(self).wf(),
            decreases self.regions@.len() - i,
        {
            let region = self.regions[i];
            assert(region.current.0 <= region.end.0);
            let aligned = region.current.align_up(align);
            proof {
                let x = region.current.0;
                let m = (align - 1) as u64;
                assert(((x + align - 1) as u64) & !m <= (x + align - 1) as u64) by (bit_vector);
            }
            if aligned.0 + size <= region.end.0 {
                let updated = RegionState { current: PhysAddr(aligned.0 + size), ..region };
                self.regions.set(i, updated);
                proof {
                    let regs = old(self).regions@;
                    assert(region_fits(regs[i as int], size, align));
                    let c = first_fit(regs, size, align).unwrap();
                    assert(0 <= c < regs.len() && region_fits(regs[c], size, align));
                    assert(c == i) by {
                        if c < i {
                            assert(!region_fits(regs[c], size, align));
                        } else if c > i {
                            assert(!region_fits(regs[i as int], size, align));
                        }
                    }
                }
                return Some(aligned);
            }
            i += 1;
        }
        None
    }

    /// Hands over the free part of every region holding at least one page as an
    /// untyped region, and marks those parts used.
    pub fn get_untyped_regions(&mut self) -> (r: (Vec<UntypedRegion>, usize))
        requires
            old(self).wf(),
        ensures
            final(self).wf(),
            r.0@ == untyped_of(old(self).regions@),
            r.1 == r.0@.len(),
            final(self).regions@ == drained(old(self).regions@),
    {
        let mut list: Vec<UntypedRegion> = Vec::new();
        let mut i: usize = 0;
        while i < self.regions.len()
            invariant
                i <= self.regions@.len(),
                self.regions@.len() == old(self).regions@.len(),
                self.wf(),
                old(self).wf(),
                list@ == untyped_of(old(self).regions@.subrange(0, i as int)),
                list@.len() <= i,
                forall|k: int| 0 <= k < i ==> self.regions@[k] == drained(old(self).regions@)[k],
                forall|k: int| i <= k < self.regions@.len() ==> self.regions@[k] == old(self).regions@[k],
            decreases self.regions@.len() - i,
        {
            let region = self.regions[i];
            proof {
                assert(old(self).regions@.subrange(0, i as int + 1).drop_last() == old(self).regions@.subrange(0, i as int));
                assert(region.current.0 <= region.end.0);
            }
            let size = region.end.0 - region.current.0;
            if size >= 4096 {
                list.push(UntypedRegion { start: region.current, pages: (size / 4096) as usize, watermark: 0 });
                self.regions.set(i, RegionState { current: region.end, ..region });
            }
            i += 1;
        }
        proof {
            assert(old(self).regions@.subrange(0, old(self).regions@.len() as int) == old(self).regions@);
            assert(self.regions@ =~= drained(old(self).regions@));
        }
        let n = list.len();
        (list, n)
    }
}

/// Fills the allocator from the platform's memory regions, past the end of the kernel image.
pub fn initialize_regions(pmem: &mut PmemManager, kernel_end: PhysAddr, info: &Vec<MemoryRegion>)
    requires
        forall|i: int| 0 <= i < info@.len() ==> #[trigger] info@[i].start.0 + info@[i].size <= u64::MAX,
    ensures
        final(pmem).wf(),
        final(pmem).regions@ == regions_of(info@, kernel_end.0),
{
    pmem.init(kernel_end, info);
}

/// Allocates one page.
pub fn alloc_page(pmem: &mut PmemManager, mem: &mut PhysMem) -> (r: Option<PhysAddr>)
    requires
        old(pmem).wf(),
        forall|i: int| 0 <= i < old(pmem).regions@.len() ==> #[trigger] old(pmem).regions@[i].end.0 + 8192 <= u64::MAX,
        old(mem).wf(),
        (old(mem).frames@.len() + 2) * 4096 <= usize::MAX,
    ensures
        final(pmem).wf(),
        final(mem).wf(),
        final(mem).frames@.len() <= old(mem).frames@.len() + 1,
        match first_fit(old(pmem).regions@, 4096, 4096) {
            Some(i) => {
                let reg = old(pmem).regions@[i];
                let a = spec_align_up(reg.current.0, 4096);
                &&& r == Some(PhysAddr(a))
                &&& final(pmem).regions@ == old(pmem).regions@.update(i, RegionState { current: PhysAddr((a + 4096) as u64), ..reg })
                &&& forall|x: int| #[trigger] final(mem).byte(x) == if a <= x < a + 4096 { 0 } else { old(mem).byte(x) }
            },
            None => r.is_none() && final(pmem).regions@ == old(pmem).regions@ && *final(mem) == *old(mem),
        },
{
    let r = pmem.alloc_addr(4096, 4096);
    match r {
        Some(pa) => {
            proof {
                let i = first_fit(old(pmem).regions@, 4096, 4096).unwrap();
                lemma_first_fit(old(pmem).regions@, 4096, 4096);
                vstd::arithmetic::power2::lemma2_to64();
                assert(is_pow2(4096u64)) by {
                    assert(4096 == vstd::arithmetic::power2::pow2(12));
                }
                lemma_align_up_pow2(old(pmem).regions@[i].current.0, 4096);
            }
            mem.zero_frame(pa.0);
        },
        None => {},
    }
    r
}

/// Allocates `pages` pages and returns a frame capability with all rights for them.
pub fn alloc_frame_cap(pmem: &mut PmemManager, pages: usize) -> (r: Option<Capability>)
    requires
        old(pmem).wf(),
        pages * 4096 <= usize::MAX,
        forall|i: int| 0 <= i < old(pmem).regions@.len() ==> #[trigger] old(pmem).regions@[i].end.0 + 4096 + pages * 4096 <= u64::MAX,
    ensures
        final(pmem).wf(),
        match first_fit(old(pmem).regions@, (pages * 4096) as u64, 4096) {
            Some(i) => {
                let reg = old(pmem).regions@[i];
                let a = spec_align_up(reg.current.0, 4096);
                &&& r == Some(Capability::spec_new(CapType::Frame, PhysAddr(a), pages, Rights(RIGHTS_ALL)))
                &&& final(pmem).regions@ == old(pmem).regions@.update(i, RegionState { current: PhysAddr((a + pages * 4096) as u64), ..reg })
            },
            None => r.is_none() && final(pmem).regions@ == old(pmem).regions@,
        },
{
    let size: u64 = (pages * 4096) as u64;
    match pmem.alloc_addr(size, 4096) {
        Some(paddr) => Some(Capability::create(CapType::Frame, paddr, pages, Rights(RIGHTS_ALL))),
        None => None,
    }
}

/// Allocates `size` bytes (page-aligned) and returns an untyped capability for them.
pub fn alloc_untyped_cap(pmem: &mut PmemManager, size: usize) -> (r: Option<Capability>)
    requires
        old(pmem).wf(),
        forall|i: int| 0 <= i < old(pmem).regions@.len() ==> #[trigger] old(pmem).regions@[i].end.0 + 4096 + size <= u64::MAX,
    ensures
        final(pmem).wf(),
        match first_fit(old(pmem).regions@, size as u64, 4096) {
            Some(i) => {
                let reg = old(pmem).regions@[i];
                let a = spec_align_up(reg.current.0, 4096);
                &&& r == Some(Capability::spec_untyped(UntypedRegion { start: PhysAddr(a), pages: size / 4096, watermark: 0 }, Rights(RIGHTS_ALL)))
                &&& final(pmem).regions@ == old(pmem).regions@.update(i, RegionState { current: PhysAddr((a + size) as u64), ..reg })
            },
            None => r.is_none() && final(pmem).regions@ == old(pmem).regions@,
        },
{
    match pmem.alloc_addr(size as u64, 4096) {
        Some(paddr) => Some(Capability::create_untyped(
            &UntypedRegion { start: paddr, pages: size / 4096, watermark: 0 },
            Rights(RIGHTS_ALL),
        )),
        None => None,
    }
}

/// Allocates a page for a page table of `level` and returns a capability for it.
pub fn alloc_pagetable_cap(pmem: &mut PmemManager, level: usize) -> (r: Option<Capability>)
    requires
        old(pmem).wf(),
        forall|i: int| 0 <= i < old(pmem).regions@.len() ==> #[trigger] old(pmem).regions@[i].end.0 + 8192 <= u64::MAX,
    ensures
        final(pmem).wf(),
        match first_fit(old(pmem).regions@, 4096, 4096) {
            Some(i) => {
                let reg = old(pmem).regions@[i];
                let a = spec_align_up(reg.current.0, 4096);
                &&& r == Some(Capability::spec_new(CapType::PageTable, PhysAddr(a), level, Rights(RIGHTS_ALL)))
                &&& final(pmem).regions@ == old(pmem).regions@.update(i, RegionState { current: PhysAddr((a + 4096) as u64), ..reg })
            },
            None => r.is_none() && final(pmem).regions@ == old(pmem).regions@,
        },
{
    match pmem.alloc_addr(4096, 4096) {
        Some(paddr) => Some(Capability::create(CapType::PageTable, paddr, level, Rights(RIGHTS_ALL))),
        None => None,
    }
}

/// Allocates the pages of a capability node; returns its capability.
pub fn alloc_cnode_cap(pmem: &mut PmemManager) -> (r: Option<Capability>)
    requires
        old(pmem).wf(),
        forall|i: int| 0 <= i < old(pmem).regions@.len() ==> #[trigger] old(pmem).regions@[i].end.0 + 4096 + CNODE_PAGES * 4096 <= u64::MAX,
    ensures
        final(pmem).wf(),
        match first_fit(old(pmem).regions@, (CNODE_PAGES * 4096) as u64, 4096) {
            Some(i) => {
                let reg = old(pmem).regions@[i];
                let a = spec_align_up(reg.current.0, 4096);
                &&& r == Some(Capability::spec_new(CapType::CNode, PhysAddr(a), 0, Rights(RIGHTS_ALL)))
                &&& final(pmem).regions@ == old(pmem).regions@.update(i, RegionState { current: PhysAddr((a + CNODE_PAGES * 4096) as u64), ..reg })
            },
            None => r.is_none() && final(pmem).regions@ == old(pmem).regions@,
        },
{
    let size: u64 = (CNODE_PAGES * 4096) as u64;
    match pmem.alloc_addr(size, 4096) {
        Some(paddr) => Some(Capability::create(CapType::CNode, paddr, 0, Rights(RIGHTS_ALL))),
        None => None,
    }
}

/// Allocates the memory of a thread control block, sized and aligned for `TCB`;
/// returns its capability.
pub fn alloc_tcb_cap(pmem: &mut PmemManager) -> (r: Option<Capability>)
    requires
        old(pmem).wf(),
        forall|i: int| 0 <= i < old(pmem).regions@.len() ==> #[trigger] old(pmem).regions@[i].end.0
            + vstd::layout::align_of::<TCB>() + vstd::layout::size_of::<TCB>() <= u64::MAX,
    ensures
        final(pmem).wf(),
        match first_fit(old(pmem).regions@, vstd::layout::size_of::<TCB>() as u64, vstd::layout::align_of::<TCB>() as u64) {
            Some(i) => {
                let reg = old(pmem).regions@[i];
                let a = spec_align_up(reg.current.0, vstd::layout::align_of::<TCB>() as u64);
                &&& r == Some(Capability::spec_new(CapType::TCB, PhysAddr(a), 0, Rights(RIGHTS_ALL)))
                &&& final(pmem).regions@ == old(pmem).regions@.update(i, RegionState {
                    current: PhysAddr((a + vstd::layout::size_of::<TCB>()) as u64), ..reg })
            },
            None => r.is_none() && final(pmem).regions@ == old(pmem).regions@,
        },
{
    vstd::layout::layout_for_type_is_valid::<TCB>();
    let size: u64 = core::mem::size_of::<TCB>() as u64;
    let align: u64 = core::mem::align_of::<TCB>() as u64;
    match pmem.alloc_addr(size, align) {
        Some(paddr) => Some(Capability::create(CapType::TCB, paddr, 0, Rights(RIGHTS_ALL))),
        None => None,
    }
}

/// Allocates the root table of an address space and a fresh ASID from `asids`;
/// returns its capability and whether the ASID began a new generation (the TLB
/// must then be flushed). No ASID is taken when no page is free.
pub fn alloc_vspace_cap(pmem: &mut PmemManager, asids: &mut AsidManager) -> (r: (Option<Capability>, bool))
    requires
        old(pmem).wf(),
        old(asids).generation < u64::MAX,
        forall|i: int| 0 <= i < old(pmem).regions@.len() ==> #[trigger] old(pmem).regions@[i].end.0 + 8192 <= u64::MAX,
    ensures
        final(pmem).wf(),
        match first_fit(old(pmem).regions@, 4096, 4096) {
            Some(i) => {
                let reg = old(pmem).regions@[i];
                let a = spec_align_up(reg.current.0, 4096);
                let (c, g) = next_asid_state(old(asids).current_asid, old(asids).generation);
                &&& r.0 == Some(Capability::spec_new(CapType::VSpace, PhysAddr(a), vspace_data(Asid { id: c, generation: g }), Rights(RIGHTS_ALL)))
                &&& r.1 == ((old(asids).current_asid as int) >= MAX_ASID - 1)
                &&& (final(asids).current_asid, final(asids).generation) == (c, g)
                &&& final(pmem).regions@ == old(pmem).regions@.update(i, RegionState { current: PhysAddr((a + 4096) as u64), ..reg })
            },
            None => r == (None::<Capability>, false) && final(pmem).regions@ == old(pmem).regions@ && *final(asids) == *old(asids),
        },
{
    match pmem.alloc_addr(4096, 4096) {
        Some(paddr) => {
            let (asid, flush) = asids.allocate();
            (Some(Capability::create_vspace(paddr, asid, Rights(RIGHTS_ALL))), flush)
        },
        None => (None, false),
    }
}

impl PhysFrame {
    /// The frame's physical address.
    pub fn addr(&self) -> (r: PhysAddr)
        ensures
            r == self.paddr,
    {
        self.paddr
    }

    /// Gives up the frame and returns its address.
    pub fn leak(self) -> (r: PhysAddr)
        ensures
            r == self.paddr,
    {
        self.paddr
    }
}

/// Hands the remaining free memory over as untyped regions.
pub fn get_untyped(pmem: &mut PmemManager) -> (r: (Vec<UntypedRegion>, usize))
    requires
        old(pmem).wf(),
    ensures
        final(pmem).wf(),
        r.0@ == untyped_of(old(pmem).regions@),
        r.1 == r.0@.len(),
        final(pmem).regions@ == drained(old(pmem).regions@),
{
    pmem.get_untyped_regions()
}

} // verus!
