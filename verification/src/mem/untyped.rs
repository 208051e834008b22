//! Untyped memory: a run of pages from which kernel objects are carved in order.
use vstd::prelude::*;
use super::addr::PhysAddr;
use super::physmem::{PhysMem, zero_bytes};
use crate::cap::{Badge, CapType, Capability, Rights, RIGHTS_ALL, CNODE_PAGES, untyped_data, vspace_data};
use crate::proc::asid::{AsidManager, Asid, next_asid_state, MAX_ASID};

verus! {

/// Pages taken by a thread control block.
pub const TCB_PAGES: usize = 1;
/// Pages taken by an endpoint.
pub const ENDPOINT_PAGES: usize = 1;
/// Pages taken by a page-table page.
pub const PAGETABLE_PAGES: usize = 1;
/// Pages taken by the root table of an address space.
pub const VSPACE_PAGES: usize = 1;

/// A run of `pages` pages at `start`, of which the first `watermark` are used.
#[derive(Clone, Copy, PartialEq, Eq, Structural, Debug)]
pub struct UntypedRegion {
    pub start: PhysAddr,
    pub pages: usize,
    pub watermark: usize,
}

/// The pages an object of `t` takes (`flags` is the page count of a frame or an
/// untyped region); `None` for a type that cannot be carved from untyped memory.
pub open spec fn object_pages(t: CapType, flags: usize) -> Option<usize> {
    match t {
        CapType::CNode => Some(CNODE_PAGES),
        CapType::TCB => Some(TCB_PAGES),
        CapType::Endpoint => Some(ENDPOINT_PAGES),
        CapType::Frame => Some(flags),
        CapType::PageTable => Some(PAGETABLE_PAGES),
        CapType::VSpace => Some(VSPACE_PAGES),
        CapType::Untyped => Some(flags),
        _ => None,
    }
}

/// The capability that retyping hands out for an object of `t` of `n` pages at `pa`:
/// a frame records its page count, a page table its level (`flags`), an address
/// space its ASID token, an untyped region its pages and a zero watermark.
pub open spec fn retyped_cap(t: CapType, pa: PhysAddr, n: usize, flags: usize, asid: Asid) -> Capability {
    let all = Rights(RIGHTS_ALL);
    match t {
        CapType::Frame => Capability::spec_new(CapType::Frame, pa, n, all),
        CapType::PageTable => Capability::spec_new(CapType::PageTable, pa, flags, all),
        CapType::VSpace => Capability::spec_new(CapType::VSpace, pa, vspace_data(asid), all),
        CapType::Untyped => Capability::spec_new(CapType::Untyped, pa, untyped_data(n, 0), all),
        _ => Capability::spec_new(t, pa, 0, all),
    }
}

impl UntypedRegion {
    /// The region fits in the physical address space.
    pub open spec fn wf(&self) -> bool {
        self.start.0 + self.pages * 4096 <= u64::MAX
    }

    pub fn empty() -> (r: Self)
        ensures
            r.start.0 == 0 && r.pages == 0 && r.watermark == 0,
    {
        Self { start: PhysAddr::null(), pages: 0, watermark: 0 }
    }

    /// Reads the region an untyped capability describes: the page count in bits
    /// 0..24 of the data word and the watermark in bits 25..49; `None` for any
    /// other kind of capability.
    pub fn from_cap(cap: &Capability) -> (r: Option<Self>)
        ensures
            cap.cap_type != CapType::Untyped ==> r.is_none(),
            cap.cap_type == CapType::Untyped ==> r == Some(UntypedRegion {
                start: cap.paddr,
                pages: cap.data & 0x1FF_FFFF,
                watermark: (cap.data >> 25usize) & 0x1FF_FFFF,
            }),
    {
        if cap.cap_type() != CapType::Untyped {
            return None;
        }
        let data = cap.get_data();
        let pages = data & 0x1FF_FFFF;
        let watermark = (data >> 25) & 0x1FF_FFFF;
        Some(Self { start: cap.paddr(), pages, watermark })
    }

    /// True when `need_pages` more pages fit.
    pub fn check(&self, need_pages: usize) -> (r: bool)
        ensures
            r == (self.watermark + need_pages <= self.pages),
    {
        self.watermark as u128 + need_pages as u128 <= self.pages as u128
    }

    /// Carves an object of `obj_type` from the next unused pages and returns its
    /// capability (with every right), moving the watermark past it. An address
    /// space gets a fresh ASID from `asids`; the second result is then true when
    /// that allocation began a new generation, so the TLB must be flushed.
    /// The object's pages are cleared first.
    /// Nothing changes, and no capability comes back, for a type that cannot be
    /// carved or when the object does not fit.
    pub fn retype(&mut self, asids: &mut AsidManager, mem: &mut PhysMem, obj_type: CapType, flags: usize) -> (r: (Option<Capability>, bool))
        requires
            old(self).wf(),
            old(asids).generation < u64::MAX,
            old(mem).wf(),
            (old(mem).frames@.len() + old(self).pages * 4096 + 1) * 4096 <= usize::MAX,
        ensures
            final(self).wf(),
            final(mem).wf(),
            final(self).start == old(self).start,
            final(self).pages == old(self).pages,
            match object_pages(obj_type, flags) {
                Some(n) if old(self).watermark + n <= old(self).pages => {
                    let pa = PhysAddr((old(self).start.0 + old(self).watermark * 4096) as u64);
                    let fresh = (obj_type == CapType::VSpace);
                    let (c, g) = next_asid_state(old(asids).current_asid, old(asids).generation);
                    &&& final(self).watermark == old(self).watermark + n
                    &&& fresh ==> (final(asids).current_asid, final(asids).generation) == (c, g)
                    &&& !fresh ==> *final(asids) == *old(asids)
                    &&& r.0 == Some(retyped_cap(obj_type, pa, n, flags, Asid { id: c, generation: g }))
                    &&& r.1 == (fresh && (old(asids).current_asid as int) >= MAX_ASID - 1)
                    &&& forall|a: int| #[trigger] final(mem).byte(a)
                        == if pa.0 <= a < pa.0 + n * 4096 { 0 } else { old(mem).byte(a) }
                },
                _ => {
                    &&& r == (None::<Capability>, false)
                    &&& final(self).watermark == old(self).watermark
                    &&& *final(asids) == *old(asids)
                    &&& *final(mem) == *old(mem)
                },
            },
    {
        let obj_pages: usize = match obj_type {
            CapType::CNode => CNODE_PAGES,
            CapType::TCB => TCB_PAGES,
            CapType::Endpoint => ENDPOINT_PAGES,
            CapType::Frame => flags,
            CapType::PageTable => PAGETABLE_PAGES,
            CapType::VSpace => VSPACE_PAGES,
            CapType::Untyped => flags,
            _ => return (None, false),
        };
        if self.watermark as u128 + obj_pages as u128 > self.pages as u128 {
            return (None, false);
        }
        let offset: u64 = self.watermark as u64 * 4096;
        let obj_paddr = PhysAddr::from(self.start.0 + offset);
        assert(obj_pages * 4096 <= self.pages * 4096 && self.start.0 + offset + obj_pages * 4096 <= self.start.0 + self.pages * 4096)
            by (nonlinear_arith)
            requires
                self.watermark + obj_pages <= self.pages,
                offset == self.watermark * 4096,
        ;
        zero_bytes(mem, obj_paddr.0, obj_pages as u64 * 4096);
        let all = Rights(RIGHTS_ALL);
        let (cap, flush) = match obj_type {
            CapType::Frame => (Capability::create(CapType::Frame, obj_paddr, obj_pages, all), false),
            CapType::PageTable => (Capability::create(CapType::PageTable, obj_paddr, flags, all), false),
            CapType::VSpace => {
                let (asid, flush) = asids.allocate();
                (Capability::create_vspace(obj_paddr, asid, all), flush)
            },
            CapType::Untyped => {
                let region = UntypedRegion { start: obj_paddr, pages: obj_pages, watermark: 0 };
                (Capability::create_untyped(&region, all), false)
            },
            _ => (Capability::create(obj_type, obj_paddr, 0, all), false),
        };
        self.watermark = self.watermark + obj_pages;
        (Some(cap), flush)
    }
}

/// What a retyped capability records: its type, the object's address, no
/// badge and every right; a frame's data is its page count, a page table's is
/// the level asked for, an untyped region's its page count (with a zero
/// watermark), and the other objects carry none.
pub proof fn law_retyped_cap_records_request(t: CapType, pa: PhysAddr, n: usize, flags: usize, asid: Asid)
    ensures
        retyped_cap(t, pa, n, flags, asid).cap_type == t,
        retyped_cap(t, pa, n, flags, asid).paddr == pa,
        retyped_cap(t, pa, n, flags, asid).badge == Badge(0),
        retyped_cap(t, pa, n, flags, asid).rights == Rights(RIGHTS_ALL),
        t == CapType::Frame ==> retyped_cap(t, pa, n, flags, asid).data == n,
        t == CapType::PageTable ==> retyped_cap(t, pa, n, flags, asid).data == flags,
        t == CapType::Untyped ==> retyped_cap(t, pa, n, flags, asid).data == untyped_data(n, 0),
        t == CapType::VSpace ==> retyped_cap(t, pa, n, flags, asid).data == vspace_data(asid),
        (t == CapType::CNode || t == CapType::TCB || t == CapType::Endpoint) ==> retyped_cap(t, pa, n, flags, asid).data == 0,
{
}

/// Objects carved one after another from an untyped region lie inside the
/// region and do not overlap: the first covers the bytes from `start + w * 4096`
/// for `n1` pages, and the next begins where it ends.
pub proof fn law_retyped_objects_disjoint(region: UntypedRegion, n1: usize, n2: usize)
    requires
        region.wf(),
        region.watermark + n1 + n2 <= region.pages,
    ensures
        ({
            let s1 = region.start.0 + region.watermark * 4096;
            let e1 = s1 + n1 * 4096;
            let s2 = region.start.0 + (region.watermark + n1) * 4096;
            let e2 = s2 + n2 * 4096;
            &&& region.start.0 <= s1 <= e1 == s2 <= e2 <= region.start.0 + region.pages * 4096
        }),
{
    assert((region.watermark + n1) * 4096 == region.watermark * 4096 + n1 * 4096) by (nonlinear_arith);
    assert((region.watermark + n1) * 4096 + n2 * 4096 <= region.pages * 4096) by (nonlinear_arith)
        requires
            region.watermark + n1 + n2 <= region.pages,
    ;
}

} // verus!
