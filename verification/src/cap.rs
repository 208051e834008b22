//! Capabilities: typed references to kernel objects, as records of plain values.
use vstd::prelude::*;
use crate::mem::PhysAddr;
use crate::mem::untyped::UntypedRegion;

verus! {

/// The kind of object a capability refers to.
#[derive(Clone, Copy, PartialEq, Eq, Structural, Debug)]
pub enum CapType {
    Empty,
    Untyped,
    CNode,
    TCB,
    Endpoint,
    Frame,
    PageTable,
    VSpace,
    Reply,
    Kernel,
    Console,
    IrqHandler,
    VCPU,
}

/// Access rights carried by a capability.
#[derive(Clone, Copy, PartialEq, Eq, Structural, Debug)]
pub struct Rights(pub u8);

pub const RIGHT_READ: u8 = 1;
pub const RIGHT_WRITE: u8 = 2;
pub const RIGHT_GRANT: u8 = 4;
pub const RIGHTS_ALL: u8 = 0xFF;

/// A capability node holds `1 << CNODE_BITS` slots.
pub const CNODE_BITS: usize = 12;
/// Pages taken by a capability node.
pub const CNODE_PAGES: usize = 4;

/// A badge: the word that identifies a sender to a receiver.
#[derive(Clone, Copy, PartialEq, Eq, Structural, Debug)]
pub struct Badge(pub usize);

impl Badge {
    pub fn null() -> (r: Badge)
        ensures
            r.0 == 0,
    {
        Badge(0)
    }

    pub fn from(word: usize) -> (r: Badge)
        ensures
            r.0 == word,
    {
        Badge(word)
    }

    pub fn get(&self) -> (r: usize)
        ensures
            r == self.0,
    {
        self.0
    }

    pub fn is_null(&self) -> (r: bool)
        ensures
            r == (self.0 == 0),
    {
        self.0 == 0
    }
}

/// A capability address in a capability space.
#[derive(Clone, Copy, PartialEq, Eq, Structural, Debug)]
pub struct CapPtr(pub usize);

/// A capability: the object's type and physical address, a type-specific data word,
/// a badge and the rights it grants.
#[derive(Clone, Copy, PartialEq, Eq, Structural, Debug)]
pub struct Capability {
    pub cap_type: CapType,
    pub paddr: PhysAddr,
    pub data: usize,
    pub badge: Badge,
    pub rights: Rights,
}

/// The data word of an untyped capability: pages in bits 0..24, watermark in bits 25..49.
pub open spec fn untyped_data(pages: usize, watermark: usize) -> usize {
    (pages & 0x1FF_FFFF) | ((watermark & 0x1FF_FFFF) << 25usize)
}

/// The data word of an address-space capability: the ASID identifier in the low
/// 16 bits, the generation above.
pub open spec fn vspace_data(asid: crate::proc::asid::Asid) -> usize {
    (asid.id as usize) | (((asid.generation as usize) << 16usize) as usize)
}

impl Capability {
    pub open spec fn spec_new(cap_type: CapType, paddr: PhysAddr, data: usize, rights: Rights) -> Capability {
        Capability { cap_type, paddr, data, badge: Badge(0), rights }
    }

    pub open spec fn spec_untyped(region: UntypedRegion, rights: Rights) -> Capability {
        Capability::spec_new(CapType::Untyped, region.start, untyped_data(region.pages, region.watermark), rights)
    }

    /// An untyped capability for `region`; the page count and watermark are kept in 25 bits each.
    pub fn create_untyped(region: &UntypedRegion, rights: Rights) -> (r: Capability)
        ensures
            r == Capability::spec_untyped(*region, rights),
    {
        let data = (region.pages & 0x1FF_FFFF) | ((region.watermark & 0x1FF_FFFF) << 25);
        Capability { cap_type: CapType::Untyped, paddr: region.start, data, badge: Badge(0), rights }
    }

    /// A capability of `cap_type` for the object at `paddr`, with `data`, no badge and `rights`.
    pub fn create(cap_type: CapType, paddr: PhysAddr, data: usize, rights: Rights) -> (r: Capability)
        ensures
            r == (Capability { cap_type, paddr, data, badge: Badge(0), rights }),
    {
        Capability { cap_type, paddr, data, badge: Badge(0), rights }
    }

    /// An address-space capability for the root table at `paddr` with the ASID token `asid`.
    pub fn create_vspace(paddr: PhysAddr, asid: crate::proc::asid::Asid, rights: Rights) -> (r: Capability)
        ensures
            r == Capability::spec_new(CapType::VSpace, paddr, vspace_data(asid), rights),
    {
        let data = (asid.id as usize) | ((asid.generation as usize) << 16);
        Capability { cap_type: CapType::VSpace, paddr, data, badge: Badge(0), rights }
    }

    /// The kernel virtual address of the object; physical memory is mapped at identity.
    pub fn obj_ptr(&self) -> (r: crate::mem::VirtAddr)
        ensures
            r.0 == self.paddr.0,
    {
        crate::mem::VirtAddr(self.paddr.0)
    }

    /// The root-table address and ASID token held by an address-space capability:
    /// the identifier in the low 16 bits of the data word, the generation above.
    pub fn vspace_info(&self) -> (r: (PhysAddr, crate::proc::asid::Asid))
        ensures
            r.0 == self.paddr,
            r.1.id as usize == self.data & 0xFFFF,
            r.1.generation == (self.data >> 16usize) as u64,
    {
        let d = self.data;
        assert(d & 0xFFFFusize <= 0xFFFFusize) by (bit_vector);
        let id = (d & 0xFFFF) as u16;
        let generation = (self.data >> 16) as u64;
        (self.paddr, crate::proc::asid::Asid { id, generation })
    }

    /// Records an ASID token in an address-space capability (the generation keeps its low 48 bits).
    pub fn set_asid(&mut self, asid: crate::proc::asid::Asid)
        ensures
            final(self).data == (asid.id as usize) | (((asid.generation as usize) << 16usize) as usize),
            final(self).cap_type == old(self).cap_type,
            final(self).paddr == old(self).paddr,
            final(self).badge == old(self).badge,
            final(self).rights == old(self).rights,
    {
        self.data = (asid.id as usize) | ((asid.generation as usize) << 16);
    }

    pub fn cap_type(&self) -> (r: CapType)
        ensures
            r == self.cap_type,
    {
        self.cap_type
    }

    pub fn paddr(&self) -> (r: PhysAddr)
        ensures
            r == self.paddr,
    {
        self.paddr
    }

    pub fn get_data(&self) -> (r: usize)
        ensures
            r == self.data,
    {
        self.data
    }

    pub fn get_badge(&self) -> (r: Badge)
        ensures
            r == self.badge,
    {
        self.badge
    }

    /// True when the capability grants every right in `rights`.
    pub fn has_rights(&self, rights: Rights) -> (r: bool)
        ensures
            r == (self.rights.0 & rights.0 == rights.0),
    {
        self.rights.0 & rights.0 == rights.0
    }
}

} // verus!
