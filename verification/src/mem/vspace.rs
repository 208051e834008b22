//! An address space: its root page table and the ASID it is tagged with.
use vstd::prelude::*;
use super::addr::PhysAddr;
use crate::proc::thread::{mmu_value, get_mmu_register};

verus! {

/// An address space.
#[derive(Clone, Copy, PartialEq, Eq, Structural, Debug)]
pub struct VSpace {
    pub root_paddr: PhysAddr,
    pub asid: u16,
    pub asid_generation: u64,
}

impl VSpace {
    /// An address space with its root table at `root_paddr` and no ASID yet.
    pub fn new(root_paddr: PhysAddr) -> (r: Self)
        ensures
            r.root_paddr == root_paddr && r.asid == 0 && r.asid_generation == 0,
    {
        VSpace { root_paddr, asid: 0, asid_generation: 0 }
    }

    /// The translation register value that activates this address space (Sv39).
    pub fn satp_value(&self) -> (r: u64)
        ensures
            r == mmu_value(self.root_paddr.0, self.asid),
    {
        get_mmu_register(self.root_paddr, self.asid)
    }

    pub fn root_paddr(&self) -> (r: PhysAddr)
        ensures
            r == self.root_paddr,
    {
        self.root_paddr
    }

    pub fn asid(&self) -> (r: u16)
        ensures
            r == self.asid,
    {
        self.asid
    }
}

} // verus!
