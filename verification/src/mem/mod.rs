//! Memory management: addresses, page-table entries, page tables and allocators.
use vstd::prelude::*;

pub mod addr;
pub mod pte;
pub mod pagetable;
pub mod kstack;
pub mod pmem;
pub mod untyped;
pub mod mmap;
pub mod uvm;
pub mod table_alloc;
pub mod vspace;
pub mod kvm;
pub mod physmem;

pub use addr::{PhysAddr, VirtAddr, PPN, VPN};

verus! {

/// Size of a base page in bytes.
pub const PGSIZE: usize = 4096;
/// Number of entries in one page-table page.
pub const PGNUM: usize = 512;
/// Number of translation levels (Sv39).
pub const PT_LEVELS: usize = 3;
/// One past the highest user virtual address (Sv39, 38 usable bits).
pub const VA_MAX: u64 = 0x40_0000_0000;
/// Trampoline mapping address (highest page).
pub const TRAMPOLINE_VA: u64 = 0x3F_FFFF_F000;
/// Trap-frame mapping address (just below the trampoline).
pub const TRAPFRAME_VA: u64 = 0x3F_FFFF_E000;
/// UTCB mapping address (just below the trap frame).
pub const UTCB_VA: u64 = 0x3F_FFFF_D000;

/// Access permissions of a mapping; the bits are those of a page-table entry.
#[derive(Clone, Copy, PartialEq, Eq, Structural, Debug)]
pub struct Perms(pub u64);

impl Perms {
    /// Keeps the eight permission bits of `bits`.
    pub fn from_bits_truncate(bits: u64) -> (r: Perms)
        ensures
            r.0 == bits & 0xFF,
    {
        Perms(bits & 0xFF)
    }

    pub fn bits(&self) -> (r: u64)
        ensures
            r == self.0,
    {
        self.0
    }

    /// True when every bit of `other` is set.
    pub fn contains(&self, other: Perms) -> (r: bool)
        ensures
            r == (self.0 & other.0 == other.0),
    {
        self.0 & other.0 == other.0
    }

    pub fn union(self, other: Perms) -> (r: Perms)
        ensures
            r.0 == self.0 | other.0,
    {
        Perms(self.0 | other.0)
    }

    /// The permissions as text: the letters V, R, W, X, U, G of the set bits,
    /// separated by bars, or NONE.
    pub fn describe(&self) -> (r: Vec<u8>)
        ensures
            r@ == pte::flags_text(self.0, 6),
    {
        pte::describe_flags(self.0, 6)
    }

    /// True when the permissions ask for a page both writable and executable.
    pub open spec fn spec_write_and_exec(self) -> bool {
        self.0 & pte::WRITE == pte::WRITE && self.0 & pte::EXECUTE == pte::EXECUTE
    }
}

} // verus!
