//! Sv39 page-table entries: a 44-bit physical page number in bits 10..53 and
//! ten flag bits in bits 0..9.
use vstd::prelude::*;
use super::addr::{PhysAddr, PPN};

verus! {

/// The flag bits of an entry.
pub const PTEFLAGS_MASK: u64 = 0x3FF;
/// The width mask of a physical page number.
pub const PPN_MASK: u64 = 0xFFF_FFFF_FFFF;

pub const VALID: u64 = 1;
pub const READ: u64 = 2;
pub const WRITE: u64 = 4;
pub const EXECUTE: u64 = 8;
pub const USER: u64 = 16;
pub const GLOBAL: u64 = 32;
pub const ACCESSED: u64 = 64;
pub const DIRTY: u64 = 128;

/// The raw value of an entry built from a physical address and flags.
pub open spec fn pte_encode(pa: u64, flags: u64) -> u64 {
    (((pa >> 12u64) & PPN_MASK) << 10u64) | (flags & PTEFLAGS_MASK)
}

/// The physical page number held in a raw entry.
pub open spec fn pte_ppn(v: u64) -> u64 {
    (v >> 10u64) & PPN_MASK
}

/// The physical address a raw entry points to.
pub open spec fn pte_pa(v: u64) -> u64 {
    pte_ppn(v) << 12u64
}

pub open spec fn pte_valid(v: u64) -> bool {
    v & VALID != 0
}

pub open spec fn pte_leaf(v: u64) -> bool {
    v & (READ | WRITE | EXECUTE) != 0
}

/// A page-table entry.
#[derive(Clone, Copy, PartialEq, Eq, Structural, Debug)]
pub struct Pte(pub u64);

/// The flag bits of a page-table entry.
#[derive(Clone, Copy, PartialEq, Eq, Structural, Debug)]
pub struct PteFlags(pub u64);

impl Pte {
    pub fn null() -> (r: Self)
        ensures
            r.0 == 0,
    {
        Self(0)
    }

    /// Builds an entry that maps the page of `pa` with `flags`.
    pub fn from(pa: PhysAddr, flags: PteFlags) -> (r: Self)
        ensures
            r.0 == pte_encode(pa.0, flags.0),
    {
        Self((((pa.as_usize() >> 12) & PPN_MASK) << 10) | (flags.as_usize() & PTEFLAGS_MASK))
    }

    pub fn as_usize(&self) -> (r: u64)
        ensures
            r == self.0,
    {
        self.0
    }

    pub fn get_ppn(&self) -> (r: PPN)
        ensures
            r.0 == pte_ppn(self.0),
    {
        PPN::from((self.0 >> 10) & PPN_MASK)
    }

    /// Keeps the flag bits and puts `ppn` above them.
    pub fn set_ppn(&mut self, ppn: PPN)
        ensures
            final(self).0 == (old(self).0 & PTEFLAGS_MASK) | (ppn.0 << 10u64),
    {
        self.0 = (self.0 & PTEFLAGS_MASK) | (ppn.as_usize() << 10)
    }

    pub fn get_flags(&self) -> (r: PteFlags)
        ensures
            r.0 == self.0 & PTEFLAGS_MASK,
    {
        proof {
            let v = self.0;
            assert((v & 0x3FFu64) & 0x3FFu64 == v & 0x3FFu64) by (bit_vector);
        }
        PteFlags::from(self.0 & PTEFLAGS_MASK)
    }

    /// Replaces the flag bits of the entry with those of `flags`, keeping its
    /// page number (and the bits above it).
    pub fn set_flags(&mut self, flags: PteFlags)
        ensures
            final(self).0 == with_flags(old(self).0, flags.0),
            pte_ppn(final(self).0) == pte_ppn(old(self).0),
            pte_pa(final(self).0) == pte_pa(old(self).0),
            final(self).0 & PTEFLAGS_MASK == flags.0 & PTEFLAGS_MASK,
    {
        proof {
            lemma_with_flags(self.0, flags.0);
        }
        self.0 = (self.0 & !PTEFLAGS_MASK) | (flags.0 & PTEFLAGS_MASK)
    }

    pub fn is_valid(&self) -> (r: bool)
        ensures
            r == pte_valid(self.0),
    {
        (self.0 & VALID) != 0
    }

    pub fn is_leaf(&self) -> (r: bool)
        ensures
            r == pte_leaf(self.0),
    {
        (self.0 & (READ | WRITE | EXECUTE)) != 0
    }

    /// A valid entry without read, write or execute permission points to the next table.
    pub fn is_table(&self) -> (r: bool)
        ensures
            r == (pte_valid(self.0) && !pte_leaf(self.0)),
    {
        self.is_valid() && !self.is_leaf()
    }

    pub fn pa(&self) -> (r: PhysAddr)
        ensures
            r.0 == pte_pa(self.0),
    {
        PhysAddr::from(self.get_ppn().as_usize() << 12)
    }
}

impl PteFlags {
    pub fn null() -> (r: Self)
        ensures
            r.0 == 0,
    {
        Self(0)
    }

    /// Keeps the ten flag bits of `value`.
    pub fn from(value: u64) -> (r: Self)
        ensures
            r.0 == value & PTEFLAGS_MASK,
    {
        Self(value & PTEFLAGS_MASK)
    }

    pub fn as_usize(&self) -> (r: u64)
        ensures
            r == self.0,
    {
        self.0
    }

    /// Adds the bits of `flags`.
    pub fn or(self, flags: u64) -> (r: PteFlags)
        ensures
            r.0 == self.0 | flags,
    {
        PteFlags(self.0 | flags)
    }

    /// Keeps only the bits also in `flags`.
    pub fn and(self, flags: u64) -> (r: PteFlags)
        ensures
            r.0 == self.0 & flags,
    {
        PteFlags(self.0 & flags)
    }

    /// Removes the bits of `rhs`.
    pub fn minus(self, rhs: PteFlags) -> (r: PteFlags)
        ensures
            r.0 == self.0 & !rhs.0,
    {
        PteFlags(self.0 & !rhs.0)
    }
}

/// An entry built from an address and flags gives back the page number of the address,
/// its flag bits, and the page-aligned address (within the 56-bit physical space).
pub proof fn law_pte_roundtrip(pa: u64, flags: u64)
    ensures
        pte_ppn(pte_encode(pa, flags)) == (pa >> 12u64) & PPN_MASK,
        pte_encode(pa, flags) & PTEFLAGS_MASK == flags & PTEFLAGS_MASK,
        pte_pa(pte_encode(pa, flags)) == pa & 0x00FF_FFFF_FFFF_F000u64,
        pte_valid(pte_encode(pa, flags)) == (flags & VALID != 0),
        pte_leaf(pte_encode(pa, flags)) == (flags & (READ | WRITE | EXECUTE) != 0),
{
    assert((((((pa >> 12u64) & 0xFFF_FFFF_FFFFu64) << 10u64) | (flags & 0x3FFu64)) >> 10u64)
        & 0xFFF_FFFF_FFFFu64 == (pa >> 12u64) & 0xFFF_FFFF_FFFFu64) by (bit_vector);
    assert(((((pa >> 12u64) & 0xFFF_FFFF_FFFFu64) << 10u64) | (flags & 0x3FFu64)) & 0x3FFu64
        == flags & 0x3FFu64) by (bit_vector);
    assert(((pa >> 12u64) & 0xFFF_FFFF_FFFFu64) << 12u64 == pa & 0x00FF_FFFF_FFFF_F000u64)
        by (bit_vector);
    assert((((((pa >> 12u64) & 0xFFF_FFFF_FFFFu64) << 10u64) | (flags & 0x3FFu64)) & 1u64 != 0)
        == (flags & 1u64 != 0)) by (bit_vector);
    assert((((((pa >> 12u64) & 0xFFF_FFFF_FFFFu64) << 10u64) | (flags & 0x3FFu64)) & 14u64 != 0)
        == (flags & 14u64 != 0)) by (bit_vector);
    assert(2u64 | 4u64 | 8u64 == 14u64) by (bit_vector);
}


/// The entry `v` with its flag bits replaced by those of `flags`.
pub open spec fn with_flags(v: u64, flags: u64) -> u64 {
    (v & !PTEFLAGS_MASK) | (flags & PTEFLAGS_MASK)
}

/// Replacing the flag bits keeps the page number and gives the new flag bits.
pub proof fn lemma_with_flags(v: u64, flags: u64)
    ensures
        pte_ppn(with_flags(v, flags)) == pte_ppn(v),
        pte_pa(with_flags(v, flags)) == pte_pa(v),
        with_flags(v, flags) & PTEFLAGS_MASK == flags & PTEFLAGS_MASK,
        pte_valid(with_flags(v, flags)) == (flags & VALID != 0),
        pte_leaf(with_flags(v, flags)) == (flags & (READ | WRITE | EXECUTE) != 0),
{
    assert((((v & !0x3FFu64) | (flags & 0x3FFu64)) >> 10u64) & 0xFFF_FFFF_FFFFu64 == (v >> 10u64) & 0xFFF_FFFF_FFFFu64)
        by (bit_vector);
    assert(((v & !0x3FFu64) | (flags & 0x3FFu64)) & 0x3FFu64 == flags & 0x3FFu64) by (bit_vector);
    assert((((v & !0x3FFu64) | (flags & 0x3FFu64)) & 1u64 != 0) == (flags & 1u64 != 0)) by (bit_vector);
    assert((((v & !0x3FFu64) | (flags & 0x3FFu64)) & 14u64 != 0) == (flags & 14u64 != 0)) by (bit_vector);
    assert(2u64 | 4u64 | 8u64 == 14u64) by (bit_vector);
}

/// The letter that names flag bit `k`: V, R, W, X, U, G, A, D.
pub open spec fn flag_letter(k: int) -> u8 {
    if k == 0 { 86u8 } else if k == 1 { 82u8 } else if k == 2 { 87u8 } else if k == 3 { 88u8 }
    else if k == 4 { 85u8 } else if k == 5 { 71u8 } else if k == 6 { 65u8 } else { 68u8 }
}

/// The letters of the bits among the lowest `k` that are set in `bits`, lowest
/// first, separated by bars.
pub open spec fn flag_letters(bits: u64, k: nat) -> Seq<u8>
    decreases k,
{
    if k == 0 {
        Seq::empty()
    } else {
        let prev = flag_letters(bits, (k - 1) as nat);
        if bits & (1u64 << (k - 1) as u64) != 0 {
            if prev.len() == 0 { seq![flag_letter(k - 1)] } else { prev.push(124u8).push(flag_letter(k - 1)) }
        } else {
            prev
        }
    }
}

/// How a set of flags reads: the letters of its set bits among the lowest `n`
/// (see `flag_letters`), or NONE when none is set.
pub open spec fn flags_text(bits: u64, n: nat) -> Seq<u8> {
    if flag_letters(bits, n).len() == 0 { seq![78u8, 79u8, 78u8, 69u8] } else { flag_letters(bits, n) }
}

fn letter(k: u64) -> (r: u8)
    requires
        k < 8,
    ensures
        r == flag_letter(k as int),
{
    if k == 0 { 86 } else if k == 1 { 82 } else if k == 2 { 87 } else if k == 3 { 88 }
    else if k == 4 { 85 } else if k == 5 { 71 } else if k == 6 { 65 } else { 68 }
}

/// Writes the flags as text (see `flags_text`), looking at the lowest `n` bits.
pub fn describe_flags(bits: u64, n: u64) -> (r: Vec<u8>)
    requires
        n <= 8,
    ensures
        r@ == flags_text(bits, n as nat),
{
    let mut out: Vec<u8> = Vec::new();
    let mut k: u64 = 0;
    while k < n
        invariant
            k <= n <= 8,
            out@ == flag_letters(bits, k as nat),
        decreases n - k,
    {
        if bits & (1u64 << k) != 0 {
            if out.len() > 0 {
                out.push(124);
            }
            out.push(letter(k));
        }
        k = k + 1;
    }
    if out.len() == 0 {
        out.push(78);
        out.push(79);
        out.push(78);
        out.push(69);
        assert(out@ =~= seq![78u8, 79u8, 78u8, 69u8]);
    }
    out
}

impl PteFlags {
    /// The flags as text: the letters V, R, W, X, U, G, A, D of the set bits,
    /// separated by bars, or NONE.
    pub fn describe(&self) -> (r: Vec<u8>)
        ensures
            r@ == flags_text(self.0, 8),
    {
        describe_flags(self.0, 8)
    }
}

} // verus!
