//! Physical and virtual addresses, page numbers and alignment arithmetic.
use vstd::prelude::*;
use super::VA_MAX;
use vstd::arithmetic::power2::{pow2, lemma_pow2_pos};
use vstd::bits::{low_bits_mask, lemma_low_bits_mask_values, lemma_u64_low_bits_mask_is_mod};

verus! {

/// True when `a` is a power of two below 2^64.
pub open spec fn is_pow2(a: u64) -> bool {
    exists|n: nat| n < 64 && a as int == #[trigger] pow2(n)
}

/// `x` rounded down by clearing the bits below `align` (the mask `align - 1`).
pub open spec fn spec_align_down(x: u64, align: u64) -> u64 {
    x & !((align - 1) as u64)
}

/// `x` rounded up: `x + align - 1` with the low bits cleared.
pub open spec fn spec_align_up(x: u64, align: u64) -> u64 {
    ((x + align - 1) as u64) & !((align - 1) as u64)
}

proof fn lemma_and_not_mask(x: u64, m: u64)
    ensures
        x & !m == x - (x & m),
        (x & m) <= x,
{
    assert(x & !m == x - (x & m) && (x & m) <= x) by (bit_vector);
}

/// For a power-of-two alignment, clearing the low bits is rounding down to a multiple.
pub proof fn lemma_align_down_pow2(x: u64, align: u64)
    requires
        is_pow2(align),
    ensures
        spec_align_down(x, align) == x - x % align,
        spec_align_down(x, align) % align == 0,
        spec_align_down(x, align) <= x,
        x - spec_align_down(x, align) < align,
{
    let n = choose|n: nat| n < 64 && align as int == #[trigger] pow2(n);
    lemma_pow2_pos(n);
    lemma_low_bits_mask_values();
    assert(low_bits_mask(n) == pow2(n) - 1) by {
        reveal(low_bits_mask);
    }
    lemma_u64_low_bits_mask_is_mod(x, n);
    lemma_and_not_mask(x, (align - 1) as u64);
    assert((x & ((align - 1) as u64)) == x % align);
    vstd::arithmetic::div_mod::lemma_fundamental_div_mod(x as int, align as int);
    vstd::arithmetic::div_mod::lemma_mod_multiples_basic((x / align) as int, align as int);
    assert((x - x % align) as int == align * (x / align));
    assert(((align * (x / align)) as int) % (align as int) == 0) by {
        vstd::arithmetic::div_mod::lemma_mod_multiples_basic((x / align) as int, align as int);
        vstd::arithmetic::mul::lemma_mul_is_commutative(align as int, (x / align) as int);
    }
}

/// For a power-of-two alignment, the round-up is the least multiple not below `x`.
pub proof fn lemma_align_up_pow2(x: u64, align: u64)
    requires
        is_pow2(align),
        x + align - 1 <= u64::MAX,
    ensures
        spec_align_up(x, align) % align == 0,
        spec_align_up(x, align) >= x,
        spec_align_up(x, align) - x < align,
        x % align == 0 ==> spec_align_up(x, align) == x,
{
    let y = (x + align - 1) as u64;
    lemma_align_down_pow2(y, align);
    assert(spec_align_up(x, align) == spec_align_down(y, align));
    let n = choose|n: nat| n < 64 && align as int == #[trigger] pow2(n);
    lemma_pow2_pos(n);
    if x % align == 0 {
        vstd::arithmetic::div_mod::lemma_fundamental_div_mod(x as int, align as int);
        assert(y % align == align - 1) by {
            vstd::arithmetic::div_mod::lemma_mod_multiples_vanish((x / align) as int, (align - 1) as int, align as int);
            vstd::arithmetic::div_mod::lemma_small_mod((align - 1) as nat, align as nat);
        }
    }
    vstd::arithmetic::div_mod::lemma_mod_bound(y as int, align as int);
}

/// A physical address.
#[derive(Clone, Copy, PartialEq, Eq, Structural, Debug)]
pub struct PhysAddr(pub u64);

impl PhysAddr {
    pub fn from(addr: u64) -> (r: Self)
        ensures
            r.0 == addr,
    {
        Self(addr)
    }

    pub fn as_usize(&self) -> (r: u64)
        ensures
            r == self.0,
    {
        self.0
    }

    pub fn null() -> (r: Self)
        ensures
            r.0 == 0,
    {
        Self(0)
    }

    /// Clears the bits of the address below `align`.
    pub fn align_down(&self, align: u64) -> (r: Self)
        requires
            align > 0,
        ensures
            r.0 == spec_align_down(self.0, align),
            is_pow2(align) ==> r.0 == self.0 - self.0 % align,
    {
        proof {
            if is_pow2(align) {
                lemma_align_down_pow2(self.0, align);
            }
        }
        PhysAddr(self.0 & !(align - 1))
    }

    /// Rounds the address up by adding `align - 1` and clearing the low bits.
    pub fn align_up(&self, align: u64) -> (r: Self)
        requires
            align > 0,
            self.0 + align - 1 <= u64::MAX,
        ensures
            r.0 == spec_align_up(self.0, align),
            is_pow2(align) ==> r.0 % align == 0 && r.0 >= self.0 && r.0 - self.0 < align,
    {
        proof {
            if is_pow2(align) {
                lemma_align_up_pow2(self.0, align);
            }
        }
        PhysAddr((self.0 + (align - 1)) & !(align - 1))
    }

    pub fn is_aligned(&self, align: u64) -> (r: bool)
        requires
            align > 0,
        ensures
            r == (self.0 % align == 0),
    {
        self.0 % align == 0
    }
}

/// A virtual address.
#[derive(Clone, Copy, PartialEq, Eq, Structural, Debug)]
pub struct VirtAddr(pub u64);

impl VirtAddr {
    pub fn from(addr: u64) -> (r: Self)
        ensures
            r.0 == addr,
    {
        Self(addr)
    }

    pub fn as_usize(&self) -> (r: u64)
        ensures
            r == self.0,
    {
        self.0
    }

    pub fn null() -> (r: Self)
        ensures
            r.0 == 0,
    {
        Self(0)
    }

    /// Clears the bits of the address below `align`.
    pub fn align_down(&self, align: u64) -> (r: Self)
        requires
            align > 0,
        ensures
            r.0 == spec_align_down(self.0, align),
            is_pow2(align) ==> r.0 == self.0 - self.0 % align,
    {
        proof {
            if is_pow2(align) {
                lemma_align_down_pow2(self.0, align);
            }
        }
        VirtAddr(self.0 & !(align - 1))
    }

    /// Rounds the address up by adding `align - 1` and clearing the low bits.
    pub fn align_up(&self, align: u64) -> (r: Self)
        requires
            align > 0,
            self.0 + align - 1 <= u64::MAX,
        ensures
            r.0 == spec_align_up(self.0, align),
            is_pow2(align) ==> r.0 % align == 0 && r.0 >= self.0 && r.0 - self.0 < align,
    {
        proof {
            if is_pow2(align) {
                lemma_align_up_pow2(self.0, align);
            }
        }
        VirtAddr((self.0 + (align - 1)) & !(align - 1))
    }

    /// The highest user virtual address.
    pub fn max() -> (r: Self)
        ensures
            r.0 == VA_MAX - 1,
    {
        Self(VA_MAX - 1)
    }

    pub fn is_aligned(&self, align: u64) -> (r: bool)
        requires
            align > 0,
        ensures
            r == (self.0 % align == 0),
    {
        self.0 % align == 0
    }
}

/// A physical page number.
#[derive(Clone, Copy, PartialEq, Eq, Structural, Debug)]
pub struct PPN(pub u64);

impl PPN {
    pub fn from(ppn: u64) -> (r: Self)
        ensures
            r.0 == ppn,
    {
        Self(ppn)
    }

    pub fn as_usize(&self) -> (r: u64)
        ensures
            r == self.0,
    {
        self.0
    }
}

/// A virtual page number.
#[derive(Clone, Copy, PartialEq, Eq, Structural, Debug)]
pub struct VPN(pub u64);

impl VPN {
    pub fn from(vpn: u64) -> (r: Self)
        ensures
            r.0 == vpn,
    {
        Self(vpn)
    }

    pub fn as_usize(&self) -> (r: u64)
        ensures
            r == self.0,
    {
        self.0
    }
}

} // verus!
