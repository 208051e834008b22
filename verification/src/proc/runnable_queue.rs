//! A bitmap of runnable process slots: bit `i` is set when slot `i` may run.
use vstd::prelude::*;
use vstd::std_specs::bits::{u64_trailing_zeros, axiom_u64_trailing_zeros};

verus! {

/// Number of process slots.
pub const NPROC: usize = 64;

/// The runnable bitmap.
pub struct RunnableBitmap {
    pub bits: u64,
}

impl RunnableBitmap {
    /// No slot runnable.
    pub fn new() -> (r: Self)
        ensures
            r.bits == 0,
    {
        RunnableBitmap { bits: 0 }
    }

    /// Sets the bit of slot `proc_idx`; indices past the table are ignored.
    pub fn mark_runnable(&mut self, proc_idx: usize)
        ensures
            final(self).bits == if proc_idx < NPROC { old(self).bits | (1u64 << proc_idx as u64) } else { old(self).bits },
    {
        if proc_idx >= NPROC {
            return;
        }
        let bit: u64 = 1u64 << proc_idx as u64;
        self.bits = self.bits | bit;
    }

    /// Clears the bit of slot `proc_idx`; indices past the table are ignored.
    pub fn mark_not_runnable(&mut self, proc_idx: usize)
        ensures
            final(self).bits == if proc_idx < NPROC { old(self).bits & !(1u64 << proc_idx as u64) } else { old(self).bits },
    {
        if proc_idx >= NPROC {
            return;
        }
        let bit: u64 = 1u64 << proc_idx as u64;
        self.bits = self.bits & !bit;
    }

    /// The lowest runnable slot, if any.
    pub fn find_runnable(&self) -> (r: Option<usize>)
        ensures
            self.bits == 0 ==> r.is_none(),
            self.bits != 0 ==> r == Some(u64_trailing_zeros(self.bits) as usize),
            r matches Some(i) ==> i < NPROC && (self.bits >> i as u64) & 1 == 1
                && forall|j: u64| 0 <= j < i ==> #[trigger] ((self.bits >> j) & 1u64) == 0u64,
    {
        if self.bits == 0 {
            return None;
        }
        proof {
            axiom_u64_trailing_zeros(self.bits);
        }
        let idx = self.bits.trailing_zeros() as usize;
        if idx < NPROC {
            Some(idx)
        } else {
            None
        }
    }

    /// Clears the bit of slot `proc_idx` (the same as `mark_not_runnable`).
    pub fn clear_runnable_bit(&mut self, proc_idx: usize)
        ensures
            final(self).bits == if proc_idx < NPROC { old(self).bits & !(1u64 << proc_idx as u64) } else { old(self).bits },
    {
        self.mark_not_runnable(proc_idx);
    }

    pub fn has_runnable(&self) -> (r: bool)
        ensures
            r == (self.bits != 0),
    {
        self.bits != 0
    }

    pub fn clear_all(&mut self)
        ensures
            final(self).bits == 0,
    {
        self.bits = 0;
    }
}

/// The slot of a process control block at `proc_addr` in a table of `NPROC`
/// entries of `proc_size` bytes starting at `base`: `None` unless the address is
/// exactly the start of an entry of the table.
pub fn find_proc_index(base: usize, proc_addr: usize, proc_size: usize) -> (r: Option<usize>)
    requires
        proc_size > 0,
        base + NPROC * proc_size <= usize::MAX,
    ensures
        match r {
            Some(i) => i < NPROC && proc_addr == base + i * proc_size,
            None => forall|i: int| 0 <= i < NPROC ==> proc_addr != base + #[trigger] (i * proc_size),
        },
{
    if proc_addr < base {
        return None;
    }
    let offset = proc_addr - base;
    let idx = offset / proc_size;
    proof {
        assert(idx * proc_size <= offset) by (nonlinear_arith)
            requires
                idx == offset / proc_size,
                proc_size > 0,
        ;
    }
    if idx < NPROC && base + idx * proc_size == proc_addr {
        Some(idx)
    } else {
        proof {
            assert forall|i: int| 0 <= i < NPROC implies proc_addr != base + #[trigger] (i * proc_size) by {
                if proc_addr == base + i * proc_size {
                    assert(offset == i * proc_size);
                    assert(idx == i) by (nonlinear_arith)
                        requires
                            idx == offset / proc_size,
                            offset == i * proc_size,
                            proc_size > 0,
                            i >= 0,
                    ;
                }
            }
        }
        None
    }
}

/// Marking a slot runnable makes the lowest runnable slot at most that slot, and
/// exactly that slot when no lower slot is runnable; clearing it makes it not runnable.
pub proof fn law_mark_then_find(bits: u64, i: u64)
    requires
        i < 64,
    ensures
        ((bits | (1u64 << i)) >> i) & 1 == 1,
        ((bits & !(1u64 << i)) >> i) & 1 == 0,
        u64_trailing_zeros(bits | (1u64 << i)) <= i,
        (forall|j: u64| j < i ==> #[trigger] ((bits >> j) & 1u64) == 0u64) ==> u64_trailing_zeros(bits | (1u64 << i)) == i,
{
    assert(((bits | (1u64 << i)) >> i) & 1 == 1) by (bit_vector)
        requires
            i < 64,
    ;
    assert(((bits & !(1u64 << i)) >> i) & 1 == 0) by (bit_vector)
        requires
            i < 64,
    ;
    let v = bits | (1u64 << i);
    assert(v != 0) by (bit_vector)
        requires
            v == bits | (1u64 << i),
            i < 64,
    ;
    axiom_u64_trailing_zeros(v);
    let tz = u64_trailing_zeros(v) as u64;
    if tz > i {
        assert((v >> i) & 1u64 == 0u64);
    }
    if forall|j: u64| j < i ==> #[trigger] ((bits >> j) & 1u64) == 0u64 {
        if tz < i {
            assert((bits >> tz) & 1u64 == 0u64);
            assert((v >> tz) & 1u64 == 1u64);
            assert(((bits | (1u64 << i)) >> tz) & 1u64 == (bits >> tz) & 1u64) by (bit_vector)
                requires
                    tz < i,
                    i < 64,
            ;
        }
    }
}

} // verus!
