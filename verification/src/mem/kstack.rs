//! Kernel stacks: slots in a dedicated virtual region, each a guard page followed
//! by the stack, handed out from a bitmap with a rotating hint.
use vstd::prelude::*;
use super::addr::VirtAddr;
use super::addr::PhysAddr;
use super::pmem::{PmemManager, RegionState, alloc_frame_cap, alloc_spec, lemma_first_fit};
use crate::cap::{Capability, CapType, Rights, RIGHTS_ALL};

verus! {

/// Size of the kernel-stack region.
pub const KSTACK_REGION_SIZE: u64 = 0x1000_0000;
/// Base of the kernel-stack region (just below the top of the Sv39 space).
pub const KSTACK_VA_BASE: u64 = 0x3F_F000_0000;
/// Pages of one kernel stack.
pub const KSTACK_PAGES: usize = 4;
/// Bytes of one kernel stack.
pub const KSTACK_SIZE: u64 = 16384;
/// Bytes of one slot: a guard page and the stack.
pub const SLOT_SIZE: u64 = 20480;
/// Number of slots in the region.
pub const MAX_SLOTS: usize = 13107;
/// Words of the slot bitmap.
pub const BITMAP_SIZE: usize = 205;

/// The slot allocator: bit `i % 64` of word `i / 64` is set when slot `i` is in use.
pub struct KStackAllocator {
    pub bitmap: Vec<u64>,
    pub hint: usize,
}

/// Whether slot `i` is in use.
pub open spec fn slot_used(bitmap: Seq<u64>, i: int) -> bool {
    (bitmap[i / 64] >> ((i % 64) as u64)) & 1u64 == 1u64
}

/// The `k`-th slot probed from `hint`.
pub open spec fn probe(hint: int, k: int) -> int {
    (hint + k) % (MAX_SLOTS as int)
}

/// The bitmap with slot `i`'s bit set to `v`.
pub open spec fn set_slot(bitmap: Seq<u64>, i: int, v: bool) -> Seq<u64> {
    let w = bitmap[i / 64];
    let m = 1u64 << ((i % 64) as u64);
    bitmap.update(i / 64, if v { w | m } else { w & !m })
}

proof fn lemma_bit_set_clear(w: u64, b: u64, c: u64)
    requires
        b < 64,
        c < 64,
    ensures
        ((w | (1u64 << b)) >> b) & 1u64 == 1u64,
        ((w & !(1u64 << b)) >> b) & 1u64 == 0u64,
        c != b ==> ((w | (1u64 << b)) >> c) & 1u64 == (w >> c) & 1u64,
        c != b ==> ((w & !(1u64 << b)) >> c) & 1u64 == (w >> c) & 1u64,
        ((w >> b) & 1u64 == 0u64) == (w & (1u64 << b) == 0u64),
        ((w >> b) & 1u64 == 1u64) || ((w >> b) & 1u64 == 0u64),
{
    assert(((w | (1u64 << b)) >> b) & 1u64 == 1u64) by (bit_vector)
        requires
            b < 64,
    ;
    assert(((w & !(1u64 << b)) >> b) & 1u64 == 0u64) by (bit_vector)
        requires
            b < 64,
    ;
    assert(c != b ==> ((w | (1u64 << b)) >> c) & 1u64 == (w >> c) & 1u64) by (bit_vector)
        requires
            b < 64,
            c < 64,
    ;
    assert(c != b ==> ((w & !(1u64 << b)) >> c) & 1u64 == (w >> c) & 1u64) by (bit_vector)
        requires
            b < 64,
            c < 64,
    ;
    assert(((w >> b) & 1u64 == 0u64) == (w & (1u64 << b) == 0u64)) by (bit_vector)
        requires
            b < 64,
    ;
    assert(((w >> b) & 1u64 == 1u64) || ((w >> b) & 1u64 == 0u64)) by (bit_vector);
}

/// Setting or clearing slot `i` changes no other slot.
proof fn lemma_set_slot(bitmap: Seq<u64>, i: int, v: bool, j: int)
    requires
        0 <= i < MAX_SLOTS,
        0 <= j < MAX_SLOTS,
        bitmap.len() == BITMAP_SIZE,
    ensures
        slot_used(set_slot(bitmap, i, v), i) == v,
        j != i ==> slot_used(set_slot(bitmap, i, v), j) == slot_used(bitmap, j),
{
    let b2 = set_slot(bitmap, i, v);
    lemma_bit_set_clear(bitmap[i / 64], (i % 64) as u64, (j % 64) as u64);
    if j != i && j / 64 != i / 64 {
        assert(b2[j / 64] == bitmap[j / 64]);
    }
    if j != i && j / 64 == i / 64 {
        assert(j % 64 != i % 64);
    }
}

impl KStackAllocator {
    pub open spec fn wf(&self) -> bool {
        &&& self.bitmap@.len() == BITMAP_SIZE
        &&& self.hint <= MAX_SLOTS
    }

    /// Every slot free, hint at slot 0.
    pub fn new() -> (r: Self)
        ensures
            r.wf(),
            r.hint == 0,
            forall|i: int| 0 <= i < MAX_SLOTS ==> !slot_used(r.bitmap@, i),
    {
        let mut bitmap: Vec<u64> = Vec::new();
        let mut k: usize = 0;
        while k < BITMAP_SIZE
            invariant
                bitmap@.len() == k,
                k <= BITMAP_SIZE,
                forall|i: int| 0 <= i < k ==> bitmap@[i] == 0,
            decreases BITMAP_SIZE - k,
        {
            bitmap.push(0);
            k += 1;
        }
        proof {
            assert forall|i: int| 0 <= i < MAX_SLOTS implies !slot_used(bitmap@, i) by {
                let s = (i % 64) as u64;
                assert((0u64 >> s) & 1u64 == 0u64) by (bit_vector);
            }
        }
        KStackAllocator { bitmap, hint: 0 }
    }

    /// Whether slot `idx` is in use.
    fn is_used(&self, idx: usize) -> (r: bool)
        requires
            self.wf(),
            idx < MAX_SLOTS,
        ensures
            r == slot_used(self.bitmap@, idx as int),
    {
        let w = self.bitmap[idx / 64];
        let b = (idx % 64) as u64;
        proof {
            lemma_bit_set_clear(w, b, 0);
        }
        (w & (1u64 << b)) != 0
    }

    /// Takes the first free slot at or after the hint, wrapping around; the hint
    /// moves past it. `None` when every slot is in use.
    pub fn allocate(&mut self) -> (r: Option<usize>)
        requires
            old(self).wf(),
        ensures
            final(self).wf(),
            match r {
                Some(idx) => {
                    &&& idx < MAX_SLOTS
                    &&& !slot_used(old(self).bitmap@, idx as int)
                    &&& final(self).bitmap@ == set_slot(old(self).bitmap@, idx as int, true)
                    &&& final(self).hint == idx + 1
                    &&& exists|k: int| 0 <= k < MAX_SLOTS && idx == #[trigger] probe(old(self).hint as int, k)
                        && forall|j: int| 0 <= j < k ==> #[trigger] slot_used(old(self).bitmap@, probe(old(self).hint as int, j))
                },
                None => {
                    &&& *final(self) == *old(self)
                    &&& forall|i: int| 0 <= i < MAX_SLOTS ==> #[trigger] slot_used(old(self).bitmap@, i)
                },
            },
    {
        let mut i: usize = 0;
        while i < MAX_SLOTS
            invariant
                self.wf(),
                *self == *old(self),
                i <= MAX_SLOTS,
                forall|j: int| 0 <= j < i ==> #[trigger] slot_used(self.bitmap@, probe(self.hint as int, j)),
            decreases MAX_SLOTS - i,
        {
            let idx = (self.hint + i) % MAX_SLOTS;
            if !self.is_used(idx) {
                let w = self.bitmap[idx / 64];
                let b = (idx % 64) as u64;
                self.bitmap.set(idx / 64, w | (1u64 << b));
                self.hint = idx + 1;
                proof {
                    assert(self.bitmap@ == set_slot(old(self).bitmap@, idx as int, true));
                    assert(idx == probe(old(self).hint as int, i as int));
                }
                return Some(idx);
            }
            i += 1;
        }
        proof {
            assert forall|s: int| 0 <= s < MAX_SLOTS implies #[trigger] slot_used(old(self).bitmap@, s) by {
                let h = old(self).hint as int;
                let j = if s >= h { s - h } else { s + MAX_SLOTS - h };
                assert(0 <= j < MAX_SLOTS);
                assert(probe(h, j) == s);
                assert(slot_used(old(self).bitmap@, probe(h, j)));
            }
        }
        None
    }

    /// Frees slot `slot` and moves the hint to it; slots past the region are ignored.
    pub fn free(&mut self, slot: usize)
        requires
            old(self).wf(),
        ensures
            final(self).wf(),
            slot < MAX_SLOTS ==> final(self).bitmap@ == set_slot(old(self).bitmap@, slot as int, false) && final(self).hint == slot,
            slot >= MAX_SLOTS ==> *final(self) == *old(self),
    {
        if slot < MAX_SLOTS {
            let w = self.bitmap[slot / 64];
            let b = (slot % 64) as u64;
            self.bitmap.set(slot / 64, w & !(1u64 << b));
            self.hint = slot;
        }
    }
}

/// A freed slot is free, other slots keep their state, and since the hint points
/// at it, the next allocation hands out that very slot again.
pub proof fn law_free_then_allocate_same_slot(bitmap: Seq<u64>, slot: int, other: int)
    requires
        bitmap.len() == BITMAP_SIZE,
        0 <= slot < MAX_SLOTS,
        0 <= other < MAX_SLOTS,
    ensures
        !slot_used(set_slot(bitmap, slot, false), slot),
        other != slot ==> slot_used(set_slot(bitmap, slot, false), other) == slot_used(bitmap, other),
        probe(slot, 0) == slot,
        slot_used(set_slot(set_slot(bitmap, slot, false), slot, true), slot),
{
    lemma_set_slot(bitmap, slot, false, other);
    lemma_set_slot(set_slot(bitmap, slot, false), slot, true, other);
}

/// Taking `n` one-page frames from the regions `g` one after another, each as
/// a frame capability with all rights: the frames and the regions after, or
/// no frames (with the regions as the failed attempt left them) when one
/// cannot be had.
pub open spec fn frames_run(g: Seq<RegionState>, n: nat) -> (Option<Seq<Capability>>, Seq<RegionState>)
    decreases n,
{
    if n == 0 {
        (Some(Seq::empty()), g)
    } else {
        match alloc_spec(g, 4096, 4096) {
            None => (None, g),
            Some((a, g1)) => {
                let cap = Capability::spec_new(CapType::Frame, PhysAddr(a), 1, Rights(RIGHTS_ALL));
                let (rest, g2) = frames_run(g1, (n - 1) as nat);
                match rest {
                    None => (None, g2),
                    Some(fs) => (Some(seq![cap] + fs), g2),
                }
            },
        }
    }
}

/// A kernel stack: its base (above the guard page), its slot, and its frames.
pub struct KernelStack {
    pub base: VirtAddr,
    pub slot: usize,
    pub frames: Vec<Capability>,
}

impl KernelStack {
    /// Takes the first free slot at or after the hint (see
    /// `KStackAllocator::allocate`) and a frame for each stack page, in order
    /// (see `frames_run`). With every slot in use nothing changes and `None` is
    /// returned; when a frame cannot be had, the slot is given back (the hint
    /// then points at it) and `None` returned. The caller flushes the TLB.
    pub fn allocate(slots: &mut KStackAllocator, pmem: &mut PmemManager) -> (r: Option<KernelStack>)
        requires
            old(slots).wf(),
            old(pmem).wf(),
            forall|i: int| 0 <= i < old(pmem).regions@.len() ==> #[trigger] old(pmem).regions@[i].end.0 + 8192 <= u64::MAX,
        ensures
            final(slots).wf(),
            final(pmem).wf(),
            (forall|i: int| 0 <= i < MAX_SLOTS ==> #[trigger] slot_used(old(slots).bitmap@, i)) ==> {
                &&& r is None
                &&& *final(slots) == *old(slots)
                &&& final(pmem).regions@ == old(pmem).regions@
            },
            !(forall|i: int| 0 <= i < MAX_SLOTS ==> #[trigger] slot_used(old(slots).bitmap@, i)) ==> {
                let (fs, g) = frames_run(old(pmem).regions@, KSTACK_PAGES as nat);
                &&& final(pmem).regions@ == g
                &&& (r is Some <==> fs is Some)
                &&& r matches Some(ks) ==> ks.frames@ == fs->0
                &&& r is None ==> {
                    &&& final(slots).hint < MAX_SLOTS
                    &&& !slot_used(old(slots).bitmap@, final(slots).hint as int)
                    &&& exists|k: int| 0 <= k < MAX_SLOTS && final(slots).hint == #[trigger] probe(old(slots).hint as int, k)
                        && forall|j: int| 0 <= j < k ==> #[trigger] slot_used(old(slots).bitmap@, probe(old(slots).hint as int, j))
                }
            },
            match r {
                Some(ks) => {
                    &&& ks.slot < MAX_SLOTS
                    &&& ks.base.0 == KSTACK_VA_BASE + ks.slot * SLOT_SIZE + 4096
                    &&& ks.frames@.len() == KSTACK_PAGES
                    &&& !slot_used(old(slots).bitmap@, ks.slot as int)
                    &&& final(slots).bitmap@ == set_slot(old(slots).bitmap@, ks.slot as int, true)
                    &&& final(slots).hint == ks.slot + 1
                    &&& exists|k: int| 0 <= k < MAX_SLOTS && ks.slot == #[trigger] probe(old(slots).hint as int, k)
                        && forall|j: int| 0 <= j < k ==> #[trigger] slot_used(old(slots).bitmap@, probe(old(slots).hint as int, j))
                },
                None => forall|i: int| 0 <= i < MAX_SLOTS ==> slot_used(final(slots).bitmap@, i) == slot_used(old(slots).bitmap@, i),
            },
    {
        let slot = match slots.allocate() {
            Some(s) => s,
            None => return None,
        };
        let base = VirtAddr(KSTACK_VA_BASE + slot as u64 * SLOT_SIZE + 4096);
        let mut frames: Vec<Capability> = Vec::new();
        let mut i: usize = 0;
        while i < KSTACK_PAGES
            invariant
                pmem.wf(),
                slots.wf(),
                frames@.len() == i,
                i <= KSTACK_PAGES,
                slot < MAX_SLOTS,
                !slot_used(old(slots).bitmap@, slot as int),
                slots.bitmap@ == set_slot(old(slots).bitmap@, slot as int, true),
                old(slots).wf(),
                pmem.regions@.len() == old(pmem).regions@.len(),
                forall|k: int| 0 <= k < pmem.regions@.len() ==> #[trigger] pmem.regions@[k].end == old(pmem).regions@[k].end,
                forall|k: int| 0 <= k < old(pmem).regions@.len() ==> #[trigger] old(pmem).regions@[k].end.0 + 8192 <= u64::MAX,
                slots.hint == slot + 1,
                exists|k: int| 0 <= k < MAX_SLOTS && slot == #[trigger] probe(old(slots).hint as int, k)
                    && forall|j: int| 0 <= j < k ==> #[trigger] slot_used(old(slots).bitmap@, probe(old(slots).hint as int, j)),
                frames_run(old(pmem).regions@, KSTACK_PAGES as nat) == match frames_run(pmem.regions@, (KSTACK_PAGES - i) as nat) {
                    (None, g) => (None, g),
                    (Some(fs), g) => (Some(frames@ + fs), g),
                },
            decreases KSTACK_PAGES - i,
        {
            let ghost before = pmem.regions@;
            let ghost fr = frames@;
            proof {
                lemma_first_fit(before, 4096, 4096);
                assert forall|k: int| 0 <= k < pmem.regions@.len() implies #[trigger] pmem.regions@[k].end.0 + 4096 + 1 * 4096 <= u64::MAX by {
                    assert(pmem.regions@[k].end == old(pmem).regions@[k].end);
                    assert(old(pmem).regions@[k].end.0 + 8192 <= u64::MAX);
                }
            }
            match alloc_frame_cap(pmem, 1) {
                Some(c) => {
                    frames.push(c);
                    proof {
                        let (rest, g2) = frames_run(pmem.regions@, (KSTACK_PAGES - i - 1) as nat);
                        assert(frames_run(before, (KSTACK_PAGES - i) as nat) == match rest {
                            None => (None, g2),
                            Some(fs) => (Some(seq![c] + fs), g2),
                        });
                        if let Some(fs) = rest {
                            assert(fr + (seq![c] + fs) =~= frames@ + fs);
                        }
                    }
                },
                None => {
                    assert(frames_run(before, (KSTACK_PAGES - i) as nat) == (None::<Seq<Capability>>, before));
                    slots.free(slot);
                    proof {
                        assert forall|s: int| 0 <= s < MAX_SLOTS implies slot_used(slots.bitmap@, s) == slot_used(old(slots).bitmap@, s) by {
                            lemma_set_slot(old(slots).bitmap@, slot as int, true, s);
                            lemma_set_slot(set_slot(old(slots).bitmap@, slot as int, true), slot as int, false, s);
                        }
                    }
                    return None;
                },
            }
            proof {
                assert forall|k: int| 0 <= k < pmem.regions@.len() implies #[trigger] pmem.regions@[k].end == old(pmem).regions@[k].end by {
                    assert(pmem.regions@[k].end == before[k].end);
                }
            }
            i += 1;
        }
        proof {
            assert(frames@ + Seq::<Capability>::empty() =~= frames@);
        }
        Some(KernelStack { base, slot, frames })
    }

    /// The top of the stack: its base plus the stack size.
    pub fn top(&self) -> (r: VirtAddr)
        requires
            self.base.0 + KSTACK_SIZE <= u64::MAX,
        ensures
            r.0 == self.base.0 + KSTACK_SIZE,
    {
        VirtAddr(self.base.0 + KSTACK_SIZE)
    }
}

} // verus!
