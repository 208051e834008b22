//! Mapping with intermediate tables allocated on the way.
use vstd::prelude::*;
use super::addr::{PhysAddr, VirtAddr, spec_align_down, is_pow2, lemma_align_down_pow2};
use super::pagetable::{PageTable, TableStore, PteLoc, vpn, vpn_index, table_index, entry_at, put_root, put_ents, gap, loc_in_range,
    walk_spec, translation, lemma_walk_unfold, lemma_table_index_bound, lemma_table_index_push, lemma_vpn_bounds, law_walk_after_write};
use super::pmem::{PmemManager, RegionState, alloc_spec, lemma_first_fit};
use super::pte::{Pte, PteFlags, pte_valid, pte_leaf, pte_pa, pte_encode, law_pte_roundtrip, VALID, READ, WRITE, EXECUTE};
use super::uvm::frames_below_top;
use super::Perms;
use crate::error::Error;

verus! {

/// The entry at `loc` made valid: left alone when it is valid; otherwise pointed
/// (valid, without permissions) at a fresh table page from the allocator, which
/// joins the store empty. `None` when no page is free or the store is full.
pub open spec fn fill_entry(
    root: Seq<Pte>,
    addrs: Seq<PhysAddr>,
    ents: Seq<Pte>,
    regs: Seq<RegionState>,
    loc: PteLoc,
) -> Option<(Seq<Pte>, Seq<PhysAddr>, Seq<Pte>, Seq<RegionState>)> {
    if pte_valid(entry_at(root, ents, loc).0) {
        Some((root, addrs, ents, regs))
    } else if (addrs.len() + 1) * 512 > usize::MAX {
        None
    } else {
        match alloc_spec(regs, 4096, 4096) {
            None => None,
            Some((p, regs2)) => {
                let v = Pte(pte_encode(p, VALID));
                Some((put_root(root, loc, v), addrs.push(PhysAddr(p)), put_ents(ents + Seq::new(512, |i: int| Pte(0)), loc, v), regs2))
            },
        }
    }
}

/// A leaf met above the last level (level 2: a 1 GiB page, level 1: 2 MiB):
/// when it maps the huge page that holds `pa`, the mapping skips to the next
/// huge-page boundary (not past `end`); otherwise it fails.
pub open spec fn huge_skip(e: Pte, level: int, va: u64, end: u64, pa: u64) -> Result<u64, Error> {
    let size: u64 = if level == 2 { 0x4000_0000 } else { 0x20_0000 };
    if pte_pa(e.0) == spec_align_down(pa, size) {
        let next = spec_align_down(va, size) + size;
        Ok(if next - va < end - va { (next - va) as u64 } else { (end - va) as u64 })
    } else {
        Err(Error::MappingFailed)
    }
}

/// One page of `map_with_alloc` at `va`: the level-2 and level-1 entries are
/// made valid (see `fill_entry`), a huge page on the way is handled by
/// `huge_skip`, and the level-0 entry gets `pa` with `flags`. The result is how
/// far to advance, or the failure: `OutOfMemory` when a table page cannot be
/// had, `MappingFailed` when an entry points to no table page of the store.
pub open spec fn map_alloc_step(
    root: Seq<Pte>,
    addrs: Seq<PhysAddr>,
    ents: Seq<Pte>,
    regs: Seq<RegionState>,
    va: u64,
    end: u64,
    pa: u64,
    flags: u64,
) -> (Seq<Pte>, Seq<PhysAddr>, Seq<Pte>, Seq<RegionState>, Result<u64, Error>) {
    let l2 = PteLoc::Root(vpn_index(va, 2) as usize);
    match fill_entry(root, addrs, ents, regs, l2) {
        None => (root, addrs, ents, regs, Err(Error::OutOfMemory)),
        Some((r1, a1, e1, g1)) => {
            let x2 = entry_at(r1, e1, l2);
            if pte_leaf(x2.0) {
                (r1, a1, e1, g1, huge_skip(x2, 2, va, end, pa))
            } else {
                match table_index(a1, pte_pa(x2.0)) {
                    None => (r1, a1, e1, g1, Err(Error::MappingFailed)),
                    Some(t1) => {
                        let l1 = PteLoc::Table(t1 as usize, vpn_index(va, 1) as usize);
                        match fill_entry(r1, a1, e1, g1, l1) {
                            None => (r1, a1, e1, g1, Err(Error::OutOfMemory)),
                            Some((r2, a2, e2, g2)) => {
                                let x1 = entry_at(r2, e2, l1);
                                if pte_leaf(x1.0) {
                                    (r2, a2, e2, g2, huge_skip(x1, 1, va, end, pa))
                                } else {
                                    match table_index(a2, pte_pa(x1.0)) {
                                        None => (r2, a2, e2, g2, Err(Error::MappingFailed)),
                                        Some(t0) => {
                                            let l0 = PteLoc::Table(t0 as usize, vpn_index(va, 0) as usize);
                                            let v = Pte(pte_encode(pa, flags));
                                            (r2, a2, put_ents(e2, l0, v), g2, Ok(4096u64))
                                        },
                                    }
                                }
                            },
                        }
                    },
                }
            }
        },
    }
}

/// `map_with_alloc` from `va` up to `end`, page by page (see `map_alloc_step`).
pub open spec fn map_alloc_run(
    root: Seq<Pte>,
    addrs: Seq<PhysAddr>,
    ents: Seq<Pte>,
    regs: Seq<RegionState>,
    va: int,
    end: int,
    pa: int,
    flags: u64,
) -> (Seq<Pte>, Seq<PhysAddr>, Seq<Pte>, Seq<RegionState>, Result<(), Error>)
    decreases gap(va, end),
{
    if va >= end || va < 0 || end > u64::MAX {
        (root, addrs, ents, regs, Ok(()))
    } else {
        let (r, a, e, g, res) = map_alloc_step(root, addrs, ents, regs, va as u64, end as u64, pa as u64, flags);
        match res {
            Err(x) => (r, a, e, g, Err(x)),
            Ok(step) => if step > 0 {
                map_alloc_run(r, a, e, g, va + step, end, pa + step, flags)
            } else {
                (r, a, e, g, Ok(()))
            },
        }
    }
}

/// What `fill_entry` does to the shape of the tables: the sizes stay
/// consistent, the entry at `loc` becomes valid, a valid entry leaves all as it
/// was, and a new entry points to a table (it is no leaf) whose page joins the
/// store at its end.
proof fn lemma_fill_entry_shape(root: Seq<Pte>, addrs: Seq<PhysAddr>, ents: Seq<Pte>, regs: Seq<RegionState>, loc: PteLoc)
    requires
        root.len() == 512,
        ents.len() == addrs.len() * 512,
        ents.len() <= usize::MAX,
        loc_in_range(loc, ents.len() as int),
    ensures
        fill_entry(root, addrs, ents, regs, loc) matches Some((r1, a1, e1, g1)) ==> {
            &&& r1.len() == 512
            &&& e1.len() == a1.len() * 512
            &&& e1.len() <= usize::MAX
            &&& pte_valid(entry_at(r1, e1, loc).0)
            &&& (loc is Table ==> r1 == root)
            &&& (a1 == addrs || a1 == addrs.push(a1.last()))
            &&& (pte_valid(entry_at(root, ents, loc).0) ==> r1 == root && a1 == addrs && e1 == ents)
            &&& (!pte_valid(entry_at(root, ents, loc).0) ==> !pte_leaf(entry_at(r1, e1, loc).0))
        },
{
    if !pte_valid(entry_at(root, ents, loc).0) && (addrs.len() + 1) * 512 <= usize::MAX {
        if let Some((p, regs2)) = alloc_spec(regs, 4096, 4096) {
            let v = Pte(pte_encode(p, VALID));
            law_pte_roundtrip(p, VALID);
            assert(VALID & VALID != 0 && VALID & (READ | WRITE | EXECUTE) == 0) by (bit_vector);
            let big = ents + Seq::new(512, |i: int| Pte(0));
            let a1 = addrs.push(PhysAddr(p));
            assert(a1.last() == PhysAddr(p));
            assert(big.len() == ents.len() + 512);
            let r1 = put_root(root, loc, v);
            let e1 = put_ents(big, loc, v);
            match loc {
                PteLoc::Root(j) => {
                    assert(r1[j as int] == v);
                    assert(e1 == big);
                },
                PteLoc::Table(t, j) => {
                    assert(big[t * 512 + j] == ents[t * 512 + j]);
                    assert(e1[t * 512 + j] == v);
                    assert(r1 == root);
                },
            }
            assert(fill_entry(root, addrs, ents, regs, loc) == Some((r1, a1, e1, regs2)));
            assert(r1.len() == 512);
            assert(e1.len() == a1.len() * 512);
            assert(entry_at(r1, e1, loc) == v);
            assert(pte_valid(v.0));
            assert(!pte_leaf(v.0));
        }
    }
}

/// What a page of `map_with_alloc` gives: when the step succeeds, `va`
/// translates to a leaf that maps `pa`: the new entry for `pa` with `flags`, or
/// a huge page already there (1 GiB or 2 MiB) that holds `pa`.
#[verifier::rlimit(60)]
pub proof fn law_map_alloc_then_translate(
    root: Seq<Pte>,
    addrs: Seq<PhysAddr>,
    ents: Seq<Pte>,
    regs: Seq<RegionState>,
    va: u64,
    end: u64,
    pa: u64,
    flags: u64,
)
    requires
        root.len() == 512,
        ents.len() == addrs.len() * 512,
        ents.len() <= usize::MAX,
        flags & VALID != 0,
        flags & (READ | WRITE | EXECUTE) != 0,
    ensures
        ({
            let (r, a, e, g, res) = map_alloc_step(root, addrs, ents, regs, va, end, pa, flags);
            res is Ok ==> (translation(r, a, e, va) matches Some(x) && pte_leaf(x.0) && (
                x == Pte(pte_encode(pa, flags))
                || pte_pa(x.0) == spec_align_down(pa, 0x4000_0000)
                || pte_pa(x.0) == spec_align_down(pa, 0x20_0000)))
        }),
{
    lemma_vpn_bounds(va);
    let i2 = vpn_index(va, 2);
    let i1 = vpn_index(va, 1);
    let i0 = vpn_index(va, 0);
    let l2 = PteLoc::Root(i2 as usize);
    lemma_fill_entry_shape(root, addrs, ents, regs, l2);
    match fill_entry(root, addrs, ents, regs, l2) {
        None => {},
        Some((r1, a1, e1, g1)) => {
            let x2 = entry_at(r1, e1, l2);
            lemma_walk_unfold(r1, a1, e1, va);
            if pte_leaf(x2.0) {
                assert(walk_spec(r1, a1, e1, va) == Some(l2));
            } else {
                lemma_table_index_bound(a1, pte_pa(x2.0));
                match table_index(a1, pte_pa(x2.0)) {
                    None => {},
                    Some(t1) => {
                        let l1 = PteLoc::Table(t1 as usize, i1 as usize);
                        assert(t1 * 512 + i1 < e1.len()) by (nonlinear_arith)
                            requires
                                0 <= t1 < a1.len(),
                                0 <= i1 < 512,
                                e1.len() == a1.len() * 512,
                        ;
                        lemma_fill_entry_shape(r1, a1, e1, g1, l1);
                        match fill_entry(r1, a1, e1, g1, l1) {
                            None => {},
                            Some((r2, a2, e2, g2)) => {
                                if a2 != a1 {
                                    lemma_table_index_push(a1, a2.last(), pte_pa(x2.0));
                                }
                                assert(r2[i2] == x2);
                                assert(table_index(a2, pte_pa(x2.0)) == Some(t1));
                                let x1 = entry_at(r2, e2, l1);
                                lemma_walk_unfold(r2, a2, e2, va);
                                if pte_leaf(x1.0) {
                                    assert(walk_spec(r2, a2, e2, va) == Some(l1));
                                } else {
                                    lemma_table_index_bound(a2, pte_pa(x1.0));
                                    match table_index(a2, pte_pa(x1.0)) {
                                        None => {},
                                        Some(t0) => {
                                            let l0 = PteLoc::Table(t0 as usize, i0 as usize);
                                            let v = Pte(pte_encode(pa, flags));
                                            law_pte_roundtrip(pa, flags);
                                            assert(walk_spec(r2, a2, e2, va) == Some(l0));
                                            law_walk_after_write(r2, a2, e2, va, v);
                                            assert(put_root(r2, l0, v) == r2);
                                        },
                                    }
                                }
                            },
                        }
                    },
                }
            }
        },
    }
}

proof fn lemma_pow2_sizes()
    ensures
        is_pow2(4096u64),
        is_pow2(0x20_0000u64),
        is_pow2(0x4000_0000u64),
{
    vstd::arithmetic::power2::lemma2_to64();
    assert(4096 == vstd::arithmetic::power2::pow2(12));
    assert(0x20_0000 == vstd::arithmetic::power2::pow2(21));
    assert(0x4000_0000 == vstd::arithmetic::power2::pow2(30));
}

impl PageTable {
    /// Makes the entry at `loc` valid (see `fill_entry`); false when that fails.
    fn fill_entry_exec(&mut self, store: &mut TableStore, pmem: &mut PmemManager, loc: PteLoc) -> (r: bool)
        requires
            old(self).wf(),
            old(store).wf(),
            old(pmem).wf(),
            frames_below_top(old(pmem).regions@),
            loc_in_range(loc, old(store).entries@.len() as int),
        ensures
            final(self).wf(),
            final(store).wf(),
            final(pmem).wf(),
            frames_below_top(final(pmem).regions@),
            loc_in_range(loc, final(store).entries@.len() as int),
            match fill_entry(old(self).entries@, old(store).addrs@, old(store).entries@, old(pmem).regions@, loc) {
                None => !r && final(self).entries@ == old(self).entries@ && final(store).addrs@ == old(store).addrs@
                    && final(store).entries@ == old(store).entries@ && final(pmem).regions@ == old(pmem).regions@,
                Some((r1, a1, e1, g1)) => r && final(self).entries@ == r1 && final(store).addrs@ == a1
                    && final(store).entries@ == e1 && final(pmem).regions@ == g1,
            },
    {
        let e = self.read_entry(store, loc);
        if e.is_valid() {
            return true;
        }
        if store.addrs.len() >= usize::MAX / 512 {
            proof {
                assert((store.addrs@.len() + 1) * 512 > usize::MAX) by (nonlinear_arith)
                    requires
                        store.addrs@.len() >= usize::MAX / 512,
                ;
            }
            return false;
        }
        proof {
            assert((store.addrs@.len() + 1) * 512 <= usize::MAX) by (nonlinear_arith)
                requires
                    store.addrs@.len() < usize::MAX / 512,
            ;
            lemma_first_fit(pmem.regions@, 4096, 4096);
        }
        let ghost regs = pmem.regions@;
        let p = match pmem.alloc_addr(4096, 4096) {
            None => return false,
            Some(p) => p,
        };
        proof {
            assert(frames_below_top(pmem.regions@)) by {
                assert forall|j: int| 0 <= j < pmem.regions@.len() implies #[trigger] pmem.regions@[j].end.0 + 8192 <= u64::MAX by {
                    assert(pmem.regions@[j].end == regs[j].end);
                }
            }
        }
        let ghost ents0 = store.entries@;
        store.push_table(p);
        proof {
            assert(store.entries@ =~= ents0 + Seq::new(512, |i: int| Pte(0)));
        }
        self.write_entry(store, loc, Pte::from(p, PteFlags(VALID)));
        true
    }

    /// What a huge page met on the way means for the mapping (see `huge_skip`).
    fn huge_skip_exec(e: Pte, level: u64, va: u64, end: u64, pa: u64) -> (r: Result<u64, Error>)
        requires
            level == 1 || level == 2,
            va < end,
            va + 0x4000_0000 <= u64::MAX,
        ensures
            r == huge_skip(e, level as int, va, end, pa),
            r matches Ok(step) ==> 0 < step <= end - va,
    {
        proof {
            lemma_pow2_sizes();
        }
        let size: u64 = if level == 2 { 0x4000_0000 } else { 0x20_0000 };
        if e.pa().0 == PhysAddr::from(pa).align_down(size).0 {
            let base = VirtAddr::from(va).align_down(size).0;
            proof {
                lemma_align_down_pow2(va, size);
            }
            let next = base + size;
            let step = if next - va < end - va { next - va } else { end - va };
            Ok(step)
        } else {
            Err(Error::MappingFailed)
        }
    }

    /// One page of `map_with_alloc` (see `map_alloc_step`).
    #[verifier::rlimit(80)]
    fn map_alloc_step_exec(
        &mut self,
        store: &mut TableStore,
        pmem: &mut PmemManager,
        va: u64,
        end: u64,
        pa: u64,
        flags: u64,
    ) -> (r: Result<u64, Error>)
        requires
            old(self).wf(),
            old(store).wf(),
            old(pmem).wf(),
            frames_below_top(old(pmem).regions@),
            va < end,
            va + 0x4000_0000 <= u64::MAX,
        ensures
            final(self).wf(),
            final(store).wf(),
            final(pmem).wf(),
            frames_below_top(final(pmem).regions@),
            r matches Ok(step) ==> 0 < step && (step <= end - va || step == 4096),
            (final(self).entries@, final(store).addrs@, final(store).entries@, final(pmem).regions@, r)
                == map_alloc_step(old(self).entries@, old(store).addrs@, old(store).entries@, old(pmem).regions@, va, end, pa, flags),
    {
        let l2 = PteLoc::Root(vpn(va, 2));
        if !self.fill_entry_exec(store, pmem, l2) {
            return Err(Error::OutOfMemory);
        }
        let x2 = self.read_entry(store, l2);
        if x2.is_leaf() {
            return Self::huge_skip_exec(x2, 2, va, end, pa);
        }
        let t1 = match store.find(x2.pa().0) {
            None => return Err(Error::MappingFailed),
            Some(t) => t,
        };
        let i1 = vpn(va, 1);
        proof {
            assert(t1 * 512 + i1 < store.entries@.len()) by (nonlinear_arith)
                requires
                    t1 < store.addrs@.len(),
                    i1 < 512,
                    store.entries@.len() == store.addrs@.len() * 512,
            ;
        }
        let l1 = PteLoc::Table(t1, i1);
        if !self.fill_entry_exec(store, pmem, l1) {
            return Err(Error::OutOfMemory);
        }
        let x1 = self.read_entry(store, l1);
        if x1.is_leaf() {
            return Self::huge_skip_exec(x1, 1, va, end, pa);
        }
        let t0 = match store.find(x1.pa().0) {
            None => return Err(Error::MappingFailed),
            Some(t) => t,
        };
        let i0 = vpn(va, 0);
        proof {
            assert(t0 * 512 + i0 < store.entries@.len()) by (nonlinear_arith)
                requires
                    t0 < store.addrs@.len(),
                    i0 < 512,
                    store.entries@.len() == store.addrs@.len() * 512,
            ;
        }
        let l0 = PteLoc::Table(t0, i0);
        self.write_entry(store, l0, Pte::from(PhysAddr::from(pa), PteFlags(flags)));
        Ok(4096)
    }

    /// Maps `size` bytes at `va` to the frames from `pa` (rounded down to a page)
    /// with `flags` (and V), allocating the missing intermediate tables from
    /// `pmem` (see `map_alloc_run`). A huge page already mapping the same frames
    /// is skipped. Where a table page cannot be had, or a huge page maps other
    /// frames, the mapping stops with an error (the pages before stay mapped).
    pub fn map_with_alloc(
        &mut self,
        store: &mut TableStore,
        pmem: &mut PmemManager,
        va: VirtAddr,
        pa: PhysAddr,
        size: usize,
        flags: Perms,
    ) -> (r: Result<(), Error>)
        requires
            old(self).wf(),
            old(store).wf(),
            old(pmem).wf(),
            frames_below_top(old(pmem).regions@),
            va.0 + size + 0x4000_0000 <= u64::MAX,
            pa.0 + size + 4096 <= u64::MAX,
        ensures
            final(self).wf(),
            final(store).wf(),
            final(pmem).wf(),
            frames_below_top(final(pmem).regions@),
            (final(self).entries@, final(store).addrs@, final(store).entries@, final(pmem).regions@, r) == map_alloc_run(
                old(self).entries@,
                old(store).addrs@,
                old(store).entries@,
                old(pmem).regions@,
                va.0 as int,
                va.0 + size,
                spec_align_down(pa.0, 4096) as int,
                flags.0 | VALID,
            ),
    {
        proof {
            lemma_pow2_sizes();
            lemma_align_down_pow2(pa.0, 4096);
        }
        let end: u64 = va.0 + size as u64;
        let mut cur: u64 = va.0;
        let mut p: u64 = pa.align_down(4096).0;
        let f: u64 = flags.0 | VALID;
        while cur < end
            invariant
                self.wf(),
                store.wf(),
                pmem.wf(),
                frames_below_top(pmem.regions@),
                end == va.0 + size,
                end + 0x4000_0000 <= u64::MAX,
                va.0 <= cur,
                cur <= end + 4096,
                p == spec_align_down(pa.0, 4096) + (cur - va.0),
                spec_align_down(pa.0, 4096) <= pa.0,
                pa.0 + size + 4096 <= u64::MAX,
                f == flags.0 | VALID,
                map_alloc_run(old(self).entries@, old(store).addrs@, old(store).entries@, old(pmem).regions@,
                    va.0 as int, va.0 + size, spec_align_down(pa.0, 4096) as int, f)
                    == map_alloc_run(self.entries@, store.addrs@, store.entries@, pmem.regions@, cur as int, end as int, p as int, f),
            decreases gap(cur as int, end as int),
        {
            match self.map_alloc_step_exec(store, pmem, cur, end, p, f) {
                Err(e) => return Err(e),
                Ok(step) => {
                    cur = cur + step;
                    p = p + step;
                },
            }
        }
        Ok(())
    }
}

} // verus!
