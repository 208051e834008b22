//! User memory: growing and shrinking a heap by whole pages, each new page backed
//! by a fresh frame and mapped user-readable and writable.
use vstd::prelude::*;
use super::addr::{PhysAddr, VirtAddr, spec_align_up, spec_align_down, is_pow2};
use super::pagetable::{PageTable, TableStore, unmap_run, walk_spec, entry_at, gap, translation, lookup_spec, put_root, put_ents, lemma_lookup_is_walk, lemma_walk_after_clear};
use super::pmem::{PmemManager, RegionState, alloc_spec, alloc_page, first_fit, region_fits, lemma_first_fit};
use super::pte::{Pte, pte_valid, pte_leaf, pte_pa, USER, READ, WRITE};
use super::physmem::{PhysMem, in_frames, lemma_in_frames_push};
use super::Perms;
use super::table_alloc::map_alloc_run;
use super::pte::VALID;
use super::VA_MAX;
use super::mmap::{MmapRegion, MmapPool, N_MMAP, region_end, list_wf, scan_gap, chosen_begin, first_at_or_above,
    mmap_place, joins_prev, joins_next, merged_list, lemma_first_at_or_above, lemma_merged_list,
    overlaps, cut_region, cut_list, needs_split, lemma_cut_list};

verus! {

/// Why a change to user memory failed.
#[derive(Clone, Copy, PartialEq, Eq, Structural, Debug)]
pub enum UvmError {
    OutOfRange,
    NoMem,
    MapFailed,
}

/// The permissions of a page of user memory: valid for user mode, readable,
/// writable, accessed and dirty.
pub const USER_RW: u64 = 0xD6;

/// Mapping `n` pages from `va` one at a time, each to a fresh frame from the
/// allocator (intermediate tables are allocated as needed, see
/// `map_alloc_run`): no free frame stops with `NoMem`, a page the table cannot
/// map stops with `MapFailed`.
pub open spec fn map_pages_run(
    root: Seq<Pte>,
    addrs: Seq<PhysAddr>,
    ents: Seq<Pte>,
    regions: Seq<RegionState>,
    va: int,
    n: nat,
) -> (Seq<Pte>, Seq<PhysAddr>, Seq<Pte>, Seq<RegionState>, Result<(), UvmError>)
    decreases n,
{
    if n == 0 {
        (root, addrs, ents, regions, Ok(()))
    } else {
        match alloc_spec(regions, 4096, 4096) {
            None => (root, addrs, ents, regions, Err(UvmError::NoMem)),
            Some((pa, regs)) => {
                let (r2, a2, e2, g2, res) = map_alloc_run(root, addrs, ents, regs, va, va + 4096,
                    spec_align_down(pa, 4096) as int, USER_RW | VALID);
                if res is Err {
                    (r2, a2, e2, g2, Err(UvmError::MapFailed))
                } else {
                    map_pages_run(r2, a2, e2, g2, va + 4096, (n - 1) as nat)
                }
            },
        }
    }
}

/// The frames that `map_pages_run` takes from the allocator, in order (the
/// last one also when mapping its page fails).
#[verifier::opaque]
pub open spec fn pages_frames(
    root: Seq<Pte>,
    addrs: Seq<PhysAddr>,
    ents: Seq<Pte>,
    regions: Seq<RegionState>,
    va: int,
    n: nat,
) -> Seq<u64>
    decreases n,
{
    if n == 0 {
        Seq::empty()
    } else {
        match alloc_spec(regions, 4096, 4096) {
            None => Seq::empty(),
            Some((pa, regs)) => {
                let (r2, a2, e2, g2, res) = map_alloc_run(root, addrs, ents, regs, va, va + 4096,
                    spec_align_down(pa, 4096) as int, USER_RW | VALID);
                if res is Err {
                    seq![pa]
                } else {
                    seq![pa] + pages_frames(r2, a2, e2, g2, va + 4096, (n - 1) as nat)
                }
            },
        }
    }
}

/// No frame the allocator can hand out ends near the top of the address space.
pub open spec fn frames_below_top(regions: Seq<RegionState>) -> bool {
    forall|i: int| 0 <= i < regions.len() ==> #[trigger] regions[i].end.0 + 8192 <= u64::MAX
}

pub(crate) proof fn lemma_pow2_4096()
    ensures
        is_pow2(4096u64),
{
    vstd::arithmetic::power2::lemma2_to64();
    assert(4096 == vstd::arithmetic::power2::pow2(12));
}

/// Maps `npages` pages from `va` rounded down to a page, each to a fresh
/// frame, which is cleared.
#[verifier::rlimit(100)]
#[verifier::spinoff_prover]
pub fn map_pages(
    pt: &mut PageTable,
    store: &mut TableStore,
    pmem: &mut PmemManager,
    mem: &mut PhysMem,
    va: VirtAddr,
    npages: u64,
) -> (r: Result<(), UvmError>)
    requires
        old(pt).wf(),
        old(store).wf(),
        old(pmem).wf(),
        frames_below_top(old(pmem).regions@),
        spec_align_down(va.0, 4096) + npages * 4096 + 0x4000_1000 <= u64::MAX,
        old(mem).wf(),
        (old(mem).frames@.len() + npages + 1) * 4096 <= usize::MAX,
    ensures
        final(pt).wf(),
        final(store).wf(),
        final(pmem).wf(),
        frames_below_top(final(pmem).regions@),
        final(mem).wf(),
        forall|a: int| #[trigger] final(mem).byte(a) == if in_frames(pages_frames(old(pt).entries@, old(store).addrs@,
            old(store).entries@, old(pmem).regions@, spec_align_down(va.0, 4096) as int, npages as nat), a) {
            0
        } else {
            old(mem).byte(a)
        },
        (final(pt).entries@, final(store).addrs@, final(store).entries@, final(pmem).regions@, r) == map_pages_run(
            old(pt).entries@,
            old(store).addrs@,
            old(store).entries@,
            old(pmem).regions@,
            spec_align_down(va.0, 4096) as int,
            npages as nat,
        ),
{
    proof {
        lemma_pow2_4096();
    }
    let start = va.align_down(4096);
    let mut a: u64 = start.0;
    let last: u64 = a + npages * 4096;
    let ghost mut k: int = 0;
    let ghost mut done: Seq<u64> = Seq::empty();
    while a < last
        invariant
            pt.wf(),
            store.wf(),
            pmem.wf(),
            frames_below_top(pmem.regions@),
            0 <= k <= npages,
            mem.wf(),
            done.len() == k,
            mem.frames@.len() <= old(mem).frames@.len() + k,
            (old(mem).frames@.len() + npages + 1) * 4096 <= usize::MAX,
            pages_frames(old(pt).entries@, old(store).addrs@, old(store).entries@, old(pmem).regions@, start.0 as int, npages as nat)
                == done + pages_frames(pt.entries@, store.addrs@, store.entries@, pmem.regions@, a as int, (npages - k) as nat),
            forall|x: int| #[trigger] mem.byte(x) == if in_frames(done, x) { 0 } else { old(mem).byte(x) },
            start.0 == spec_align_down(va.0, 4096),
            a == start.0 + k * 4096,
            a % 4096 == 0,
            last == start.0 + npages * 4096,
            last + 0x4000_1000 <= u64::MAX,
            is_pow2(4096u64),
            map_pages_run(old(pt).entries@, old(store).addrs@, old(store).entries@, old(pmem).regions@, start.0 as int, npages as nat)
                == map_pages_run(pt.entries@, store.addrs@, store.entries@, pmem.regions@, a as int, (npages - k) as nat),
        decreases last - a,
    {
        proof {
            assert(k < npages) by (nonlinear_arith)
                requires
                    a == start.0 + k * 4096,
                    last == start.0 + npages * 4096,
                    a < last,
            ;
            lemma_first_fit(pmem.regions@, 4096, 4096);
        }
        let ghost regs = pmem.regions@;
        let ghost rest: nat = (npages - k) as nat;
        assert(rest > 0);
        let ghost before_zero = *mem;
        let pa = match alloc_page(pmem, mem) {
            Some(p) => p,
            None => {
                assert(alloc_spec(regs, 4096, 4096).is_none());
                assert(map_pages_run(pt.entries@, store.addrs@, store.entries@, regs, a as int, rest)
                    == (pt.entries@, store.addrs@, store.entries@, regs, Err::<(), UvmError>(UvmError::NoMem)));
                assert(pages_frames(pt.entries@, store.addrs@, store.entries@, regs, a as int, rest) =~= Seq::<u64>::empty()) by {
                    reveal(pages_frames);
                }
                assert(done + Seq::<u64>::empty() =~= done);
                return Err(UvmError::NoMem);
            },
        };
        proof {
            let i = first_fit(regs, 4096, 4096).unwrap();
            super::addr::lemma_align_up_pow2(regs[i].current.0, 4096);
        }
        let ghost done_next = done.push(pa.0);
        proof {
            assert forall|x: int| #[trigger] mem.byte(x) == if in_frames(done_next, x) { 0 } else { old(mem).byte(x) } by {
                assert(before_zero.byte(x) == if in_frames(done, x) { 0 } else { old(mem).byte(x) });
                lemma_in_frames_push(done, pa.0, x);
            }
        }
        let ghost cur_root = pt.entries@;
        let ghost cur_addrs = store.addrs@;
        let ghost cur_ents = store.entries@;
        proof {
            let i = first_fit(regs, 4096, 4096).unwrap();
            assert(region_fits(regs[i], 4096, 4096));
            assert(regs[i].current.0 <= regs[i].end.0);
            assert(frames_below_top(pmem.regions@)) by {
                assert forall|j: int| 0 <= j < pmem.regions@.len() implies #[trigger] pmem.regions@[j].end.0 + 8192 <= u64::MAX by {
                    assert(pmem.regions@[j].end == regs[j].end);
                }
            }
        }
        let res = pt.map_with_alloc(store, pmem, VirtAddr::from(a), pa, 4096, Perms(USER_RW));
        proof {
            assert(pages_frames(cur_root, cur_addrs, cur_ents, regs, a as int, rest) == if res is Err {
                seq![pa.0]
            } else {
                seq![pa.0] + pages_frames(pt.entries@, store.addrs@, store.entries@, pmem.regions@, a + 4096, (rest - 1) as nat)
            }) by {
                reveal(pages_frames);
            }
        }
        match res {
            Err(_) => {
                proof {
                    assert(done + seq![pa.0] =~= done_next);
                }
                return Err(UvmError::MapFailed);
            },
            Ok(()) => {},
        }
        proof {
            let tail = pages_frames(pt.entries@, store.addrs@, store.entries@, pmem.regions@, a + 4096, (rest - 1) as nat);
            assert(done + (seq![pa.0] + tail) =~= done_next + tail);
            done = done_next;
        }
        a = a + 4096;
        proof {
            k = k + 1;
        }
    }
    proof {
        assert(k == npages) by (nonlinear_arith)
            requires
                a == start.0 + k * 4096,
                last == start.0 + npages * 4096,
                a >= last,
                k <= npages,
        ;
        assert(pages_frames(pt.entries@, store.addrs@, store.entries@, pmem.regions@, a as int, 0) =~= Seq::<u64>::empty()) by {
            reveal(pages_frames);
        }
        assert(done + Seq::<u64>::empty() =~= done);
    }
    Ok(())
}

/// Grows a heap whose top moves from `old_top` to `new_top`: maps every page
/// between the two tops (each rounded up to a page) to a fresh frame. A new top
/// above `limit`, where the mapping area begins, is refused.
pub fn heap_grow(
    pt: &mut PageTable,
    store: &mut TableStore,
    pmem: &mut PmemManager,
    mem: &mut PhysMem,
    old_top: VirtAddr,
    new_top: VirtAddr,
    limit: u64,
) -> (r: Result<(), UvmError>)
    requires
        old(pt).wf(),
        old(store).wf(),
        old(pmem).wf(),
        frames_below_top(old(pmem).regions@),
        old_top.0 + 8192 <= u64::MAX,
        new_top.0 + 0x4000_2000 <= u64::MAX,
        old(mem).wf(),
        (old(mem).frames@.len() + new_top.0 / 4096 + 2) * 4096 <= usize::MAX,
    ensures
        final(pt).wf(),
        final(store).wf(),
        final(pmem).wf(),
        final(mem).wf(),
        new_top.0 > limit ==> r == Err::<(), UvmError>(UvmError::OutOfRange) && final(pt).entries@ == old(pt).entries@
            && final(store).addrs@ == old(store).addrs@
            && final(store).entries@ == old(store).entries@ && final(pmem).regions@ == old(pmem).regions@
            && *final(mem) == *old(mem),
        new_top.0 <= limit ==> {
            let a = spec_align_up(old_top.0, 4096);
            let last = spec_align_up(new_top.0, 4096);
            let n = if a < last { ((last - a) / 4096) as nat } else { 0 };
            &&& (final(pt).entries@, final(store).addrs@, final(store).entries@, final(pmem).regions@, r)
                == map_pages_run(old(pt).entries@, old(store).addrs@, old(store).entries@, old(pmem).regions@, a as int, n)
            &&& forall|x: int| #[trigger] final(mem).byte(x) == if in_frames(pages_frames(old(pt).entries@, old(store).addrs@,
                old(store).entries@, old(pmem).regions@, a as int, n), x) { 0 } else { old(mem).byte(x) }
        },
{
    if new_top.0 > limit {
        return Err(UvmError::OutOfRange);
    }
    proof {
        lemma_pow2_4096();
    }
    let a = old_top.align_up(4096);
    let last = new_top.align_up(4096);
    if a.0 < last.0 {
        let n: u64 = (last.0 - a.0) / 4096;
        proof {
            lemma_align_down_of_aligned(a.0);
            assert(a.0 + n * 4096 == last.0) by (nonlinear_arith)
                requires
                    a.0 % 4096 == 0,
                    last.0 % 4096 == 0,
                    a.0 < last.0,
                    n == (last.0 - a.0) / 4096,
            ;
            assert(n <= new_top.0 / 4096 + 1) by (nonlinear_arith)
                requires
                    a.0 + n * 4096 == last.0,
                    last.0 < new_top.0 + 4096,
            ;
        }
        map_pages(pt, store, pmem, mem, a, n)
    } else {
        proof {
            assert(pages_frames(pt.entries@, store.addrs@, store.entries@, pmem.regions@, a.0 as int, 0) =~= Seq::<u64>::empty()) by {
                reveal(pages_frames);
            }
        }
        Ok(())
    }
}

proof fn lemma_align_down_of_aligned(x: u64)
    requires
        x % 4096 == 0,
    ensures
        spec_align_down(x, 4096) == x,
{
    lemma_pow2_4096();
    super::addr::lemma_align_down_pow2(x, 4096);
}

/// Releasing the pages from `va` (up to `end`), one page at a time: a page with
/// no level-0 entry (see `lookup_spec`), or whose entry is not a valid leaf,
/// stops with `MapFailed`, the pages before it already released; each other
/// page's entry is cleared and its frame given back. The result is the tables,
/// the frames given back in order, and the outcome.
pub open spec fn release_run(root: Seq<Pte>, addrs: Seq<PhysAddr>, ents: Seq<Pte>, va: int, end: int)
    -> (Seq<Pte>, Seq<Pte>, Seq<PhysAddr>, Result<(), UvmError>)
    decreases gap(va, end),
{
    if va >= end {
        (root, ents, Seq::empty(), Ok(()))
    } else {
        match lookup_spec(root, addrs, ents, va as u64) {
            None => (root, ents, Seq::empty(), Err(UvmError::MapFailed)),
            Some(loc) => {
                let old = entry_at(root, ents, loc);
                if !pte_valid(old.0) || !pte_leaf(old.0) {
                    (root, ents, Seq::empty(), Err(UvmError::MapFailed))
                } else {
                    let (r2, e2, f2, res) = release_run(put_root(root, loc, Pte(0)), addrs, put_ents(ents, loc, Pte(0)),
                        va + 4096, end);
                    (r2, e2, seq![PhysAddr(pte_pa(old.0))] + f2, res)
                }
            },
        }
    }
}

/// What releasing a page undoes: a page that does not translate cannot be
/// released, and after its release a page no longer translates.
pub proof fn law_release_then_translate(root: Seq<Pte>, addrs: Seq<PhysAddr>, ents: Seq<Pte>, va: u64)
    requires
        root.len() == 512,
        ents.len() == addrs.len() * 512,
        ents.len() <= usize::MAX,
        va + 4096 <= u64::MAX,
    ensures
        ({
            let (r2, e2, f2, res) = release_run(root, addrs, ents, va as int, va + 4096);
            &&& translation(root, addrs, ents, va) is None ==> res == Err::<(), UvmError>(UvmError::MapFailed)
            &&& res is Ok ==> translation(r2, addrs, e2, va) is None
        }),
{
    match lookup_spec(root, addrs, ents, va) {
        None => {},
        Some(loc) => {
            lemma_lookup_is_walk(root, addrs, ents, va);
            let old = entry_at(root, ents, loc);
            if pte_valid(old.0) && pte_leaf(old.0) {
                let r1 = put_root(root, loc, Pte(0));
                let e1 = put_ents(ents, loc, Pte(0));
                assert(release_run(r1, addrs, e1, va + 4096, va + 4096) == (r1, e1, Seq::<PhysAddr>::empty(), Ok::<(), UvmError>(())));
                lemma_walk_after_clear(root, addrs, ents, va);
            }
        },
    }
}

/// Shrinks a heap whose top moves from `old_top` down to `new_top`: releases
/// the pages between the two tops (each rounded up to a page) and gives their
/// frames back to the allocator, see `release_run`. A new top above the old
/// one, or no whole page between them, changes nothing.
pub fn heap_ungrow(
    pt: &mut PageTable,
    store: &mut TableStore,
    pmem: &mut PmemManager,
    old_top: VirtAddr,
    new_top: VirtAddr,
) -> (r: Result<(), UvmError>)
    requires
        old(pt).wf(),
        old(store).wf(),
        old(pmem).wf(),
        old_top.0 + 4095 <= u64::MAX,
    ensures
        final(pt).wf(),
        final(store).wf(),
        final(pmem).wf(),
        final(store).addrs@ == old(store).addrs@,
        final(pmem).regions@ == old(pmem).regions@,
        ({
            let start = spec_align_up(new_top.0, 4096);
            let stop = spec_align_up(old_top.0, 4096);
            if new_top.0 > old_top.0 || stop <= start {
                &&& r == Ok::<(), UvmError>(())
                &&& final(pt).entries@ == old(pt).entries@
                &&& final(store).entries@ == old(store).entries@
                &&& final(pmem).freed@ == old(pmem).freed@
            } else {
                let (r2, e2, f2, res) = release_run(old(pt).entries@, old(store).addrs@, old(store).entries@, start as int, stop as int);
                &&& final(pt).entries@ == r2
                &&& final(store).entries@ == e2
                &&& final(pmem).freed@ == old(pmem).freed@ + f2
                &&& r == res
            }
        }),
{
    if new_top.0 > old_top.0 {
        return Ok(());
    }
    proof {
        lemma_pow2_4096();
    }
    let start = new_top.align_up(4096);
    let stop = old_top.align_up(4096);
    if stop.0 <= start.0 {
        return Ok(());
    }
    let mut a: u64 = start.0;
    let ghost mut done: Seq<PhysAddr> = Seq::empty();
    proof {
        assert(old(pmem).freed@ + done =~= old(pmem).freed@);
        let (r0, e0, f0, res0) = release_run(pt.entries@, store.addrs@, store.entries@, a as int, stop.0 as int);
        assert(done + f0 =~= f0);
    }
    while a < stop.0
        invariant
            pt.wf(),
            store.wf(),
            pmem.wf(),
            store.addrs@ == old(store).addrs@,
            pmem.regions@ == old(pmem).regions@,
            pmem.freed@ == old(pmem).freed@ + done,
            a % 4096 == 0,
            stop.0 % 4096 == 0,
            start.0 == spec_align_up(new_top.0, 4096),
            stop.0 == spec_align_up(old_top.0, 4096),
            new_top.0 <= old_top.0,
            start.0 < stop.0,
            release_run(old(pt).entries@, old(store).addrs@, old(store).entries@, start.0 as int, stop.0 as int) == ({
                let (r1, e1, f1, res1) = release_run(pt.entries@, store.addrs@, store.entries@, a as int, stop.0 as int);
                (r1, e1, done + f1, res1)
            }),
        decreases gap(a as int, stop.0 as int),
    {
        assert(a + 4096 <= stop.0) by (nonlinear_arith)
            requires
                a % 4096 == 0,
                stop.0 % 4096 == 0,
                a < stop.0,
        ;
        match pt.lookup(store, VirtAddr::from(a)) {
            None => {
                proof {
                    assert(done + Seq::<PhysAddr>::empty() =~= done);
                }
                return Err(UvmError::MapFailed);
            },
            Some(loc) => {
                let old_pte = pt.read_entry(store, loc);
                if !old_pte.is_valid() || !old_pte.is_leaf() {
                    proof {
                        assert(done + Seq::<PhysAddr>::empty() =~= done);
                    }
                    return Err(UvmError::MapFailed);
                }
                let frame = old_pte.pa();
                pt.write_entry(store, loc, Pte::null());
                pmem.free_frame(frame);
                proof {
                    let (r1, e1, f1, res1) = release_run(pt.entries@, store.addrs@, store.entries@, a + 4096, stop.0 as int);
                    assert(done + (seq![frame] + f1) =~= done.push(frame) + f1);
                    done = done.push(frame);
                }
            },
        }
        a = a + 4096;
    }
    proof {
        assert(done + Seq::<PhysAddr>::empty() =~= done);
    }
    Ok(())
}

/// Lowest address of the user stack area.
pub const STACK_BASE: u64 = 0x20000;
/// Size of the user stack area.
pub const STACK_SIZE: u64 = 24576;
/// One past the highest address of the user stack area.
pub const STACK_TOP: u64 = 0x26000;

/// Filling the stack downwards from `a` to `low`, one page at a time: a page
/// whose translation already ends in a valid entry is kept; any other page is
/// mapped to a fresh frame, stopping with `NoMem` when no frame is free and with
/// `MapFailed` when the table cannot map it.
pub open spec fn stack_fill_run(
    root: Seq<Pte>,
    addrs: Seq<PhysAddr>,
    ents: Seq<Pte>,
    regions: Seq<RegionState>,
    a: int,
    low: int,
) -> (Seq<Pte>, Seq<PhysAddr>, Seq<Pte>, Seq<RegionState>, Result<(), UvmError>)
    decreases gap(low, a),
{
    if a <= low {
        (root, addrs, ents, regions, Ok(()))
    } else {
        let b = a - 4096;
        let present = match walk_spec(root, addrs, ents, b as u64) {
            Some(loc) => pte_valid(entry_at(root, ents, loc).0),
            None => false,
        };
        if present {
            stack_fill_run(root, addrs, ents, regions, b, low)
        } else {
            match alloc_spec(regions, 4096, 4096) {
                None => (root, addrs, ents, regions, Err(UvmError::NoMem)),
                Some((pa, regs)) => {
                    let (r2, a2, e2, g2, res) = map_alloc_run(root, addrs, ents, regs, b, b + 4096,
                        spec_align_down(pa, 4096) as int, USER_RW | VALID);
                    if res is Err {
                        (r2, a2, e2, g2, Err(UvmError::MapFailed))
                    } else {
                        stack_fill_run(r2, a2, e2, g2, b, low)
                    }
                },
            }
        }
    }
}

/// The frames that `stack_fill_run` takes from the allocator, in order (the
/// last one also when mapping its page fails).
#[verifier::opaque]
pub open spec fn stack_fill_frames(
    root: Seq<Pte>,
    addrs: Seq<PhysAddr>,
    ents: Seq<Pte>,
    regions: Seq<RegionState>,
    a: int,
    low: int,
) -> Seq<u64>
    decreases gap(low, a),
{
    if a <= low {
        Seq::empty()
    } else {
        let b = a - 4096;
        let present = match walk_spec(root, addrs, ents, b as u64) {
            Some(loc) => pte_valid(entry_at(root, ents, loc).0),
            None => false,
        };
        if present {
            stack_fill_frames(root, addrs, ents, regions, b, low)
        } else {
            match alloc_spec(regions, 4096, 4096) {
                None => Seq::empty(),
                Some((pa, regs)) => {
                    let (r2, a2, e2, g2, res) = map_alloc_run(root, addrs, ents, regs, b, b + 4096,
                        spec_align_down(pa, 4096) as int, USER_RW | VALID);
                    if res is Err {
                        seq![pa]
                    } else {
                        seq![pa] + stack_fill_frames(r2, a2, e2, g2, b, low)
                    }
                },
            }
        }
    }
}

/// Grows the user stack on a fault at `fault_va`: when the address lies in the
/// stack area, every page from the top of the area down to the faulting page
/// that is not mapped yet gets a fresh frame. A fault outside the area is
/// refused with `OutOfRange`.
#[verifier::rlimit(100)]
#[verifier::spinoff_prover]
pub fn ustack_grow(
    pt: &mut PageTable,
    store: &mut TableStore,
    pmem: &mut PmemManager,
    mem: &mut PhysMem,
    stack_pages: &mut usize,
    trapframe_va: VirtAddr,
    fault_va: VirtAddr,
) -> (r: Result<(), UvmError>)
    requires
        old(pt).wf(),
        old(store).wf(),
        old(pmem).wf(),
        frames_below_top(old(pmem).regions@),
        old(mem).wf(),
        (old(mem).frames@.len() + (STACK_TOP - STACK_BASE) / 4096 + 1) * 4096 <= usize::MAX,
    ensures
        final(pt).wf(),
        final(store).wf(),
        final(pmem).wf(),
        final(mem).wf(),
        *final(stack_pages) == *old(stack_pages),
        !(STACK_BASE <= fault_va.0 < STACK_TOP) ==> r == Err::<(), UvmError>(UvmError::OutOfRange)
            && final(pt).entries@ == old(pt).entries@ && final(store).entries@ == old(store).entries@
            && final(store).addrs@ == old(store).addrs@ && final(pmem).regions@ == old(pmem).regions@
            && *final(mem) == *old(mem),
        STACK_BASE <= fault_va.0 < STACK_TOP ==> forall|x: int| #[trigger] final(mem).byte(x) == if in_frames(
            stack_fill_frames(old(pt).entries@, old(store).addrs@, old(store).entries@, old(pmem).regions@,
                STACK_TOP as int, spec_align_down(fault_va.0, 4096) as int), x) { 0 } else { old(mem).byte(x) },
        STACK_BASE <= fault_va.0 < STACK_TOP ==> (final(pt).entries@, final(store).addrs@, final(store).entries@, final(pmem).regions@, r)
            == stack_fill_run(old(pt).entries@, old(store).addrs@, old(store).entries@, old(pmem).regions@,
                STACK_TOP as int, spec_align_down(fault_va.0, 4096) as int),
{
    if fault_va.0 >= STACK_BASE && fault_va.0 < STACK_TOP {
        proof {
            lemma_pow2_4096();
        }
        let needed_base = fault_va.align_down(4096);
        let mut a: u64 = STACK_TOP;
        let ghost mut done: Seq<u64> = Seq::empty();
        proof {
            assert(STACK_TOP % 4096 == 0);
        }
        while a > needed_base.0
            invariant
                pt.wf(),
                store.wf(),
                pmem.wf(),
                mem.wf(),
                done.len() * 4096 + a <= STACK_TOP,
                mem.frames@.len() <= old(mem).frames@.len() + done.len(),
                (old(mem).frames@.len() + (STACK_TOP - STACK_BASE) / 4096 + 1) * 4096 <= usize::MAX,
                needed_base.0 >= STACK_BASE,
                stack_fill_frames(old(pt).entries@, old(store).addrs@, old(store).entries@, old(pmem).regions@,
                    STACK_TOP as int, needed_base.0 as int)
                    == done + stack_fill_frames(pt.entries@, store.addrs@, store.entries@, pmem.regions@, a as int, needed_base.0 as int),
                forall|x: int| #[trigger] mem.byte(x) == if in_frames(done, x) { 0 } else { old(mem).byte(x) },
                frames_below_top(pmem.regions@),
                a % 4096 == 0,
                needed_base.0 % 4096 == 0,
                a <= STACK_TOP,
                STACK_BASE <= fault_va.0 < STACK_TOP,
                needed_base.0 == spec_align_down(fault_va.0, 4096),
                is_pow2(4096u64),
                stack_fill_run(old(pt).entries@, old(store).addrs@, old(store).entries@, old(pmem).regions@,
                    STACK_TOP as int, needed_base.0 as int)
                    == stack_fill_run(pt.entries@, store.addrs@, store.entries@, pmem.regions@, a as int, needed_base.0 as int),
            decreases a,
        {
            let ghost a0 = a;
            let ghost cur_root = pt.entries@;
            let ghost cur_addrs = store.addrs@;
            let ghost cur_ents = store.entries@;
            let ghost cur_regs = pmem.regions@;
            a = a - 4096;
            let present = match pt.walk(store, VirtAddr::from(a)) {
                Some(loc) => pt.read_entry(store, loc).is_valid(),
                None => false,
            };
            if present {
                proof {
                    assert(stack_fill_frames(cur_root, cur_addrs, cur_ents, cur_regs, a0 as int, needed_base.0 as int)
                        == stack_fill_frames(cur_root, cur_addrs, cur_ents, cur_regs, a as int, needed_base.0 as int)) by {
                        reveal(stack_fill_frames);
                    }
                }
                continue;
            }
            proof {
                lemma_first_fit(pmem.regions@, 4096, 4096);
            }
            let ghost regs = pmem.regions@;
            let ghost before_zero = *mem;
            let pa = match alloc_page(pmem, mem) {
                Some(p) => p,
                None => {
                    proof {
                        assert(stack_fill_frames(cur_root, cur_addrs, cur_ents, cur_regs, a0 as int, needed_base.0 as int)
                            =~= Seq::<u64>::empty()) by {
                            reveal(stack_fill_frames);
                        }
                        assert(done + Seq::<u64>::empty() =~= done);
                    }
                    return Err(UvmError::NoMem);
                },
            };
            proof {
                let i = first_fit(regs, 4096, 4096).unwrap();
                super::addr::lemma_align_up_pow2(regs[i].current.0, 4096);
                assert(done.len() + 1 <= (STACK_TOP - STACK_BASE) / 4096) by (nonlinear_arith)
                    requires
                        done.len() * 4096 + a0 <= STACK_TOP,
                        a0 > needed_base.0,
                        needed_base.0 >= STACK_BASE,
                        a0 % 4096 == 0,
                        STACK_BASE % 4096 == 0,
                        STACK_TOP % 4096 == 0,
                ;
            }
            let ghost done_next = done.push(pa.0);
            proof {
                assert forall|x: int| #[trigger] mem.byte(x) == if in_frames(done_next, x) { 0 } else { old(mem).byte(x) } by {
                    assert(before_zero.byte(x) == if in_frames(done, x) { 0 } else { old(mem).byte(x) });
                    lemma_in_frames_push(done, pa.0, x);
                }
            }
            proof {
                let i = first_fit(regs, 4096, 4096).unwrap();
                assert(region_fits(regs[i], 4096, 4096));
                assert(regs[i].current.0 <= regs[i].end.0);
                assert(frames_below_top(pmem.regions@)) by {
                    assert forall|j: int| 0 <= j < pmem.regions@.len() implies #[trigger] pmem.regions@[j].end.0 + 8192 <= u64::MAX by {
                        assert(pmem.regions@[j].end == regs[j].end);
                    }
                }
            }
            let res = pt.map_with_alloc(store, pmem, VirtAddr::from(a), pa, 4096, Perms(USER_RW));
            proof {
                assert(stack_fill_frames(cur_root, cur_addrs, cur_ents, cur_regs, a0 as int, needed_base.0 as int) == if res is Err {
                    seq![pa.0]
                } else {
                    seq![pa.0] + stack_fill_frames(pt.entries@, store.addrs@, store.entries@, pmem.regions@, a as int, needed_base.0 as int)
                }) by {
                    reveal(stack_fill_frames);
                }
            }
            match res {
                Err(_) => {
                    proof {
                        assert(done + seq![pa.0] =~= done_next);
                    }
                    return Err(UvmError::MapFailed);
                },
                Ok(()) => {},
            }
            proof {
                let tail = stack_fill_frames(pt.entries@, store.addrs@, store.entries@, pmem.regions@, a as int, needed_base.0 as int);
                assert(done + (seq![pa.0] + tail) =~= done_next + tail);
                done = done_next;
            }
        }
        proof {
            assert(stack_fill_frames(pt.entries@, store.addrs@, store.entries@, pmem.regions@, a as int, needed_base.0 as int)
                =~= Seq::<u64>::empty()) by {
                reveal(stack_fill_frames);
            }
            assert(done + Seq::<u64>::empty() =~= done);
        }
        return Ok(());
    }
    Err(UvmError::OutOfRange)
}

/// Finds where a mapping of `need` bytes goes (see `mmap_place`).
#[verifier::rlimit(60)]
#[verifier::spinoff_prover]
fn mmap_find_place(head: &Vec<MmapRegion>, begin: u64, need: u64, mmap_begin: u64, mmap_end: u64) -> (r: Option<(u64, usize)>)
    requires
        list_wf(head@),
        need > 0,
        mmap_end <= VA_MAX,
    ensures
        match mmap_place(head@, begin as int, need as int, mmap_begin as int, mmap_end as int) {
            None => r.is_none(),
            Some((b, idx)) => {
                &&& r == Some((b as u64, idx as usize))
                &&& b + need <= mmap_end
                &&& b % 4096 == 0
                &&& 0 <= idx <= head@.len()
                &&& forall|j: int| 0 <= j < idx ==> head@[j].begin < b
                &&& idx < head@.len() ==> head@[idx].begin >= b
                &&& idx > 0 ==> region_end(head@[idx - 1]) <= b
                &&& idx < head@.len() ==> b + need <= head@[idx].begin
            },
        },
{
    let ghost s = head@;
    let mut b: u64 = begin;
    if b == 0 {
        let mut cursor: u64 = mmap_begin;
        let mut i: usize = 0;
        let mut found: bool = false;
        while i < head.len() && !found
            invariant
                head@ == s,
                list_wf(s),
                i <= s.len(),
                need > 0,
                found ==> scan_gap(s, 0, mmap_begin as int, need as int) == (Some(b as int), b as int) && b == cursor,
                !found ==> b == 0,
                !found ==> scan_gap(s, 0, mmap_begin as int, need as int) == scan_gap(s, i as int, cursor as int, need as int),
            decreases s.len() - i,
        {
            let cb = head[i].begin;
            if cb >= cursor {
                if cb - cursor >= need {
                    b = cursor;
                    found = true;
                } else {
                    cursor = cb + head[i].npages as u64 * 4096;
                }
            }
            i = i + 1;
        }
        proof {
            if !found {
                assert(scan_gap(s, i as int, cursor as int, need as int) == (None::<int>, cursor as int));
            }
        }
        if b == 0 {
            let room: u64 = if mmap_end > cursor { mmap_end - cursor } else { 0 };
            if room >= need {
                b = cursor;
            } else {
                return None;
            }
        }
        assert(chosen_begin(s, begin as int, need as int, mmap_begin as int, mmap_end as int) == Some(b as int));
    }
    assert(b & 4095u64 == b % 4096) by (bit_vector);
    if b < mmap_begin || b > mmap_end || mmap_end - b < need || b & 4095 != 0 {
        return None;
    }
    let end: u64 = b + need;
    let mut idx: usize = 0;
    while idx < head.len() && head[idx].begin < b
        invariant
            head@ == s,
            idx <= s.len(),
            first_at_or_above(s, b as int, 0) == first_at_or_above(s, b as int, idx as int),
            forall|j: int| 0 <= j < idx ==> s[j].begin < b,
        decreases s.len() - idx,
    {
        idx = idx + 1;
    }
    proof {
        lemma_first_at_or_above(s, b as int, idx as int);
    }
    if idx > 0 {
        let pe: u64 = head[idx - 1].begin + head[idx - 1].npages as u64 * 4096;
        if b < pe {
            return None;
        }
    }
    if idx < head.len() {
        if end > head[idx].begin {
            return None;
        }
    }
    Some((b, idx))
}

/// Records the mapping `[b, end)` before position `idx` (see `merged_list`),
/// taking a node from the pool when it stands alone and returning one when it
/// joins two regions.
#[verifier::rlimit(60)]
#[verifier::spinoff_prover]
fn mmap_commit(head: &mut Vec<MmapRegion>, pool: &mut MmapPool, idx: usize, b: u64, end: u64) -> (r: Result<VirtAddr, UvmError>)
    requires
        list_wf(old(head)@),
        old(pool).free + old(head)@.len() <= N_MMAP,
        0 <= idx <= old(head)@.len(),
        forall|j: int| 0 <= j < idx ==> old(head)@[j].begin < b,
        idx < old(head)@.len() ==> old(head)@[idx as int].begin >= b,
        b % 4096 == 0,
        end % 4096 == 0,
        b < end <= VA_MAX,
        idx > 0 ==> region_end(old(head)@[idx - 1]) <= b,
        idx < old(head)@.len() ==> end <= old(head)@[idx as int].begin,
    ensures
        list_wf(final(head)@),
        final(pool).free + final(head)@.len() <= N_MMAP,
        ({
            let s = old(head)@;
            let up = joins_prev(s, idx as int, b as int);
            let cn = joins_next(s, idx as int, end as int);
            if !up && !cn && old(pool).free == 0 {
                r == Err::<VirtAddr, UvmError>(UvmError::NoMem) && final(head)@ == s && final(pool).free == 0
            } else {
                &&& r == Ok::<VirtAddr, UvmError>(VirtAddr((if up { s[idx - 1].begin as int } else { b as int }) as u64))
                &&& final(head)@ == merged_list(s, idx as int, b as int, end as int)
                &&& final(pool).free == if up && cn { old(pool).free + 1 } else if !up && !cn { old(pool).free - 1 } else { old(pool).free as int }
            }
        }),
{
    proof {
        lemma_merged_list(head@, idx as int, b as int, end as int);
    }
    let use_prev: bool = idx > 0 && head[idx - 1].begin + head[idx - 1].npages as u64 * 4096 == b;
    let consume_next: bool = idx < head.len() && end == head[idx].begin;
    if use_prev {
        let pb = head[idx - 1].begin;
        if consume_next {
            let ne: u64 = head[idx].begin + head[idx].npages as u64 * 4096;
            head.set(idx - 1, MmapRegion { begin: pb, npages: ((ne - pb) / 4096) as u32 });
            let nx = head.remove(idx);
            pool.region_free(nx);
        } else {
            head.set(idx - 1, MmapRegion { begin: pb, npages: ((end - pb) / 4096) as u32 });
        }
        return Ok(VirtAddr::from(pb));
    }
    if consume_next {
        let ne: u64 = head[idx].begin + head[idx].npages as u64 * 4096;
        head.set(idx, MmapRegion { begin: b, npages: ((ne - b) / 4096) as u32 });
        return Ok(VirtAddr::from(b));
    }
    match pool.region_alloc() {
        None => Err(UvmError::NoMem),
        Some(_) => {
            head.insert(idx, MmapRegion { begin: b, npages: ((end - b) / 4096) as u32 });
            Ok(VirtAddr::from(b))
        },
    }
}

/// Maps `len` bytes (rounded up to pages) of fresh user memory at `begin`, or,
/// when `begin` is zero, at the first gap of `[mmap_begin, mmap_end)` that is big
/// enough; records the mapping in the region list `head`, merged with the
/// regions it touches. Returns the start of the region that now holds it.
///
/// A zero length, a start outside the area, unaligned or overlapping a region is
/// refused with `OutOfRange`; a failure to map a page is passed on (the pages
/// mapped before it stay mapped); a mapping that needs a node of its own when the
/// pool is empty ends with `NoMem` after its pages were mapped.
#[verifier::rlimit(100)]
#[verifier::spinoff_prover]
pub fn mmap(
    pt: &mut PageTable,
    store: &mut TableStore,
    pmem: &mut PmemManager,
    mem: &mut PhysMem,
    head: &mut Vec<MmapRegion>,
    pool: &mut MmapPool,
    begin: VirtAddr,
    len: usize,
    flags: usize,
    mmap_begin: u64,
    mmap_end: u64,
) -> (r: Result<VirtAddr, UvmError>)
    requires
        old(pt).wf(),
        old(store).wf(),
        old(pmem).wf(),
        frames_below_top(old(pmem).regions@),
        list_wf(old(head)@),
        old(pool).free + old(head)@.len() <= N_MMAP,
        mmap_end <= VA_MAX,
        len + 4096 <= u64::MAX,
        old(mem).wf(),
        (old(mem).frames@.len() + len / 4096 + 2) * 4096 <= usize::MAX,
    ensures
        final(pt).wf(),
        final(store).wf(),
        final(pmem).wf(),
        final(mem).wf(),
        frames_below_top(final(pmem).regions@),
        list_wf(final(head)@),
        final(pool).free + final(head)@.len() <= N_MMAP,
        ({
            let npages = (spec_align_up(len as u64, 4096) / 4096) as int;
            let place = if len == 0 { None } else { mmap_place(old(head)@, begin.0 as int, npages * 4096, mmap_begin as int, mmap_end as int) };
            match place {
                None => {
                    &&& r == Err::<VirtAddr, UvmError>(UvmError::OutOfRange)
                    &&& final(pt).entries@ == old(pt).entries@
                    &&& final(store).addrs@ == old(store).addrs@
                    &&& final(store).entries@ == old(store).entries@
                    &&& final(pmem).regions@ == old(pmem).regions@
                    &&& final(head)@ == old(head)@
                    &&& final(pool).free == old(pool).free
                    &&& *final(mem) == *old(mem)
                },
                Some((b, idx)) => {
                    let e = b + npages * 4096;
                    let (root2, addrs2, ents2, regs2, res) = map_pages_run(
                        old(pt).entries@, old(store).addrs@, old(store).entries@, old(pmem).regions@, b, npages as nat);
                    let up = joins_prev(old(head)@, idx, b);
                    let cn = joins_next(old(head)@, idx, e);
                    &&& final(pt).entries@ == root2
                    &&& final(store).addrs@ == addrs2
                    &&& final(store).entries@ == ents2
                    &&& final(pmem).regions@ == regs2
                    &&& forall|x: int| #[trigger] final(mem).byte(x) == if in_frames(pages_frames(old(pt).entries@,
                        old(store).addrs@, old(store).entries@, old(pmem).regions@, b, npages as nat), x) {
                        0
                    } else {
                        old(mem).byte(x)
                    }
                    &&& match res {
                        Err(err) => r == Err::<VirtAddr, UvmError>(err) && final(head)@ == old(head)@ && final(pool).free == old(pool).free,
                        Ok(_) => if !up && !cn && old(pool).free == 0 {
                            r == Err::<VirtAddr, UvmError>(UvmError::NoMem) && final(head)@ == old(head)@ && final(pool).free == 0
                        } else {
                            &&& r == Ok::<VirtAddr, UvmError>(VirtAddr((if up { old(head)@[idx - 1].begin as int } else { b }) as u64))
                            &&& final(head)@ == merged_list(old(head)@, idx, b, e)
                            &&& final(pool).free == if up && cn { old(pool).free + 1 } else if !up && !cn { old(pool).free - 1 } else { old(pool).free as int }
                        },
                    }
                },
            }
        }),
{
    if len == 0 {
        return Err(UvmError::OutOfRange);
    }
    proof {
        lemma_pow2_4096();
    }
    let npages: u64 = VirtAddr::from(len as u64).align_up(4096).0 / 4096;
    if npages == 0 {
        return Err(UvmError::OutOfRange);
    }
    let need: u64 = npages * 4096;
    let (b, idx) = match mmap_find_place(head, begin.0, need, mmap_begin, mmap_end) {
        None => return Err(UvmError::OutOfRange),
        Some(p) => p,
    };
    proof {
        super::addr::lemma_align_down_pow2(b, 4096);
        assert(npages <= len / 4096 + 1) by (nonlinear_arith)
            requires
                npages * 4096 < len + 4096,
        ;
    }
    match map_pages(pt, store, pmem, mem, VirtAddr::from(b), npages) {
        Err(err) => return Err(err),
        Ok(()) => {},
    }
    mmap_commit(head, pool, idx, b, b + need)
}

/// Clearing, one page at a time from `va` (up to `end`), the entry at which
/// each page's walk stops, and giving back the frame of each entry that was a
/// valid leaf; pages whose walk fails are left alone. The result is the
/// tables and the frames given back, in order.
pub open spec fn clear_run(root: Seq<Pte>, addrs: Seq<PhysAddr>, ents: Seq<Pte>, va: int, end: int)
    -> (Seq<Pte>, Seq<Pte>, Seq<PhysAddr>)
    decreases gap(va, end),
{
    if va >= end {
        (root, ents, Seq::empty())
    } else {
        match walk_spec(root, addrs, ents, va as u64) {
            None => clear_run(root, addrs, ents, va + 4096, end),
            Some(loc) => {
                let old = entry_at(root, ents, loc);
                let (r2, e2, f2) = clear_run(put_root(root, loc, Pte(0)), addrs, put_ents(ents, loc, Pte(0)), va + 4096, end);
                if pte_valid(old.0) && pte_leaf(old.0) {
                    (r2, e2, seq![PhysAddr(pte_pa(old.0))] + f2)
                } else {
                    (r2, e2, f2)
                }
            },
        }
    }
}

/// Clears the pages of `[lo, hi)` (both page aligned) and gives the frames of
/// the valid leaves among them back to the allocator (see `clear_run`).
fn clear_range(pt: &mut PageTable, store: &mut TableStore, pmem: &mut PmemManager, lo: u64, hi: u64)
    requires
        old(pt).wf(),
        old(store).wf(),
        old(pmem).wf(),
        lo % 4096 == 0,
        hi % 4096 == 0,
        hi + 4096 <= u64::MAX,
    ensures
        final(pt).wf(),
        final(store).wf(),
        final(pmem).wf(),
        final(store).addrs@ == old(store).addrs@,
        final(pmem).regions@ == old(pmem).regions@,
        ({
            let (r2, e2, f2) = clear_run(old(pt).entries@, old(store).addrs@, old(store).entries@, lo as int, hi as int);
            &&& final(pt).entries@ == r2
            &&& final(store).entries@ == e2
            &&& final(pmem).freed@ == old(pmem).freed@ + f2
        }),
{
    let mut cur: u64 = lo;
    let ghost mut done: Seq<PhysAddr> = Seq::empty();
    proof {
        let (r0, e0, f0) = clear_run(pt.entries@, store.addrs@, store.entries@, cur as int, hi as int);
        assert(done + f0 =~= f0);
        assert(old(pmem).freed@ + done =~= old(pmem).freed@);
    }
    while cur < hi
        invariant
            pt.wf(),
            store.wf(),
            pmem.wf(),
            store.addrs@ == old(store).addrs@,
            pmem.regions@ == old(pmem).regions@,
            pmem.freed@ == old(pmem).freed@ + done,
            cur % 4096 == 0,
            hi % 4096 == 0,
            hi + 4096 <= u64::MAX,
            clear_run(old(pt).entries@, old(store).addrs@, old(store).entries@, lo as int, hi as int) == ({
                let (r1, e1, f1) = clear_run(pt.entries@, store.addrs@, store.entries@, cur as int, hi as int);
                (r1, e1, done + f1)
            }),
        decreases gap(cur as int, hi as int),
    {
        assert(cur + 4096 <= hi) by (nonlinear_arith)
            requires
                cur % 4096 == 0,
                hi % 4096 == 0,
                cur < hi,
        ;
        match pt.walk(store, VirtAddr::from(cur)) {
            Some(loc) => {
                let old_pte = pt.read_entry(store, loc);
                pt.write_entry(store, loc, Pte::null());
                if old_pte.is_valid() && old_pte.is_leaf() {
                    let frame = old_pte.pa();
                    pmem.free_frame(frame);
                    proof {
                        let (r1, e1, f1) = clear_run(pt.entries@, store.addrs@, store.entries@, cur + 4096, hi as int);
                        assert(done + (seq![frame] + f1) =~= done.push(frame) + f1);
                        done = done.push(frame);
                    }
                }
            },
            None => {},
        }
        cur = cur + 4096;
    }
    proof {
        assert(done + Seq::<PhysAddr>::empty() =~= done);
    }
}

/// Clearing, region by region from position `i`, the pages of each region that
/// lie in `[start, end)` (see `clear_run`); the result is the tables and the
/// frames given back, in order.
pub open spec fn unmap_regions(
    root: Seq<Pte>,
    addrs: Seq<PhysAddr>,
    ents: Seq<Pte>,
    s: Seq<MmapRegion>,
    i: int,
    start: int,
    end: int,
) -> (Seq<Pte>, Seq<Pte>, Seq<PhysAddr>)
    decreases s.len() - i,
{
    if i < 0 || i >= s.len() {
        (root, ents, Seq::empty())
    } else if overlaps(s[i], start, end) {
        let lo = if start > s[i].begin { start } else { s[i].begin as int };
        let hi = if end < region_end(s[i]) { end } else { region_end(s[i]) };
        let (r2, e2, f2) = clear_run(root, addrs, ents, lo, hi);
        let (r3, e3, f3) = unmap_regions(r2, addrs, e2, s, i + 1, start, end);
        (r3, e3, f2 + f3)
    } else {
        unmap_regions(root, addrs, ents, s, i + 1, start, end)
    }
}

proof fn lemma_unmap_regions_none(root: Seq<Pte>, addrs: Seq<PhysAddr>, ents: Seq<Pte>, s: Seq<MmapRegion>, i: int, start: int, end: int)
    requires
        0 <= i,
        forall|j: int| i <= j < s.len() ==> !overlaps(#[trigger] s[j], start, end),
    ensures
        unmap_regions(root, addrs, ents, s, i, start, end) == (root, ents, Seq::<PhysAddr>::empty()),
    decreases s.len() - i,
{
    if i < s.len() {
        assert(!overlaps(s[i], start, end));
        lemma_unmap_regions_none(root, addrs, ents, s, i + 1, start, end);
    }
}

proof fn lemma_cut_list_step(s: Seq<MmapRegion>, i: int, start: int, end: int)
    requires
        0 <= i < s.len(),
    ensures
        cut_list(s.take(i + 1), start, end) == cut_list(s.take(i), start, end) + cut_region(s[i], start, end),
{
    assert(s.take(i + 1).drop_last() =~= s.take(i));
    assert(s.take(i + 1).last() == s[i]);
}

/// Unmaps `[begin, begin + len)` widened to whole pages, and takes that range
/// out of the region list `head`: a region inside it is removed (its node goes
/// back to the pool), a region reaching past one side is trimmed, and a region
/// reaching past both is split in two, which takes a node from the pool. When
/// that node is missing the call ends with `NoMem`, the list unchanged but the
/// pages already unmapped.
#[verifier::rlimit(80)]
#[verifier::spinoff_prover]
pub fn munmap(
    pt: &mut PageTable,
    store: &mut TableStore,
    pmem: &mut PmemManager,
    head: &mut Vec<MmapRegion>,
    pool: &mut MmapPool,
    begin: VirtAddr,
    len: usize,
) -> (r: Result<(), UvmError>)
    requires
        old(pt).wf(),
        old(store).wf(),
        old(pmem).wf(),
        list_wf(old(head)@),
        old(pool).free + old(head)@.len() <= N_MMAP,
        begin.0 + len + 8192 <= u64::MAX,
        VA_MAX <= usize::MAX,
    ensures
        final(pt).wf(),
        final(store).wf(),
        final(store).addrs@ == old(store).addrs@,
        final(pmem).wf(),
        final(pmem).regions@ == old(pmem).regions@,
        list_wf(final(head)@),
        final(pool).free + final(head)@.len() <= N_MMAP,
        ({
            let start = spec_align_down(begin.0, 4096) as int;
            let end = spec_align_up((begin.0 + len) as u64, 4096) as int;
            if len == 0 || end <= start {
                &&& r == Ok::<(), UvmError>(())
                &&& final(pt).entries@ == old(pt).entries@
                &&& final(store).entries@ == old(store).entries@
                &&& final(head)@ == old(head)@
                &&& final(pool).free == old(pool).free
                &&& final(pmem).freed@ == old(pmem).freed@
            } else {
                let (root2, ents2, freed2) = unmap_regions(old(pt).entries@, old(store).addrs@, old(store).entries@, old(head)@, 0, start, end);
                &&& final(pt).entries@ == root2
                &&& final(store).entries@ == ents2
                &&& final(pmem).freed@ == old(pmem).freed@ + freed2
                &&& if needs_split(old(head)@, start, end) && old(pool).free == 0 {
                    r == Err::<(), UvmError>(UvmError::NoMem) && final(head)@ == old(head)@ && final(pool).free == old(pool).free
                } else {
                    &&& r == Ok::<(), UvmError>(())
                    &&& final(head)@ == cut_list(old(head)@, start, end)
                    &&& final(pool).free + final(head)@.len() == old(pool).free + old(head)@.len()
                }
            }
        }),
{
    if len == 0 {
        return Ok(());
    }
    proof {
        lemma_pow2_4096();
    }
    let start: u64 = begin.align_down(4096).0;
    let end: u64 = VirtAddr::from(begin.0 + len as u64).align_up(4096).0;
    if end <= start {
        return Ok(());
    }
    let ghost s = head@;
    let mut out: Vec<MmapRegion> = Vec::new();
    let mut i: usize = 0;
    let ghost mut done: Seq<PhysAddr> = Seq::empty();
    proof {
        let (r0, e0, f0) = unmap_regions(pt.entries@, store.addrs@, store.entries@, s, 0, start as int, end as int);
        assert(done + f0 =~= f0);
        assert(old(pmem).freed@ + done =~= old(pmem).freed@);
        assert(s.take(0) =~= Seq::<MmapRegion>::empty());
        assert(start % 4096 == 0 && end % 4096 == 0);
    }
    while i < head.len()
        invariant
            head@ == s,
            list_wf(s),
            pt.wf(),
            store.wf(),
            store.addrs@ == old(store).addrs@,
            i <= s.len(),
            start == spec_align_down(begin.0, 4096),
            end == spec_align_up((begin.0 + len) as u64, 4096),
            len > 0,
            start % 4096 == 0,
            end % 4096 == 0,
            start < end,
            end + 4096 <= u64::MAX,
            VA_MAX <= usize::MAX,
            old(pool).free + s.len() <= N_MMAP,
            out@ == cut_list(s.take(i as int), start as int, end as int),
            pmem.wf(),
            pmem.regions@ == old(pmem).regions@,
            pmem.freed@ == old(pmem).freed@ + done,
            unmap_regions(old(pt).entries@, old(store).addrs@, old(store).entries@, s, 0, start as int, end as int) == ({
                let (r1, e1, f1) = unmap_regions(pt.entries@, store.addrs@, store.entries@, s, i as int, start as int, end as int);
                (r1, e1, done + f1)
            }),
            pool.free + out@.len() == old(pool).free + i,
            (forall|j: int| 0 <= j < i ==> !overlaps(#[trigger] s[j], start as int, end as int)) ==> pool.free == old(pool).free,
            old(pool).free == 0 ==> forall|j: int| 0 <= j < i ==> !((#[trigger] s[j]).begin < start && end < region_end(s[j])),
        decreases s.len() - i,
    {
        proof {
            lemma_cut_list_step(s, i as int, start as int, end as int);
        }
        let reg = head[i];
        let cb: u64 = reg.begin;
        let ce: u64 = cb + reg.npages as u64 * 4096;
        if ce > start && end > cb {
            let lo: u64 = if start > cb { start } else { cb };
            let hi: u64 = if end < ce { end } else { ce };
            proof {
                assert(lo % 4096 == 0 && hi % 4096 == 0 && lo < hi);
                assert(lo - lo % 4096 == lo);
                assert((lo + (hi - lo)) + (4096 - (lo + (hi - lo)) % 4096) % 4096 == hi);
            }
            let ghost pre_root = pt.entries@;
            let ghost pre_ents = store.entries@;
            clear_range(pt, store, pmem, lo, hi);
            proof {
                let (r2, e2, f2) = clear_run(pre_root, store.addrs@, pre_ents, lo as int, hi as int);
                let (r3, e3, f3) = unmap_regions(r2, store.addrs@, e2, s, i + 1, start as int, end as int);
                assert(done + (f2 + f3) =~= (done + f2) + f3);
                done = done + f2;
            }
            if lo == cb && hi == ce {
                pool.region_free(reg);
            } else if lo == cb {
                out.push(MmapRegion { begin: hi, npages: ((ce - hi) / 4096) as u32 });
            } else if hi == ce {
                out.push(MmapRegion { begin: cb, npages: ((lo - cb) / 4096) as u32 });
            } else {
                match pool.region_alloc() {
                    None => {
                        proof {
                            assert forall|j: int| 0 <= j < i implies !overlaps(#[trigger] s[j], start as int, end as int) by {
                                assert(region_end(s[j]) <= s[i as int].begin);
                            }
                            assert forall|j: int| i < j < s.len() implies !overlaps(#[trigger] s[j], start as int, end as int) by {
                                assert(region_end(s[i as int]) <= s[j].begin);
                            }
                            lemma_unmap_regions_none(pt.entries@, store.addrs@, store.entries@, s, i + 1, start as int, end as int);
                            assert(done + Seq::<PhysAddr>::empty() =~= done);
                            assert(needs_split(s, start as int, end as int)) by {
                                assert(s[i as int].begin < start && end < region_end(s[i as int]));
                            }
                        }
                        return Err(UvmError::NoMem);
                    },
                    Some(_) => {
                        out.push(MmapRegion { begin: cb, npages: ((lo - cb) / 4096) as u32 });
                        out.push(MmapRegion { begin: hi, npages: ((ce - hi) / 4096) as u32 });
                    },
                }
            }
        } else {
            out.push(reg);
        }
        proof {
            assert(out@ == cut_list(s.take(i as int), start as int, end as int) + cut_region(s[i as int], start as int, end as int));
        }
        i = i + 1;
    }
    proof {
        assert(s.take(s.len() as int) =~= s);
        lemma_cut_list(s, start as int, end as int);
        if needs_split(s, start as int, end as int) && old(pool).free == 0 {
            let k = choose|k: int| 0 <= k < s.len() && (#[trigger] s[k]).begin < start && end < region_end(s[k]);
            assert(!(s[k].begin < start && end < region_end(s[k])));
        }
        lemma_unmap_regions_none(pt.entries@, store.addrs@, store.entries@, s, s.len() as int, start as int, end as int);
        assert(done + Seq::<PhysAddr>::empty() =~= done);
    }
    *head = out;
    Ok(())
}


/// Why a copy between the kernel and user memory failed.
#[derive(Clone, Copy, PartialEq, Eq, Structural, Debug)]
pub enum CopyError {
    NotMapped,
    NoPerm,
    Fault,
    TooLong,
}

/// A run of bytes inside one frame: `len` bytes from physical address `pa`.
#[derive(Clone, Copy, PartialEq, Eq, Structural, Debug)]
pub struct CopySpan {
    pub pa: u64,
    pub len: u64,
}

/// The frame behind the user page at `page` for an access that needs the
/// permission bit `need`: the page must have a level-0 entry (see
/// `lookup_spec`) that is a valid leaf (else `NotMapped`), user accessible and
/// carrying `need` (else `NoPerm`).
pub open spec fn user_page(root: Seq<Pte>, addrs: Seq<PhysAddr>, ents: Seq<Pte>, page: u64, need: u64) -> Result<u64, CopyError> {
    match lookup_spec(root, addrs, ents, page) {
        None => Err(CopyError::NotMapped),
        Some(loc) => {
            let e = entry_at(root, ents, loc);
            if !pte_valid(e.0) || !pte_leaf(e.0) {
                Err(CopyError::NotMapped)
            } else if e.0 & USER == 0 || e.0 & need == 0 {
                Err(CopyError::NoPerm)
            } else {
                Ok(pte_pa(e.0))
            }
        },
    }
}

/// Finds the frame behind a user page (see `user_page`).
fn user_page_exec(pt: &PageTable, store: &TableStore, page: u64, need: u64) -> (r: Result<u64, CopyError>)
    requires
        pt.wf(),
        store.wf(),
    ensures
        r == user_page(pt.entries@, store.addrs@, store.entries@, page, need),
        r matches Ok(pa) ==> pa + 4096 <= u64::MAX,
{
    let loc = match pt.lookup(store, VirtAddr::from(page)) {
        None => return Err(CopyError::NotMapped),
        Some(l) => l,
    };
    let e = pt.read_entry(store, loc);
    if !e.is_valid() || !e.is_leaf() {
        return Err(CopyError::NotMapped);
    }
    if e.0 & USER == 0 || e.0 & need == 0 {
        return Err(CopyError::NoPerm);
    }
    let raw: u64 = e.0;
    proof {
        assert(((raw >> 10u64) & 0xFFF_FFFF_FFFFu64) << 12u64 <= 0x00FF_FFFF_FFFF_F000u64) by (bit_vector);
    }
    Ok(e.pa().0)
}

/// The frames that `n` bytes of user memory from `va` lie in, page by page:
/// each page must be a user page with the `need` permission (see
/// `user_page`); the bytes of a page run from its frame plus the offset of the
/// address in its page, up to the end of the page or of the copy.
pub open spec fn spans_of(root: Seq<Pte>, addrs: Seq<PhysAddr>, ents: Seq<Pte>, va: int, n: int, need: u64)
    -> Result<Seq<CopySpan>, CopyError>
    decreases n,
{
    if n <= 0 || va < 0 || va > u64::MAX {
        Ok(Seq::empty())
    } else {
        let off = va % 4096;
        match user_page(root, addrs, ents, (va - off) as u64, need) {
            Err(x) => Err(x),
            Ok(pa) => {
                let k = if 4096 - off < n { 4096 - off } else { n };
                match spans_of(root, addrs, ents, va + k, n - k, need) {
                    Err(x) => Err(x),
                    Ok(rest) => Ok(seq![CopySpan { pa: (pa + off) as u64, len: k as u64 }] + rest),
                }
            },
        }
    }
}

/// Finds where `len` bytes of user memory at `va` lie (see `spans_of`), for a
/// read (`need` READ) or a write (`need` WRITE); the bytes are then copied
/// span by span.
pub fn copy_spans(pt: &PageTable, store: &TableStore, va: VirtAddr, len: u64, need: u64) -> (r: Result<Vec<CopySpan>, CopyError>)
    requires
        pt.wf(),
        store.wf(),
        va.0 + len <= u64::MAX,
    ensures
        match spans_of(pt.entries@, store.addrs@, store.entries@, va.0 as int, len as int, need) {
            Ok(s) => r matches Ok(v) && v@ == s,
            Err(e) => r == Err::<Vec<CopySpan>, CopyError>(e),
        },
        r matches Ok(v) ==> forall|i: int| 0 <= i < v@.len() ==> #[trigger] v@[i].pa + v@[i].len <= u64::MAX,
{
    let mut out: Vec<CopySpan> = Vec::new();
    let mut cur: u64 = va.0;
    let mut left: u64 = len;
    while left > 0
        invariant
            pt.wf(),
            store.wf(),
            cur + left <= u64::MAX,
            spans_of(pt.entries@, store.addrs@, store.entries@, va.0 as int, len as int, need) == match spans_of(
                pt.entries@, store.addrs@, store.entries@, cur as int, left as int, need) {
                Err(x) => Err(x),
                Ok(rest) => Ok(out@ + rest),
            },
            forall|i: int| 0 <= i < out@.len() ==> #[trigger] out@[i].pa + out@[i].len <= u64::MAX,
        decreases left,
    {
        let off: u64 = cur % 4096;
        let pa = match user_page_exec(pt, store, cur - off, need) {
            Err(x) => return Err(x),
            Ok(p) => p,
        };
        let k: u64 = if 4096 - off < left { 4096 - off } else { left };
        let ghost before = out@;
        out.push(CopySpan { pa: pa + off, len: k });
        proof {
            let span = CopySpan { pa: (pa + off) as u64, len: k };
            match spans_of(pt.entries@, store.addrs@, store.entries@, cur + k, left - k, need) {
                Ok(rest) => {
                    assert(before + (seq![span] + rest) =~= before.push(span) + rest);
                },
                Err(_) => {},
            }
        }
        cur = cur + k;
        left = left - k;
    }
    proof {
        assert(out@ + Seq::<CopySpan>::empty() =~= out@);
    }
    Ok(out)
}

/// The bytes that the spans hold in `mem`, span after span.
pub open spec fn span_bytes(mem: PhysMem, s: Seq<CopySpan>) -> Seq<u8>
    decreases s.len(),
{
    if s.len() == 0 {
        Seq::empty()
    } else {
        let last = s.last();
        span_bytes(mem, s.drop_last()) + Seq::new(last.len as nat, |j: int| mem.byte(last.pa + j))
    }
}

/// Copies `len` bytes of user memory at `va` out of physical memory: every
/// page must be a readable user page (see `spans_of`); the result is the
/// bytes of the spans in order.
pub fn copyin(pt: &PageTable, store: &TableStore, mem: &PhysMem, va: VirtAddr, len: u64) -> (r: Result<Vec<u8>, CopyError>)
    requires
        pt.wf(),
        store.wf(),
        mem.wf(),
        va.0 + len <= u64::MAX,
    ensures
        match spans_of(pt.entries@, store.addrs@, store.entries@, va.0 as int, len as int, READ) {
            Ok(s) => r matches Ok(v) && v@ == span_bytes(*mem, s),
            Err(e) => r == Err::<Vec<u8>, CopyError>(e),
        },
{
    let spans = match copy_spans(pt, store, va, len, READ) {
        Err(e) => return Err(e),
        Ok(s) => s,
    };
    let mut out: Vec<u8> = Vec::new();
    let mut i: usize = 0;
    while i < spans.len()
        invariant
            mem.wf(),
            i <= spans@.len(),
            forall|q: int| 0 <= q < spans@.len() ==> #[trigger] spans@[q].pa + spans@[q].len <= u64::MAX,
            out@ == span_bytes(*mem, spans@.take(i as int)),
        decreases spans@.len() - i,
    {
        let sp = spans[i];
        let ghost before = out@;
        let mut j: u64 = 0;
        while j < sp.len
            invariant
                mem.wf(),
                sp.pa + sp.len <= u64::MAX,
                j <= sp.len,
                out@.len() == before.len() + j,
                out@.subrange(0, before.len() as int) == before,
                forall|t: int| 0 <= t < j ==> #[trigger] out@[before.len() + t] == mem.byte(sp.pa + t),
            decreases sp.len - j,
        {
            out.push(mem.read(sp.pa + j));
            proof {
                assert(out@.subrange(0, before.len() as int) =~= before);
            }
            j = j + 1;
        }
        proof {
            assert(spans@.take(i + 1).drop_last() =~= spans@.take(i as int));
            assert forall|q: int| 0 <= q < before.len() implies out@[q] == before[q] by {
                assert(out@.subrange(0, before.len() as int)[q] == out@[q]);
            }
            assert forall|q: int| before.len() <= q < out@.len() implies out@[q] == mem.byte(sp.pa + (q - before.len())) by {
                assert(out@[before.len() + (q - before.len())] == mem.byte(sp.pa + (q - before.len())));
            }
            assert(out@ =~= before + Seq::new(sp.len as nat, |t: int| mem.byte(sp.pa + t)));
        }
        i = i + 1;
    }
    proof {
        assert(spans@.take(spans@.len() as int) =~= spans@);
    }
    Ok(out)
}

/// The physical addresses that the bytes of the spans go to, in order.
pub open spec fn span_addrs(s: Seq<CopySpan>) -> Seq<int>
    decreases s.len(),
{
    if s.len() == 0 {
        Seq::empty()
    } else {
        Seq::new(s[0].len as nat, |j: int| s[0].pa + j) + span_addrs(s.drop_first())
    }
}

/// The byte at `a` after `data` is written, byte by byte, to `addrs`: the last
/// write to `a`, or what `mem` held there.
pub open spec fn after_writes(mem: PhysMem, addrs: Seq<int>, data: Seq<u8>, a: int) -> u8
    decreases addrs.len(),
{
    if addrs.len() == 0 {
        mem.byte(a)
    } else if addrs.last() == a {
        data[addrs.len() - 1]
    } else {
        after_writes(mem, addrs.drop_last(), data, a)
    }
}

/// The spans of `n` bytes hold `n` addresses.
proof fn lemma_spans_len(root: Seq<Pte>, addrs: Seq<PhysAddr>, ents: Seq<Pte>, va: int, n: int, need: u64)
    requires
        0 <= va,
        0 <= n,
        va + n <= u64::MAX,
    ensures
        spans_of(root, addrs, ents, va, n, need) matches Ok(s) ==> span_addrs(s).len() == n,
    decreases n,
{
    if n > 0 {
        let off = va % 4096;
        let k = if 4096 - off < n { 4096 - off } else { n };
        lemma_spans_len(root, addrs, ents, va + k, n - k, need);
        if let Ok(pa) = user_page(root, addrs, ents, (va - off) as u64, need) {
            if let Ok(rest) = spans_of(root, addrs, ents, va + k, n - k, need) {
                let span = CopySpan { pa: (pa + off) as u64, len: k as u64 };
                let sq = seq![span] + rest;
                assert(sq.drop_first() =~= rest);
                assert(sq[0] == span);
            }
        }
    }
}

/// Copies `src` into user memory at `va`: every page must be a writable user
/// page (see `spans_of`), which is checked before any byte is written; then
/// the bytes go to the spans in order.
pub fn copyout(pt: &PageTable, store: &TableStore, mem: &mut PhysMem, va: VirtAddr, src: &[u8]) -> (r: Result<(), CopyError>)
    requires
        pt.wf(),
        store.wf(),
        old(mem).wf(),
        va.0 + src@.len() <= u64::MAX,
        (old(mem).frames@.len() + src@.len() + 1) * 4096 <= usize::MAX,
    ensures
        final(mem).wf(),
        match spans_of(pt.entries@, store.addrs@, store.entries@, va.0 as int, src@.len() as int, WRITE) {
            Ok(s) => r is Ok && forall|a: int| #[trigger] final(mem).byte(a) == after_writes(*old(mem), span_addrs(s), src@, a),
            Err(e) => r == Err::<(), CopyError>(e) && *final(mem) == *old(mem),
        },
{
    let n = src.len();
    let spans = match copy_spans(pt, store, va, n as u64, WRITE) {
        Err(e) => return Err(e),
        Ok(s) => s,
    };
    proof {
        lemma_spans_len(pt.entries@, store.addrs@, store.entries@, va.0 as int, n as int, WRITE);
    }
    let ghost all = span_addrs(spans@);
    let mut targets: Vec<u64> = Vec::new();
    let mut i: usize = 0;
    proof {
        assert(spans@.skip(0) =~= spans@);
        assert(all =~= targets@.map_values(|t: u64| t as int) + span_addrs(spans@.skip(0)));
    }
    while i < spans.len()
        invariant
            i <= spans@.len(),
            all == span_addrs(spans@),
            all.len() == n,
            forall|q: int| 0 <= q < spans@.len() ==> #[trigger] spans@[q].pa + spans@[q].len <= u64::MAX,
            all == targets@.map_values(|t: u64| t as int) + span_addrs(spans@.skip(i as int)),
        decreases spans@.len() - i,
    {
        let sp = spans[i];
        proof {
            let rest = spans@.skip(i as int);
            assert(rest[0] == sp);
            assert(rest.drop_first() =~= spans@.skip(i + 1));
        }
        let ghost before = targets@;
        let mut j: u64 = 0;
        while j < sp.len
            invariant
                sp.pa + sp.len <= u64::MAX,
                j <= sp.len,
                targets@.len() == before.len() + j,
                forall|q: int| 0 <= q < before.len() ==> targets@[q] == before[q],
                forall|t: int| 0 <= t < j ==> #[trigger] targets@[before.len() + t] == sp.pa + t,
            decreases sp.len - j,
        {
            targets.push(sp.pa + j);
            j = j + 1;
        }
        proof {
            let seg = Seq::new(sp.len as nat, |t: int| sp.pa + t);
            assert(targets@.map_values(|t: u64| t as int) =~= before.map_values(|t: u64| t as int) + seg) by {
                assert forall|q: int| before.len() <= q < targets@.len() implies targets@[q] == sp.pa + (q - before.len()) by {
                    assert(targets@[before.len() + (q - before.len())] == sp.pa + (q - before.len()));
                }
            }
            assert(span_addrs(spans@.skip(i as int)) == seg + span_addrs(spans@.skip(i + 1)));
            assert(all =~= targets@.map_values(|t: u64| t as int) + span_addrs(spans@.skip(i + 1)));
        }
        i = i + 1;
    }
    proof {
        assert(spans@.skip(spans@.len() as int) =~= Seq::<CopySpan>::empty());
        assert(all =~= targets@.map_values(|t: u64| t as int));
    }
    let ghost start = *mem;
    let mut p: usize = 0;
    while p < n
        invariant
            mem.wf(),
            n == src@.len(),
            targets@.len() == n,
            all =~= targets@.map_values(|t: u64| t as int),
            p <= n,
            mem.frames@.len() <= start.frames@.len() + p,
            (start.frames@.len() + src@.len() + 1) * 4096 <= usize::MAX,
            forall|a: int| #[trigger] mem.byte(a) == after_writes(start, all.take(p as int), src@, a),
        decreases n - p,
    {
        let ghost prev = *mem;
        mem.write(targets[p], src[p]);
        proof {
            assert forall|a: int| #[trigger] mem.byte(a) == after_writes(start, all.take(p + 1), src@, a) by {
                assert(all.take(p + 1).drop_last() =~= all.take(p as int));
                assert(all.take(p + 1).last() == targets@[p as int] as int);
                assert(prev.byte(a) == after_writes(start, all.take(p as int), src@, a));
            }
        }
        p = p + 1;
    }
    proof {
        assert(all.take(n as int) =~= all);
    }
    Ok(())
}

/// A string of user memory from `va` of at most `n` bytes: byte by byte, each
/// from a readable user page (see `user_page`), up to and with the first zero
/// byte; `TooLong` when `n` bytes pass without one.
pub open spec fn str_from(root: Seq<Pte>, addrs: Seq<PhysAddr>, ents: Seq<Pte>, mem: PhysMem, va: int, n: int)
    -> Result<Seq<u8>, CopyError>
    decreases n,
{
    if n <= 0 || va < 0 || va > u64::MAX {
        Err(CopyError::TooLong)
    } else {
        let off = va % 4096;
        match user_page(root, addrs, ents, (va - off) as u64, READ) {
            Err(x) => Err(x),
            Ok(pa) => {
                let b = mem.byte(pa + off);
                if b == 0 {
                    Ok(seq![0u8])
                } else {
                    match str_from(root, addrs, ents, mem, va + 1, n - 1) {
                        Err(x) => Err(x),
                        Ok(rest) => Ok(seq![b] + rest),
                    }
                }
            },
        }
    }
}

/// Copies a zero-terminated string of at most `max` bytes from user memory at
/// `va` (see `str_from`); the result holds the bytes up to and with the zero.
pub fn copyin_str(pt: &PageTable, store: &TableStore, mem: &PhysMem, va: VirtAddr, max: u64) -> (r: Result<Vec<u8>, CopyError>)
    requires
        pt.wf(),
        store.wf(),
        mem.wf(),
        va.0 + max <= u64::MAX,
    ensures
        match str_from(pt.entries@, store.addrs@, store.entries@, *mem, va.0 as int, max as int) {
            Ok(s) => r matches Ok(v) && v@ == s,
            Err(e) => r == Err::<Vec<u8>, CopyError>(e),
        },
{
    let mut out: Vec<u8> = Vec::new();
    let mut cur: u64 = va.0;
    let mut left: u64 = max;
    while left > 0
        invariant
            pt.wf(),
            store.wf(),
            mem.wf(),
            cur + left <= u64::MAX,
            str_from(pt.entries@, store.addrs@, store.entries@, *mem, va.0 as int, max as int) == match str_from(
                pt.entries@, store.addrs@, store.entries@, *mem, cur as int, left as int) {
                Err(x) => Err(x),
                Ok(rest) => Ok(out@ + rest),
            },
        decreases left,
    {
        let off: u64 = cur % 4096;
        let pa = match user_page_exec(pt, store, cur - off, READ) {
            Err(x) => return Err(x),
            Ok(p) => p,
        };
        let b = mem.read(pa + off);
        let ghost before = out@;
        out.push(b);
        if b == 0 {
            return Ok(out);
        }
        proof {
            match str_from(pt.entries@, store.addrs@, store.entries@, *mem, cur + 1, left - 1) {
                Ok(rest) => {
                    assert(before + (seq![b] + rest) =~= before.push(b) + rest);
                },
                Err(_) => {},
            }
        }
        cur = cur + 1;
        left = left - 1;
    }
    Err(CopyError::TooLong)
}

} // verus!
