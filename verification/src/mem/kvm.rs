//! The kernel's own address space: every RAM region mapped at the direct-map
//! offset, the kernel image's sections given their permissions, and the
//! initial ramdisk mapped read-only.
use vstd::prelude::*;
use super::addr::{PhysAddr, VirtAddr, spec_align_down, spec_align_up, lemma_align_down_pow2, lemma_align_up_pow2};
use super::pagetable::{PageTable, TableStore, update_run, round_up_page};
use super::pmem::PmemManager;
use super::pte::{PTEFLAGS_MASK, READ, WRITE, EXECUTE, VALID};
use super::table_alloc::map_alloc_run;
use super::uvm::{frames_below_top, lemma_pow2_4096};
use super::Perms;
use crate::error::Error;
use crate::platform::{MemoryRegion, MemoryType};
use crate::proc::roottask::{VsState, then_map};

verus! {

/// Where the linker placed the kernel image's sections.
#[derive(Clone, Copy, Debug)]
pub struct KernelSections {
    pub text_start: u64,
    pub text_end: u64,
    pub rodata_start: u64,
    pub rodata_end: u64,
    pub data_start: u64,
    pub bss_end: u64,
}

/// Changes the flags of the pages from `va` up to `end` (see `update_run`),
/// unless an earlier step failed.
pub open spec fn then_update(s: VsState, va: int, end: int, flags: u64) -> VsState {
    if s.4 is Err {
        s
    } else {
        let (r, e, res) = update_run(s.0, s.1, s.2, va, end, (flags | VALID) & PTEFLAGS_MASK);
        (r, s.1, e, s.3, res)
    }
}

/// The RAM regions from the `i`-th on, each mapped read-write at `hhdm` above
/// its physical address; other regions are passed over.
pub open spec fn ram_run(s: VsState, regions: Seq<MemoryRegion>, hhdm: u64, i: nat) -> VsState
    decreases regions.len() - i,
{
    if i >= regions.len() || s.4 is Err {
        s
    } else {
        let r = regions[i as int];
        if r.region_type == MemoryType::Ram {
            let (a, b, c, d, res) = map_alloc_run(s.0, s.1, s.2, s.3, hhdm + r.start.0, hhdm + r.start.0 + r.size,
                spec_align_down(r.start.0, 4096) as int, READ | WRITE | VALID);
            if res is Err {
                (a, b, c, d, res)
            } else {
                ram_run((a, b, c, d, Ok(())), regions, hhdm, i + 1)
            }
        } else {
            ram_run(s, regions, hhdm, i + 1)
        }
    }
}

/// The kernel's address space, step by step: the RAM regions (see `ram_run`);
/// the text read-execute, the read-only data read-only, the data and bss
/// read-write (each section widened to whole pages); the ramdisk's pages,
/// from `initrd_pa`, mapped read-write and then made read-only.
pub open spec fn kernel_vm_run(
    s0: VsState,
    regions: Seq<MemoryRegion>,
    hhdm: u64,
    sec: KernelSections,
    initrd_va: u64,
    initrd_size: u64,
    initrd_pa: u64,
) -> VsState {
    let s1 = ram_run(s0, regions, hhdm, 0);
    let s2 = then_update(s1, spec_align_down(sec.text_start, 4096) as int, spec_align_up(sec.text_end, 4096) as int, READ | EXECUTE | VALID);
    let s3 = then_update(s2, spec_align_down(sec.rodata_start, 4096) as int, spec_align_up(sec.rodata_end, 4096) as int, READ | VALID);
    let s4 = then_update(s3, spec_align_down(sec.data_start, 4096) as int, spec_align_up(sec.bss_end, 4096) as int, READ | WRITE | VALID);
    let start = spec_align_down(initrd_va, 4096) as int;
    let end = spec_align_up((initrd_va + initrd_size) as u64, 4096) as int;
    let s5 = then_map(s4, start, end - start, initrd_pa as int, READ | WRITE | VALID);
    then_update(s5, start, end, READ | VALID)
}

/// Every RAM region, moved up by `hhdm`, lies well below the top of the
/// address space.
pub open spec fn ram_fits(regions: Seq<MemoryRegion>, hhdm: u64) -> bool {
    forall|i: int| 0 <= i < regions.len() ==> (#[trigger] regions[i]).region_type == MemoryType::Ram
        ==> hhdm + regions[i].start.0 + regions[i].size + 0x4000_0000 <= u64::MAX
            && regions[i].start.0 + regions[i].size + 4096 <= u64::MAX
}

/// The sections are in order and end well below the top of the address space.
pub open spec fn sections_fit(sec: KernelSections) -> bool {
    &&& sec.text_start <= sec.text_end && sec.text_end + 8192 <= u64::MAX
    &&& sec.rodata_start <= sec.rodata_end && sec.rodata_end + 8192 <= u64::MAX
    &&& sec.data_start <= sec.bss_end && sec.bss_end + 8192 <= u64::MAX
    &&& sec.text_end - sec.text_start + 8192 <= usize::MAX
    &&& sec.rodata_end - sec.rodata_start + 8192 <= usize::MAX
    &&& sec.bss_end - sec.data_start + 8192 <= usize::MAX
}

proof fn lemma_kernel_flags()
    by (bit_vector)
    ensures
        (READ | WRITE | VALID) | VALID == READ | WRITE | VALID,
        !((READ | EXECUTE | VALID) & WRITE == WRITE && (READ | EXECUTE | VALID) & EXECUTE == EXECUTE),
        !((READ | VALID) & WRITE == WRITE && (READ | VALID) & EXECUTE == EXECUTE),
        !((READ | WRITE | VALID) & WRITE == WRITE && (READ | WRITE | VALID) & EXECUTE == EXECUTE),
{
}

fn update_section(pt: &mut PageTable, store: &mut TableStore, start: u64, end: u64, flags: u64) -> (r: Result<(), Error>)
    requires
        old(pt).wf(),
        old(store).wf(),
        start <= end,
        end + 8192 <= u64::MAX,
        end - start + 8192 <= usize::MAX,
        !(flags & WRITE == WRITE && flags & EXECUTE == EXECUTE),
    ensures
        final(pt).wf(),
        final(store).wf(),
        final(store).addrs@ == old(store).addrs@,
        ({
            let (r2, e2, res) = update_run(old(pt).entries@, old(store).addrs@, old(store).entries@,
                spec_align_down(start, 4096) as int, spec_align_up(end, 4096) as int, (flags | VALID) & PTEFLAGS_MASK);
            final(pt).entries@ == r2 && final(store).entries@ == e2 && r == res
        }),
{
    proof {
        lemma_pow2_4096();
    }
    let s = VirtAddr::from(start).align_down(4096);
    let e = VirtAddr::from(end).align_up(4096);
    proof {
        assert(round_up_page((e.0 - s.0) as int) == e.0 - s.0) by (nonlinear_arith)
            requires
                e.0 % 4096 == 0,
                s.0 % 4096 == 0,
                s.0 <= e.0,
        ;
        assert(e.0 - s.0 <= end - start + 8192);
    }
    pt.update(store, s, (e.0 - s.0) as usize, Perms(flags))
}

/// Maps every RAM region of `regions` at `hhdm` above it (see `ram_run`).
#[verifier::spinoff_prover]
#[verifier::rlimit(80)]
fn map_ram(pt: &mut PageTable, store: &mut TableStore, pmem: &mut PmemManager, regions: &Vec<MemoryRegion>, hhdm: u64)
    -> (r: Result<(), Error>)
    requires
        old(pt).wf(),
        old(store).wf(),
        old(pmem).wf(),
        frames_below_top(old(pmem).regions@),
        ram_fits(regions@, hhdm),
    ensures
        final(pt).wf(),
        final(store).wf(),
        final(pmem).wf(),
        frames_below_top(final(pmem).regions@),
        (final(pt).entries@, final(store).addrs@, final(store).entries@, final(pmem).regions@, r) == ram_run(
            (old(pt).entries@, old(store).addrs@, old(store).entries@, old(pmem).regions@, Ok(())), regions@, hhdm, 0),
{
    proof {
        lemma_kernel_flags();
    }
    let ghost s0 = (pt.entries@, store.addrs@, store.entries@, pmem.regions@, Ok::<(), Error>(()));
    let mut i: usize = 0;
    while i < regions.len()
        invariant
            pt.wf(),
            store.wf(),
            pmem.wf(),
            frames_below_top(pmem.regions@),
            i <= regions@.len(),
            ram_fits(regions@, hhdm),
            (READ | WRITE | VALID) | VALID == READ | WRITE | VALID,
            s0 == (old(pt).entries@, old(store).addrs@, old(store).entries@, old(pmem).regions@, Ok::<(), Error>(())),
            ram_run(s0, regions@, hhdm, 0) == ram_run((pt.entries@, store.addrs@, store.entries@, pmem.regions@, Ok(())),
                regions@, hhdm, i as nat),
        decreases regions@.len() - i,
    {
        let r = regions[i];
        let ghost s = (pt.entries@, store.addrs@, store.entries@, pmem.regions@, Ok::<(), Error>(()));
        if r.region_type == MemoryType::Ram {
            assert(hhdm + r.start.0 + r.size + 0x4000_0000 <= u64::MAX);
            let res = pt.map_with_alloc(store, pmem, VirtAddr::from(hhdm + r.start.0), r.start, r.size, Perms(READ | WRITE | VALID));
            let ghost s2 = (pt.entries@, store.addrs@, store.entries@, pmem.regions@, res);
            assert(s2 == map_alloc_run(s.0, s.1, s.2, s.3, hhdm + r.start.0, hhdm + r.start.0 + r.size,
                spec_align_down(r.start.0, 4096) as int, READ | WRITE | VALID));
            match res {
                Err(e) => {
                    assert(ram_run(s, regions@, hhdm, i as nat) == s2);
                    return Err(e);
                },
                Ok(()) => {},
            }
            assert(ram_run(s, regions@, hhdm, i as nat) == ram_run((pt.entries@, store.addrs@, store.entries@, pmem.regions@,
                Ok::<(), Error>(())), regions@, hhdm, (i + 1) as nat));
        } else {
            assert(ram_run(s, regions@, hhdm, i as nat) == ram_run(s, regions@, hhdm, (i + 1) as nat));
        }
        i = i + 1;
    }
    let ghost s1 = (pt.entries@, store.addrs@, store.entries@, pmem.regions@, Ok::<(), Error>(()));
    assert(ram_run(s1, regions@, hhdm, i as nat) == s1);
    Ok(())
}

/// Builds the kernel's address space (see `kernel_vm_run`): `regions` is the
/// platform's memory map, `hhdm` the offset of the direct map, `sec` the
/// kernel image's sections, and the ramdisk lies at `initrd_va` (`initrd_size`
/// bytes, its first page at physical `initrd_pa`). Stops at the first step
/// that fails, with its error.
#[verifier::rlimit(40)]
pub fn init_kernel_vm(
    pt: &mut PageTable,
    store: &mut TableStore,
    pmem: &mut PmemManager,
    regions: &Vec<MemoryRegion>,
    hhdm: u64,
    sec: KernelSections,
    initrd_va: u64,
    initrd_size: u64,
    initrd_pa: PhysAddr,
) -> (r: Result<(), Error>)
    requires
        old(pt).wf(),
        old(store).wf(),
        old(pmem).wf(),
        frames_below_top(old(pmem).regions@),
        ram_fits(regions@, hhdm),
        sections_fit(sec),
        initrd_va + initrd_size + 0x4000_2000 <= u64::MAX,
        initrd_pa.0 + initrd_size + 0x3000 <= u64::MAX,
        initrd_size + 0x4000 <= usize::MAX,
    ensures
        final(pt).wf(),
        final(store).wf(),
        final(pmem).wf(),
        (final(pt).entries@, final(store).addrs@, final(store).entries@, final(pmem).regions@, r) == kernel_vm_run(
            (old(pt).entries@, old(store).addrs@, old(store).entries@, old(pmem).regions@, Ok(())),
            regions@, hhdm, sec, initrd_va, initrd_size, initrd_pa.0),
{
    proof {
        lemma_pow2_4096();
        lemma_kernel_flags();
    }
    match map_ram(pt, store, pmem, regions, hhdm) {
        Err(e) => return Err(e),
        Ok(()) => {},
    }
    match update_section(pt, store, sec.text_start, sec.text_end, READ | EXECUTE | VALID) {
        Err(e) => return Err(e),
        Ok(()) => {},
    }
    match update_section(pt, store, sec.rodata_start, sec.rodata_end, READ | VALID) {
        Err(e) => return Err(e),
        Ok(()) => {},
    }
    match update_section(pt, store, sec.data_start, sec.bss_end, READ | WRITE | VALID) {
        Err(e) => return Err(e),
        Ok(()) => {},
    }
    let start = VirtAddr::from(initrd_va).align_down(4096);
    let end = VirtAddr::from(initrd_va + initrd_size).align_up(4096);
    let size: u64 = end.0 - start.0;
    match pt.map_with_alloc(store, pmem, start, initrd_pa, size as usize, Perms(READ | WRITE | VALID)) {
        Err(e) => return Err(e),
        Ok(()) => {},
    }
    proof {
        lemma_align_down_pow2(start.0, 4096);
        lemma_align_up_pow2(end.0, 4096);
    }
    update_section(pt, store, start.0, end.0, READ | VALID)
}

} // verus!
