//! The root task: its capabilities, its thread, its boot information, and its
//! address space (trap frame, control block, boot information and ramdisk
//! mappings, then its stack and its heap, each page of those backed by a fresh
//! frame).
use vstd::prelude::*;
use crate::error::Error;
use crate::mem::addr::{PhysAddr, VirtAddr, spec_align_down};
use crate::mem::pagetable::{PageTable, TableStore};
use crate::mem::pmem::{PmemManager, RegionState, alloc_page, alloc_spec, first_fit, region_fits, lemma_first_fit,
    alloc_frame_cap, alloc_cnode_cap, alloc_tcb_cap, alloc_vspace_cap};
use crate::mem::pte::{Pte, READ, WRITE, USER, VALID};
use crate::mem::table_alloc::map_alloc_run;
use crate::mem::untyped::UntypedRegion;
use crate::mem::physmem::{PhysMem, in_frames, lemma_in_frames_push, lemma_in_frames_concat};
use crate::mem::uvm::frames_below_top;
use crate::mem::{Perms, TRAPFRAME_VA, UTCB_VA};
use crate::proc::bootinfo::{BootInfo, PlatformType};
use crate::proc::asid::{Asid, AsidManager, next_asid_state, MAX_ASID};
use crate::proc::thread::{TCB, ThreadState};
use crate::cap::{CapType, Capability, Rights, RIGHTS_ALL, CNODE_PAGES, vspace_data};

verus! {

/// Pages of the root task's stack.
pub const STACK_PAGES: usize = 32;
/// Pages of the root task's heap.
pub const HEAP_PAGES: usize = 256;
/// The root task's priority.
pub const ROOT_TASK_PRIORITY: u8 = 253;

/// Where the root task's boot information, ramdisk, stack (its top) and heap go.
#[derive(Clone, Copy, Debug)]
pub struct RootLayout {
    pub bootinfo_va: u64,
    pub initrd_va: u64,
    pub stack_base: u64,
    pub heap_va: u64,
}

/// The page tables, the table pages and the allocator, with how the work went.
pub type VsState = (Seq<Pte>, Seq<PhysAddr>, Seq<Pte>, Seq<RegionState>, Result<(), Error>);

/// Pages the boot information takes.
pub open spec fn bootinfo_pages() -> int {
    ((vstd::layout::size_of::<BootInfo>() + 4095) / 4096) as int
}

/// Maps `size` bytes at `va` to the frames from `pa` with `flags`, unless an
/// earlier step failed.
pub open spec fn then_map(s: VsState, va: int, size: int, pa: int, flags: u64) -> VsState {
    if s.4 is Err {
        s
    } else {
        map_alloc_run(s.0, s.1, s.2, s.3, va, va + size, spec_align_down(pa as u64, 4096) as int, flags | VALID)
    }
}

/// Pages `k` to `n - 1` of a run, each backed by a fresh frame and mapped
/// with `flags`: page `j` lies at `first + j` pages, or, going `down`, at
/// `first - (j + 1)` pages. No free frame stops with `OutOfMemory`.
pub open spec fn fresh_run(s: VsState, first: int, down: bool, k: nat, n: nat, flags: u64) -> VsState
    decreases n - k,
{
    if k >= n || s.4 is Err {
        s
    } else {
        match alloc_spec(s.3, 4096, 4096) {
            None => (s.0, s.1, s.2, s.3, Err(Error::OutOfMemory)),
            Some((pa, regs)) => {
                let va = if down { first - (k + 1) * 4096 } else { first + k * 4096 };
                let (r2, a2, e2, g2, res) = map_alloc_run(s.0, s.1, s.2, regs, va, va + 4096,
                    spec_align_down(pa, 4096) as int, flags | VALID);
                if res is Err {
                    (r2, a2, e2, g2, res)
                } else {
                    fresh_run((r2, a2, e2, g2, Ok(())), first, down, k + 1, n, flags)
                }
            },
        }
    }
}

/// The frames that `fresh_run` takes from the allocator, in order (the last
/// one also when mapping its page fails).
#[verifier::opaque]
pub open spec fn fresh_frames(s: VsState, first: int, down: bool, k: nat, n: nat, flags: u64) -> Seq<u64>
    decreases n - k,
{
    if k >= n || s.4 is Err {
        Seq::empty()
    } else {
        match alloc_spec(s.3, 4096, 4096) {
            None => Seq::empty(),
            Some((pa, regs)) => {
                let va = if down { first - (k + 1) * 4096 } else { first + k * 4096 };
                let (r2, a2, e2, g2, res) = map_alloc_run(s.0, s.1, s.2, regs, va, va + 4096,
                    spec_align_down(pa, 4096) as int, flags | VALID);
                if res is Err {
                    seq![pa]
                } else {
                    seq![pa] + fresh_frames((r2, a2, e2, g2, Ok(())), first, down, k + 1, n, flags)
                }
            },
        }
    }
}

/// The root task's mappings, in order: the trap frame (kernel read-write), the
/// control block (user read-write), the boot information and the ramdisk (user
/// read-only), then the stack pages downwards from its top and the heap pages
/// upwards, user read-write.
pub open spec fn root_vspace_run(
    s0: VsState,
    tf: u64,
    utcb: u64,
    bootinfo: u64,
    initrd: Option<(PhysAddr, usize)>,
    l: RootLayout,
) -> VsState {
    let s1 = then_map(s0, TRAPFRAME_VA as int, 4096, tf as int, READ | WRITE);
    let s2 = then_map(s1, UTCB_VA as int, 4096, utcb as int, USER | READ | WRITE);
    let s3 = then_map(s2, l.bootinfo_va as int, bootinfo_pages() * 4096, bootinfo as int, USER | READ);
    let s4 = match initrd {
        Some((start, size)) => then_map(s3, l.initrd_va as int, size as int, start.0 as int, USER | READ),
        None => s3,
    };
    let s5 = fresh_run(s4, l.stack_base as int, true, 0, STACK_PAGES as nat, USER | READ | WRITE);
    fresh_run(s5, l.heap_va as int, false, 0, HEAP_PAGES as nat, USER | READ | WRITE)
}

/// The frames that the root task's stack and heap pages take, in order.
pub open spec fn root_fresh_frames(
    s0: VsState,
    tf: u64,
    utcb: u64,
    bootinfo: u64,
    initrd: Option<(PhysAddr, usize)>,
    l: RootLayout,
) -> Seq<u64> {
    let s1 = then_map(s0, TRAPFRAME_VA as int, 4096, tf as int, READ | WRITE);
    let s2 = then_map(s1, UTCB_VA as int, 4096, utcb as int, USER | READ | WRITE);
    let s3 = then_map(s2, l.bootinfo_va as int, bootinfo_pages() * 4096, bootinfo as int, USER | READ);
    let s4 = match initrd {
        Some((start, size)) => then_map(s3, l.initrd_va as int, size as int, start.0 as int, USER | READ),
        None => s3,
    };
    stack_heap_frames(s4, l)
}

/// The frames that the stack pages and then the heap pages take, from state `s4`.
pub open spec fn stack_heap_frames(s4: VsState, l: RootLayout) -> Seq<u64> {
    if s4.4 is Err {
        Seq::empty()
    } else {
        let s5 = fresh_run(s4, l.stack_base as int, true, 0, STACK_PAGES as nat, USER | READ | WRITE);
        fresh_frames(s4, l.stack_base as int, true, 0, STACK_PAGES as nat, USER | READ | WRITE) + if s5.4 is Err {
            Seq::empty()
        } else {
            fresh_frames(s5, l.heap_va as int, false, 0, HEAP_PAGES as nat, USER | READ | WRITE)
        }
    }
}

/// The layout leaves room for every mapping below the top of the address space.
pub open spec fn layout_fits(l: RootLayout, initrd: Option<(PhysAddr, usize)>) -> bool {
    &&& l.bootinfo_va + bootinfo_pages() * 4096 + 0x4000_0000 <= u64::MAX
    &&& STACK_PAGES * 4096 <= l.stack_base
    &&& l.stack_base + 0x4000_1000 <= u64::MAX
    &&& l.heap_va + HEAP_PAGES * 4096 + 0x4000_1000 <= u64::MAX
    &&& initrd matches Some((start, size)) ==> l.initrd_va + size + 0x4000_0000 <= u64::MAX
        && start.0 + size + 4096 <= u64::MAX
}

impl RootLayout {
    /// Whether the layout leaves room for every mapping (see `layout_fits`).
    pub fn fits(&self, initrd: Option<(PhysAddr, usize)>) -> (r: bool)
        ensures
            r == layout_fits(*self, initrd),
    {
        vstd::layout::layout_for_type_is_valid::<BootInfo>();
        let bi_size: u64 = core::mem::size_of::<BootInfo>() as u64;
        let top: u64 = u64::MAX;
        if bi_size > top - 4095 {
            return false;
        }
        let bi_bytes: u64 = (bi_size + 4095) / 4096 * 4096;
        assert(bi_bytes == bootinfo_pages() * 4096);
        if self.bootinfo_va > top - 0x4000_0000 || bi_bytes > top - 0x4000_0000 - self.bootinfo_va {
            return false;
        }
        if self.stack_base < (STACK_PAGES as u64) * 4096 || self.stack_base > top - 0x4000_1000 {
            return false;
        }
        if self.heap_va > top - 0x4000_1000 - (HEAP_PAGES as u64) * 4096 {
            return false;
        }
        match initrd {
            Some((start, size)) => {
                let sz: u64 = size as u64;
                self.initrd_va <= top - 0x4000_0000 && sz <= top - 0x4000_0000 - self.initrd_va
                    && start.0 <= top - 4096 && sz <= top - 4096 - start.0
            },
            None => true,
        }
    }
}

fn map_fixed(
    pt: &mut PageTable,
    store: &mut TableStore,
    pmem: &mut PmemManager,
    va: u64,
    pa: PhysAddr,
    size: usize,
    flags: u64,
) -> (r: Result<(), Error>)
    requires
        old(pt).wf(),
        old(store).wf(),
        old(pmem).wf(),
        frames_below_top(old(pmem).regions@),
        va + size + 0x4000_0000 <= u64::MAX,
        pa.0 + size + 4096 <= u64::MAX,
    ensures
        final(pt).wf(),
        final(store).wf(),
        final(pmem).wf(),
        frames_below_top(final(pmem).regions@),
        (final(pt).entries@, final(store).addrs@, final(store).entries@, final(pmem).regions@, r) == then_map(
            (old(pt).entries@, old(store).addrs@, old(store).entries@, old(pmem).regions@, Ok(())),
            va as int, size as int, pa.0 as int, flags),
{
    pt.map_with_alloc(store, pmem, VirtAddr::from(va), pa, size, Perms(flags))
}

/// Backs `n` pages with fresh frames and maps them with `flags` (see `fresh_run`).
#[verifier::rlimit(60)]
#[verifier::spinoff_prover]
fn map_fresh_pages(
    pt: &mut PageTable,
    store: &mut TableStore,
    pmem: &mut PmemManager,
    mem: &mut PhysMem,
    first: u64,
    down: bool,
    n: usize,
    flags: u64,
) -> (r: Result<(), Error>)
    requires
        old(pt).wf(),
        old(store).wf(),
        old(pmem).wf(),
        frames_below_top(old(pmem).regions@),
        down ==> n * 4096 <= first && first + 0x4000_1000 <= u64::MAX,
        !down ==> first + n * 4096 + 0x4000_1000 <= u64::MAX,
        old(mem).wf(),
        (old(mem).frames@.len() + n + 1) * 4096 <= usize::MAX,
    ensures
        final(pt).wf(),
        final(store).wf(),
        final(pmem).wf(),
        frames_below_top(final(pmem).regions@),
        final(mem).wf(),
        final(mem).frames@.len() <= old(mem).frames@.len() + n,
        forall|a: int| #[trigger] final(mem).byte(a) == if in_frames(fresh_frames(
            (old(pt).entries@, old(store).addrs@, old(store).entries@, old(pmem).regions@, Ok(())),
            first as int, down, 0, n as nat, flags), a) { 0 } else { old(mem).byte(a) },
        (final(pt).entries@, final(store).addrs@, final(store).entries@, final(pmem).regions@, r) == fresh_run(
            (old(pt).entries@, old(store).addrs@, old(store).entries@, old(pmem).regions@, Ok(())),
            first as int, down, 0, n as nat, flags),
{
    let mut k: usize = 0;
    let ghost done: Seq<u64> = Seq::empty();
    let ghost s_init = (old(pt).entries@, old(store).addrs@, old(store).entries@, old(pmem).regions@, Ok::<(), Error>(()));
    while k < n
        invariant
            pt.wf(),
            store.wf(),
            pmem.wf(),
            frames_below_top(pmem.regions@),
            k <= n,
            mem.wf(),
            done.len() == k,
            mem.frames@.len() <= old(mem).frames@.len() + k,
            (old(mem).frames@.len() + n + 1) * 4096 <= usize::MAX,
            s_init == (old(pt).entries@, old(store).addrs@, old(store).entries@, old(pmem).regions@, Ok::<(), Error>(())),
            fresh_frames(s_init, first as int, down, 0, n as nat, flags)
                == done + fresh_frames((pt.entries@, store.addrs@, store.entries@, pmem.regions@, Ok(())),
                first as int, down, k as nat, n as nat, flags),
            forall|a: int| #[trigger] mem.byte(a) == if in_frames(done, a) { 0 } else { old(mem).byte(a) },
            down ==> n * 4096 <= first && first + 0x4000_1000 <= u64::MAX,
            !down ==> first + n * 4096 + 0x4000_1000 <= u64::MAX,
            fresh_run((old(pt).entries@, old(store).addrs@, old(store).entries@, old(pmem).regions@, Ok(())),
                first as int, down, 0, n as nat, flags)
                == fresh_run((pt.entries@, store.addrs@, store.entries@, pmem.regions@, Ok(())),
                first as int, down, k as nat, n as nat, flags),
        decreases n - k,
    {
        proof {
            lemma_first_fit(pmem.regions@, 4096, 4096);
        }
        let ghost regs = pmem.regions@;
        let ghost s = (pt.entries@, store.addrs@, store.entries@, regs, Ok::<(), Error>(()));
        let ghost before_zero = *mem;
        let pa = match alloc_page(pmem, mem) {
            Some(p) => p,
            None => {
                assert(alloc_spec(regs, 4096, 4096).is_none());
                assert(fresh_run(s, first as int, down, k as nat, n as nat, flags)
                    == (s.0, s.1, s.2, s.3, Err::<(), Error>(Error::OutOfMemory)));
                assert(fresh_frames(s, first as int, down, k as nat, n as nat, flags) =~= Seq::<u64>::empty()) by {
                    reveal(fresh_frames);
                }
                assert(done + Seq::<u64>::empty() =~= done);
                return Err(Error::OutOfMemory);
            },
        };
        proof {
            let i = first_fit(regs, 4096, 4096).unwrap();
            crate::mem::uvm::lemma_pow2_4096();
            crate::mem::addr::lemma_align_up_pow2(regs[i].current.0, 4096);
        }
        let ghost done_next = done.push(pa.0);
        proof {
            assert forall|a: int| #[trigger] mem.byte(a) == if in_frames(done_next, a) { 0 } else { old(mem).byte(a) } by {
                assert(before_zero.byte(a) == if in_frames(done, a) { 0 } else { old(mem).byte(a) });
                lemma_in_frames_push(done, pa.0, a);
            }
        }
        proof {
            let i = first_fit(regs, 4096, 4096).unwrap();
            assert(region_fits(regs[i], 4096, 4096));
            assert(regs[i].current.0 <= regs[i].end.0);
            assert(frames_below_top(pmem.regions@)) by {
                assert forall|j: int| 0 <= j < pmem.regions@.len() implies #[trigger] pmem.regions@[j].end.0 + 8192 <= u64::MAX by {
                    assert(pmem.regions@[j].end == regs[j].end);
                }
            }
            assert((k + 1) * 4096 <= n * 4096) by (nonlinear_arith)
                requires
                    k < n,
            ;
        }
        let kk: u64 = k as u64;
        let va: u64 = if down { first - (kk + 1) * 4096 } else { first + kk * 4096 };
        let ghost regs1 = pmem.regions@;
        assert(alloc_spec(regs, 4096, 4096) == Some((pa.0, regs1)));
        assert(va as int == if down { first - (k + 1) * 4096 } else { first + k * 4096 });
        let res = pt.map_with_alloc(store, pmem, VirtAddr::from(va), pa, 4096, Perms(flags));
        proof {
            let next = (pt.entries@, store.addrs@, store.entries@, pmem.regions@, Ok::<(), Error>(()));
            assert(fresh_frames(s, first as int, down, k as nat, n as nat, flags) == if res is Err {
                seq![pa.0]
            } else {
                seq![pa.0] + fresh_frames(next, first as int, down, (k + 1) as nat, n as nat, flags)
            }) by {
                reveal(fresh_frames);
            }
        }
        match res {
            Err(e) => {
                proof {
                    assert(done + seq![pa.0] =~= done_next);
                }
                return Err(e);
            },
            Ok(()) => {},
        }
        proof {
            let rest = fresh_frames((pt.entries@, store.addrs@, store.entries@, pmem.regions@, Ok(())),
                first as int, down, (k + 1) as nat, n as nat, flags);
            assert(done + (seq![pa.0] + rest) =~= done_next + rest);
            done = done_next;
        }
        k = k + 1;
    }
    proof {
        assert(fresh_frames((pt.entries@, store.addrs@, store.entries@, pmem.regions@, Ok::<(), Error>(())),
            first as int, down, k as nat, n as nat, flags) =~= Seq::<u64>::empty()) by {
            reveal(fresh_frames);
        }
        assert(done + Seq::<u64>::empty() =~= done);
    }
    Ok(())
}

/// Backs the root task's stack pages (downwards from the top of the stack)
/// and then its heap pages with fresh frames, cleared, and maps them user
/// read-write (see `fresh_run`).
#[verifier::rlimit(60)]
#[verifier::spinoff_prover]
fn map_stack_heap(
    pt: &mut PageTable,
    store: &mut TableStore,
    pmem: &mut PmemManager,
    mem: &mut PhysMem,
    layout: RootLayout,
) -> (r: Result<(), Error>)
    requires
        old(pt).wf(),
        old(store).wf(),
        old(pmem).wf(),
        frames_below_top(old(pmem).regions@),
        STACK_PAGES * 4096 <= layout.stack_base,
        layout.stack_base + 0x4000_1000 <= u64::MAX,
        layout.heap_va + HEAP_PAGES * 4096 + 0x4000_1000 <= u64::MAX,
        old(mem).wf(),
        (old(mem).frames@.len() + STACK_PAGES + HEAP_PAGES + 1) * 4096 <= usize::MAX,
    ensures
        final(pt).wf(),
        final(store).wf(),
        final(pmem).wf(),
        final(mem).wf(),
        ({
            let s4 = (old(pt).entries@, old(store).addrs@, old(store).entries@, old(pmem).regions@, Ok::<(), Error>(()));
            let s5 = fresh_run(s4, layout.stack_base as int, true, 0, STACK_PAGES as nat, USER | READ | WRITE);
            &&& (final(pt).entries@, final(store).addrs@, final(store).entries@, final(pmem).regions@, r)
                == fresh_run(s5, layout.heap_va as int, false, 0, HEAP_PAGES as nat, USER | READ | WRITE)
            &&& forall|a: int| #[trigger] final(mem).byte(a)
                == if in_frames(stack_heap_frames(s4, layout), a) { 0 } else { old(mem).byte(a) }
        }),
{
    let ghost s4 = (pt.entries@, store.addrs@, store.entries@, pmem.regions@, Ok::<(), Error>(()));
    let ghost m4 = *mem;
    let stack = map_fresh_pages(pt, store, pmem, mem, layout.stack_base, true, STACK_PAGES, USER | READ | WRITE);
    assert((pt.entries@, store.addrs@, store.entries@, pmem.regions@, stack)
        == fresh_run(s4, layout.stack_base as int, true, 0, STACK_PAGES as nat, USER | READ | WRITE));
    let ghost stack_frames = fresh_frames(s4, layout.stack_base as int, true, 0, STACK_PAGES as nat, USER | READ | WRITE);
    let ghost m5 = *mem;
    match stack {
        Err(e) => {
            proof {
                assert(stack_frames + Seq::<u64>::empty() =~= stack_frames);
            }
            return Err(e);
        },
        Ok(u) => {
            assert(u == ());
            assert(stack == Ok::<(), Error>(()));
        },
    }
    let ghost s5 = (pt.entries@, store.addrs@, store.entries@, pmem.regions@, Ok::<(), Error>(()));
    let r = map_fresh_pages(pt, store, pmem, mem, layout.heap_va, false, HEAP_PAGES, USER | READ | WRITE);
    proof {
        let heap_frames = fresh_frames(s5, layout.heap_va as int, false, 0, HEAP_PAGES as nat, USER | READ | WRITE);
        let all = stack_frames + heap_frames;
        assert(fresh_run(s4, layout.stack_base as int, true, 0, STACK_PAGES as nat, USER | READ | WRITE) == s5);
        assert(stack_heap_frames(s4, layout) == all);
        assert forall|a: int| #[trigger] mem.byte(a) == if in_frames(stack_heap_frames(s4, layout), a) { 0 } else { m4.byte(a) } by {
            lemma_in_frames_concat(stack_frames, heap_frames, a);
            assert(m5.byte(a) == if in_frames(stack_frames, a) { 0 } else { m4.byte(a) });
        }
    }
    r
}

/// Sets up the root task's address space (see `root_vspace_run`): `tf`, `utcb`
/// and `bootinfo` are the frames of its trap frame, control block and boot
/// information, `initrd` the physical start and size of the ramdisk. Stops at
/// the first mapping that fails, with its error; no free frame for a stack or
/// heap page gives `OutOfMemory`.
#[verifier::rlimit(60)]
#[verifier::spinoff_prover]
pub fn init_vspace(
    pt: &mut PageTable,
    store: &mut TableStore,
    pmem: &mut PmemManager,
    mem: &mut PhysMem,
    tf: PhysAddr,
    utcb: PhysAddr,
    bootinfo: PhysAddr,
    initrd: Option<(PhysAddr, usize)>,
    layout: RootLayout,
) -> (r: Result<(), Error>)
    requires
        old(pt).wf(),
        old(store).wf(),
        old(pmem).wf(),
        frames_below_top(old(pmem).regions@),
        layout_fits(layout, initrd),
        tf.0 + 8192 <= u64::MAX,
        utcb.0 + 8192 <= u64::MAX,
        bootinfo.0 + bootinfo_pages() * 4096 + 4096 <= u64::MAX,
        old(mem).wf(),
        (old(mem).frames@.len() + STACK_PAGES + HEAP_PAGES + 1) * 4096 <= usize::MAX,
    ensures
        final(pt).wf(),
        final(store).wf(),
        final(pmem).wf(),
        final(mem).wf(),
        (final(pt).entries@, final(store).addrs@, final(store).entries@, final(pmem).regions@, r) == root_vspace_run(
            (old(pt).entries@, old(store).addrs@, old(store).entries@, old(pmem).regions@, Ok(())),
            tf.0, utcb.0, bootinfo.0, initrd, layout),
        forall|a: int| #[trigger] final(mem).byte(a) == if in_frames(root_fresh_frames(
            (old(pt).entries@, old(store).addrs@, old(store).entries@, old(pmem).regions@, Ok(())),
            tf.0, utcb.0, bootinfo.0, initrd, layout), a) { 0 } else { old(mem).byte(a) },
{
    vstd::layout::layout_for_type_is_valid::<BootInfo>();
    let bi_size: usize = core::mem::size_of::<BootInfo>();
    assert(bi_size + 4095 <= usize::MAX) by {
        assert(bootinfo_pages() * 4096 + 4096 <= u64::MAX);
    }
    let bi_pages: usize = (bi_size + 4095) / 4096;
    map_fixed(pt, store, pmem, TRAPFRAME_VA, tf, 4096, READ | WRITE)?;
    map_fixed(pt, store, pmem, UTCB_VA, utcb, 4096, USER | READ | WRITE)?;
    map_fixed(pt, store, pmem, layout.bootinfo_va, bootinfo, bi_pages * 4096, USER | READ)?;
    match initrd {
        Some((start, size)) => {
            map_fixed(pt, store, pmem, layout.initrd_va, start, size, USER | READ)?;
        },
        None => {},
    }
    map_stack_heap(pt, store, pmem, mem, layout)
}


/// The capabilities the root task starts with.
#[derive(Clone, Copy, Debug)]
pub struct RootCaps {
    pub vspace: Capability,
    pub cspace: Capability,
    pub tcb: Capability,
    pub utcb: Capability,
    pub tf: Capability,
    pub kstack: Capability,
    pub bootinfo: Capability,
    pub kernel: Capability,
    pub untyped_cspace: Capability,
    pub console: Capability,
    pub irq_control: Capability,
}

/// A capability of type `t` (with `data` and all rights) for memory taken
/// from `g` as the allocator takes it, and the regions after; none when no
/// region has room.
pub open spec fn cap_from(g: Seq<RegionState>, size: u64, align: u64, t: CapType, data: usize) -> Option<(Capability, Seq<RegionState>)> {
    match alloc_spec(g, size, align) {
        None => None,
        Some((a, g2)) => Some((Capability::spec_new(t, PhysAddr(a), data, Rights(RIGHTS_ALL)), g2)),
    }
}

/// A capability with all rights for a kernel service that has no memory.
pub open spec fn service_cap(t: CapType) -> Capability {
    Capability::spec_new(t, PhysAddr(0), 0, Rights(RIGHTS_ALL))
}

/// The root task's capabilities taken in order from the regions `g0` and the
/// ASID allocator state `(cur, generation)`: the address space's root table
/// (with the next ASID), the capability node, the thread control block, the
/// control-block, trap-frame, kernel-stack and boot-information pages, and the
/// node for untyped memory; the kernel, console and interrupt-control
/// capabilities need no memory. The first allocation that finds no room ends
/// with `OutOfMemory`, the memory taken before staying taken. Also gives the
/// regions and the ASID state after, and whether the ASID began a new
/// generation.
pub open spec fn root_caps_spec(g0: Seq<RegionState>, cur: u16, generation: u64)
    -> (Result<RootCaps, Error>, Seq<RegionState>, u16, u64, bool) {
    match alloc_spec(g0, 4096, 4096) {
        None => (Err(Error::OutOfMemory), g0, cur, generation, false),
        Some((pv, g1)) => {
            let (c, gen) = next_asid_state(cur, generation);
            let flush = (cur as int) >= MAX_ASID - 1;
            let vspace = Capability::spec_new(CapType::VSpace, PhysAddr(pv), vspace_data(Asid { id: c, generation: gen }), Rights(RIGHTS_ALL));
            match cap_from(g1, (CNODE_PAGES * 4096) as u64, 4096, CapType::CNode, 0) {
                None => (Err(Error::OutOfMemory), g1, c, gen, flush),
                Some((cspace, g2)) => match cap_from(g2, vstd::layout::size_of::<TCB>() as u64, vstd::layout::align_of::<TCB>() as u64, CapType::TCB, 0) {
                    None => (Err(Error::OutOfMemory), g2, c, gen, flush),
                    Some((tcb, g3)) => match cap_from(g3, 4096, 4096, CapType::Frame, 1) {
                        None => (Err(Error::OutOfMemory), g3, c, gen, flush),
                        Some((utcb, g4)) => match cap_from(g4, 4096, 4096, CapType::Frame, 1) {
                            None => (Err(Error::OutOfMemory), g4, c, gen, flush),
                            Some((tf, g5)) => match cap_from(g5, 4096, 4096, CapType::Frame, 1) {
                                None => (Err(Error::OutOfMemory), g5, c, gen, flush),
                                Some((kstack, g6)) => match cap_from(g6, 4096, 4096, CapType::Frame, 1) {
                                    None => (Err(Error::OutOfMemory), g6, c, gen, flush),
                                    Some((bootinfo, g7)) => match cap_from(g7, (CNODE_PAGES * 4096) as u64, 4096, CapType::CNode, 0) {
                                        None => (Err(Error::OutOfMemory), g7, c, gen, flush),
                                        Some((untyped_cspace, g8)) => (Ok(RootCaps {
                                            vspace,
                                            cspace,
                                            tcb,
                                            utcb,
                                            tf,
                                            kstack,
                                            bootinfo,
                                            kernel: service_cap(CapType::Kernel),
                                            untyped_cspace,
                                            console: service_cap(CapType::Console),
                                            irq_control: service_cap(CapType::IrqHandler),
                                        }), g8, c, gen, flush),
                                    },
                                },
                            },
                        },
                    },
                },
            }
        },
    }
}

/// Every region ends far enough below the top of memory for any of the root
/// task's allocations.
pub open spec fn room_for_root(g: Seq<RegionState>) -> bool {
    forall|i: int| 0 <= i < g.len() ==> #[trigger] g[i].end.0 + 0x10000
        + vstd::layout::size_of::<TCB>() + vstd::layout::align_of::<TCB>() <= u64::MAX
}

proof fn lemma_alloc_keeps_room(g: Seq<RegionState>, size: u64, align: u64)
    requires
        room_for_root(g),
    ensures
        alloc_spec(g, size, align) matches Some((a, g2)) ==> room_for_root(g2) && g2.len() == g.len(),
{
    lemma_first_fit(g, size, align);
    if let Some((a, g2)) = alloc_spec(g, size, align) {
        assert forall|i: int| 0 <= i < g2.len() implies #[trigger] g2[i].end.0 + 0x10000
            + vstd::layout::size_of::<TCB>() + vstd::layout::align_of::<TCB>() <= u64::MAX by {
            assert(g2[i].end == g[i].end);
        }
    }
}

/// Allocates the root task's capabilities (see `root_caps_spec`); the second
/// result says whether the address space's ASID began a new generation, so
/// that the caller flushes the TLB.
#[verifier::rlimit(40)]
#[verifier::spinoff_prover]
pub fn alloc_root_caps(pmem: &mut PmemManager, asids: &mut AsidManager) -> (r: (Result<RootCaps, Error>, bool))
    requires
        old(pmem).wf(),
        old(asids).generation < u64::MAX,
        room_for_root(old(pmem).regions@),
    ensures
        final(pmem).wf(),
        (r.0, final(pmem).regions@, final(asids).current_asid, final(asids).generation, r.1)
            == root_caps_spec(old(pmem).regions@, old(asids).current_asid, old(asids).generation),
{
    vstd::layout::layout_for_type_is_valid::<TCB>();
    let ghost g0 = pmem.regions@;
    proof {
        lemma_alloc_keeps_room(g0, 4096, 4096);
    }
    let (v, flush) = alloc_vspace_cap(pmem, asids);
    let vspace = match v {
        None => return (Err(Error::OutOfMemory), flush),
        Some(c) => c,
    };
    let ghost g1 = pmem.regions@;
    proof {
        lemma_alloc_keeps_room(g1, (CNODE_PAGES * 4096) as u64, 4096);
    }
    let cspace = match alloc_cnode_cap(pmem) {
        None => return (Err(Error::OutOfMemory), flush),
        Some(c) => c,
    };
    let ghost g2 = pmem.regions@;
    proof {
        lemma_alloc_keeps_room(g2, vstd::layout::size_of::<TCB>() as u64, vstd::layout::align_of::<TCB>() as u64);
    }
    let tcb = match alloc_tcb_cap(pmem) {
        None => return (Err(Error::OutOfMemory), flush),
        Some(c) => c,
    };
    let ghost g3 = pmem.regions@;
    proof {
        lemma_alloc_keeps_room(g3, 4096, 4096);
    }
    let utcb = match alloc_frame_cap(pmem, 1) {
        None => return (Err(Error::OutOfMemory), flush),
        Some(c) => c,
    };
    let ghost g4 = pmem.regions@;
    proof {
        lemma_alloc_keeps_room(g4, 4096, 4096);
    }
    let tf = match alloc_frame_cap(pmem, 1) {
        None => return (Err(Error::OutOfMemory), flush),
        Some(c) => c,
    };
    let ghost g5 = pmem.regions@;
    proof {
        lemma_alloc_keeps_room(g5, 4096, 4096);
    }
    let kstack = match alloc_frame_cap(pmem, 1) {
        None => return (Err(Error::OutOfMemory), flush),
        Some(c) => c,
    };
    let ghost g6 = pmem.regions@;
    proof {
        lemma_alloc_keeps_room(g6, 4096, 4096);
    }
    let bootinfo = match alloc_frame_cap(pmem, 1) {
        None => return (Err(Error::OutOfMemory), flush),
        Some(c) => c,
    };
    let ghost g7 = pmem.regions@;
    proof {
        lemma_alloc_keeps_room(g7, (CNODE_PAGES * 4096) as u64, 4096);
    }
    let untyped_cspace = match alloc_cnode_cap(pmem) {
        None => return (Err(Error::OutOfMemory), flush),
        Some(c) => c,
    };
    let caps = RootCaps {
        vspace,
        cspace,
        tcb,
        utcb,
        tf,
        kstack,
        bootinfo,
        kernel: Capability::create(CapType::Kernel, PhysAddr::from(0), 0, Rights(RIGHTS_ALL)),
        untyped_cspace,
        console: Capability::create(CapType::Console, PhysAddr::from(0), 0, Rights(RIGHTS_ALL)),
        irq_control: Capability::create(CapType::IrqHandler, PhysAddr::from(0), 0, Rights(RIGHTS_ALL)),
    };
    (Ok(caps), flush)
}


/// Where the firmware's platform description lies, when there is one: the
/// ACPI root pointer, else the device tree blob with its size.
#[derive(Clone, Copy, Debug)]
pub struct PlatformTables {
    pub rsdp: Option<usize>,
    pub dtb: Option<(usize, usize)>,
}

/// Fills in the boot information: the ramdisk's physical start and size
/// (when there is a ramdisk); the platform description, ACPI first (its
/// root pointer with a page's size), else the device tree; as much of the
/// kernel command line as the page holds; and the kernel's version, build
/// time and commit. Everything else is left as it was.
pub fn init_bootinfo(
    bootinfo: &mut BootInfo,
    initrd: Option<(usize, usize)>,
    tables: PlatformTables,
    cmdline: Option<&[u8]>,
    version: u32,
    build: [u8; 64],
    git_hash: [u8; 8],
) -> (r: Result<(), Error>)
    ensures
        r == Ok::<(), Error>(()),
        (final(bootinfo).initrd_paddr, final(bootinfo).initrd_size) == match initrd {
            Some((pa, size)) => (pa, size),
            None => (old(bootinfo).initrd_paddr, old(bootinfo).initrd_size),
        },
        (final(bootinfo).platform_type, final(bootinfo).addr, final(bootinfo).size) == match (tables.rsdp, tables.dtb) {
            (Some(pa), _) => (PlatformType::ACPI, pa, 0x1000usize),
            (None, Some((pa, size))) => (PlatformType::DTB, pa, size),
            (None, None) => (old(bootinfo).platform_type, old(bootinfo).addr, old(bootinfo).size),
        },
        final(bootinfo).cmdline@ == match cmdline {
            Some(c) => if c@.len() < 256 {
                c@ + old(bootinfo).cmdline@.subrange(c@.len() as int, 256)
            } else {
                c@.subrange(0, 256)
            },
            None => old(bootinfo).cmdline@,
        },
        final(bootinfo).version == version,
        final(bootinfo).build == build,
        final(bootinfo).git_hash == git_hash,
        final(bootinfo).untyped_count == old(bootinfo).untyped_count,
        final(bootinfo).untyped_list == old(bootinfo).untyped_list,
{
    match initrd {
        Some((pa, size)) => {
            bootinfo.initrd_paddr = pa;
            bootinfo.initrd_size = size;
        },
        None => {},
    }
    match tables.rsdp {
        Some(pa) => {
            bootinfo.platform_type = PlatformType::ACPI;
            bootinfo.addr = pa;
            bootinfo.size = 0x1000;
        },
        None => match tables.dtb {
            Some((pa, size)) => {
                bootinfo.platform_type = PlatformType::DTB;
                bootinfo.addr = pa;
                bootinfo.size = size;
            },
            None => {},
        },
    }
    match cmdline {
        Some(c) => {
            let len: usize = if c.len() < 256 { c.len() } else { 256 };
            let mut line: [u8; 256] = bootinfo.cmdline;
            let ghost before = line@;
            let mut i: usize = 0;
            while i < len
                invariant
                    len <= 256,
                    len <= c@.len(),
                    len == if c@.len() < 256 { c@.len() } else { 256 },
                    i <= len,
                    line@.len() == 256,
                    before.len() == 256,
                    forall|k: int| 0 <= k < i ==> line@[k] == c@[k],
                    forall|k: int| i <= k < 256 ==> line@[k] == before[k],
                decreases len - i,
            {
                line[i] = c[i];
                i = i + 1;
            }
            proof {
                if c@.len() < 256 {
                    assert(line@ =~= c@ + before.subrange(c@.len() as int, 256));
                } else {
                    assert(line@ =~= c@.subrange(0, 256));
                }
            }
            bootinfo.cmdline = line;
        },
        None => {},
    }
    bootinfo.version = version;
    bootinfo.build = build;
    bootinfo.git_hash = git_hash;
    Ok(())
}


/// The root task's thread: a fresh control block given the root task's
/// capability space, address space, control block, trap frame and kernel
/// stack, the root task's priority, its control block and trap frame at their
/// fixed addresses, and ready to run.
pub fn root_tcb(caps: &RootCaps) -> (r: TCB)
    ensures
        r == (TCB {
            cspace_root: Some(caps.cspace),
            vspace_root: Some(caps.vspace),
            utcb_frame: Some(caps.utcb),
            trapframe: Some(caps.tf),
            kstack: Some(caps.kstack),
            base_priority: ROOT_TASK_PRIORITY,
            priority: ROOT_TASK_PRIORITY,
            utcb_va: UTCB_VA as usize,
            trapframe_va: TRAPFRAME_VA as usize,
            state: ThreadState::Ready,
            ..TCB::spec_new()
        }),
{
    let mut tcb = TCB::new();
    tcb.configure(&caps.cspace, &caps.vspace, &caps.utcb, &caps.tf, &caps.kstack);
    tcb.set_priority(ROOT_TASK_PRIORITY);
    tcb.set_address(UTCB_VA as usize, TRAPFRAME_VA as usize);
    tcb.state = ThreadState::Ready;
    tcb
}

/// How many of `n` untyped regions still fit the boot information's list of
/// four when `count` entries are taken.
pub open spec fn untyped_taken(count: int, n: int) -> int {
    if count >= 4 {
        0
    } else if n < 4 - count {
        n
    } else {
        4 - count
    }
}

/// Hands the untyped regions to the root task: one untyped capability with all
/// rights per region, in order, for the root task's untyped node; the regions
/// are also listed in the boot information, as many as its list has room for.
/// Nothing else of the boot information changes.
pub fn record_untyped(bootinfo: &mut BootInfo, regions: &Vec<UntypedRegion>) -> (r: Vec<Capability>)
    ensures
        r@.len() == regions@.len(),
        forall|i: int| 0 <= i < regions@.len() ==> r@[i] == Capability::spec_untyped(#[trigger] regions@[i], Rights(RIGHTS_ALL)),
        final(bootinfo).untyped_count == old(bootinfo).untyped_count + untyped_taken(old(bootinfo).untyped_count as int, regions@.len() as int),
        forall|j: int| 0 <= j < 4 ==> #[trigger] final(bootinfo).untyped_list@[j] == if old(bootinfo).untyped_count <= j
            < old(bootinfo).untyped_count + untyped_taken(old(bootinfo).untyped_count as int, regions@.len() as int) {
            regions@[j - old(bootinfo).untyped_count]
        } else {
            old(bootinfo).untyped_list@[j]
        },
        final(bootinfo).initrd_paddr == old(bootinfo).initrd_paddr,
        final(bootinfo).initrd_size == old(bootinfo).initrd_size,
        final(bootinfo).platform_type == old(bootinfo).platform_type,
        final(bootinfo).addr == old(bootinfo).addr,
        final(bootinfo).size == old(bootinfo).size,
        final(bootinfo).version == old(bootinfo).version,
        final(bootinfo).build == old(bootinfo).build,
        final(bootinfo).git_hash == old(bootinfo).git_hash,
        final(bootinfo).cmdline == old(bootinfo).cmdline,
{
    let mut caps: Vec<Capability> = Vec::new();
    let mut i: usize = 0;
    while i < regions.len()
        invariant
            i <= regions@.len(),
            caps@.len() == i,
            forall|k: int| 0 <= k < i ==> caps@[k] == Capability::spec_untyped(#[trigger] regions@[k], Rights(RIGHTS_ALL)),
            bootinfo.untyped_count == old(bootinfo).untyped_count + untyped_taken(old(bootinfo).untyped_count as int, i as int),
            forall|j: int| 0 <= j < 4 ==> #[trigger] bootinfo.untyped_list@[j] == if old(bootinfo).untyped_count <= j
                < old(bootinfo).untyped_count + untyped_taken(old(bootinfo).untyped_count as int, i as int) {
                regions@[j - old(bootinfo).untyped_count]
            } else {
                old(bootinfo).untyped_list@[j]
            },
            bootinfo.initrd_paddr == old(bootinfo).initrd_paddr,
            bootinfo.initrd_size == old(bootinfo).initrd_size,
            bootinfo.platform_type == old(bootinfo).platform_type,
            bootinfo.addr == old(bootinfo).addr,
            bootinfo.size == old(bootinfo).size,
            bootinfo.version == old(bootinfo).version,
            bootinfo.build == old(bootinfo).build,
            bootinfo.git_hash == old(bootinfo).git_hash,
            bootinfo.cmdline == old(bootinfo).cmdline,
        decreases regions@.len() - i,
    {
        let region = regions[i];
        caps.push(Capability::create_untyped(&region, Rights(RIGHTS_ALL)));
        if bootinfo.untyped_count < 4 {
            let c = bootinfo.untyped_count;
            bootinfo.untyped_list[c] = region;
            bootinfo.untyped_count = c + 1;
        }
        i = i + 1;
    }
    caps
}

} // verus!
