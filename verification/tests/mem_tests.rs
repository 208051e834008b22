use glenda::error::Error;
use glenda::mem::addr::{PhysAddr, VirtAddr};
use glenda::mem::kstack::{KStackAllocator, KernelStack};
use glenda::mem::mmap::{MmapPool, MmapRegion, N_MMAP};
use glenda::mem::pagetable::{PageTable, PteLoc, TableStore};
use glenda::mem::pmem::{alloc_page, PmemManager};
use glenda::mem::pte::{Pte, PteFlags};
use glenda::mem::untyped::UntypedRegion;
use glenda::mem::physmem::{place_bytes, PhysMem};
use glenda::mem::uvm::{copy_spans, copyin, copyin_str, copyout, heap_grow, heap_ungrow, mmap, munmap, ustack_grow, CopyError, CopySpan, UvmError};
use glenda::mem::Perms;
use glenda::cap::{CapType, Capability};
use glenda::proc::asid::AsidManager;
use glenda::proc::roottask::{init_vspace, RootLayout, HEAP_PAGES, STACK_PAGES};
use glenda::mem::{TRAPFRAME_VA, UTCB_VA};
use glenda::mem::kvm::{init_kernel_vm, KernelSections};
use glenda::platform::{MemoryRegion, MemoryType};

fn pmem_with(start: u64, end: u64) -> PmemManager {
    let mut p = PmemManager::new();
    p.add_region(PhysAddr::from(start), PhysAddr::from(end));
    p
}

#[test]
fn align_down_and_up_round_to_the_page() {
    let a = VirtAddr::from(0x1234);
    assert_eq!(a.align_down(4096).as_usize(), 0x1000);
    assert_eq!(a.align_up(4096).as_usize(), 0x2000);
    assert_eq!(VirtAddr::from(0x2000).align_up(4096).as_usize(), 0x2000);
    assert!(VirtAddr::from(0x3000).is_aligned(4096));
    assert!(!VirtAddr::from(0x3001).is_aligned(4096));
    assert_eq!(PhysAddr::from(0x80001fff).align_down(4096).as_usize(), 0x80001000);
}

#[test]
fn pte_encodes_page_number_and_flags() {
    let p = Pte::from(PhysAddr::from(0x8020_0000), PteFlags::from(0xCF));
    assert_eq!(p.as_usize(), ((0x8020_0000u64 >> 12) << 10) | 0xCF);
    assert_eq!(p.pa().as_usize(), 0x8020_0000);
    assert!(p.is_valid());
    assert!(p.is_leaf());
    assert!(!p.is_table());
    let t = Pte::from(PhysAddr::from(0x8030_0000), PteFlags::from(1));
    assert!(t.is_valid() && !t.is_leaf() && t.is_table());
    assert!(!Pte::null().is_valid());
}

#[test]
fn pte_roundtrip_of_address_and_flags() {
    for pa in [0u64, 0x1000, 0x8000_0000, 0xFF_FFFF_F000] {
        for flags in [0u64, 1, 0x3F, 0x3FF] {
            let p = Pte::from(PhysAddr::from(pa), PteFlags::from(flags));
            assert_eq!(p.pa().as_usize(), pa);
            assert_eq!(p.get_flags().as_usize(), flags);
        }
    }
}

#[test]
fn map_fails_without_intermediate_tables() {
    let mut pt = PageTable::new();
    let mut store = TableStore::new();
    let r = pt.map(&mut store, VirtAddr::from(0x1000), PhysAddr::from(0x8000_0000), 4096, Perms(0x17));
    assert_eq!(r, Err(Error::MappingFailed));
}

#[test]
fn map_refuses_writable_and_executable() {
    let mut pt = PageTable::new();
    let mut store = TableStore::new();
    let r = pt.map(&mut store, VirtAddr::from(0x1000), PhysAddr::from(0x8000_0000), 4096, Perms(0xF));
    assert_eq!(r, Err(Error::InvalidArgs));
}

#[test]
fn map_with_alloc_then_walk_finds_the_frame() {
    let mut pt = PageTable::new();
    let mut store = TableStore::new();
    let mut pmem = pmem_with(0x8000_0000, 0x8010_0000);
    let r = pt.map_with_alloc(&mut store, &mut pmem, VirtAddr::from(0x40_0000), PhysAddr::from(0x9000_0000), 8192, Perms(0x17));
    assert_eq!(r, Ok(()));
    // two intermediate tables were allocated from the allocator
    assert_eq!(store.addrs.len(), 2);
    assert_eq!(store.addrs[0].as_usize(), 0x8000_0000);
    assert_eq!(store.addrs[1].as_usize(), 0x8000_1000);
    for (va, pa) in [(0x40_0000u64, 0x9000_0000u64), (0x40_1000, 0x9000_1000)] {
        let loc = pt.walk(&store, VirtAddr::from(va)).expect("mapped");
        let e = pt.read_entry(&store, loc);
        assert!(e.is_valid() && e.is_leaf());
        assert_eq!(e.pa().as_usize(), pa);
        assert_eq!(e.get_flags().as_usize(), 0x17);
    }
    assert!(pt.walk(&store, VirtAddr::from(0x40_2000)).is_some());
    let loc = pt.walk(&store, VirtAddr::from(0x40_2000)).unwrap();
    assert!(!pt.read_entry(&store, loc).is_valid());
}

#[test]
fn map_with_alloc_reports_out_of_memory() {
    let mut pt = PageTable::new();
    let mut store = TableStore::new();
    let mut pmem = PmemManager::new();
    let r = pt.map_with_alloc(&mut store, &mut pmem, VirtAddr::from(0x40_0000), PhysAddr::from(0x9000_0000), 4096, Perms(0x17));
    assert_eq!(r, Err(Error::OutOfMemory));
}

#[test]
fn map_then_unmap_then_walk() {
    let mut pt = PageTable::new();
    let mut store = TableStore::new();
    let mut pmem = pmem_with(0x8000_0000, 0x8010_0000);
    pt.map_with_alloc(&mut store, &mut pmem, VirtAddr::from(0x1000), PhysAddr::from(0x9000_0000), 4096, Perms(0x17)).unwrap();
    // remapping the same page to the same frame is accepted, to another frame refused
    assert_eq!(pt.map(&mut store, VirtAddr::from(0x1000), PhysAddr::from(0x9000_0000), 4096, Perms(0x13)), Ok(()));
    assert_eq!(pt.map(&mut store, VirtAddr::from(0x1000), PhysAddr::from(0x9100_0000), 4096, Perms(0x13)), Err(Error::AlreadyExists));
    assert_eq!(pt.unmap(&mut store, VirtAddr::from(0x1000), 4096), Ok(()));
    let loc = pt.walk(&store, VirtAddr::from(0x1000)).unwrap();
    assert_eq!(pt.read_entry(&store, loc).as_usize(), 0);
    assert!(matches!(loc, PteLoc::Table(_, 1)));
}

#[test]
fn update_changes_flags_of_mapped_pages_only() {
    let mut pt = PageTable::new();
    let mut store = TableStore::new();
    let mut pmem = pmem_with(0x8000_0000, 0x8010_0000);
    pt.map_with_alloc(&mut store, &mut pmem, VirtAddr::from(0x1000), PhysAddr::from(0x9000_0000), 4096, Perms(0x17)).unwrap();
    assert_eq!(pt.update(&mut store, VirtAddr::from(0x1000), 4096, Perms(0x13)), Ok(()));
    let loc = pt.walk(&store, VirtAddr::from(0x1000)).unwrap();
    let e = pt.read_entry(&store, loc);
    assert_eq!(e.get_flags().as_usize(), 0x13);
    assert_eq!(e.pa().as_usize(), 0x9000_0000);
    assert_eq!(pt.update(&mut store, VirtAddr::from(0x2000), 4096, Perms(0x13)), Err(Error::MappingFailed));
}

#[test]
fn allocator_hands_out_disjoint_aligned_blocks() {
    let mut pmem = pmem_with(0x8000_0010, 0x8000_5000);
    let a = pmem.alloc_addr(0x1000, 0x1000).unwrap();
    let b = pmem.alloc_addr(0x1000, 0x1000).unwrap();
    assert_eq!(a.as_usize(), 0x8000_1000);
    assert_eq!(b.as_usize(), 0x8000_2000);
    assert!(pmem.alloc_addr(0x4000, 0x1000).is_none());
    let mut mem = PhysMem::new();
    mem.write(0x8000_3008, 9);
    mem.write(0x8000_4000, 7);
    assert_eq!(alloc_page(&mut pmem, &mut mem).unwrap().as_usize(), 0x8000_3000);
    assert_eq!(mem.read(0x8000_3008), 0);
    assert_eq!(mem.read(0x8000_4000), 7);
}

#[test]
fn allocator_skips_regions_that_are_too_small() {
    let mut pmem = PmemManager::new();
    pmem.add_region(PhysAddr::from(0x1000), PhysAddr::from(0x2000));
    pmem.add_region(PhysAddr::from(0x10000), PhysAddr::from(0x20000));
    assert_eq!(pmem.alloc_addr(0x2000, 0x1000).unwrap().as_usize(), 0x10000);
    assert_eq!(pmem.alloc_addr(0x1000, 0x1000).unwrap().as_usize(), 0x1000);
}

#[test]
fn untyped_from_cap_decodes_pages_and_watermark() {
    let region = UntypedRegion { start: PhysAddr::from(0x8000_0000), pages: 16, watermark: 3 };
    let cap = Capability::create_untyped(&region, glenda::cap::Rights(0xFF));
    let back = UntypedRegion::from_cap(&cap).unwrap();
    assert_eq!(back, region);
    let frame = Capability::create(CapType::Frame, PhysAddr::from(0x1000), 1, glenda::cap::Rights(0xFF));
    assert!(UntypedRegion::from_cap(&frame).is_none());
}

#[test]
fn retype_carves_objects_in_order_and_refuses_overflow() {
    let mut region = UntypedRegion { start: PhysAddr::from(0x8000_0000), pages: 4, watermark: 0 };
    let mut asids = AsidManager::new();
    let mut mem = PhysMem::new();
    mem.write(0x8000_1ff8, 0xAB);
    mem.write(0x8000_4000, 0xCD);
    let (c1, f1) = region.retype(&mut asids, &mut mem, CapType::Frame, 2);
    assert_eq!(mem.read(0x8000_1ff8), 0);
    assert_eq!(mem.read(0x8000_4000), 0xCD);
    let c1 = c1.unwrap();
    assert!(!f1);
    assert_eq!(c1.cap_type(), CapType::Frame);
    assert_eq!(c1.paddr().as_usize(), 0x8000_0000);
    assert_eq!(c1.get_data(), 2);
    let (c2, _) = region.retype(&mut asids, &mut mem, CapType::Endpoint, 0);
    assert_eq!(c2.unwrap().paddr().as_usize(), 0x8000_2000);
    let (c3, _) = region.retype(&mut asids, &mut mem, CapType::VSpace, 0);
    let c3 = c3.unwrap();
    assert_eq!(c3.paddr().as_usize(), 0x8000_3000);
    let (_, asid) = c3.vspace_info();
    assert_eq!(asid.id, 1);
    assert_eq!(asid.generation, 1);
    assert_eq!(region.watermark, 4);
    let (c4, _) = region.retype(&mut asids, &mut mem, CapType::TCB, 0);
    assert!(c4.is_none());
    assert_eq!(region.watermark, 4);
    let (c5, _) = region.retype(&mut asids, &mut mem, CapType::Reply, 0);
    assert!(c5.is_none());
    assert!(region.check(0));
    assert!(!region.check(1));
}

#[test]
fn kernel_stack_slot_is_reused_after_free() {
    let mut ks = KStackAllocator::new();
    let a = ks.allocate().unwrap();
    let b = ks.allocate().unwrap();
    assert_eq!(a, 0);
    assert_eq!(b, 1);
    ks.free(a);
    assert_eq!(ks.allocate(), Some(a));
}

fn vm() -> (PageTable, TableStore, PmemManager) {
    (PageTable::new(), TableStore::new(), pmem_with(0x8000_0000, 0x8100_0000))
}

#[test]
fn mmap_places_at_first_gap_and_merges() {
    let mut mem = PhysMem::new();
    let (mut pt, mut store, mut pmem) = vm();
    let mut list: Vec<MmapRegion> = Vec::new();
    let mut pool = MmapPool::new();
    let mb: u64 = 0x1000_0000;
    let me: u64 = 0x2000_0000;
    let a = mmap(&mut pt, &mut store, &mut pmem, &mut mem, &mut list, &mut pool, VirtAddr::from(0), 5000, 0, mb, me).unwrap();
    assert_eq!(a.as_usize(), mb);
    assert_eq!(list, vec![MmapRegion { begin: mb, npages: 2 }]);
    assert_eq!(pool.free, N_MMAP - 1);
    // the next one touches the first and is merged into it
    let b = mmap(&mut pt, &mut store, &mut pmem, &mut mem, &mut list, &mut pool, VirtAddr::from(0), 4096, 0, mb, me).unwrap();
    assert_eq!(b.as_usize(), mb);
    assert_eq!(list, vec![MmapRegion { begin: mb, npages: 3 }]);
    // the pages are mapped user read-write
    let loc = pt.walk(&store, VirtAddr::from(mb + 0x2000)).unwrap();
    let e = pt.read_entry(&store, loc);
    assert!(e.is_valid());
    assert_eq!(e.get_flags().as_usize(), 0xD7);
}

#[test]
fn mmap_refuses_zero_length_unaligned_and_overlap() {
    let mut mem = PhysMem::new();
    let (mut pt, mut store, mut pmem) = vm();
    let mut list: Vec<MmapRegion> = Vec::new();
    let mut pool = MmapPool::new();
    let mb: u64 = 0x1000_0000;
    let me: u64 = 0x2000_0000;
    assert_eq!(mmap(&mut pt, &mut store, &mut pmem, &mut mem, &mut list, &mut pool, VirtAddr::from(0), 0, 0, mb, me), Err(UvmError::OutOfRange));
    assert_eq!(mmap(&mut pt, &mut store, &mut pmem, &mut mem, &mut list, &mut pool, VirtAddr::from(mb + 1), 4096, 0, mb, me), Err(UvmError::OutOfRange));
    assert_eq!(mmap(&mut pt, &mut store, &mut pmem, &mut mem, &mut list, &mut pool, VirtAddr::from(me), 4096, 0, mb, me), Err(UvmError::OutOfRange));
    mmap(&mut pt, &mut store, &mut pmem, &mut mem, &mut list, &mut pool, VirtAddr::from(mb + 0x4000), 0x2000, 0, mb, me).unwrap();
    assert_eq!(mmap(&mut pt, &mut store, &mut pmem, &mut mem, &mut list, &mut pool, VirtAddr::from(mb + 0x5000), 0x1000, 0, mb, me), Err(UvmError::OutOfRange));
    assert_eq!(mmap(&mut pt, &mut store, &mut pmem, &mut mem, &mut list, &mut pool, VirtAddr::from(mb + 0x3000), 0x2000, 0, mb, me), Err(UvmError::OutOfRange));
    assert_eq!(list.len(), 1);
}

#[test]
fn mmap_fills_a_gap_joining_both_neighbours() {
    let mut mem = PhysMem::new();
    let (mut pt, mut store, mut pmem) = vm();
    let mut list: Vec<MmapRegion> = Vec::new();
    let mut pool = MmapPool::new();
    let mb: u64 = 0x1000_0000;
    let me: u64 = 0x2000_0000;
    mmap(&mut pt, &mut store, &mut pmem, &mut mem, &mut list, &mut pool, VirtAddr::from(mb), 0x1000, 0, mb, me).unwrap();
    mmap(&mut pt, &mut store, &mut pmem, &mut mem, &mut list, &mut pool, VirtAddr::from(mb + 0x2000), 0x1000, 0, mb, me).unwrap();
    assert_eq!(list.len(), 2);
    assert_eq!(pool.free, N_MMAP - 2);
    let r = mmap(&mut pt, &mut store, &mut pmem, &mut mem, &mut list, &mut pool, VirtAddr::from(0), 0x1000, 0, mb, me).unwrap();
    assert_eq!(r.as_usize(), mb);
    assert_eq!(list, vec![MmapRegion { begin: mb, npages: 3 }]);
    assert_eq!(pool.free, N_MMAP - 1);
}

#[test]
fn mmap_without_a_free_node_ends_with_no_memory() {
    let mut mem = PhysMem::new();
    let (mut pt, mut store, mut pmem) = vm();
    let mut list: Vec<MmapRegion> = Vec::new();
    let mut pool = MmapPool { free: 0 };
    let r = mmap(&mut pt, &mut store, &mut pmem, &mut mem, &mut list, &mut pool, VirtAddr::from(0x1000_0000), 0x1000, 0, 0x1000_0000, 0x2000_0000);
    assert_eq!(r, Err(UvmError::NoMem));
    assert!(list.is_empty());
}

#[test]
fn munmap_trims_splits_and_removes() {
    let mut mem = PhysMem::new();
    let (mut pt, mut store, mut pmem) = vm();
    let mut list: Vec<MmapRegion> = Vec::new();
    let mut pool = MmapPool::new();
    let mb: u64 = 0x1000_0000;
    let me: u64 = 0x2000_0000;
    mmap(&mut pt, &mut store, &mut pmem, &mut mem, &mut list, &mut pool, VirtAddr::from(mb), 0x8000, 0, mb, me).unwrap();
    // split the middle
    munmap(&mut pt, &mut store, &mut pmem, &mut list, &mut pool, VirtAddr::from(mb + 0x2000), 0x1000).unwrap();
    assert_eq!(list, vec![MmapRegion { begin: mb, npages: 2 }, MmapRegion { begin: mb + 0x3000, npages: 5 }]);
    assert_eq!(pool.free, N_MMAP - 2);
    let loc = pt.walk(&store, VirtAddr::from(mb + 0x2000)).unwrap();
    assert!(!pt.read_entry(&store, loc).is_valid());
    // trim the front of the second and the back of the first, unaligned bounds widen to pages
    munmap(&mut pt, &mut store, &mut pmem, &mut list, &mut pool, VirtAddr::from(mb + 0x1800), 0x2000).unwrap();
    assert_eq!(list, vec![MmapRegion { begin: mb, npages: 1 }, MmapRegion { begin: mb + 0x4000, npages: 4 }]);
    // remove everything
    munmap(&mut pt, &mut store, &mut pmem, &mut list, &mut pool, VirtAddr::from(mb), 0x10000).unwrap();
    assert!(list.is_empty());
    assert_eq!(pool.free, N_MMAP);
}

#[test]
fn munmap_split_without_a_free_node_ends_with_no_memory() {
    let mut mem = PhysMem::new();
    let (mut pt, mut store, mut pmem) = vm();
    let mut list: Vec<MmapRegion> = Vec::new();
    let mut pool = MmapPool::new();
    let mb: u64 = 0x1000_0000;
    mmap(&mut pt, &mut store, &mut pmem, &mut mem, &mut list, &mut pool, VirtAddr::from(mb), 0x3000, 0, mb, 0x2000_0000).unwrap();
    pool.free = 0;
    let r = munmap(&mut pt, &mut store, &mut pmem, &mut list, &mut pool, VirtAddr::from(mb + 0x1000), 0x1000);
    assert_eq!(r, Err(UvmError::NoMem));
    assert_eq!(list, vec![MmapRegion { begin: mb, npages: 3 }]);
}

#[test]
fn munmap_undoes_mmap() {
    let mut mem = PhysMem::new();
    let (mut pt, mut store, mut pmem) = vm();
    let mut list: Vec<MmapRegion> = vec![MmapRegion { begin: 0x1000_0000, npages: 1 }];
    let mut pool = MmapPool { free: N_MMAP - 1 };
    let before = list.clone();
    let a = mmap(&mut pt, &mut store, &mut pmem, &mut mem, &mut list, &mut pool, VirtAddr::from(0x1000_4000), 0x2000, 0, 0x1000_0000, 0x2000_0000).unwrap();
    assert_eq!(a.as_usize(), 0x1000_4000);
    let f0 = pt.read_entry(&store, pt.walk(&store, a).unwrap()).pa();
    let f1 = pt.read_entry(&store, pt.walk(&store, VirtAddr::from(0x1000_5000)).unwrap()).pa();
    munmap(&mut pt, &mut store, &mut pmem, &mut list, &mut pool, a, 0x2000).unwrap();
    assert_eq!(pmem.freed, vec![f0, f1]);
    assert_eq!(list, before);
    assert_eq!(pool.free, N_MMAP - 1);
}

#[test]
fn heap_grows_and_shrinks_by_pages() {
    let mut mem = PhysMem::new();
    let (mut pt, mut store, mut pmem) = vm();
    assert_eq!(heap_grow(&mut pt, &mut store, &mut pmem, &mut mem, VirtAddr::from(0x2_0000), VirtAddr::from(0x2_2001), 0x1000_0000), Ok(()));
    for va in [0x2_0000u64, 0x2_1000, 0x2_2000] {
        let loc = pt.walk(&store, VirtAddr::from(va)).unwrap();
        assert!(pt.read_entry(&store, loc).is_valid());
    }
    assert_eq!(heap_grow(&mut pt, &mut store, &mut pmem, &mut mem, VirtAddr::from(0), VirtAddr::from(0x1000_1000), 0x1000_0000), Err(UvmError::OutOfRange));
    let f1 = pt.read_entry(&store, pt.walk(&store, VirtAddr::from(0x2_1000)).unwrap()).pa();
    let f2 = pt.read_entry(&store, pt.walk(&store, VirtAddr::from(0x2_2000)).unwrap()).pa();
    assert_eq!(heap_ungrow(&mut pt, &mut store, &mut pmem, VirtAddr::from(0x2_3000), VirtAddr::from(0x2_1000)), Ok(()));
    assert_eq!(pmem.freed, vec![f1, f2]);
    let loc = pt.walk(&store, VirtAddr::from(0x2_1000)).unwrap();
    assert!(!pt.read_entry(&store, loc).is_valid());
    let loc = pt.walk(&store, VirtAddr::from(0x2_0000)).unwrap();
    assert!(pt.read_entry(&store, loc).is_valid());
}

#[test]
fn heap_ungrow_fails_at_the_first_unmapped_page() {
    let mut mem = PhysMem::new();
    let (mut pt, mut store, mut pmem) = vm();
    assert_eq!(heap_ungrow(&mut pt, &mut store, &mut pmem, VirtAddr::from(0x2_2000), VirtAddr::from(0x2_0000)), Err(UvmError::MapFailed));
    assert_eq!(heap_grow(&mut pt, &mut store, &mut pmem, &mut mem, VirtAddr::from(0x2_0000), VirtAddr::from(0x2_1000), 0x1000_0000), Ok(()));
    // The page at 0x2_0000 is mapped, the one at 0x2_1000 is not: the first is
    // cleared before the second stops the call.
    assert_eq!(heap_ungrow(&mut pt, &mut store, &mut pmem, VirtAddr::from(0x2_2000), VirtAddr::from(0x2_0000)), Err(UvmError::MapFailed));
    let loc = pt.walk(&store, VirtAddr::from(0x2_0000)).unwrap();
    assert!(!pt.read_entry(&store, loc).is_valid());
    assert_eq!(heap_ungrow(&mut pt, &mut store, &mut pmem, VirtAddr::from(0x2_1000), VirtAddr::from(0x2_3000)), Ok(()));
}

#[test]
fn stack_grows_down_to_the_fault_and_refuses_outside() {
    let mut mem = PhysMem::new();
    let (mut pt, mut store, mut pmem) = vm();
    let mut pages = 0usize;
    assert_eq!(ustack_grow(&mut pt, &mut store, &mut pmem, &mut mem, &mut pages, VirtAddr::from(0), VirtAddr::from(0x2_4010)), Ok(()));
    for va in [0x2_4000u64, 0x2_5000] {
        let loc = pt.walk(&store, VirtAddr::from(va)).unwrap();
        assert!(pt.read_entry(&store, loc).is_valid());
    }
    let loc = pt.walk(&store, VirtAddr::from(0x2_3000)).unwrap();
    assert!(!pt.read_entry(&store, loc).is_valid());
    assert_eq!(ustack_grow(&mut pt, &mut store, &mut pmem, &mut mem, &mut pages, VirtAddr::from(0), VirtAddr::from(0x3_0000)), Err(UvmError::OutOfRange));
    let used = pmem.regions[0].current;
    // a second fault above the mapped pages allocates nothing new
    assert_eq!(ustack_grow(&mut pt, &mut store, &mut pmem, &mut mem, &mut pages, VirtAddr::from(0), VirtAddr::from(0x2_5000)), Ok(()));
    assert_eq!(pmem.regions[0].current, used);
}

fn leaf(pt: &PageTable, store: &TableStore, va: u64) -> Option<(u64, u64)> {
    let loc = pt.walk(store, VirtAddr::from(va))?;
    let e = pt.read_entry(store, loc);
    if e.is_valid() && e.is_leaf() {
        Some((e.pa().as_usize(), e.get_flags().as_usize()))
    } else {
        None
    }
}

#[test]
fn root_task_address_space_is_laid_out() {
    let layout = RootLayout { bootinfo_va: 0x5000_0000, initrd_va: 0x5000_1000, stack_base: 0x7000_0000, heap_va: 0x2000_0000 };
    let mut pt = PageTable::new();
    let mut store = TableStore::new();
    let mut pmem = pmem_with(0x8000_0000, 0x8100_0000);
    let initrd = Some((PhysAddr::from(0x8800_0123), 0x1800));
    let mut mem = PhysMem::new();
    // leftovers in every frame the allocator may hand out
    for f in 0..0x1000u64 {
        mem.write(0x8000_0000 + f * 0x1000, 0x5A);
    }
    let r = init_vspace(&mut pt, &mut store, &mut pmem, &mut mem, PhysAddr::from(0x8700_0000), PhysAddr::from(0x8700_1000),
        PhysAddr::from(0x8700_2000), initrd, layout);
    assert_eq!(r, Ok(()));
    let (stack_frame, _) = leaf(&pt, &store, 0x7000_0000 - 0x1000).unwrap();
    let (heap_frame, _) = leaf(&pt, &store, 0x2000_0000).unwrap();
    assert_eq!(mem.read(stack_frame), 0);
    assert_eq!(mem.read(heap_frame), 0);
    assert_eq!(mem.read(0x80FF_F000), 0x5A);
    assert_eq!(leaf(&pt, &store, TRAPFRAME_VA), Some((0x8700_0000, 0x07)));
    assert_eq!(leaf(&pt, &store, UTCB_VA), Some((0x8700_1000, 0x17)));
    assert_eq!(leaf(&pt, &store, 0x5000_0000), Some((0x8700_2000, 0x13)));
    assert_eq!(leaf(&pt, &store, 0x5000_1000), Some((0x8800_0000, 0x13)));
    assert_eq!(leaf(&pt, &store, 0x5000_2000), Some((0x8800_1000, 0x13)));
    let (top, f) = leaf(&pt, &store, 0x7000_0000 - 0x1000).unwrap();
    assert_eq!(f, 0x17);
    let (bottom, _) = leaf(&pt, &store, 0x7000_0000 - (STACK_PAGES as u64) * 0x1000).unwrap();
    assert!(bottom > top);
    assert!(leaf(&pt, &store, 0x7000_0000).is_none());
    assert!(leaf(&pt, &store, 0x2000_0000).is_some());
    assert!(leaf(&pt, &store, 0x2000_0000 + (HEAP_PAGES as u64 - 1) * 0x1000).is_some());
    assert!(leaf(&pt, &store, 0x2000_0000 + (HEAP_PAGES as u64) * 0x1000).is_none());
}

#[test]
fn root_task_address_space_needs_frames() {
    let layout = RootLayout { bootinfo_va: 0x5000_0000, initrd_va: 0x5000_1000, stack_base: 0x7000_0000, heap_va: 0x2000_0000 };
    let mut pt = PageTable::new();
    let mut store = TableStore::new();
    let mut pmem = pmem_with(0x8000_0000, 0x8002_0000);
    let mut mem = PhysMem::new();
    let r = init_vspace(&mut pt, &mut store, &mut pmem, &mut mem, PhysAddr::from(0x8700_0000), PhysAddr::from(0x8700_1000),
        PhysAddr::from(0x8700_2000), None, layout);
    assert_eq!(r, Err(Error::OutOfMemory));
}

#[test]
fn kernel_address_space_maps_ram_then_narrows_sections() {
    let hhdm = 0xFFFF_FFC0_0000_0000u64;
    let ram = vec![
        MemoryRegion { start: PhysAddr::from(0x8000_0000), size: 0x10_0000, region_type: MemoryType::Ram },
        MemoryRegion { start: PhysAddr::from(0x1000_0000), size: 0x1000, region_type: MemoryType::Mmio },
    ];
    let sec = KernelSections {
        text_start: hhdm + 0x8002_0000,
        text_end: hhdm + 0x8002_1800,
        rodata_start: hhdm + 0x8003_0000,
        rodata_end: hhdm + 0x8003_0010,
        data_start: hhdm + 0x8004_0000,
        bss_end: hhdm + 0x8004_1000,
    };
    let mut pt = PageTable::new();
    let mut store = TableStore::new();
    let mut pmem = pmem_with(0x9000_0000, 0x9010_0000);
    let r = init_kernel_vm(&mut pt, &mut store, &mut pmem, &ram, hhdm, sec, hhdm + 0x8008_0100, 0x1000, PhysAddr::from(0x8008_0000));
    assert_eq!(r, Ok(()));
    // RAM outside the sections keeps its read-write direct mapping
    assert_eq!(leaf(&pt, &store, hhdm + 0x8000_5000), Some((0x8000_5000, 0x07)));
    // the device region is not mapped
    assert!(leaf(&pt, &store, hhdm + 0x1000_0000).is_none());
    // section pages keep their frames and get the section's permissions
    assert_eq!(leaf(&pt, &store, hhdm + 0x8002_1000), Some((0x8002_1000, 0x0B)));
    assert_eq!(leaf(&pt, &store, hhdm + 0x8003_0000), Some((0x8003_0000, 0x03)));
    assert_eq!(leaf(&pt, &store, hhdm + 0x8004_0000), Some((0x8004_0000, 0x07)));
    assert_eq!(leaf(&pt, &store, hhdm + 0x8008_1000), Some((0x8008_1000, 0x03)));
}

#[test]
fn kernel_address_space_refuses_a_section_outside_ram() {
    let hhdm = 0xFFFF_FFC0_0000_0000u64;
    let ram = vec![MemoryRegion { start: PhysAddr::from(0x8000_0000), size: 0x1_0000, region_type: MemoryType::Ram }];
    let sec = KernelSections {
        text_start: hhdm + 0x8100_0000,
        text_end: hhdm + 0x8100_1000,
        rodata_start: hhdm + 0x8000_1000,
        rodata_end: hhdm + 0x8000_2000,
        data_start: hhdm + 0x8000_2000,
        bss_end: hhdm + 0x8000_3000,
    };
    let mut pt = PageTable::new();
    let mut store = TableStore::new();
    let mut pmem = pmem_with(0x9000_0000, 0x9010_0000);
    let r = init_kernel_vm(&mut pt, &mut store, &mut pmem, &ram, hhdm, sec, hhdm + 0x8000_4000, 0x100, PhysAddr::from(0x8000_4000));
    assert_eq!(r, Err(Error::MappingFailed));
}

#[test]
fn flags_read_as_letters() {
    assert_eq!(PteFlags(0xCF).describe(), b"V|R|W|X|A|D".to_vec());
    assert_eq!(PteFlags(0).describe(), b"NONE".to_vec());
    assert_eq!(PteFlags(0x300).describe(), b"NONE".to_vec());
    assert_eq!(Perms(0xFF).describe(), b"V|R|W|X|U|G".to_vec());
    assert_eq!(Perms(0xC0).describe(), b"NONE".to_vec());
    assert_eq!(Perms(0x12).describe(), b"R|U".to_vec());
}

#[test]
fn user_copies_find_their_frames_page_by_page() {
    let mut pt = PageTable::new();
    let mut store = TableStore::new();
    let mut pmem = pmem_with(0x8000_0000, 0x8010_0000);
    // user read-write page, then a user read-only page, then a kernel page
    pt.map_with_alloc(&mut store, &mut pmem, VirtAddr::from(0x40_0000), PhysAddr::from(0x9000_0000), 4096, Perms(0x16)).unwrap();
    pt.map_with_alloc(&mut store, &mut pmem, VirtAddr::from(0x40_1000), PhysAddr::from(0x9100_0000), 4096, Perms(0x12)).unwrap();
    pt.map_with_alloc(&mut store, &mut pmem, VirtAddr::from(0x40_2000), PhysAddr::from(0x9200_0000), 4096, Perms(0x06)).unwrap();
    let spans = copy_spans(&pt, &store, VirtAddr::from(0x40_0ff0), 0x20, 0x2).unwrap();
    assert_eq!(spans, vec![CopySpan { pa: 0x9000_0ff0, len: 0x10 }, CopySpan { pa: 0x9100_0000, len: 0x10 }]);
    assert_eq!(copy_spans(&pt, &store, VirtAddr::from(0x40_0ff0), 0x20, 0x4), Err(CopyError::NoPerm));
    assert_eq!(copy_spans(&pt, &store, VirtAddr::from(0x40_2000), 1, 0x2), Err(CopyError::NoPerm));
    assert_eq!(copy_spans(&pt, &store, VirtAddr::from(0x40_3000), 1, 0x2), Err(CopyError::NotMapped));
    assert_eq!(copy_spans(&pt, &store, VirtAddr::from(0x40_3000), 0, 0x2), Ok(vec![]));
}

#[test]
fn user_memory_round_trips_through_copyout_and_copyin() {
    let mut pt = PageTable::new();
    let mut store = TableStore::new();
    let mut pmem = pmem_with(0x8000_0000, 0x8010_0000);
    pt.map_with_alloc(&mut store, &mut pmem, VirtAddr::from(0x40_0000), PhysAddr::from(0x9000_0000), 4096, Perms(0x16)).unwrap();
    pt.map_with_alloc(&mut store, &mut pmem, VirtAddr::from(0x40_1000), PhysAddr::from(0x9100_0000), 4096, Perms(0x16)).unwrap();
    pt.map_with_alloc(&mut store, &mut pmem, VirtAddr::from(0x40_2000), PhysAddr::from(0x9200_0000), 4096, Perms(0x12)).unwrap();
    let mut mem = PhysMem::new();
    let data: Vec<u8> = (1..=32u8).collect();
    assert_eq!(copyout(&pt, &store, &mut mem, VirtAddr::from(0x40_0ff0), &data), Ok(()));
    assert_eq!(mem.read(0x9000_0ff0), 1);
    assert_eq!(mem.read(0x9100_0000), 17);
    assert_eq!(copyin(&pt, &store, &mem, VirtAddr::from(0x40_0ff0), 32), Ok(data.clone()));
    // the read-only page refuses a write and leaves memory alone
    assert_eq!(copyout(&pt, &store, &mut mem, VirtAddr::from(0x40_2000), &[9]), Err(CopyError::NoPerm));
    assert_eq!(mem.read(0x9200_0000), 0);
    assert_eq!(copyin(&pt, &store, &mem, VirtAddr::from(0x40_3000), 1), Err(CopyError::NotMapped));
    // a string ends at its zero byte, across the page boundary
    assert_eq!(copyout(&pt, &store, &mut mem, VirtAddr::from(0x40_0ffe), b"abc\0"), Ok(()));
    assert_eq!(copyin_str(&pt, &store, &mem, VirtAddr::from(0x40_0ffe), 16), Ok(b"abc\0".to_vec()));
    assert_eq!(copyin_str(&pt, &store, &mem, VirtAddr::from(0x40_0ffe), 3), Err(CopyError::TooLong));
    assert_eq!(copyin_str(&pt, &store, &mem, VirtAddr::from(0x40_2ffe), 0), Err(CopyError::TooLong));
    assert_eq!(copyin_str(&pt, &store, &mem, VirtAddr::from(0x40_2fff), 4), Ok(vec![0]));
    assert_eq!(copyin_str(&pt, &store, &mem, VirtAddr::from(0x40_3000), 4), Err(CopyError::NotMapped));
}

#[test]
fn kernel_stack_takes_a_slot_and_four_frames() {
    let mut slots = KStackAllocator::new();
    let mut pmem = pmem_with(0x8000_0000, 0x8001_0000);
    let ks = KernelStack::allocate(&mut slots, &mut pmem).unwrap();
    assert_eq!(ks.slot, 0);
    assert_eq!(ks.base.as_usize(), 0x3F_F000_1000);
    assert_eq!(ks.frames.len(), 4);
    assert_eq!(ks.frames[3].paddr().as_usize(), 0x8000_3000);
    assert_eq!(ks.top().as_usize(), 0x3F_F000_1000 + 16384);
    assert_eq!(slots.hint, 1);
    let mut small = pmem_with(0x9000_0000, 0x9000_2000);
    assert!(KernelStack::allocate(&mut slots, &mut small).is_none());
    // the slot taken is given back and the hint points at it
    assert_eq!(slots.hint, 1);
    let again = KernelStack::allocate(&mut slots, &mut pmem).unwrap();
    assert_eq!(again.slot, 1);
}

#[test]
fn bytes_are_placed_frame_after_frame() {
    let mut mem = PhysMem::new();
    mem.write(0x8000_1ff0, 0xEE);
    mem.write(0x8000_2000, 0xDD);
    let data: Vec<u8> = (0..5000u32).map(|i| (i % 251) as u8 + 1).collect();
    place_bytes(&mut mem, 0x8000_0000, &data);
    assert_eq!(mem.read(0x8000_0000), 1);
    assert_eq!(mem.read(0x8000_0000 + 4999), data[4999]);
    assert_eq!(mem.read(0x8000_1ff0), 0);
    assert_eq!(mem.read(0x8000_2000), 0xDD);
}
