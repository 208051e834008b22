use glenda::proc::asid::{Asid, AsidManager, MAX_ASID};
use glenda::proc::runnable_queue::{find_proc_index, RunnableBitmap};
use glenda::proc::scheduler::{get_default_timeslice, Scheduler, TcbQueue, Watchdog, MAX_PRIORITY};
use glenda::proc::thread::{get_mmu_register, ThreadState, TCB};
use glenda::proc::virt::{VcpuExitReason, VcpuState, VirtExit, VirtExitReason};
use glenda::proc::context::TrapFrame;
use glenda::proc::elf::{load_fills, ElfFile, FrameFill, PageLoad, PT_LOAD};
use glenda::mem::physmem::PhysMem;
use glenda::proc::initrd::{check_magic, count_entries, find, get_by_index, list_entries, table_fits_in};
use glenda::mem::pmem::alloc_tcb_cap;
use glenda::proc::roottask::{alloc_root_caps, init_bootinfo, record_untyped, root_tcb, PlatformTables, ROOT_TASK_PRIORITY};
use glenda::mem::untyped::UntypedRegion;
use glenda::proc::bootinfo::{BootInfo, PlatformType};
use glenda::mem::addr::{PhysAddr, VirtAddr};
use glenda::mem::pagetable::{PageTable, TableStore};
use glenda::mem::pmem::PmemManager;
use glenda::error::Error;
use glenda::cap::{CapType, Capability, Rights};

fn thread(prio: u8, state: ThreadState) -> TCB {
    let mut t = TCB::new();
    t.priority = prio;
    t.base_priority = prio;
    t.state = state;
    t
}

#[test]
fn asid_tokens_are_fresh_and_rollover_flushes() {
    let mut m = AsidManager::new();
    let (a, f) = m.allocate();
    assert_eq!((a.id, a.generation, f), (1, 1, false));
    assert!(m.check(a));
    let (b, _) = m.allocate();
    assert_ne!(a.id, b.id);
    m.current_asid = (MAX_ASID - 1) as u16;
    let (c, flush) = m.allocate();
    assert!(flush);
    assert_eq!((c.id, c.generation), (1, 2));
    assert!(!m.check(a));
    assert!(m.check(c));
    assert!(!m.check(Asid::default()));
}

#[test]
fn runnable_bitmap_finds_lowest_marked() {
    let mut bm = RunnableBitmap::new();
    assert_eq!(bm.find_runnable(), None);
    bm.mark_runnable(9);
    bm.mark_runnable(3);
    assert_eq!(bm.find_runnable(), Some(3));
    bm.mark_not_runnable(3);
    assert_eq!(bm.find_runnable(), Some(9));
    assert!(bm.has_runnable());
    bm.clear_all();
    assert!(!bm.has_runnable());
    assert_eq!(find_proc_index(0x1000, 0x1000 + 3 * 64, 64), Some(3));
    assert_eq!(find_proc_index(0x1000, 0x0fff, 64), None);
}

#[test]
fn default_timeslice_is_a_tenth_of_a_second() {
    assert_eq!(get_default_timeslice(10_000_000), 1_000_000);
}

#[test]
fn tcb_queue_is_fifo() {
    let mut q = TcbQueue::new();
    q.push_back(4);
    q.push_back(7);
    q.push_back(5);
    q.remove(7);
    assert_eq!(q.pop_front(), Some(4));
    assert_eq!(q.pop_front(), Some(5));
    assert_eq!(q.pop_front(), None);
}

#[test]
fn scheduler_picks_highest_priority_ready_thread() {
    let mut s = Scheduler::new(2);
    let low = s.register(thread(10, ThreadState::Ready));
    let high = s.register(thread(200, ThreadState::Ready));
    let gone = s.register(thread(250, ThreadState::Ready));
    s.add_thread(low, 0);
    s.add_thread(high, 0);
    s.add_thread(gone, 0);
    s.remove_thread(gone, 0);
    assert_eq!(s.threads[gone].state, ThreadState::Inactive);
    assert_eq!(s.pick_next(0), Some(high));
    assert_eq!(s.pick_next(0), Some(low));
    assert_eq!(s.pick_next(0), None);
}

#[test]
fn not_ready_thread_is_dropped_by_pick() {
    let mut s = Scheduler::new(1);
    let a = s.register(thread(5, ThreadState::Ready));
    s.add_thread(a, 0);
    s.threads[a].state = ThreadState::BlockedRecv;
    assert_eq!(s.pick_next(0), None);
    assert_eq!(s.ready[5].items.len(), 0);
}

#[test]
fn start_running_refills_an_empty_slice() {
    let mut s = Scheduler::new(1);
    let a = s.register(thread(5, ThreadState::Ready));
    assert!(s.start_running(a, 100));
    assert_eq!(s.threads[a].state, ThreadState::Running);
    assert_eq!(s.threads[a].timeslice, 100);
    assert!(!s.start_running(a, 100));
}

#[test]
fn wake_up_of_a_running_thread_is_deferred() {
    let mut s = Scheduler::new(2);
    let a = s.register(thread(5, ThreadState::BlockedRecv));
    s.set_current(1, Some(a));
    let w = s.wake_up(a, 0);
    assert_eq!(w.ipi, None);
    assert!(s.threads[a].wake_pending);
    s.set_current(1, None);
    let ipi = s.finish_pending_wakeup(a, 1);
    assert_eq!(ipi, Some(0));
    assert_eq!(s.threads[a].state, ThreadState::Ready);
    assert!(!s.threads[a].wake_pending);
    assert_eq!(s.ready[5].items, vec![a]);
}

#[test]
fn wake_up_asks_to_reschedule_for_higher_priority() {
    let mut s = Scheduler::new(2);
    let cur = s.register(thread(5, ThreadState::Running));
    let a = s.register(thread(9, ThreadState::BlockedSend));
    s.set_current(0, Some(cur));
    let w = s.wake_up(a, 0);
    assert!(w.reschedule);
    assert_eq!(s.threads[a].state, ThreadState::Ready);
    let w2 = s.wake_up(a, 0);
    assert!(!w2.reschedule);
}

#[test]
fn yield_requeues_the_running_thread() {
    let mut s = Scheduler::new(1);
    let a = s.register(thread(7, ThreadState::Running));
    s.set_current(0, Some(a));
    let (switch, ipi) = s.yield_proc(0);
    assert!(switch);
    assert_eq!(ipi, None);
    assert_eq!(s.threads[a].state, ThreadState::Ready);
    assert_eq!(s.ready[7].items, vec![a]);
    let mut e = Scheduler::new(1);
    assert_eq!(e.reschedule(0), (false, None));
    assert!(!e.block_current_thread(0));
}

#[test]
fn steal_takes_a_ready_thread_from_another_cpu() {
    let mut s = Scheduler::new(2);
    let a = s.register(thread(3, ThreadState::Ready));
    let mut t = s.threads[a];
    t.affinity = 1;
    s.threads[a] = t;
    s.add_thread(a, 0);
    assert_eq!(s.ready[256 + 3].items, vec![a]);
    assert_eq!(s.steal(1), None);
    assert_eq!(s.steal(0), Some(a));
    assert_eq!(s.threads[a].cpu_id, 0);
    assert!(s.ready[256 + 3].items.is_empty());
}

#[test]
fn ready_summary_counts_queues() {
    let mut s = Scheduler::new(1);
    for p in [2u8, 2, 9] {
        let t = s.register(thread(p, ThreadState::Ready));
        s.add_thread(t, 0);
    }
    assert_eq!(s.ready_summary(0), (3, 9, 1));
    let e = Scheduler::new(1);
    assert_eq!(e.ready_summary(0), (0, 0, 0));
}

#[test]
fn watchdog_reports_after_a_stall() {
    let mut w = Watchdog::new();
    assert!(!w.watchdog_tick(0, 10, 5));
    assert_eq!(w.last_progress, 5);
    assert!(!w.watchdog_tick(0, 10, 50));
    assert!(w.watchdog_tick(0, 10, 200));
    assert_eq!(w.last_dump, 200);
    assert!(!w.watchdog_tick(0, 10, 260));
    assert!(w.watchdog_tick(0, 10, 350));
    assert!(!w.watchdog_tick(1, 10, 10_000));
    assert!(!w.watchdog_tick(0, 0, 10_000));
    w.mark_watchdog_progress(400);
    assert!(!w.watchdog_tick(0, 10, 420));
}

#[test]
fn satp_value_encodes_mode_asid_and_root() {
    assert_eq!(get_mmu_register(PhysAddr::from(0x8020_0000), 5), (8u64 << 60) | (5u64 << 44) | 0x80200);
}

#[test]
fn tcb_priority_and_suspend_resume() {
    let mut t = TCB::new();
    t.set_priority(10);
    assert_eq!((t.base_priority, t.priority), (10, 10));
    t.set_priority(3);
    assert_eq!((t.base_priority, t.priority), (3, 10));
    assert!(t.resume());
    assert_eq!(t.state, ThreadState::Ready);
    assert!(!t.resume());
    t.suspend();
    assert_eq!(t.state, ThreadState::Suspended);
}

#[test]
fn vcpu_checks_before_a_run_and_records_the_exit() {
    let mut v = VcpuState::new();
    assert_eq!(v.prepare_run(true).err(), Some(Error::InvalidCapability));
    assert_eq!(v.bind_tcb(0), Err(Error::InvalidArgs));
    v.bind_tcb(7).unwrap();
    assert_eq!(v.prepare_run(true).err(), Some(Error::InvalidCapability));
    v.bind_vmspace(PhysAddr::from(0x8123_4000), Some(0x55));
    assert_eq!(v.vmid, (0x8123_4000usize >> 12) & 0x3fff);
    assert_eq!(v.prepare_run(false).err(), Some(Error::NotSupported));
    v.write_reg(10, 42).unwrap();
    assert_eq!(v.write_reg(32, 1), Err(Error::InvalidArgs));
    assert_eq!(v.read_reg(31), Ok(0));
    assert_eq!(v.read_reg(32), Err(Error::InvalidArgs));
    assert_eq!(v.inject_irq(3), Ok(()));
    assert_eq!(v.pending_virq_bitmap, 8);
    assert_eq!(v.inject_irq(usize::BITS as usize), Err(Error::InvalidArgs));
    let mut run = v.prepare_run(true).unwrap();
    assert_eq!(run.regs[10], 42);
    run.regs[11] = 9;
    run.pc = 0x1000;
    let (reason, args, fault) = v.finish_run(&run, VirtExit { reason: VirtExitReason::TimerInterrupt, detail0: 1, detail1: 2, detail2: 3 });
    assert_eq!(reason, VcpuExitReason::ExternalInterrupt);
    assert_eq!(args[0], 42);
    assert_eq!(args[1], 9);
    assert_eq!(fault, None);
    assert_eq!(v.pc, 0x1000);
    let (reason, _, fault) = v.finish_run(&run, VirtExit { reason: VirtExitReason::GuestPageFault, detail0: 0xdead000, detail1: 0, detail2: 0 });
    assert_eq!(reason, VcpuExitReason::GuestPageFault);
    assert_eq!(fault, Some(0xdead000));
}

fn le32(v: u32) -> [u8; 4] {
    v.to_le_bytes()
}

fn image_with(entries: &[(&str, u32, u32)], total: usize) -> Vec<u8> {
    let mut img = vec![0u8; total];
    img[0..4].copy_from_slice(&le32(0x9999_9999));
    img[4..8].copy_from_slice(&le32(entries.len() as u32));
    for (i, (name, off, size)) in entries.iter().enumerate() {
        let e = 8 + i * 48;
        img[e] = 0;
        img[e + 1..e + 5].copy_from_slice(&le32(*off));
        img[e + 5..e + 9].copy_from_slice(&le32(*size));
        img[e + 9..e + 9 + name.len()].copy_from_slice(name.as_bytes());
    }
    img
}

#[test]
fn initrd_finds_payloads_by_name() {
    let img = image_with(&[("init", 200, 16), ("big", 250, 100_000)], 400);
    assert!(check_magic(&img));
    assert!(!check_magic(&img[1..]));
    assert!(table_fits_in(&img));
    assert_eq!(count_entries(Some(&img)), 2);
    assert_eq!(count_entries(None), 0);
    let p = find(Some(&img), b"init").unwrap();
    assert_eq!((p.metadata.offset, p.metadata.size, p.data_start, p.data_len), (200, 16, 200, 16));
    let q = find(Some(&img), b"big").unwrap();
    assert_eq!((q.data_start, q.data_len), (0, 0));
    assert!(find(Some(&img), b"nope").is_none());
    assert!(find(None, b"init").is_none());
    let list = list_entries(Some(&img));
    assert_eq!(list.len(), 2);
    assert_eq!(list[0].0, b"init".to_vec());
    assert_eq!(list[1].1, 100_000);
}

#[test]
fn initrd_name_that_is_not_utf8_matches_only_the_empty_name() {
    let mut img = image_with(&[("x", 0, 0)], 100);
    img[8 + 9] = 0xFF;
    assert!(find(Some(&img), &[0xFF]).is_none());
    assert!(find(Some(&img), b"").is_some());
}

fn elf_image() -> Vec<u8> {
    let mut d = vec![0u8; 64 + 56 + 100];
    d[0..4].copy_from_slice(&[0x7F, b'E', b'L', b'F']);
    d[24..32].copy_from_slice(&0x1_0000u64.to_le_bytes()); // entry
    d[32..40].copy_from_slice(&64u64.to_le_bytes()); // phoff
    d[54..56].copy_from_slice(&56u16.to_le_bytes()); // phentsize
    d[56..58].copy_from_slice(&1u16.to_le_bytes()); // phnum
    let ph = 64;
    d[ph..ph + 4].copy_from_slice(&PT_LOAD.to_le_bytes());
    d[ph + 4..ph + 8].copy_from_slice(&5u32.to_le_bytes()); // R | X
    d[ph + 8..ph + 16].copy_from_slice(&120u64.to_le_bytes()); // offset
    d[ph + 16..ph + 24].copy_from_slice(&0x1_0800u64.to_le_bytes()); // vaddr
    d[ph + 32..ph + 40].copy_from_slice(&100u64.to_le_bytes()); // filesz
    d[ph + 40..ph + 48].copy_from_slice(&0x1000u64.to_le_bytes()); // memsz
    d
}

#[test]
fn elf_header_and_program_headers_are_read() {
    let d = elf_image();
    let f = ElfFile::new(&d).ok().unwrap();
    assert_eq!(f.entry_point(), 0x1_0000);
    let phs = f.program_headers();
    assert_eq!(phs.len(), 1);
    assert_eq!(phs[0].p_vaddr, 0x1_0800);
    assert_eq!(phs[0].p_filesz, 100);
    assert_eq!(ElfFile::new(&d[..63]).err(), Some("Buffer too small for ELF header"));
    let mut bad = d.clone();
    bad[1] = b'X';
    assert_eq!(ElfFile::new(&bad).err(), Some("Invalid ELF magic"));
    let mut far = d.clone();
    far[32..40].copy_from_slice(&10_000u64.to_le_bytes());
    assert!(ElfFile::new(&far).ok().unwrap().program_headers().is_empty());
}

#[test]
fn elf_segments_are_mapped_page_by_page() {
    let d = elf_image();
    let f = ElfFile::new(&d).ok().unwrap();
    let mut pt = PageTable::new();
    let mut store = TableStore::new();
    let mut pmem = PmemManager::new();
    pmem.add_region(PhysAddr::from(0x8000_0000), PhysAddr::from(0x8010_0000));
    let fills = f.map(&mut pt, &mut store, &mut pmem).ok().unwrap();
    // 0x800 + 0x1000 bytes from 0x10000 span two pages
    assert_eq!(fills.len(), 2);
    assert_eq!(fills[0].load.va, 0x1_0000);
    assert_eq!(fills[0].load.dst_off, 0x800);
    assert_eq!(fills[0].load.src_off, 120);
    assert_eq!(fills[0].load.len, 100);
    assert_eq!(fills[0].load.flags, 17 | 8 | 2);
    assert_eq!(fills[1].load.va, 0x1_1000);
    assert_eq!(fills[1].load.len, 0);
    let loc = pt.walk(&store, VirtAddr::from(0x1_1000)).unwrap();
    let e = pt.read_entry(&store, loc);
    assert_eq!(e.pa().as_usize(), fills[1].frame.as_usize());
    let mut none = PmemManager::new();
    let mut pt2 = PageTable::new();
    let mut st2 = TableStore::new();
    assert_eq!(f.map(&mut pt2, &mut st2, &mut none).err(), Some("Failed to alloc frame for segment"));
}

#[test]
fn vcpu_from_cap_checks_the_type() {
    let c = Capability::create(CapType::VCPU, PhysAddr::from(0x5000), 0, Rights(0xFF));
    assert_eq!(glenda::proc::virt::vcpu_state_from_cap(&c), Ok(PhysAddr::from(0x5000)));
    let d = Capability::create(CapType::Frame, PhysAddr::from(0x5000), 0, Rights(0xFF));
    assert_eq!(glenda::proc::virt::vcpu_state_from_cap(&d), Err(Error::InvalidType));
    assert!(MAX_PRIORITY == 256);
}

#[test]
fn payload_reads_as_elf_only_with_header_and_magic() {
    let elf = elf_image();
    let mut img = image_with(&[("elf", 400, elf.len() as u32), ("flat", 300, 16)], 400 + elf.len());
    img[400..].copy_from_slice(&elf);
    let p = find(Some(&img), b"elf").unwrap();
    let f = p.as_elf(&img).unwrap();
    assert_eq!(f.entry_point(), 0x1_0000);
    let q = find(Some(&img), b"flat").unwrap();
    assert!(q.as_elf(&img).is_none());
    img[400] = 0;
    assert!(p.as_elf(&img).is_none());
}

#[test]
fn tcb_memory_is_sized_and_aligned_for_a_thread() {
    let mut pmem = PmemManager::new();
    pmem.add_region(PhysAddr::from(0x8000_0001), PhysAddr::from(0x8010_0000));
    let cap = alloc_tcb_cap(&mut pmem).unwrap();
    let align = std::mem::align_of::<TCB>() as u64;
    assert_eq!(cap.cap_type(), CapType::TCB);
    assert_eq!(cap.paddr().as_usize() % align, 0);
    assert!(cap.paddr().as_usize() >= 0x8000_0001);
    let next = pmem.alloc_addr(1, 1).unwrap();
    assert_eq!(next.as_usize(), cap.paddr().as_usize() + std::mem::size_of::<TCB>() as u64);
    let mut empty = PmemManager::new();
    assert!(alloc_tcb_cap(&mut empty).is_none());
}

#[test]
fn loadable_checks_segments_against_the_image() {
    let d = elf_image();
    assert!(ElfFile::new(&d).ok().unwrap().loadable());
    let mut long = d.clone();
    long[64 + 32..64 + 40].copy_from_slice(&101u64.to_le_bytes());
    assert!(!ElfFile::new(&long).ok().unwrap().loadable());
    let mut high = d.clone();
    high[64 + 16..64 + 24].copy_from_slice(&0xFFFF_FFFF_FFFF_0000u64.to_le_bytes());
    assert!(!ElfFile::new(&high).ok().unwrap().loadable());
}

#[test]
fn initrd_entries_by_index() {
    let img = image_with(&[("init", 200, 16), ("big", 250, 100_000)], 400);
    let p = get_by_index(Some(&img), 0).unwrap();
    assert_eq!((p.data_start, p.data_len), (200, 16));
    assert_eq!(&p.metadata.name[..4], b"init");
    let q = get_by_index(Some(&img), 1).unwrap();
    assert_eq!((q.metadata.size, q.data_len), (100_000, 0));
    assert!(get_by_index(Some(&img), 2).is_none());
    assert!(get_by_index(None, 0).is_none());
}

#[test]
fn root_task_capabilities_are_carved_in_order() {
    let mut pmem = PmemManager::new();
    pmem.add_region(PhysAddr::from(0x8000_0000), PhysAddr::from(0x8010_0000));
    let mut asids = AsidManager::new();
    let (caps, flush) = alloc_root_caps(&mut pmem, &mut asids);
    let caps = caps.unwrap();
    assert!(!flush);
    assert_eq!(caps.vspace.cap_type(), CapType::VSpace);
    assert_eq!(caps.vspace.paddr().as_usize(), 0x8000_0000);
    assert_eq!(caps.vspace.vspace_info().1.id, 1);
    assert_eq!(caps.cspace.cap_type(), CapType::CNode);
    assert_eq!(caps.cspace.paddr().as_usize(), 0x8000_1000);
    assert_eq!(caps.tcb.cap_type(), CapType::TCB);
    assert!(caps.tcb.paddr().as_usize() >= 0x8000_5000);
    for c in [caps.utcb, caps.tf, caps.kstack, caps.bootinfo] {
        assert_eq!(c.cap_type(), CapType::Frame);
        assert_eq!(c.paddr().as_usize() % 0x1000, 0);
    }
    assert!(caps.utcb.paddr().as_usize() < caps.tf.paddr().as_usize());
    assert!(caps.bootinfo.paddr().as_usize() < caps.untyped_cspace.paddr().as_usize());
    assert_eq!(caps.kernel.cap_type(), CapType::Kernel);
    assert_eq!(caps.console.cap_type(), CapType::Console);
    assert_eq!(caps.irq_control.cap_type(), CapType::IrqHandler);
    assert_eq!(asids.current_asid, 1);
}

#[test]
fn root_task_capabilities_need_memory() {
    let mut pmem = PmemManager::new();
    pmem.add_region(PhysAddr::from(0x8000_0000), PhysAddr::from(0x8000_3000));
    let mut asids = AsidManager::new();
    let (caps, _) = alloc_root_caps(&mut pmem, &mut asids);
    assert_eq!(caps.err(), Some(Error::OutOfMemory));
    // the root table was taken before the capability node found no room
    assert_eq!(pmem.regions[0].current.as_usize(), 0x8000_1000);
    assert_eq!(asids.current_asid, 1);
}

#[test]
fn boot_information_prefers_acpi_and_clips_the_command_line() {
    let mut bi = BootInfo::new();
    let tables = PlatformTables { rsdp: Some(0x8fff_0000), dtb: Some((0x8200_0000, 0x2000)) };
    let r = init_bootinfo(&mut bi, Some((0x8800_0000, 0x1800)), tables, Some(b"-v -s"), 3, [7u8; 64], [9u8; 8]);
    assert_eq!(r, Ok(()));
    assert_eq!((bi.initrd_paddr, bi.initrd_size), (0x8800_0000, 0x1800));
    assert_eq!(bi.platform_type, PlatformType::ACPI);
    assert_eq!((bi.addr, bi.size), (0x8fff_0000, 0x1000));
    assert_eq!(&bi.cmdline[..6], b"-v -s\0");
    assert_eq!(bi.version, 3);
    assert_eq!(bi.build[63], 7);
    assert_eq!(bi.git_hash[0], 9);

    let mut bi = BootInfo::new();
    let long = vec![b'x'; 300];
    init_bootinfo(&mut bi, None, PlatformTables { rsdp: None, dtb: Some((0x8200_0000, 0x2000)) }, Some(&long), 0, [0u8; 64], [0u8; 8]).unwrap();
    assert_eq!(bi.platform_type, PlatformType::DTB);
    assert_eq!((bi.addr, bi.size), (0x8200_0000, 0x2000));
    assert!(bi.cmdline.iter().all(|&c| c == b'x'));
    assert_eq!((bi.initrd_paddr, bi.initrd_size), (0, 0));

    let mut bi = BootInfo::new();
    init_bootinfo(&mut bi, None, PlatformTables { rsdp: None, dtb: None }, None, 0, [0u8; 64], [0u8; 8]).unwrap();
    assert_eq!(bi.platform_type, PlatformType::NULL);
}

#[test]
fn root_thread_is_ready_with_its_resources() {
    let mut pmem = PmemManager::new();
    pmem.add_region(PhysAddr::from(0x8000_0000), PhysAddr::from(0x8010_0000));
    let mut asids = AsidManager::new();
    let caps = alloc_root_caps(&mut pmem, &mut asids).0.unwrap();
    let t = root_tcb(&caps);
    assert_eq!(t.state, ThreadState::Ready);
    assert_eq!((t.priority, t.base_priority), (ROOT_TASK_PRIORITY, ROOT_TASK_PRIORITY));
    assert_eq!(t.vspace_root, Some(caps.vspace));
    assert_eq!(t.cspace_root, Some(caps.cspace));
    assert_eq!(t.kstack, Some(caps.kstack));
    assert_eq!(t.utcb_va as u64, glenda::mem::UTCB_VA);
    assert_eq!(t.trapframe_va as u64, glenda::mem::TRAPFRAME_VA);
}

#[test]
fn flat_payload_is_mapped_page_by_page() {
    let mut img = image_with(&[("flat", 200, 5000)], 200 + 5000);
    img[200] = 0x13;
    let p = find(Some(&img), b"flat").unwrap();
    assert_eq!(p.info(&img, 0x7000_0000), (0x10000, 0x7000_0000));
    let mut pt = PageTable::new();
    let mut store = TableStore::new();
    let mut pmem = PmemManager::new();
    pmem.add_region(PhysAddr::from(0x8000_0000), PhysAddr::from(0x8010_0000));
    let fills = p.map_flat(&mut pt, &mut store, &mut pmem, 0x10000).ok().unwrap();
    assert_eq!(fills.len(), 2);
    assert_eq!((fills[0].load.va, fills[0].load.src_off, fills[0].load.len), (0x10000, 0, 4096));
    assert_eq!((fills[1].load.va, fills[1].load.src_off, fills[1].load.len), (0x11000, 4096, 904));
    assert_eq!(fills[0].load.flags, 0x1F);
    let loc = pt.walk(&store, VirtAddr::from(0x11000)).unwrap();
    let e = pt.read_entry(&store, loc);
    assert_eq!(e.pa().as_usize(), fills[1].frame.as_usize());
    assert_eq!(e.get_flags().as_usize(), 0x1F);
    let mut none = PmemManager::new();
    assert!(p.map_flat(&mut PageTable::new(), &mut TableStore::new(), &mut none, 0x10000).is_err());
}

#[test]
fn elf_payload_entry_comes_from_its_header() {
    let mut elf = elf_image();
    elf[24..32].copy_from_slice(&0x2_0040u64.to_le_bytes());
    let mut img = image_with(&[("elf", 400, elf.len() as u32)], 400 + elf.len());
    img[400..].copy_from_slice(&elf);
    let p = find(Some(&img), b"elf").unwrap();
    assert_eq!(p.info(&img, 0x7000_0000), (0x2_0040, 0x7000_0000));
}

#[test]
fn untyped_regions_become_capabilities_and_fill_the_boot_list() {
    let mut info = BootInfo::new();
    let regions: Vec<UntypedRegion> = (0..6u64)
        .map(|k| UntypedRegion { start: PhysAddr::from(0x8100_0000 + k * 0x10_0000), pages: 256, watermark: 0 })
        .collect();
    let caps = record_untyped(&mut info, &regions);
    assert_eq!(caps.len(), 6);
    assert_eq!(caps[5].paddr.0, 0x8150_0000);
    assert_eq!(caps[5].data, 256);
    assert_eq!(caps[0].rights.0, 0xFF);
    assert_eq!(info.untyped_count, 4);
    assert_eq!(info.untyped_list[3].start.0, 0x8130_0000);
    // A full list takes no more.
    let more = record_untyped(&mut info, &regions[..1].to_vec());
    assert_eq!(more.len(), 1);
    assert_eq!(info.untyped_count, 4);
    assert_eq!(info.untyped_list[0].start.0, 0x8100_0000);
}

#[test]
fn segment_pieces_land_in_their_frames() {
    let image: Vec<u8> = (0..64u8).collect();
    let fills = vec![
        FrameFill { frame: PhysAddr::from(0x9000_0000), load: PageLoad { va: 0x1_0000, flags: 0x17, dst_off: 0x10, src_off: 4, len: 8 } },
        FrameFill { frame: PhysAddr::from(0x9000_1000), load: PageLoad { va: 0x1_1000, flags: 0x17, dst_off: 0, src_off: 12, len: 4 } },
    ];
    let mut mem = PhysMem::new();
    mem.write(0x9000_0000, 0x77);
    assert!(load_fills(&mut mem, &image, 10, &fills));
    assert_eq!(mem.read(0x9000_0000), 0);
    assert_eq!(mem.read(0x9000_0010), 14);
    assert_eq!(mem.read(0x9000_0017), 21);
    assert_eq!(mem.read(0x9000_1003), 25);
    let bad = vec![FrameFill { frame: PhysAddr::from(0x9000_2000), load: PageLoad { va: 0, flags: 0, dst_off: 4090, src_off: 0, len: 8 } }];
    assert!(!load_fills(&mut mem, &image, 0, &bad));
    assert_eq!(mem.read(0x9000_2000), 0);
}

#[test]
fn entry_point_goes_into_the_trap_frame() {
    let mut tcb = TCB::new();
    tcb.kstack = Some(Capability::create(CapType::Frame, PhysAddr::from(0x8030_0000), 4, Rights(0xFF)));
    let mut tf = TrapFrame::new();
    tcb.set_entrypoint(&mut tf, 0x8000_0000_0008_0200, 0x1_0000, 0x7000_0000, 0, 1, 0xAAAA, 0xBBBB);
    assert_eq!((tf.epc, tf.sp, tf.tp), (0x1_0000, 0x7000_0000, 0));
    assert_eq!(tf.kernel_satp, 0x8000_0000_0008_0200);
    assert_eq!(tf.kernel_hartid, 1);
    assert_eq!(tf.kernel_sp, 0x8030_4000);
    assert_eq!(tf.kernel_trap, 0xAAAA);
    assert_eq!((tcb.context.ra, tcb.context.sp), (0xBBBB, 0x8030_4000));
}

#[test]
fn guest_state_is_written_back_to_the_trap_frame() {
    let mut v = VcpuState::new();
    v.pc = 0x8020_0000;
    for i in 0..32 {
        v.regs[i] = 100 + i;
    }
    let mut tf = TrapFrame::new();
    tf.sp = 0x1234;
    v.write_back(&mut tf);
    assert_eq!(tf.epc, 0x8020_0000);
    assert_eq!(tf.args, [110, 111, 112, 113, 114, 115, 116, 117]);
    assert_eq!(tf.sp, 0x1234);
}

#[test]
fn next_to_run_takes_its_own_queue_first_then_steals() {
    let mut s = Scheduler::new(2);
    let mine = s.register(thread(10, ThreadState::Ready));
    let other = s.register(thread(20, ThreadState::Ready));
    s.threads[other].affinity = 1;
    s.add_thread(mine, 0);
    s.add_thread(other, 0);
    assert_eq!(s.next_to_run(0), Some(mine));
    assert_eq!(s.next_to_run(0), Some(other));
    assert_eq!(s.threads[other].cpu_id, 0);
    assert_eq!(s.next_to_run(0), None);
}
