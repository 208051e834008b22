use glenda::cap::{Badge, CapType, Capability, Rights, RIGHT_GRANT, RIGHT_READ, RIGHT_WRITE};
use glenda::error::Error;
use glenda::irq::timer::{Alarm, TimerState};
use glenda::irq::{IrqAction, IrqTable, IRQ, MAX_IRQS};
use glenda::mem::addr::PhysAddr;
use glenda::mem::pmem::{alloc_cnode_cap, alloc_frame_cap, alloc_vspace_cap, get_untyped, initialize_regions, PmemManager};
use glenda::mem::vspace::VSpace;
use glenda::platform::{platform_from_facts, FdtFacts, MemoryRegion, MemoryType};
use glenda::proc::asid::AsidManager;
use glenda::proc::bootinfo::{BootInfo, PlatformType};
use glenda::shell::{debug_kind, inspect_line, parse_command, parse_number, split_words, ConsoleState, DebugKind, ShellBuffer, ShellCommand};

#[test]
fn capability_rights_and_badges() {
    let c = Capability::create(CapType::Endpoint, PhysAddr::from(0x1000), 0, Rights(RIGHT_READ | RIGHT_WRITE));
    assert!(c.has_rights(Rights(RIGHT_READ)));
    assert!(!c.has_rights(Rights(RIGHT_GRANT)));
    assert!(c.get_badge().is_null());
    assert_eq!(c.obj_ptr().as_usize(), 0x1000);
    assert_eq!(Badge::from(5).get(), 5);
}

#[test]
fn irq_binding_then_claim_notifies_the_endpoint() {
    let mut t = IrqTable::new();
    let mut ep = Capability::create(CapType::Endpoint, PhysAddr::from(0x4000), 0, Rights(0xFF));
    ep.badge = Badge::from(2);
    assert_eq!(t.handle_claimed(10), Ok(IrqAction::Unmask));
    assert_eq!(t.bind_notification(10, &ep), Ok(()));
    assert_eq!(t.handle_claimed(10), Ok(IrqAction::NotifyEndpoint(PhysAddr::from(0x4000), Badge::from(2))));
    assert_eq!(t.bind_notification(MAX_IRQS, &ep), Err(Error::InvalidAddress));
    assert_eq!(t.handle_claimed(MAX_IRQS), Err(Error::InvalidAddress));
    let frame = Capability::create(CapType::Frame, PhysAddr::from(0x4000), 0, Rights(0xFF));
    t.bind_notification(11, &frame).unwrap();
    assert_eq!(t.handle_claimed(11), Err(Error::InvalidCapability));
    assert_eq!(t.clear_notification(10), Ok(()));
    assert_eq!(t.handle_claimed(10), Ok(IrqAction::Unmask));
    assert_eq!(IRQ::new(3).id(), 3);
}

#[test]
fn timer_charges_the_slice_and_fires_alarms() {
    let mut t = TimerState::new();
    let p = t.program_next_tick(1000, Some(300), 100);
    assert_eq!(p.timeslice, Some(300));
    assert_eq!(p.next, 1300);
    let p = t.program_next_tick(1100, Some(300), 100);
    assert_eq!(p.timeslice, Some(200));
    assert_eq!(p.next, 1300);
    let ep = Capability::create(CapType::Endpoint, PhysAddr::from(0x4000), 0, Rights(0xFF));
    let p = t.set_alarm(1150, ep, 1120, Some(500), 100);
    assert_eq!(p.next, 1150);
    assert!(p.fired.is_none());
    let p = t.program_next_tick(1200, None, 100);
    assert_eq!(p.fired, Some(Alarm { time: 1150, ep }));
    assert_eq!(p.next, 1300);
    assert!(t.alarm.is_none());
}

#[test]
fn pmem_init_skips_the_kernel_and_hands_out_untyped() {
    let info = vec![
        MemoryRegion { start: PhysAddr::from(0x8000_0000), size: 0x10_0000, region_type: MemoryType::Ram },
        MemoryRegion { start: PhysAddr::from(0x1000_0000), size: 0x1000, region_type: MemoryType::Mmio },
    ];
    let mut p = PmemManager::new();
    initialize_regions(&mut p, PhysAddr::from(0x8002_0000), &info);
    assert_eq!(p.regions.len(), 1);
    assert_eq!(p.regions[0].current.as_usize(), 0x8002_0000);
    let f = alloc_frame_cap(&mut p, 2).unwrap();
    assert_eq!(f.paddr().as_usize(), 0x8002_0000);
    assert_eq!(f.get_data(), 2);
    let c = alloc_cnode_cap(&mut p).unwrap();
    assert_eq!(c.cap_type(), CapType::CNode);
    let mut asids = AsidManager::new();
    let (v, flush) = alloc_vspace_cap(&mut p, &mut asids);
    let v = v.unwrap();
    assert!(!flush);
    assert_eq!(v.vspace_info().1.id, 1);
    let (regions, n) = get_untyped(&mut p);
    assert_eq!(n, 1);
    assert_eq!(regions[0].start.as_usize(), 0x8002_7000);
    assert!(p.alloc_addr(0x1000, 0x1000).is_none());
}

#[test]
fn vspace_satp_value() {
    let mut v = VSpace::new(PhysAddr::from(0x8040_0000));
    v.asid = 3;
    assert_eq!(v.satp_value(), (8u64 << 60) | (3u64 << 44) | 0x80400);
    assert_eq!(v.root_paddr(), PhysAddr::from(0x8040_0000));
}

#[test]
fn bootinfo_starts_empty() {
    let b = BootInfo::new();
    assert_eq!(b.untyped_count, 0);
    assert_eq!(b.platform_type, PlatformType::NULL);
    assert!(b.cmdline.iter().all(|&c| c == 0));
}

#[test]
fn shell_buffer_holds_at_most_128_bytes() {
    let mut b = ShellBuffer::new();
    for c in b"help".iter() {
        b.push(*c);
    }
    assert_eq!(b.as_str(), b"help".to_vec());
    b.pop();
    assert_eq!(b.len(), 3);
    for _ in 0..200 {
        b.push(b'x');
    }
    assert_eq!(b.len(), 128);
    b.clear();
    assert_eq!(b.len(), 0);
    b.push(0xFF);
    assert!(b.as_str().is_empty());
}

#[test]
fn shell_lines_split_into_words_and_commands() {
    assert_eq!(split_words(b"  inspect\t0x10  32 "), vec![b"inspect".to_vec(), b"0x10".to_vec(), b"32".to_vec()]);
    assert!(matches!(parse_command(b"   "), ShellCommand::Nothing));
    assert!(matches!(parse_command(b"help"), ShellCommand::Help));
    assert!(matches!(parse_command(b" mem "), ShellCommand::Mem));
    assert!(matches!(parse_command(b"debug 0x10"), ShellCommand::DebugUsage));
    match parse_command(b"inspect 0x10 32") {
        ShellCommand::Inspect(a, l) => {
            assert_eq!(a, b"0x10".to_vec());
            assert_eq!(l, b"32".to_vec());
        }
        _ => panic!("expected inspect"),
    }
    match parse_command(b"frobnicate now") {
        ShellCommand::Unknown(c) => assert_eq!(c, b"frobnicate".to_vec()),
        _ => panic!("expected unknown"),
    }
}

#[test]
fn shell_numbers_in_hex_and_decimal() {
    assert_eq!(parse_number(b"0x1f"), Some(31));
    assert_eq!(parse_number(b"0X1f"), None);
    assert_eq!(parse_number(b"42"), Some(42));
    assert_eq!(parse_number(b"+7"), Some(7));
    assert_eq!(parse_number(b"+"), None);
    assert_eq!(parse_number(b"-1"), None);
    assert_eq!(parse_number(b""), None);
    assert_eq!(parse_number(b"0x"), None);
    assert_eq!(parse_number(b"12a"), None);
    assert_eq!(parse_number(b"0xFFFFFFFFFFFFFFFF"), Some(usize::MAX));
    assert_eq!(parse_number(b"0x10000000000000000"), None);
}

#[test]
fn console_state_settings() {
    let mut c = ConsoleState::new();
    assert!(c.is_verbose());
    c.set_verbose(false);
    assert!(!c.is_verbose());
    let ep = Capability::create(CapType::Endpoint, PhysAddr::from(0x4000), 0, Rights(0xFF));
    c.set_console_endpoint(Some(ep));
    assert_eq!(c.get_console_endpoint(), Some(ep));
}

#[test]
fn inspect_line_shows_hex_and_text_columns() {
    let line = inspect_line(0x8020_0000, b"Hi\x00~");
    let mut want = String::from("0000000080200000:  48 69 00 7e ");
    want.push_str(&"   ".repeat(12));
    want.push_str(" |Hi.~            |\n");
    assert_eq!(String::from_utf8(line).unwrap(), want);
    let full: Vec<u8> = (0x41u8..0x51).collect();
    let line = String::from_utf8(inspect_line(0xffff_ffff_ffff_fff0, &full)).unwrap();
    assert_eq!(line, "fffffffffffffff0:  41 42 43 44 45 46 47 48 49 4a 4b 4c 4d 4e 4f 50  |ABCDEFGHIJKLMNOP|\n");
}

#[test]
fn debug_type_words() {
    assert_eq!(debug_kind(b"tcb"), DebugKind::Tcb);
    assert_eq!(debug_kind(b"pagetable"), DebugKind::PageTable);
    assert_eq!(debug_kind(b"cnode"), DebugKind::CNode);
    assert_eq!(debug_kind(b"capability"), DebugKind::Capability);
    assert_eq!(debug_kind(b"TCB"), DebugKind::Unknown);
}

#[test]
fn words_are_split_on_unicode_whitespace() {
    let line = "\u{3000}inspect\u{a0}0x10\u{2003}16\u{85}".as_bytes();
    let words = split_words(line);
    assert_eq!(words, vec![b"inspect".to_vec(), b"0x10".to_vec(), b"16".to_vec()]);
    match parse_command(line) {
        ShellCommand::Inspect(a, l) => {
            assert_eq!(a, b"0x10".to_vec());
            assert_eq!(l, b"16".to_vec());
        }
        _ => panic!("expected inspect"),
    }
    assert_eq!(split_words("x\u{2080}y".as_bytes()).len(), 1);
}

#[test]
fn platform_from_device_tree_facts() {
    let mut memory = vec![(0x8000_0000u64, Some(0x800_0000usize)), (0x9000_0000u64, None)];
    for k in 0..200u64 {
        memory.push((0xA000_0000 + k * 0x1000, Some(0x1000)));
    }
    let facts = FdtFacts {
        memory,
        cpu_count: 4,
        timebase_freq: Some(10_000_000),
        bootargs: None,
        model: b"riscv-virtio,qemu".to_vec(),
    };
    let p = platform_from_facts(facts);
    assert_eq!(p.regions.len(), 128);
    assert_eq!(p.regions[0].start.0, 0x8000_0000);
    assert_eq!(p.regions[0].size, 0x800_0000);
    assert_eq!(p.regions[0].region_type, MemoryType::Ram);
    assert_eq!(p.regions[1].size, 0);
    assert_eq!(p.regions[127].start.0, 0xA000_0000 + 125 * 0x1000);
    assert!(p.bootargs.is_empty());
    assert_eq!(p.cpu_count, 4);
    assert_eq!(p.timebase_freq, 10_000_000);
    assert_eq!(p.model, b"riscv-virtio,qemu".to_vec());
}

#[test]
fn platform_without_cpus_has_no_timebase() {
    let facts = FdtFacts {
        memory: Vec::new(),
        cpu_count: 0,
        timebase_freq: None,
        bootargs: Some(b"-v -s".to_vec()),
        model: Vec::new(),
    };
    let p = platform_from_facts(facts);
    assert!(p.regions.is_empty());
    assert_eq!(p.timebase_freq, 0);
    assert_eq!(p.bootargs, b"-v -s".to_vec());
}
