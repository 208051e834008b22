use glenda::cap::{Badge, CapPtr, CapType, Capability, Rights};
use glenda::error::Error;
use glenda::ipc::endpoint::Endpoint;
use glenda::ipc::message::{MsgTag, FLAG_HAS_BUFFER, FLAG_HAS_CAP, LABEL_NOTIFY};
use glenda::ipc::utcb::{UTCB, IPC_BUFFER_SIZE};
use glenda::ipc::{call, copy_msg, finish_call, finish_delivery, notify, proxy, recv, reply, send, IpcStep};
use glenda::mem::addr::PhysAddr;
use glenda::proc::scheduler::Scheduler;
use glenda::proc::thread::{ThreadState, TCB};

fn frame_cap() -> Capability {
    Capability::create(CapType::Frame, PhysAddr::from(0x9000_0000), 1, Rights(0xFF))
}

fn setup(n: usize) -> (Scheduler, Endpoint, Vec<UTCB>) {
    let mut s = Scheduler::new(1);
    let mut u = Vec::new();
    for _ in 0..n {
        let mut t = TCB::new();
        t.priority = 5;
        t.utcb_frame = Some(frame_cap());
        s.register(t);
        u.push(UTCB::new());
    }
    (s, Endpoint::new(), u)
}

#[test]
fn message_tag_fields() {
    let mut t = MsgTag::new(0x1234, 0x15);
    assert_eq!(t.label(), 0x1234);
    assert_eq!(t.length(), 5);
    assert!(!t.has_cap());
    t.set_has_cap();
    assert!(t.has_cap());
    assert_eq!(t.label(), 0x1234);
    assert_eq!(t.length(), 5);
    assert!(MsgTag(FLAG_HAS_BUFFER).has_buffer());
    assert_eq!(FLAG_HAS_CAP, 16);
}

#[test]
fn utcb_read_gives_back_what_was_written() {
    let mut u = UTCB::new();
    assert_eq!(u.write(b"hello world"), 11);
    assert_eq!(u.available_data(), 11);
    assert_eq!(u.available_space(), IPC_BUFFER_SIZE - 11);
    let mut out = vec![0u8; 5];
    assert_eq!(u.read(&mut out), 5);
    assert_eq!(&out, b"hello");
    let mut rest = vec![0u8; 32];
    assert_eq!(u.read(&mut rest), 6);
    assert_eq!(&rest[..6], b" world");
    assert_eq!(u.available_data(), 0);
    let big = vec![7u8; IPC_BUFFER_SIZE + 100];
    assert_eq!(u.write(&big), IPC_BUFFER_SIZE);
}

#[test]
fn copy_to_moves_the_buffer_only_when_flagged() {
    let mut a = UTCB::new();
    a.write(b"abc");
    a.msg_tag = MsgTag(3);
    a.mrs_regs[1] = 99;
    let mut b = UTCB::new();
    a.copy_to(&mut b);
    assert_eq!(b.msg_tag, MsgTag(3));
    assert_eq!(b.mrs_regs[1], 99);
    assert_eq!(b.size, 0);
    a.msg_tag = MsgTag(3 | FLAG_HAS_BUFFER);
    a.copy_to(&mut b);
    assert_eq!(b.size, 3);
    assert_eq!(&b.ipc_buffer[..3], b"abc");
}

#[test]
fn endpoint_queues_are_fifo_and_notifications_accumulate() {
    let mut ep = Endpoint::new();
    ep.enqueue_send(3);
    ep.enqueue_send(1);
    assert_eq!(ep.dequeue_send(), Some(3));
    assert_eq!(ep.dequeue_send(), Some(1));
    assert_eq!(ep.dequeue_send(), None);
    ep.notify(Badge::from(0b01));
    ep.notify(Badge::from(0b10));
    assert_eq!(ep.poll_notification().get(), 0b11);
    assert_eq!(ep.poll_notification().get(), 0);
    ep.enqueue_recv(4);
    ep.enqueue_send(2);
    assert_eq!(ep.destroy(), vec![2, 4]);
}

#[test]
fn send_to_a_waiting_receiver_delivers_message_and_badge() {
    let (mut s, mut ep, mut u) = setup(2);
    assert!(matches!(recv(&mut s, &mut ep, &mut u, 1), IpcStep::Blocked));
    assert_eq!(s.threads[1].state, ThreadState::BlockedRecv);
    u[0].msg_tag = MsgTag::new(7, 2);
    u[0].mrs_regs[0] = 11;
    u[0].mrs_regs[1] = 22;
    let cap = Capability::create(CapType::Endpoint, PhysAddr::from(0x7000), 0, Rights(0xFF));
    u[1].recv_window = CapPtr(40);
    match send(&mut s, &mut ep, &mut u, 0, Badge::from(0xBEEF), Some(cap)) {
        IpcStep::Delivered { partner, inserts, wake } => {
            assert_eq!(partner, 1);
            assert!(wake);
            assert_eq!(inserts.len(), 1);
            assert_eq!(inserts[0].thread, 1);
            assert_eq!(inserts[0].window, CapPtr(40));
            assert_eq!(inserts[0].cap, cap);
            finish_delivery(&mut s, partner, wake, 0);
        }
        _ => panic!("expected a delivery"),
    }
    assert_eq!(u[1].msg_tag, MsgTag::new(7, 2));
    assert_eq!(u[1].mrs_regs[0], 11);
    assert_eq!(u[1].mrs_regs[1], 22);
    assert_eq!(u[1].badge, Badge::from(0xBEEF));
    assert_eq!(s.threads[1].state, ThreadState::Ready);
}

#[test]
fn send_without_receiver_blocks_and_recv_takes_the_badge() {
    let (mut s, mut ep, mut u) = setup(2);
    u[0].mrs_regs[2] = 5;
    assert!(matches!(send(&mut s, &mut ep, &mut u, 0, Badge::from(9), None), IpcStep::Blocked));
    assert_eq!(s.threads[0].state, ThreadState::BlockedSend);
    match recv(&mut s, &mut ep, &mut u, 1) {
        IpcStep::Delivered { partner, inserts, wake } => {
            assert_eq!(partner, 0);
            assert!(wake);
            assert!(inserts.is_empty());
        }
        _ => panic!("expected a delivery"),
    }
    assert_eq!(u[1].badge, Badge::from(9));
    assert_eq!(u[1].mrs_regs[2], 5);
}

#[test]
fn call_and_reply_round_trip() {
    let (mut s, mut ep, mut u) = setup(2);
    assert!(matches!(call(&mut s, &mut ep, &mut u, 0, Badge::from(1), None), IpcStep::Blocked));
    assert_eq!(s.threads[0].state, ThreadState::BlockedCall);
    u[1].reply_window = CapPtr(3);
    match recv(&mut s, &mut ep, &mut u, 1) {
        IpcStep::Delivered { partner, inserts, wake } => {
            assert_eq!(partner, 0);
            assert!(!wake);
            assert_eq!(inserts.len(), 1);
            assert_eq!(inserts[0].cap.cap_type, CapType::Reply);
            assert_eq!(inserts[0].cap.data, 0);
            assert_eq!(inserts[0].window, CapPtr(3));
        }
        _ => panic!("expected a delivery"),
    }
    u[1].mrs_regs[0] = 77;
    match reply(&s, &mut u, 1, 0, None) {
        Ok(IpcStep::Delivered { partner, wake, .. }) => {
            assert_eq!(partner, 0);
            finish_delivery(&mut s, partner, wake, 0);
        }
        _ => panic!("expected a reply"),
    }
    assert_eq!(u[0].mrs_regs[0], 77);
    assert_eq!(u[0].badge, Badge::null());
    assert_eq!(s.threads[0].state, ThreadState::Ready);
    assert!(matches!(reply(&s, &mut u, 1, 0, None), Err(Error::InvalidCapability)));
}

#[test]
fn call_meeting_a_receiver_then_blocks_the_caller() {
    let (mut s, mut ep, mut u) = setup(2);
    recv(&mut s, &mut ep, &mut u, 1);
    match call(&mut s, &mut ep, &mut u, 0, Badge::from(2), None) {
        IpcStep::Delivered { partner, inserts, .. } => {
            assert_eq!(partner, 1);
            assert_eq!(inserts.len(), 1);
            let (_, block) = finish_call(&mut s, 0, partner, 0);
            assert!(block);
        }
        _ => panic!("expected a delivery"),
    }
    assert_eq!(s.threads[0].state, ThreadState::BlockedCall);
    assert_eq!(s.threads[1].state, ThreadState::Ready);
}

#[test]
fn notify_reaches_a_waiting_receiver_or_stays_pending() {
    let (mut s, mut ep, mut u) = setup(2);
    assert!(matches!(notify(&s, &mut ep, &mut u, Badge::from(4)), IpcStep::Notified));
    assert!(matches!(recv(&mut s, &mut ep, &mut u, 1), IpcStep::Notified));
    assert_eq!(u[1].badge, Badge::from(4));
    assert_eq!(u[1].msg_tag.label(), LABEL_NOTIFY);
    recv(&mut s, &mut ep, &mut u, 1);
    match notify(&s, &mut ep, &mut u, Badge::from(8)) {
        IpcStep::Delivered { partner, .. } => assert_eq!(partner, 1),
        _ => panic!("expected a delivery"),
    }
    assert_eq!(u[1].badge, Badge::from(8));
}

#[test]
fn proxy_forwards_the_last_badge() {
    let (mut s, mut ep, mut u) = setup(2);
    u[0].badge = Badge::from(0x55);
    let (b, step) = proxy(&mut s, &mut ep, &mut u, 0, None);
    assert_eq!(b, Badge::from(0x55));
    assert!(matches!(step, IpcStep::Blocked));
    assert_eq!(s.threads[0].ipc_badge, Badge::from(0x55));
}

#[test]
fn copy_msg_lists_cap_then_reply() {
    let mut u = vec![UTCB::new(), UTCB::new()];
    u[1].recv_window = CapPtr(1);
    u[1].reply_window = CapPtr(2);
    let c = frame_cap();
    let r = copy_msg(&mut u, 0, 1, Badge::from(3), Some(c), Some(c));
    assert_eq!(r.len(), 2);
    assert_eq!(r[0].window, CapPtr(1));
    assert_eq!(r[1].window, CapPtr(2));
    assert_eq!(u[1].badge, Badge::from(3));
}

#[test]
fn copy_cuts_an_oversized_buffer_and_write_resets_any_position() {
    let mut src = UTCB::new();
    src.write(&[7u8; 10]);
    src.msg_tag = MsgTag(FLAG_HAS_BUFFER);
    src.head = 4;
    src.size = IPC_BUFFER_SIZE + 100;
    let mut dst = UTCB::new();
    src.copy_to(&mut dst);
    assert_eq!(dst.size, IPC_BUFFER_SIZE);
    assert_eq!(dst.head, 4);
    assert_eq!(dst.ipc_buffer[9], 7);
    let mut u = UTCB::new();
    u.head = 9000;
    u.size = 5;
    assert_eq!(u.write(b"abc"), 3);
    assert_eq!((u.head, u.size), (0, 3));
}
