//! Inter-process communication: message tags, user thread control blocks and
//! endpoints, and the send, receive, call, reply and notify operations.
//!
//! Threads are named by their index in the scheduler's table, and thread `t`'s
//! user control block is `utcbs[t]`. An operation that meets its partner copies
//! the message at once and returns the capabilities to place in the partner's
//! capability space; the caller places them and then finishes the operation
//! (`finish_delivery`, `finish_call`), or stops at the first that fails.
use vstd::prelude::*;

pub mod endpoint;
pub mod message;
pub mod utcb;

pub use endpoint::Endpoint;
pub use message::MsgTag;

use crate::cap::{Badge, CapPtr, CapType, Capability, Rights, RIGHTS_ALL};
use crate::error::Error;
use crate::mem::addr::PhysAddr;
use crate::proc::scheduler::{Scheduler, WakeOutcome, MAX_CPUS, woken};
use crate::proc::thread::{TCB, ThreadState};
use message::{LABEL_NOTIFY, FLAG_HAS_BUFFER};
use utcb::{UTCB, IPC_BUFFER_SIZE, copied_len};

verus! {

/// A capability to place in a thread's capability space at `window`.
#[derive(Clone, Copy, Debug)]
pub struct CapInsert {
    pub thread: usize,
    pub window: CapPtr,
    pub cap: Capability,
}

/// What an IPC operation did.
pub enum IpcStep {
    /// The message reached `partner`; the capabilities in `inserts` are to be
    /// placed, and `wake` says whether the partner is to be woken.
    Delivered { partner: usize, inserts: Vec<CapInsert>, wake: bool },
    /// A notification was taken instead of a message, or left pending.
    Notified,
    /// The caller waits in the endpoint's queue.
    Blocked,
}

/// Thread `t` has a user control block: its UTCB capability is a frame.
pub open spec fn has_utcb(tcb: TCB) -> bool {
    tcb.utcb_frame matches Some(c) && c.cap_type == CapType::Frame
}

/// Every control block is well formed and there is one per thread.
pub open spec fn utcbs_wf(utcbs: Seq<UTCB>, n: int) -> bool {
    &&& utcbs.len() == n
    &&& forall|i: int| 0 <= i < utcbs.len() ==> (#[trigger] utcbs[i]).wf()
}

/// The endpoint's queues name threads of the table.
pub open spec fn ep_wf(ep: &Endpoint, n: int) -> bool {
    &&& forall|i: int| 0 <= i < ep.send_queue@.len() ==> (#[trigger] ep.send_queue@[i]) < n
    &&& forall|i: int| 0 <= i < ep.recv_queue@.len() ==> (#[trigger] ep.recv_queue@[i]) < n
}

/// `after` is `before` with the message of `src` delivered and `badge` recorded:
/// the tag and message registers, and, when the tag says the message has a
/// buffer, the read position, the size and the buffered bytes (at most a full
/// buffer: a larger size is cut to the buffer's).
pub open spec fn delivered(src: UTCB, before: UTCB, after: UTCB, badge: Badge) -> bool {
    &&& after.wf()
    &&& after.msg_tag == src.msg_tag
    &&& after.mrs_regs@ == src.mrs_regs@
    &&& after.badge == badge
    &&& after.cap_transfer == before.cap_transfer
    &&& after.recv_window == before.recv_window
    &&& after.reply_window == before.reply_window
    &&& if src.msg_tag.0 & FLAG_HAS_BUFFER != 0 {
        let n = copied_len(src.size) as int;
        &&& after.head == src.head
        &&& after.size == n
        &&& after.ipc_buffer@ == src.ipc_buffer@.subrange(0, n) + before.ipc_buffer@.subrange(n, IPC_BUFFER_SIZE as int)
    } else {
        &&& after.head == before.head
        &&& after.size == before.size
        &&& after.ipc_buffer@ == before.ipc_buffer@
    }
}

/// The capabilities a delivery places: the transferred one at the receiver's
/// receive window, then the reply capability at its reply window.
pub open spec fn inserts_of(receiver: usize, dst: UTCB, cap: Option<Capability>, reply_cap: Option<Capability>) -> Seq<CapInsert> {
    let a = match cap {
        Some(c) => seq![CapInsert { thread: receiver, window: dst.recv_window, cap: c }],
        None => Seq::empty(),
    };
    let b = match reply_cap {
        Some(c) => seq![CapInsert { thread: receiver, window: dst.reply_window, cap: c }],
        None => Seq::empty(),
    };
    a + b
}

/// The reply capability that lets a reply reach thread `t`.
pub open spec fn reply_cap_of(t: usize) -> Capability {
    Capability::spec_new(CapType::Reply, PhysAddr(0), t, Rights(RIGHTS_ALL))
}

/// The tag a receiver finds after a notification.
pub open spec fn notify_tag() -> MsgTag {
    MsgTag(((LABEL_NOTIFY << 16usize) | (0usize & 0xF)) as usize)
}

/// Copies the message of thread `sender` to thread `receiver` and records
/// `badge` there; returns the capabilities to place (see `inserts_of`).
pub fn copy_msg(
    utcbs: &mut Vec<UTCB>,
    sender: usize,
    receiver: usize,
    badge: Badge,
    cap: Option<Capability>,
    reply_cap: Option<Capability>,
) -> (r: Vec<CapInsert>)
    requires
        sender != receiver,
        sender < old(utcbs)@.len(),
        receiver < old(utcbs)@.len(),
        utcbs_wf(old(utcbs)@, old(utcbs)@.len() as int),
    ensures
        utcbs_wf(final(utcbs)@, old(utcbs)@.len() as int),
        forall|i: int| 0 <= i < final(utcbs)@.len() && i != receiver ==> #[trigger] final(utcbs)@[i] == old(utcbs)@[i],
        delivered(old(utcbs)@[sender as int], old(utcbs)@[receiver as int], final(utcbs)@[receiver as int], badge),
        r@ == inserts_of(receiver, old(utcbs)@[receiver as int], cap, reply_cap),
{
    let mut dst = UTCB::new();
    std::mem::swap(&mut dst, &mut utcbs[receiver]);
    let ghost before = dst;
    utcbs[sender].copy_to(&mut dst);
    dst.badge = badge;
    proof {
        let src = old(utcbs)@[sender as int];
        if src.msg_tag.0 & FLAG_HAS_BUFFER != 0 {
            let n = copied_len(src.size) as int;
            assert(dst.ipc_buffer@ =~= src.ipc_buffer@.subrange(0, n) + before.ipc_buffer@.subrange(n, IPC_BUFFER_SIZE as int)) by {
                assert(dst.ipc_buffer@.subrange(0, n) == src.ipc_buffer@.subrange(0, n));
                assert(dst.ipc_buffer@.subrange(n, IPC_BUFFER_SIZE as int) == before.ipc_buffer@.subrange(n, IPC_BUFFER_SIZE as int));
                assert forall|k: int| 0 <= k < IPC_BUFFER_SIZE implies dst.ipc_buffer@[k] == (src.ipc_buffer@.subrange(0, n)
                    + before.ipc_buffer@.subrange(n, IPC_BUFFER_SIZE as int))[k] by {
                    if k < n {
                        assert(dst.ipc_buffer@.subrange(0, n)[k] == dst.ipc_buffer@[k]);
                    } else {
                        assert(dst.ipc_buffer@.subrange(n, IPC_BUFFER_SIZE as int)[k - n] == dst.ipc_buffer@[k]);
                    }
                }
            }
        }
    }
    let mut inserts: Vec<CapInsert> = Vec::new();
    match cap {
        Some(c) => inserts.push(CapInsert { thread: receiver, window: dst.recv_window, cap: c }),
        None => {},
    }
    match reply_cap {
        Some(c) => inserts.push(CapInsert { thread: receiver, window: dst.reply_window, cap: c }),
        None => {},
    }
    proof {
        assert(inserts@ =~= inserts_of(receiver, old(utcbs)@[receiver as int], cap, reply_cap));
    }
    utcbs.set(receiver, dst);
    proof {
        assert forall|i: int| 0 <= i < utcbs@.len() implies (#[trigger] utcbs@[i]).wf() by {
            if i != receiver {
                assert(utcbs@[i] == old(utcbs)@[i]);
            }
        }
    }
    inserts
}

/// The state the operations start from: a well-formed scheduler, one control
/// block per thread, and queues that name threads of the table.
pub open spec fn ipc_ready(sched: &Scheduler, ep: &Endpoint, utcbs: Seq<UTCB>) -> bool {
    &&& sched.wf()
    &&& utcbs_wf(utcbs, sched.threads@.len() as int)
    &&& ep_wf(ep, sched.threads@.len() as int)
}

/// What the IPC operations read and change: the thread table, the endpoint's
/// queues and notification word, and the control blocks.
pub struct IpcView {
    pub threads: Seq<TCB>,
    pub send_queue: Seq<usize>,
    pub recv_queue: Seq<usize>,
    pub word: usize,
    pub utcbs: Seq<UTCB>,
}

pub open spec fn ipc_view(sched: Scheduler, ep: Endpoint, utcbs: Seq<UTCB>) -> IpcView {
    IpcView {
        threads: sched.threads@,
        send_queue: ep.send_queue@,
        recv_queue: ep.recv_queue@,
        word: ep.notification_word,
        utcbs,
    }
}

/// A send from thread `current` (with `badge`, `cap`, and `reply` for the
/// receiver's reply window) took `a` to `b` and answered `r`: the oldest
/// waiting receiver gets the message and is to be woken; with none waiting,
/// `current` joins the send queue in state `waiting`, keeping the badge and
/// the capability.
pub open spec fn send_effect(
    a: IpcView,
    b: IpcView,
    current: usize,
    badge: Badge,
    cap: Option<Capability>,
    reply: Option<Capability>,
    waiting: ThreadState,
    r: IpcStep,
) -> bool {
    &&& b.word == a.word
    &&& a.recv_queue.len() > 0 ==> {
        let rcv = a.recv_queue[0];
        &&& r matches IpcStep::Delivered { partner, inserts, wake } && partner == rcv && wake
            && inserts@ =~= inserts_of(rcv, a.utcbs[rcv as int], cap, reply)
        &&& b.recv_queue =~= a.recv_queue.drop_first()
        &&& b.send_queue =~= a.send_queue
        &&& b.threads =~= a.threads
        &&& delivered(a.utcbs[current as int], a.utcbs[rcv as int], b.utcbs[rcv as int], badge)
        &&& b.utcbs.len() == a.utcbs.len()
        &&& forall|i: int| 0 <= i < b.utcbs.len() && i != rcv ==> #[trigger] b.utcbs[i] == a.utcbs[i]
    }
    &&& a.recv_queue.len() == 0 ==> {
        let t = a.threads[current as int];
        &&& r is Blocked
        &&& b.recv_queue =~= a.recv_queue
        &&& b.send_queue =~= a.send_queue.push(current)
        &&& b.threads =~= a.threads.update(current as int, TCB { state: waiting, ipc_badge: badge, ipc_cap: cap, ..t })
        &&& b.utcbs =~= a.utcbs
    }
}

/// A receive by thread `current` took `a` to `b` and answered `r`: a pending
/// notification is taken first; else the oldest waiting sender's message
/// comes with its badge, its capability and, when it called, a reply
/// capability for it (a sender that did not call is to be woken); with
/// nothing waiting, `current` joins the receive queue.
pub open spec fn recv_effect(a: IpcView, b: IpcView, current: usize, r: IpcStep) -> bool {
    &&& b.word == 0
    &&& a.word != 0 ==> {
        &&& r is Notified
        &&& b.send_queue =~= a.send_queue
        &&& b.recv_queue =~= a.recv_queue
        &&& b.threads =~= a.threads
        &&& if has_utcb(a.threads[current as int]) {
            b.utcbs =~= a.utcbs.update(current as int, UTCB {
                msg_tag: notify_tag(),
                badge: Badge(a.word),
                ..a.utcbs[current as int]
            })
        } else {
            b.utcbs =~= a.utcbs
        }
    }
    &&& a.word == 0 && a.send_queue.len() > 0 ==> {
        let snd = a.send_queue[0];
        let st = a.threads[snd as int];
        let reply = if st.state == ThreadState::BlockedCall { Some(reply_cap_of(snd)) } else { None };
        &&& r matches IpcStep::Delivered { partner, inserts, wake } && partner == snd
            && wake == (st.state != ThreadState::BlockedCall)
            && inserts@ =~= inserts_of(current, a.utcbs[current as int], st.ipc_cap, reply)
        &&& b.send_queue =~= a.send_queue.drop_first()
        &&& b.recv_queue =~= a.recv_queue
        &&& b.threads =~= a.threads.update(snd as int, TCB { ipc_cap: None, ..st })
        &&& delivered(a.utcbs[snd as int], a.utcbs[current as int], b.utcbs[current as int], st.ipc_badge)
        &&& b.utcbs.len() == a.utcbs.len()
        &&& forall|i: int| 0 <= i < b.utcbs.len() && i != current ==> #[trigger] b.utcbs[i] == a.utcbs[i]
    }
    &&& a.word == 0 && a.send_queue.len() == 0 ==> {
        let t = a.threads[current as int];
        &&& r is Blocked
        &&& b.send_queue =~= a.send_queue
        &&& b.recv_queue =~= a.recv_queue.push(current)
        &&& b.threads =~= a.threads.update(current as int, TCB { state: ThreadState::BlockedRecv, ..t })
        &&& b.utcbs =~= a.utcbs
    }
}

/// A kernel notification with `badge` took `a` to `b` and answered `r`: the
/// oldest waiting receiver gets the notification tag and the badge in its
/// control block (when it has one) and is to be woken; with no receiver
/// waiting, the badge's bits are left pending in the notification word.
pub open spec fn notify_effect(a: IpcView, b: IpcView, badge: Badge, r: IpcStep) -> bool {
    &&& b.send_queue =~= a.send_queue
    &&& b.threads =~= a.threads
    &&& a.recv_queue.len() > 0 ==> {
        let rcv = a.recv_queue[0];
        &&& r matches IpcStep::Delivered { partner, inserts, wake } && partner == rcv && wake && inserts@.len() == 0
        &&& b.recv_queue =~= a.recv_queue.drop_first()
        &&& b.word == a.word
        &&& if has_utcb(a.threads[rcv as int]) {
            b.utcbs =~= a.utcbs.update(rcv as int, UTCB { msg_tag: notify_tag(), badge, ..a.utcbs[rcv as int] })
        } else {
            b.utcbs =~= a.utcbs
        }
    }
    &&& a.recv_queue.len() == 0 ==> {
        &&& r is Notified
        &&& b.recv_queue =~= a.recv_queue
        &&& b.word == a.word | badge.0
        &&& b.utcbs =~= a.utcbs
    }
}

/// A reply from thread `current` to thread `target` (thread table `threads`)
/// took the control blocks `u0` to `u1` and answered `r`: a target waiting
/// for a reply gets the message with no badge (and `cap`) and is to be woken;
/// any other target is refused with `InvalidCapability`.
pub open spec fn reply_effect(
    threads: Seq<TCB>,
    u0: Seq<UTCB>,
    u1: Seq<UTCB>,
    current: usize,
    target: usize,
    cap: Option<Capability>,
    r: Result<IpcStep, Error>,
) -> bool {
    &&& threads[target as int].state != ThreadState::BlockedCall ==> (r matches Err(e) && e == Error::InvalidCapability)
        && u1 =~= u0
    &&& threads[target as int].state == ThreadState::BlockedCall ==> {
        &&& r matches Ok(IpcStep::Delivered { partner, inserts, wake }) && partner == target && wake
            && inserts@ =~= inserts_of(target, u0[target as int], cap, None)
        &&& delivered(u0[current as int], u0[target as int], u1[target as int], Badge(0))
        &&& u1.len() == u0.len()
        &&& forall|i: int| 0 <= i < u1.len() && i != target ==> #[trigger] u1[i] == u0[i]
    }
}

/// Sends a message from thread `current`: when a receiver waits, the oldest one
/// gets the message with `badge` (and `cap`, to place at its receive window) and
/// is to be woken; otherwise `current` blocks sending, keeping the badge and the
/// capability for the receiver to come.
pub fn send(
    sched: &mut Scheduler,
    ep: &mut Endpoint,
    utcbs: &mut Vec<UTCB>,
    current: usize,
    badge: Badge,
    cap: Option<Capability>,
) -> (r: IpcStep)
    requires
        ipc_ready(old(sched), old(ep), old(utcbs)@),
        current < old(sched).threads@.len(),
        old(ep).recv_queue@.len() > 0 ==> old(ep).recv_queue@[0] != current,
    ensures
        ipc_ready(final(sched), final(ep), final(utcbs)@),
        final(sched).ready@ == old(sched).ready@,
        final(sched).current@ == old(sched).current@,
        send_effect(ipc_view(*old(sched), *old(ep), old(utcbs)@), ipc_view(*final(sched), *final(ep), final(utcbs)@),
            current, badge, cap, None, ThreadState::BlockedSend, r),
{
    if let Some(receiver) = ep.dequeue_recv() {
        proof {
            assert(receiver == old(ep).recv_queue@[0]);
        }
        let inserts = copy_msg(utcbs, current, receiver, badge, cap, None);
        proof {
            assert(ep_wf(ep, sched.threads@.len() as int)) by {
                assert forall|i: int| 0 <= i < ep.recv_queue@.len() implies (#[trigger] ep.recv_queue@[i]) < sched.threads@.len() by {
                    assert(ep.recv_queue@[i] == old(ep).recv_queue@[i + 1]);
                }
            }
        }
        return IpcStep::Delivered { partner: receiver, inserts, wake: true };
    }
    let t = sched.threads[current];
    sched.set_thread(current, TCB { state: ThreadState::BlockedSend, ipc_badge: badge, ipc_cap: cap, ..t });
    ep.enqueue_send(current);
    IpcStep::Blocked
}

/// Calls through the endpoint from thread `current`: when a receiver waits, the
/// oldest one gets the message with `badge`, `cap` and a reply capability for
/// `current` (see `finish_call` for what follows); otherwise `current` blocks
/// calling, keeping the badge and the capability for the receiver to come.
pub fn call(
    sched: &mut Scheduler,
    ep: &mut Endpoint,
    utcbs: &mut Vec<UTCB>,
    current: usize,
    badge: Badge,
    cap: Option<Capability>,
) -> (r: IpcStep)
    requires
        ipc_ready(old(sched), old(ep), old(utcbs)@),
        current < old(sched).threads@.len(),
        old(ep).recv_queue@.len() > 0 ==> old(ep).recv_queue@[0] != current,
    ensures
        ipc_ready(final(sched), final(ep), final(utcbs)@),
        final(sched).ready@ == old(sched).ready@,
        final(sched).current@ == old(sched).current@,
        send_effect(ipc_view(*old(sched), *old(ep), old(utcbs)@), ipc_view(*final(sched), *final(ep), final(utcbs)@),
            current, badge, cap, Some(reply_cap_of(current)), ThreadState::BlockedCall, r),
{
    if let Some(receiver) = ep.dequeue_recv() {
        proof {
            assert(receiver == old(ep).recv_queue@[0]);
        }
        let reply = Capability::create(CapType::Reply, PhysAddr::from(0), current, Rights(RIGHTS_ALL));
        let inserts = copy_msg(utcbs, current, receiver, badge, cap, Some(reply));
        proof {
            assert(ep_wf(ep, sched.threads@.len() as int)) by {
                assert forall|i: int| 0 <= i < ep.recv_queue@.len() implies (#[trigger] ep.recv_queue@[i]) < sched.threads@.len() by {
                    assert(ep.recv_queue@[i] == old(ep).recv_queue@[i + 1]);
                }
            }
        }
        return IpcStep::Delivered { partner: receiver, inserts, wake: true };
    }
    let t = sched.threads[current];
    sched.set_thread(current, TCB { state: ThreadState::BlockedCall, ipc_badge: badge, ipc_cap: cap, ..t });
    ep.enqueue_send(current);
    IpcStep::Blocked
}

/// Receives on the endpoint for thread `current`: a pending notification is
/// taken first (the caller's control block then holds the notification tag and
/// the pending bits as badge); else the oldest waiting sender's message comes,
/// with its badge, its capability and, when it called, a reply capability for
/// it; a sender that did not call is to be woken. With nothing waiting,
/// `current` blocks receiving.
pub fn recv(
    sched: &mut Scheduler,
    ep: &mut Endpoint,
    utcbs: &mut Vec<UTCB>,
    current: usize,
) -> (r: IpcStep)
    requires
        ipc_ready(old(sched), old(ep), old(utcbs)@),
        current < old(sched).threads@.len(),
        old(ep).send_queue@.len() > 0 ==> old(ep).send_queue@[0] != current,
    ensures
        ipc_ready(final(sched), final(ep), final(utcbs)@),
        final(sched).ready@ == old(sched).ready@,
        final(sched).current@ == old(sched).current@,
        recv_effect(ipc_view(*old(sched), *old(ep), old(utcbs)@), ipc_view(*final(sched), *final(ep), final(utcbs)@), current, r),
{
    let pending = ep.poll_notification();
    if !pending.is_null() {
        let t = sched.threads[current];
        let has = match t.utcb_frame {
            Some(c) => c.cap_type == CapType::Frame,
            None => false,
        };
        if has {
            let mut u = UTCB::new();
            std::mem::swap(&mut u, &mut utcbs[current]);
            u.msg_tag = MsgTag::new(LABEL_NOTIFY, 0);
            u.badge = pending;
            utcbs.set(current, u);
            proof {
                assert forall|i: int| 0 <= i < utcbs@.len() implies (#[trigger] utcbs@[i]).wf() by {
                    if i != current {
                        assert(utcbs@[i] == old(utcbs)@[i]);
                    }
                }
            }
        }
        return IpcStep::Notified;
    }
    if let Some(sender) = ep.dequeue_send() {
        proof {
            assert(sender == old(ep).send_queue@[0]);
        }
        let st = sched.threads[sender];
        let badge = st.ipc_badge;
        let cap = st.ipc_cap;
        sched.set_thread(sender, TCB { ipc_cap: None, ..st });
        let reply = if st.state == ThreadState::BlockedCall {
            Some(Capability::create(CapType::Reply, PhysAddr::from(0), sender, Rights(RIGHTS_ALL)))
        } else {
            None
        };
        let inserts = copy_msg(utcbs, sender, current, badge, cap, reply);
        proof {
            assert(ep_wf(ep, sched.threads@.len() as int)) by {
                assert forall|i: int| 0 <= i < ep.send_queue@.len() implies (#[trigger] ep.send_queue@[i]) < sched.threads@.len() by {
                    assert(ep.send_queue@[i] == old(ep).send_queue@[i + 1]);
                }
            }
        }
        return IpcStep::Delivered { partner: sender, inserts, wake: st.state != ThreadState::BlockedCall };
    }
    let t = sched.threads[current];
    sched.set_thread(current, TCB { state: ThreadState::BlockedRecv, ..t });
    ep.enqueue_recv(current);
    IpcStep::Blocked
}

/// Replies from thread `current` to thread `target`, which must be waiting for a
/// reply (else `InvalidCapability`): it gets the message with no badge (and
/// `cap`) and is to be woken.
pub fn reply(
    sched: &Scheduler,
    utcbs: &mut Vec<UTCB>,
    current: usize,
    target: usize,
    cap: Option<Capability>,
) -> (r: Result<IpcStep, Error>)
    requires
        sched.wf(),
        utcbs_wf(old(utcbs)@, sched.threads@.len() as int),
        current < sched.threads@.len(),
        target < sched.threads@.len(),
        current != target,
    ensures
        utcbs_wf(final(utcbs)@, sched.threads@.len() as int),
        reply_effect(sched.threads@, old(utcbs)@, final(utcbs)@, current, target, cap, r),
{
    if sched.threads[target].state == ThreadState::BlockedCall {
        let inserts = copy_msg(utcbs, current, target, Badge::null(), cap, None);
        Ok(IpcStep::Delivered { partner: target, inserts, wake: true })
    } else {
        Err(Error::InvalidCapability)
    }
}

/// A kernel notification on the endpoint with `badge`: the oldest waiting
/// receiver gets the notification tag and the badge in its control block (when
/// it has one) and is to be woken; with no receiver waiting the badge's bits
/// are left pending.
pub fn notify(
    sched: &Scheduler,
    ep: &mut Endpoint,
    utcbs: &mut Vec<UTCB>,
    badge: Badge,
) -> (r: IpcStep)
    requires
        ipc_ready(sched, old(ep), old(utcbs)@),
    ensures
        ipc_ready(sched, final(ep), final(utcbs)@),
        notify_effect(ipc_view(*sched, *old(ep), old(utcbs)@), ipc_view(*sched, *final(ep), final(utcbs)@), badge, r),
{
    if let Some(receiver) = ep.dequeue_recv() {
        proof {
            assert(receiver == old(ep).recv_queue@[0]);
            assert(ep_wf(ep, sched.threads@.len() as int)) by {
                assert forall|i: int| 0 <= i < ep.recv_queue@.len() implies (#[trigger] ep.recv_queue@[i]) < sched.threads@.len() by {
                    assert(ep.recv_queue@[i] == old(ep).recv_queue@[i + 1]);
                }
            }
        }
        let has = match sched.threads[receiver].utcb_frame {
            Some(c) => c.cap_type == CapType::Frame,
            None => false,
        };
        if has {
            let mut u = UTCB::new();
            std::mem::swap(&mut u, &mut utcbs[receiver]);
            u.msg_tag = MsgTag::new(LABEL_NOTIFY, 0);
            u.badge = badge;
            utcbs.set(receiver, u);
            proof {
                assert forall|i: int| 0 <= i < utcbs@.len() implies (#[trigger] utcbs@[i]).wf() by {
                    if i != receiver {
                        assert(utcbs@[i] == old(utcbs)@[i]);
                    }
                }
            }
        }
        return IpcStep::Delivered { partner: receiver, inserts: Vec::new(), wake: true };
    }
    ep.notify(badge);
    IpcStep::Notified
}

/// Calls through the endpoint on behalf of the thread that `current` last heard
/// from: the badge sent is the one in `current`'s control block (none without a
/// control block); otherwise as `call`.
pub fn proxy(
    sched: &mut Scheduler,
    ep: &mut Endpoint,
    utcbs: &mut Vec<UTCB>,
    current: usize,
    cap: Option<Capability>,
) -> (r: (Badge, IpcStep))
    requires
        ipc_ready(old(sched), old(ep), old(utcbs)@),
        current < old(sched).threads@.len(),
        old(ep).recv_queue@.len() > 0 ==> old(ep).recv_queue@[0] != current,
    ensures
        ipc_ready(final(sched), final(ep), final(utcbs)@),
        final(sched).ready@ == old(sched).ready@,
        final(sched).current@ == old(sched).current@,
        r.0 == if has_utcb(old(sched).threads@[current as int]) { old(utcbs)@[current as int].badge } else { Badge(0) },
        send_effect(ipc_view(*old(sched), *old(ep), old(utcbs)@), ipc_view(*final(sched), *final(ep), final(utcbs)@),
            current, r.0, cap, Some(reply_cap_of(current)), ThreadState::BlockedCall, r.1),
{
    let has = match sched.threads[current].utcb_frame {
        Some(c) => c.cap_type == CapType::Frame,
        None => false,
    };
    let badge = if has { utcbs[current].badge } else { Badge::null() };
    let step = call(sched, ep, utcbs, current, badge, cap);
    (badge, step)
}

/// Finishes a delivery whose capabilities were placed: wakes the partner when
/// the step says so (see `Scheduler::wake_up`).
pub fn finish_delivery(sched: &mut Scheduler, partner: usize, wake: bool, cpu: usize) -> (r: WakeOutcome)
    requires
        old(sched).wf(),
        partner < old(sched).threads@.len(),
        cpu < MAX_CPUS,
    ensures
        final(sched).wf(),
        !wake ==> *final(sched) == *old(sched) && r == (WakeOutcome { ipi: None, reschedule: false }),
        wake ==> {
            &&& final(sched).current@ == old(sched).current@
            &&& final(sched).enabled@ == old(sched).enabled@
            &&& final(sched).cpu_count == old(sched).cpu_count
            &&& woken(old(sched).threads@, old(sched).ready@, old(sched).current@, old(sched).enabled@, old(sched).cpu_count,
                final(sched).threads@, final(sched).ready@, partner, cpu, true, r)
        },
{
    if wake {
        sched.wake_up(partner, cpu)
    } else {
        WakeOutcome { ipi: None, reschedule: false }
    }
}

/// Finishes a call that met a receiver, once the capabilities were placed: the
/// caller waits for the reply, the receiver is woken, and the caller is to
/// block (second result) while still waiting.
pub fn finish_call(sched: &mut Scheduler, current: usize, receiver: usize, cpu: usize) -> (r: (WakeOutcome, bool))
    requires
        old(sched).wf(),
        current < old(sched).threads@.len(),
        receiver < old(sched).threads@.len(),
        current != receiver,
        cpu < MAX_CPUS,
    ensures
        final(sched).wf(),
        final(sched).current@ == old(sched).current@,
        final(sched).enabled@ == old(sched).enabled@,
        final(sched).cpu_count == old(sched).cpu_count,
        woken(old(sched).threads@.update(current as int, TCB { state: ThreadState::BlockedCall, ..old(sched).threads@[current as int] }),
            old(sched).ready@, old(sched).current@, old(sched).enabled@, old(sched).cpu_count,
            final(sched).threads@, final(sched).ready@, receiver, cpu, true, r.0),
        final(sched).threads@[current as int].state == ThreadState::BlockedCall,
        r.1 == true,
{
    let t = sched.threads[current];
    sched.set_thread(current, TCB { state: ThreadState::BlockedCall, ..t });
    let w = sched.wake_up(receiver, cpu);
    let block = sched.threads[current].state == ThreadState::BlockedCall;
    (w, block)
}


/// A message sent while no receiver waits reaches the next receiver: after a
/// send that found no receiver waiting (and no other sender queued, no
/// notification pending), a receive on the endpoint delivers the sender's
/// message with its badge and capability, and the sender is to be woken.
pub proof fn law_blocked_send_reaches_receiver(
    a: IpcView,
    b: IpcView,
    c: IpcView,
    sender: usize,
    receiver: usize,
    badge: Badge,
    cap: Option<Capability>,
    r1: IpcStep,
    r2: IpcStep,
)
    requires
        sender < a.threads.len(),
        a.recv_queue.len() == 0,
        a.send_queue.len() == 0,
        a.word == 0,
        send_effect(a, b, sender, badge, cap, None, ThreadState::BlockedSend, r1),
        recv_effect(b, c, receiver, r2),
    ensures
        r2 matches IpcStep::Delivered { partner, inserts, wake } && partner == sender && wake
            && inserts@ == inserts_of(receiver, a.utcbs[receiver as int], cap, None),
        delivered(a.utcbs[sender as int], a.utcbs[receiver as int], c.utcbs[receiver as int], badge),
{
    assert(b.send_queue[0] == sender);
    assert(b.threads[sender as int].ipc_badge == badge);
}

/// A call is answered by the reply: after a call that found no receiver
/// waiting (and no other sender queued, no notification pending), the next
/// receiver gets the caller's message with its badge, its capability and a
/// reply capability for the caller, while the caller is not woken but keeps
/// waiting; when the receiver then replies (having written its reply in its
/// own control block), the caller gets that reply with no badge and is to be
/// woken.
pub proof fn law_call_round_trip(
    a: IpcView,
    b: IpcView,
    c: IpcView,
    u2: Seq<UTCB>,
    u3: Seq<UTCB>,
    caller: usize,
    server: usize,
    badge: Badge,
    cap: Option<Capability>,
    reply_cap: Option<Capability>,
    r1: IpcStep,
    r2: IpcStep,
    r3: Result<IpcStep, Error>,
)
    requires
        caller < a.threads.len(),
        a.utcbs.len() == a.threads.len(),
        caller != server,
        a.recv_queue.len() == 0,
        a.send_queue.len() == 0,
        a.word == 0,
        send_effect(a, b, caller, badge, cap, Some(reply_cap_of(caller)), ThreadState::BlockedCall, r1),
        recv_effect(b, c, server, r2),
        u2.len() == c.utcbs.len(),
        forall|i: int| 0 <= i < u2.len() && i != server ==> #[trigger] u2[i] == c.utcbs[i],
        reply_effect(c.threads, u2, u3, server, caller, reply_cap, r3),
    ensures
        r2 matches IpcStep::Delivered { partner, inserts, wake } && partner == caller && !wake
            && inserts@ == inserts_of(server, a.utcbs[server as int], cap, Some(reply_cap_of(caller))),
        delivered(a.utcbs[caller as int], a.utcbs[server as int], c.utcbs[server as int], badge),
        c.threads[caller as int].state == ThreadState::BlockedCall,
        r3 matches Ok(IpcStep::Delivered { partner, inserts, wake }) && partner == caller && wake
            && inserts@ == inserts_of(caller, a.utcbs[caller as int], reply_cap, None),
        delivered(u2[server as int], a.utcbs[caller as int], u3[caller as int], Badge(0)),
{
    assert(b.send_queue[0] == caller);
    assert(b.threads[caller as int].state == ThreadState::BlockedCall);
    assert(c.threads[caller as int].state == ThreadState::BlockedCall);
    assert(b.utcbs[caller as int] == a.utcbs[caller as int]);
    assert(c.utcbs[caller as int] == b.utcbs[caller as int]);
    assert(u2[caller as int] == c.utcbs[caller as int]);
}


/// A notification raised while no receiver waits is taken by the next
/// receive: with no notification pending before, the receiving thread (when
/// it has a control block) finds the notification tag and exactly the
/// notification's badge, and the endpoint's word is cleared.
pub proof fn law_pending_notification_reaches_receiver(
    a: IpcView,
    b: IpcView,
    c: IpcView,
    receiver: usize,
    badge: Badge,
    r1: IpcStep,
    r2: IpcStep,
)
    requires
        receiver < a.utcbs.len(),
        a.recv_queue.len() == 0,
        a.word == 0,
        badge.0 != 0,
        notify_effect(a, b, badge, r1),
        recv_effect(b, c, receiver, r2),
    ensures
        r1 is Notified,
        r2 is Notified,
        c.word == 0,
        has_utcb(a.threads[receiver as int]) ==> c.utcbs[receiver as int].msg_tag == notify_tag()
            && c.utcbs[receiver as int].badge == badge,
{
    let (w0, w1, x) = (a.word, b.word, badge.0);
    assert(w1 == x) by (bit_vector)
        requires
            w1 == w0 | x,
            w0 == 0,
    ;
}

} // verus!
