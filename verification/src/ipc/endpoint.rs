//! IPC endpoints: a queue of threads waiting to send, a queue of threads waiting to
//! receive, and a word of pending notification bits.
use vstd::prelude::*;
use crate::cap::{Badge, Capability};
use crate::proc::thread::{TCB, ThreadState};

verus! {

/// An endpoint. The queues hold thread identifiers, oldest first.
pub struct Endpoint {
    pub ref_count: usize,
    pub send_queue: Vec<usize>,
    pub recv_queue: Vec<usize>,
    pub notification_word: usize,
}

/// What a sender met.
pub enum SendQueueResult {
    MatchedReceiver(usize, Option<Capability>),
    Queued,
}

/// What a receiver met.
pub enum RecvQueueResult {
    MatchedNotification(Badge),
    MatchedSender(usize),
    Queued,
}

/// What a notification met.
pub enum NotifyResult {
    MatchedReceiver(usize),
    Pending,
}

impl Endpoint {
    /// An endpoint with empty queues, no pending notification and no references.
    pub fn new() -> (r: Self)
        ensures
            r.ref_count == 0,
            r.send_queue@.len() == 0,
            r.recv_queue@.len() == 0,
            r.notification_word == 0,
    {
        Endpoint { ref_count: 0, send_queue: Vec::new(), recv_queue: Vec::new(), notification_word: 0 }
    }

    /// Appends `tcb` to the send queue.
    pub fn enqueue_send(&mut self, tcb: usize)
        ensures
            final(self).send_queue@ == old(self).send_queue@.push(tcb),
            final(self).recv_queue@ == old(self).recv_queue@,
            final(self).notification_word == old(self).notification_word,
            final(self).ref_count == old(self).ref_count,
    {
        self.send_queue.push(tcb);
    }

    /// Takes the oldest waiting sender.
    pub fn dequeue_send(&mut self) -> (r: Option<usize>)
        ensures
            old(self).send_queue@.len() == 0 ==> r.is_none() && final(self).send_queue@ == old(self).send_queue@,
            old(self).send_queue@.len() > 0 ==> r == Some(old(self).send_queue@[0])
                && final(self).send_queue@ == old(self).send_queue@.drop_first(),
            final(self).recv_queue@ == old(self).recv_queue@,
            final(self).notification_word == old(self).notification_word,
            final(self).ref_count == old(self).ref_count,
    {
        if self.send_queue.len() == 0 {
            None
        } else {
            let head = self.send_queue.remove(0);
            proof {
                assert(self.send_queue@ =~= old(self).send_queue@.drop_first());
            }
            Some(head)
        }
    }

    /// Appends `tcb` to the receive queue.
    pub fn enqueue_recv(&mut self, tcb: usize)
        ensures
            final(self).recv_queue@ == old(self).recv_queue@.push(tcb),
            final(self).send_queue@ == old(self).send_queue@,
            final(self).notification_word == old(self).notification_word,
            final(self).ref_count == old(self).ref_count,
    {
        self.recv_queue.push(tcb);
    }

    /// Takes the oldest waiting receiver.
    pub fn dequeue_recv(&mut self) -> (r: Option<usize>)
        ensures
            old(self).recv_queue@.len() == 0 ==> r.is_none() && final(self).recv_queue@ == old(self).recv_queue@,
            old(self).recv_queue@.len() > 0 ==> r == Some(old(self).recv_queue@[0])
                && final(self).recv_queue@ == old(self).recv_queue@.drop_first(),
            final(self).send_queue@ == old(self).send_queue@,
            final(self).notification_word == old(self).notification_word,
            final(self).ref_count == old(self).ref_count,
    {
        if self.recv_queue.len() == 0 {
            None
        } else {
            let head = self.recv_queue.remove(0);
            proof {
                assert(self.recv_queue@ =~= old(self).recv_queue@.drop_first());
            }
            Some(head)
        }
    }

    /// A sender meets the oldest waiting receiver, if any; otherwise the sender
    /// (thread `sender`, whose control block is `tcb`) records what it sends and
    /// joins the send queue in `state`.
    pub fn match_recv_or_queue_send(
        &mut self,
        sender: usize,
        tcb: &mut TCB,
        state: ThreadState,
        badge: Badge,
        cap: Option<Capability>,
    ) -> (r: SendQueueResult)
        ensures
            final(self).notification_word == old(self).notification_word,
            final(self).ref_count == old(self).ref_count,
            old(self).recv_queue@.len() > 0 ==> {
                &&& r == SendQueueResult::MatchedReceiver(old(self).recv_queue@[0], cap)
                &&& final(self).recv_queue@ == old(self).recv_queue@.drop_first()
                &&& final(self).send_queue@ == old(self).send_queue@
                &&& *final(tcb) == *old(tcb)
            },
            old(self).recv_queue@.len() == 0 ==> {
                &&& r == SendQueueResult::Queued
                &&& final(self).recv_queue@ == old(self).recv_queue@
                &&& final(self).send_queue@ == old(self).send_queue@.push(sender)
                &&& *final(tcb) == (TCB { wake_pending: false, state, ipc_badge: badge, ipc_cap: cap, ..*old(tcb) })
            },
    {
        if let Some(receiver) = self.dequeue_recv() {
            return SendQueueResult::MatchedReceiver(receiver, cap);
        }
        tcb.wake_pending = false;
        tcb.state = state;
        tcb.ipc_badge = badge;
        tcb.ipc_cap = cap;
        self.enqueue_send(sender);
        SendQueueResult::Queued
    }

    /// A receiver first takes the pending notification word, if any; else meets the
    /// oldest waiting sender, if any; else (thread `receiver`, control block `tcb`)
    /// blocks on the receive queue.
    pub fn match_send_or_queue_recv(&mut self, receiver: usize, tcb: &mut TCB) -> (r: RecvQueueResult)
        ensures
            final(self).ref_count == old(self).ref_count,
            old(self).notification_word != 0 ==> {
                &&& r == RecvQueueResult::MatchedNotification(Badge(old(self).notification_word))
                &&& final(self).notification_word == 0
                &&& final(self).send_queue@ == old(self).send_queue@
                &&& final(self).recv_queue@ == old(self).recv_queue@
                &&& *final(tcb) == *old(tcb)
            },
            old(self).notification_word == 0 && old(self).send_queue@.len() > 0 ==> {
                &&& r == RecvQueueResult::MatchedSender(old(self).send_queue@[0])
                &&& final(self).notification_word == 0
                &&& final(self).send_queue@ == old(self).send_queue@.drop_first()
                &&& final(self).recv_queue@ == old(self).recv_queue@
                &&& *final(tcb) == *old(tcb)
            },
            old(self).notification_word == 0 && old(self).send_queue@.len() == 0 ==> {
                &&& r == RecvQueueResult::Queued
                &&& final(self).notification_word == 0
                &&& final(self).send_queue@ == old(self).send_queue@
                &&& final(self).recv_queue@ == old(self).recv_queue@.push(receiver)
                &&& *final(tcb) == (TCB {
                    ipc_active_ep: None,
                    ipc_caller: None,
                    wake_pending: false,
                    state: ThreadState::BlockedRecv,
                    ..*old(tcb)
                })
            },
    {
        if self.notification_word != 0 {
            let word = self.notification_word;
            self.notification_word = 0;
            return RecvQueueResult::MatchedNotification(Badge::from(word));
        }
        if let Some(sender) = self.dequeue_send() {
            return RecvQueueResult::MatchedSender(sender);
        }
        tcb.ipc_active_ep = None;
        tcb.ipc_caller = None;
        tcb.wake_pending = false;
        tcb.state = ThreadState::BlockedRecv;
        self.enqueue_recv(receiver);
        RecvQueueResult::Queued
    }

    /// Adds the badge's bits to the pending notification word.
    pub fn notify(&mut self, badge: Badge)
        ensures
            final(self).notification_word == old(self).notification_word | badge.0,
            final(self).send_queue@ == old(self).send_queue@,
            final(self).recv_queue@ == old(self).recv_queue@,
            final(self).ref_count == old(self).ref_count,
    {
        self.notification_word = self.notification_word | badge.get();
    }

    /// Hands the notification to the oldest waiting receiver, if any; otherwise
    /// leaves it pending.
    pub fn notify_or_dequeue_recv(&mut self, badge: Badge) -> (r: NotifyResult)
        ensures
            final(self).send_queue@ == old(self).send_queue@,
            final(self).ref_count == old(self).ref_count,
            old(self).recv_queue@.len() > 0 ==> {
                &&& r == NotifyResult::MatchedReceiver(old(self).recv_queue@[0])
                &&& final(self).recv_queue@ == old(self).recv_queue@.drop_first()
                &&& final(self).notification_word == old(self).notification_word
            },
            old(self).recv_queue@.len() == 0 ==> {
                &&& r == NotifyResult::Pending
                &&& final(self).recv_queue@ == old(self).recv_queue@
                &&& final(self).notification_word == old(self).notification_word | badge.0
            },
    {
        if let Some(receiver) = self.dequeue_recv() {
            return NotifyResult::MatchedReceiver(receiver);
        }
        self.notify(badge);
        NotifyResult::Pending
    }

    /// Takes the pending notification word (possibly zero) and clears it.
    pub fn poll_notification(&mut self) -> (r: Badge)
        ensures
            r.0 == old(self).notification_word,
            final(self).notification_word == 0,
            final(self).send_queue@ == old(self).send_queue@,
            final(self).recv_queue@ == old(self).recv_queue@,
            final(self).ref_count == old(self).ref_count,
    {
        let word = self.notification_word;
        self.notification_word = 0;
        Badge::from(word)
    }

    /// Empties both queues: the waiting senders, then the waiting receivers, each
    /// oldest first. These are the threads to wake.
    pub fn destroy(&mut self) -> (r: Vec<usize>)
        ensures
            r@ == old(self).send_queue@ + old(self).recv_queue@,
            final(self).send_queue@.len() == 0,
            final(self).recv_queue@.len() == 0,
            final(self).notification_word == old(self).notification_word,
            final(self).ref_count == old(self).ref_count,
    {
        let mut woken: Vec<usize> = Vec::new();
        while self.send_queue.len() > 0
            invariant
                woken@ + self.send_queue@ == old(self).send_queue@,
                self.recv_queue@ == old(self).recv_queue@,
                self.notification_word == old(self).notification_word,
                self.ref_count == old(self).ref_count,
            decreases self.send_queue@.len(),
        {
            let t = self.dequeue_send().unwrap();
            proof {
                assert(woken@.push(t) + self.send_queue@ =~= old(self).send_queue@);
            }
            woken.push(t);
        }
        proof {
            assert(woken@ =~= old(self).send_queue@);
        }
        while self.recv_queue.len() > 0
            invariant
                woken@ + self.recv_queue@ == old(self).send_queue@ + old(self).recv_queue@,
                self.send_queue@.len() == 0,
                self.notification_word == old(self).notification_word,
                self.ref_count == old(self).ref_count,
            decreases self.recv_queue@.len(),
        {
            let t = self.dequeue_recv().unwrap();
            proof {
                assert(woken@.push(t) + self.recv_queue@ =~= woken@ + old(self).recv_queue@.subrange(0, 0) + (seq![t] + self.recv_queue@));
            }
            woken.push(t);
        }
        proof {
            assert(woken@ =~= old(self).send_queue@ + old(self).recv_queue@);
        }
        woken
    }
}

/// Notifications accumulate: after notifying `b1` and then `b2`, a poll returns
/// the pending word with both badges' bits and leaves nothing pending.
pub proof fn law_notifications_accumulate(word: usize, b1: usize, b2: usize)
    ensures
        (word | b1) | b2 == word | (b1 | b2),
        ((word | b1) | b2) & b1 == b1,
        ((word | b1) | b2) & b2 == b2,
{
    assert((word | b1) | b2 == word | (b1 | b2)) by (bit_vector);
    assert(((word | b1) | b2) & b1 == b1) by (bit_vector);
    assert(((word | b1) | b2) & b2 == b2) by (bit_vector);
}

/// The send queue is first in, first out: a sender enqueued behind the queue is
/// dequeued after every thread already waiting.
pub proof fn law_send_queue_fifo(queue: Seq<usize>, t: usize)
    ensures
        queue.len() > 0 ==> queue.push(t)[0] == queue[0] && queue.push(t).drop_first() == queue.drop_first().push(t),
        queue.len() == 0 ==> queue.push(t)[0] == t,
{
    if queue.len() > 0 {
        assert(queue.push(t).drop_first() =~= queue.drop_first().push(t));
    }
}

} // verus!
