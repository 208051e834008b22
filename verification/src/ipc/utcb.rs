//! The user thread control block: the page a thread shares with the kernel for
//! message registers and a byte buffer that a receiver consumes from `head` up to `size`.
use vstd::prelude::*;
use super::message::MsgTag;
use crate::cap::{Badge, CapPtr};

verus! {

/// Number of message registers.
pub const MAX_MRS: usize = 8;
/// Bytes of the IPC buffer.
pub const IPC_BUFFER_SIZE: usize = 3072;

/// A user thread control block.
pub struct UTCB {
    pub msg_tag: MsgTag,
    pub mrs_regs: [usize; 8],
    pub cap_transfer: CapPtr,
    pub recv_window: CapPtr,
    pub reply_window: CapPtr,
    pub badge: Badge,
    pub head: usize,
    pub size: usize,
    pub ipc_buffer: Vec<u8>,
}

impl UTCB {
    /// The buffer has its fixed size; the read position and the size are
    /// written by the user and may hold anything.
    pub open spec fn wf(&self) -> bool {
        self.ipc_buffer@.len() == IPC_BUFFER_SIZE
    }

    /// An empty control block.
    pub fn new() -> (r: Self)
        ensures
            r.wf(),
            r.head == 0 && r.size == 0,
    {
        let mut buf: Vec<u8> = Vec::new();
        let mut k: usize = 0;
        while k < IPC_BUFFER_SIZE
            invariant
                buf@.len() == k,
                k <= IPC_BUFFER_SIZE,
            decreases IPC_BUFFER_SIZE - k,
        {
            buf.push(0);
            k += 1;
        }
        UTCB {
            msg_tag: MsgTag(0),
            mrs_regs: [0; 8],
            cap_transfer: CapPtr(0),
            recv_window: CapPtr(0),
            reply_window: CapPtr(0),
            badge: Badge(0),
            head: 0,
            size: 0,
            ipc_buffer: buf,
        }
    }

    /// Copies the message to `dest`: the tag and the message registers and, when
    /// the tag says the message has a buffer, the read position and the buffered
    /// bytes (at most a full buffer).
    pub fn copy_to(&self, dest: &mut UTCB)
        requires
            self.wf(),
            old(dest).wf(),
        ensures
            final(dest).wf(),
            final(dest).msg_tag == self.msg_tag,
            final(dest).mrs_regs@ == self.mrs_regs@,
            final(dest).cap_transfer == old(dest).cap_transfer,
            final(dest).recv_window == old(dest).recv_window,
            final(dest).reply_window == old(dest).reply_window,
            final(dest).badge == old(dest).badge,
            self.msg_tag.0 & super::message::FLAG_HAS_BUFFER != 0 ==> {
                let n = copied_len(self.size);
                &&& final(dest).head == self.head
                &&& final(dest).size == n
                &&& final(dest).ipc_buffer@.subrange(0, n as int) == self.ipc_buffer@.subrange(0, n as int)
                &&& final(dest).ipc_buffer@.subrange(n as int, IPC_BUFFER_SIZE as int)
                    == old(dest).ipc_buffer@.subrange(n as int, IPC_BUFFER_SIZE as int)
            },
            self.msg_tag.0 & super::message::FLAG_HAS_BUFFER == 0 ==> {
                &&& final(dest).head == old(dest).head
                &&& final(dest).size == old(dest).size
                &&& final(dest).ipc_buffer@ == old(dest).ipc_buffer@
            },
    {
        dest.msg_tag = self.msg_tag;
        dest.mrs_regs = self.mrs_regs;
        if self.msg_tag.has_buffer() {
            let len = if self.size < IPC_BUFFER_SIZE { self.size } else { IPC_BUFFER_SIZE };
            let mut i: usize = 0;
            while i < len
                invariant
                    len == copied_len(self.size),
                    self.wf(),
                    i <= len,
                    dest.msg_tag == self.msg_tag,
                    dest.mrs_regs == self.mrs_regs,
                    dest.cap_transfer == old(dest).cap_transfer,
                    dest.recv_window == old(dest).recv_window,
                    dest.reply_window == old(dest).reply_window,
                    dest.badge == old(dest).badge,
                    dest.ipc_buffer@.len() == IPC_BUFFER_SIZE,
                    forall|k: int| 0 <= k < i ==> dest.ipc_buffer@[k] == self.ipc_buffer@[k],
                    forall|k: int| i <= k < IPC_BUFFER_SIZE ==> dest.ipc_buffer@[k] == old(dest).ipc_buffer@[k],
                decreases len - i,
            {
                dest.ipc_buffer.set(i, self.ipc_buffer[i]);
                i += 1;
            }
            dest.head = self.head;
            dest.size = len;
            proof {
                assert(dest.ipc_buffer@.subrange(0, len as int) =~= self.ipc_buffer@.subrange(0, len as int));
                assert(dest.ipc_buffer@.subrange(len as int, IPC_BUFFER_SIZE as int)
                    =~= old(dest).ipc_buffer@.subrange(len as int, IPC_BUFFER_SIZE as int));
            }
        }
    }

    /// Bytes not yet read.
    pub fn available_data(&self) -> (r: usize)
        requires
            self.head <= self.size,
        ensures
            r == self.size - self.head,
    {
        self.size - self.head
    }

    /// Room left after the buffered bytes.
    pub fn available_space(&self) -> (r: usize)
        requires
            self.size <= IPC_BUFFER_SIZE,
        ensures
            r == IPC_BUFFER_SIZE - self.size,
    {
        IPC_BUFFER_SIZE - self.size
    }

    /// Replaces the buffer's contents by the first bytes of `data` (at most a full
    /// buffer) and rewinds the read position; returns how many bytes were taken.
    pub fn write(&mut self, data: &[u8]) -> (r: usize)
        requires
            old(self).wf(),
        ensures
            final(self).wf(),
            r == if data@.len() < IPC_BUFFER_SIZE { data@.len() } else { IPC_BUFFER_SIZE as nat },
            final(self).size == r,
            final(self).head == 0,
            final(self).ipc_buffer@ == buffer_after_write(old(self).ipc_buffer@, data@),
            final(self).msg_tag == old(self).msg_tag,
            final(self).mrs_regs == old(self).mrs_regs,
            final(self).cap_transfer == old(self).cap_transfer,
            final(self).recv_window == old(self).recv_window,
            final(self).reply_window == old(self).reply_window,
            final(self).badge == old(self).badge,
    {
        let to_write = if data.len() < IPC_BUFFER_SIZE { data.len() } else { IPC_BUFFER_SIZE };
        let mut i: usize = 0;
        while i < to_write
            invariant
                to_write <= IPC_BUFFER_SIZE,
                to_write <= data@.len(),
                i <= to_write,
                self.ipc_buffer@.len() == IPC_BUFFER_SIZE,
                self.msg_tag == old(self).msg_tag,
                self.mrs_regs == old(self).mrs_regs,
                self.cap_transfer == old(self).cap_transfer,
                self.recv_window == old(self).recv_window,
                self.reply_window == old(self).reply_window,
                self.badge == old(self).badge,
                forall|k: int| 0 <= k < i ==> self.ipc_buffer@[k] == data@[k],
                forall|k: int| i <= k < IPC_BUFFER_SIZE ==> self.ipc_buffer@[k] == old(self).ipc_buffer@[k],
            decreases to_write - i,
        {
            self.ipc_buffer.set(i, data[i]);
            i += 1;
        }
        self.size = to_write;
        self.head = 0;
        proof {
            assert(self.ipc_buffer@ =~= buffer_after_write(old(self).ipc_buffer@, data@));
        }
        to_write
    }

    /// Moves up to `buf.len()` unread bytes into the front of `buf` and advances
    /// the read position; returns how many bytes were moved.
    pub fn read(&mut self, buf: &mut Vec<u8>) -> (r: usize)
        requires
            old(self).wf(),
            old(self).head <= old(self).size,
            old(self).head + (if old(self).size - old(self).head < old(buf)@.len() {
                (old(self).size - old(self).head) as nat
            } else {
                old(buf)@.len()
            }) <= IPC_BUFFER_SIZE,
        ensures
            final(self).wf(),
            r == if old(self).size - old(self).head < old(buf)@.len() { (old(self).size - old(self).head) as nat } else { old(buf)@.len() },
            final(self).head == old(self).head + r,
            final(self).size == old(self).size,
            final(self).ipc_buffer@ == old(self).ipc_buffer@,
            final(buf)@ == out_after_read(old(buf)@, old(self).ipc_buffer@, old(self).head as int, r as int),
    {
        let data_len = self.available_data();
        let to_read = if data_len < buf.len() { data_len } else { buf.len() };
        let h = self.head;
        let mut i: usize = 0;
        while i < to_read
            invariant
                self.wf(),
                *self == *old(self),
                h == self.head,
                h + to_read <= IPC_BUFFER_SIZE,
                to_read <= self.size - self.head,
                to_read <= buf@.len(),
                i <= to_read,
                buf@.len() == old(buf)@.len(),
                forall|k: int| 0 <= k < i ==> buf@[k] == self.ipc_buffer@[h + k],
                forall|k: int| i <= k < buf@.len() ==> buf@[k] == old(buf)@[k],
            decreases to_read - i,
        {
            buf.set(i, self.ipc_buffer[h + i]);
            i += 1;
        }
        self.head = h + to_read;
        proof {
            assert(buf@ =~= out_after_read(old(buf)@, old(self).ipc_buffer@, h as int, to_read as int));
        }
        to_read
    }
}

/// How many bytes a copy of a buffer holding `size` bytes takes: at most a full buffer.
pub open spec fn copied_len(size: usize) -> usize {
    if size < IPC_BUFFER_SIZE { size } else { IPC_BUFFER_SIZE }
}

/// The buffer after writing `data` into `buf`: the first bytes of `data` (at most
/// a full buffer), then what `buf` held past them.
pub open spec fn buffer_after_write(buf: Seq<u8>, data: Seq<u8>) -> Seq<u8> {
    let n = if data.len() < IPC_BUFFER_SIZE { data.len() as int } else { IPC_BUFFER_SIZE as int };
    data.subrange(0, n) + buf.subrange(n, IPC_BUFFER_SIZE as int)
}

/// The destination after a read of `n` bytes starting at `head`: those bytes, then
/// what the destination held past them.
pub open spec fn out_after_read(out: Seq<u8>, buf: Seq<u8>, head: int, n: int) -> Seq<u8> {
    buf.subrange(head, head + n) + out.subrange(n, out.len() as int)
}

/// What a read gives back of a write: after `write(data)` the read position is at
/// the start, so a `read` into a destination of at least that many bytes moves
/// exactly the written bytes (the first `IPC_BUFFER_SIZE` of `data` at most) and
/// leaves nothing unread.
pub proof fn law_read_returns_written(buf: Seq<u8>, data: Seq<u8>, out: Seq<u8>)
    requires
        buf.len() == IPC_BUFFER_SIZE,
        out.len() >= data.len() || out.len() >= IPC_BUFFER_SIZE,
    ensures
        ({
            let n = if data.len() < IPC_BUFFER_SIZE { data.len() as int } else { IPC_BUFFER_SIZE as int };
            let w = buffer_after_write(buf, data);
            let r = if n - 0 < out.len() { n } else { out.len() as int };
            &&& r == n
            &&& out_after_read(out, w, 0, r).subrange(0, n) == data.subrange(0, n)
            &&& 0 + r == n
        }),
{
    let n = if data.len() < IPC_BUFFER_SIZE { data.len() as int } else { IPC_BUFFER_SIZE as int };
    let w = buffer_after_write(buf, data);
    assert(w.subrange(0, n) =~= data.subrange(0, n));
    assert(out_after_read(out, w, 0, n).subrange(0, n) =~= data.subrange(0, n));
}

} // verus!
