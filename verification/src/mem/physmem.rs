//! Physical memory contents: the frames that have been written, 4 KiB each;
//! a frame never written reads as zeros.
use vstd::prelude::*;

verus! {

/// Physical memory: the addresses of the frames held, each with its 4096 bytes
/// (the `k`-th frame's bytes are `bytes[k * 4096 ..][..4096]`).
pub struct PhysMem {
    pub frames: Vec<u64>,
    pub bytes: Vec<u8>,
}

/// The position of frame `f` among the frames held.
pub open spec fn frame_index(frames: Seq<u64>, f: int) -> Option<int> {
    if exists|i: int| 0 <= i < frames.len() && frames[i] == f {
        Some(choose|i: int| 0 <= i < frames.len() && frames[i] == f)
    } else {
        None
    }
}

/// The frame that holds `addr`.
pub open spec fn frame_of(addr: int) -> int {
    addr - addr % 4096
}

/// Whether `a` lies in one of the frames `fs`.
pub open spec fn in_frames(fs: Seq<u64>, a: int) -> bool {
    exists|i: int| 0 <= i < fs.len() && #[trigger] fs[i] <= a < fs[i] + 4096
}

/// A frame more: `a` lies in one of them when it lies in one before or in the new one.
pub proof fn lemma_in_frames_push(fs: Seq<u64>, f: u64, a: int)
    ensures
        in_frames(fs.push(f), a) == (in_frames(fs, a) || f <= a < f + 4096),
{
    let g = fs.push(f);
    if in_frames(fs, a) {
        let w = choose|w: int| 0 <= w < fs.len() && #[trigger] fs[w] <= a < fs[w] + 4096;
        assert(g[w] == fs[w]);
    }
    if f <= a < f + 4096 {
        assert(g[fs.len() as int] == f);
    }
    if in_frames(g, a) {
        let w = choose|w: int| 0 <= w < g.len() && #[trigger] g[w] <= a < g[w] + 4096;
        if w < fs.len() {
            assert(fs[w] == g[w]);
        }
    }
}

/// Two lists of frames together: `a` lies in one of them when it lies in one of either.
pub proof fn lemma_in_frames_concat(x: Seq<u64>, y: Seq<u64>, a: int)
    ensures
        in_frames(x + y, a) == (in_frames(x, a) || in_frames(y, a)),
{
    let all = x + y;
    if in_frames(x, a) {
        let w = choose|w: int| 0 <= w < x.len() && #[trigger] x[w] <= a < x[w] + 4096;
        assert(all[w] == x[w]);
    }
    if in_frames(y, a) {
        let w = choose|w: int| 0 <= w < y.len() && #[trigger] y[w] <= a < y[w] + 4096;
        assert(all[x.len() + w] == y[w]);
    }
    if in_frames(all, a) {
        let w = choose|w: int| 0 <= w < all.len() && #[trigger] all[w] <= a < all[w] + 4096;
        if w < x.len() {
            assert(all[w] == x[w]);
        } else {
            assert(all[w] == y[w - x.len()]);
        }
    }
}

/// Each frame is page aligned and held once, with its 4096 bytes.
pub open spec fn mem_wf(frames: Seq<u64>, bytes: Seq<u8>) -> bool {
    &&& bytes.len() == frames.len() * 4096
    &&& forall|i: int| 0 <= i < frames.len() ==> #[trigger] frames[i] % 4096 == 0
    &&& forall|i: int, j: int| 0 <= i < j < frames.len() ==> frames[i] != frames[j]
}

/// The byte at physical address `addr`: zero in a frame that is not held.
pub open spec fn mem_byte(frames: Seq<u64>, bytes: Seq<u8>, addr: int) -> u8 {
    match frame_index(frames, frame_of(addr)) {
        Some(k) => bytes[k * 4096 + addr % 4096],
        None => 0,
    }
}

/// A frame held at position `k` is found there.
proof fn lemma_frame_index_at(frames: Seq<u64>, k: int)
    requires
        0 <= k < frames.len(),
        forall|i: int, j: int| 0 <= i < j < frames.len() ==> frames[i] != frames[j],
    ensures
        frame_index(frames, frames[k] as int) == Some(k),
{
    let c = choose|i: int| 0 <= i < frames.len() && frames[i] == frames[k];
    if c < k {
        assert(frames[c] != frames[k]);
    } else if c > k {
        assert(frames[k] != frames[c]);
    }
}

/// Writing byte `off` of the `k`-th frame changes that byte and no other.
proof fn lemma_set_byte(frames: Seq<u64>, bytes: Seq<u8>, k: int, off: int, v: u8)
    requires
        mem_wf(frames, bytes),
        0 <= k < frames.len(),
        0 <= off < 4096,
    ensures
        mem_wf(frames, bytes.update(k * 4096 + off, v)),
        forall|a: int| #[trigger] mem_byte(frames, bytes.update(k * 4096 + off, v), a)
            == if a == frames[k] + off { v } else { mem_byte(frames, bytes, a) },
{
    let nb = bytes.update(k * 4096 + off, v);
    assert(k * 4096 + off < bytes.len()) by (nonlinear_arith)
        requires
            0 <= k < frames.len(),
            0 <= off < 4096,
            bytes.len() == frames.len() * 4096,
    ;
    lemma_frame_index_at(frames, k);
    assert forall|a: int| #[trigger] mem_byte(frames, nb, a)
        == if a == frames[k] + off { v } else { mem_byte(frames, bytes, a) } by {
        assert(frames[k] % 4096 == 0);
        if a == frames[k] + off {
            assert(a % 4096 == off && frame_of(a) == frames[k]) by (nonlinear_arith)
                requires
                    a == frames[k] + off,
                    frames[k] % 4096 == 0,
                    0 <= off < 4096,
            ;
        } else {
            match frame_index(frames, frame_of(a)) {
                Some(q) => {
                    let c = choose|i: int| 0 <= i < frames.len() && frames[i] == frame_of(a);
                    assert(q == c);
                    assert(0 <= a % 4096 < 4096);
                    assert(q * 4096 + a % 4096 != k * 4096 + off) by (nonlinear_arith)
                        requires
                            q == k ==> a % 4096 != off,
                            0 <= a % 4096 < 4096,
                            0 <= off < 4096,
                    {
                        if q != k {
                            if q < k {
                                assert(q * 4096 + 4096 <= k * 4096);
                            } else {
                                assert(k * 4096 + 4096 <= q * 4096);
                            }
                        }
                    }
                    if q == k {
                        assert(frame_of(a) == frames[k]);
                        assert(a % 4096 != off) by (nonlinear_arith)
                            requires
                                a != frames[k] + off,
                                frame_of(a) == frames[k],
                                frame_of(a) == a - a % 4096,
                        ;
                    }
                },
                None => {},
            }
        }
    }
}

impl PhysMem {
    /// Each frame is held once, with its 4096 bytes.
    pub open spec fn wf(&self) -> bool {
        mem_wf(self.frames@, self.bytes@)
    }

    /// The byte at physical address `addr`.
    pub open spec fn byte(&self, addr: int) -> u8 {
        mem_byte(self.frames@, self.bytes@, addr)
    }

    /// Memory in which every byte reads as zero.
    pub fn new() -> (r: Self)
        ensures
            r.wf(),
            r.frames@.len() == 0,
            forall|a: int| r.byte(a) == 0,
    {
        PhysMem { frames: Vec::new(), bytes: Vec::new() }
    }

    /// Where frame `f` is held.
    fn find(&self, f: u64) -> (r: Option<usize>)
        requires
            self.wf(),
        ensures
            r == match frame_index(self.frames@, f as int) {
                Some(k) => Some(k as usize),
                None => None::<usize>,
            },
            r matches Some(k) ==> k < self.frames@.len() && self.frames@[k as int] == f,
    {
        let mut i: usize = 0;
        while i < self.frames.len()
            invariant
                self.wf(),
                i <= self.frames@.len(),
                forall|j: int| 0 <= j < i ==> self.frames@[j] != f,
            decreases self.frames@.len() - i,
        {
            if self.frames[i] == f {
                proof {
                    let c = choose|j: int| 0 <= j < self.frames@.len() && self.frames@[j] == f;
                    assert(c == i);
                }
                return Some(i);
            }
            i = i + 1;
        }
        None
    }

    /// The position of the frame that holds `addr`, adding that frame (all
    /// zeros) when it is not held; every byte reads as before.
    fn frame_slot(&mut self, addr: u64) -> (r: usize)
        requires
            old(self).wf(),
            (old(self).frames@.len() + 1) * 4096 <= usize::MAX,
        ensures
            final(self).wf(),
            r < final(self).frames@.len(),
            final(self).frames@[r as int] == frame_of(addr as int),
            frame_index(final(self).frames@, frame_of(addr as int)) == Some(r as int),
            forall|a: int| #[trigger] final(self).byte(a) == old(self).byte(a),
            final(self).frames@.len() <= old(self).frames@.len() + 1,
    {
        let f: u64 = addr - addr % 4096;
        match self.find(f) {
            Some(k) => k,
            None => {
                let ghost old_self = *self;
                let k = self.frames.len();
                self.frames.push(f);
                let mut j: usize = 0;
                while j < 4096
                    invariant
                        j <= 4096,
                        self.frames@ == old_self.frames@.push(f),
                        self.bytes@.len() == old_self.bytes@.len() + j,
                        forall|i: int| 0 <= i < old_self.bytes@.len() ==> self.bytes@[i] == old_self.bytes@[i],
                        forall|i: int| old_self.bytes@.len() <= i < self.bytes@.len() ==> self.bytes@[i] == 0,
                    decreases 4096 - j,
                {
                    self.bytes.push(0);
                    j = j + 1;
                }
                proof {
                    assert(frame_index(self.frames@, f as int) == Some(k as int)) by {
                        assert(self.frames@[k as int] == f);
                        let c = choose|i: int| 0 <= i < self.frames@.len() && self.frames@[i] == f;
                        if c != k {
                            assert(old_self.frames@[c] == f);
                        }
                    }
                    assert forall|a: int| #[trigger] self.byte(a) == old_self.byte(a) by {
                        let g = frame_of(a);
                        if g == f {
                            assert(frame_index(old_self.frames@, g) is None);
                            assert(0 <= a % 4096 < 4096);
                        } else {
                            match frame_index(old_self.frames@, g) {
                                Some(q) => {
                                    assert(self.frames@[q] == g);
                                    let c = choose|i: int| 0 <= i < self.frames@.len() && self.frames@[i] == g;
                                    assert(c == q) by {
                                        if c != q {
                                            if c < q {
                                                assert(self.frames@[c] != self.frames@[q]);
                                            } else {
                                                assert(self.frames@[q] != self.frames@[c]);
                                            }
                                        }
                                    }
                                    assert(q * 4096 + a % 4096 < old_self.bytes@.len()) by (nonlinear_arith)
                                        requires
                                            0 <= q < old_self.frames@.len(),
                                            0 <= a % 4096 < 4096,
                                            old_self.bytes@.len() == old_self.frames@.len() * 4096,
                                    ;
                                },
                                None => {
                                    assert(frame_index(self.frames@, g) is None);
                                },
                            }
                        }
                    }
                }
                k
            },
        }
    }
}

impl PhysMem {
    /// The byte at `addr`.
    pub fn read(&self, addr: u64) -> (r: u8)
        requires
            self.wf(),
        ensures
            r == self.byte(addr as int),
    {
        let total = self.bytes.len();
        match self.find(addr - addr % 4096) {
            Some(k) => {
                assert(k * 4096 + addr % 4096 < self.bytes@.len()) by (nonlinear_arith)
                    requires
                        k < self.frames@.len(),
                        addr % 4096 < 4096,
                        self.bytes@.len() == self.frames@.len() * 4096,
                ;
                self.bytes[k * 4096 + (addr % 4096) as usize]
            },
            None => 0,
        }
    }

    /// Writes `v` at `addr`; no other byte changes.
    pub fn write(&mut self, addr: u64, v: u8)
        requires
            old(self).wf(),
            (old(self).frames@.len() + 1) * 4096 <= usize::MAX,
        ensures
            final(self).wf(),
            forall|a: int| #[trigger] final(self).byte(a) == if a == addr { v } else { old(self).byte(a) },
            final(self).frames@.len() <= old(self).frames@.len() + 1,
    {
        let ghost old_self = *self;
        let k = self.frame_slot(addr);
        let off = (addr % 4096) as usize;
        let total = self.bytes.len();
        let ghost mid = *self;
        let ghost mid_frames = self.frames@;
        let ghost mid_bytes = self.bytes@;
        proof {
            lemma_set_byte(mid_frames, mid_bytes, k as int, off as int, v);
            assert(mid_frames[k as int] + off == addr);
        }
        assert(k * 4096 + off < self.bytes@.len()) by (nonlinear_arith)
            requires
                k < self.frames@.len(),
                off < 4096,
                self.bytes@.len() == self.frames@.len() * 4096,
        ;
        self.bytes.set(k * 4096 + off, v);
        proof {
            assert forall|a: int| #[trigger] self.byte(a) == if a == addr { v } else { old_self.byte(a) } by {
                assert(mem_byte(mid_frames, mid_bytes.update(k * 4096 + off, v), a)
                    == if a == mid_frames[k as int] + off { v } else { mem_byte(mid_frames, mid_bytes, a) });
                assert(mid.byte(a) == old_self.byte(a));
            }
        }
    }

    /// Clears the 4096 bytes of the frame at `frame`; no other byte changes.
    pub fn zero_frame(&mut self, frame: u64)
        requires
            old(self).wf(),
            frame % 4096 == 0,
            (old(self).frames@.len() + 1) * 4096 <= usize::MAX,
        ensures
            final(self).wf(),
            forall|a: int| #[trigger] final(self).byte(a) == if frame <= a < frame + 4096 { 0 } else { old(self).byte(a) },
            final(self).frames@.len() <= old(self).frames@.len() + 1,
    {
        self.fill(frame, 0, &[])
    }

    /// Clears the frame at `frame` and copies `data` into it from `offset`.
    pub fn fill(&mut self, frame: u64, offset: usize, data: &[u8])
        requires
            old(self).wf(),
            frame % 4096 == 0,
            offset + data@.len() <= 4096,
            (old(self).frames@.len() + 1) * 4096 <= usize::MAX,
        ensures
            final(self).wf(),
            forall|a: int| #[trigger] final(self).byte(a) == if frame <= a < frame + 4096 {
                if frame + offset <= a < frame + offset + data@.len() { data@[a - frame - offset] } else { 0u8 }
            } else {
                old(self).byte(a)
            },
            final(self).frames@.len() <= old(self).frames@.len() + 1,
    {
        let k = self.frame_slot(frame);
        proof {
            assert(frame_of(frame as int) == frame) by (nonlinear_arith)
                requires
                    frame % 4096 == 0,
            ;
        }
        let ghost start = *self;
        let mut j: usize = 0;
        while j < 4096
            invariant
                self.wf(),
                k < self.frames@.len(),
                self.frames@ == start.frames@,
                self.frames@[k as int] == frame,
                offset + data@.len() <= 4096,
                j <= 4096,
                forall|a: int| #[trigger] self.byte(a) == if frame <= a < frame + j {
                    if frame + offset <= a < frame + offset + data@.len() { data@[a - frame - offset] } else { 0u8 }
                } else {
                    start.byte(a)
                },
            decreases 4096 - j,
        {
            let v: u8 = if offset <= j && j < offset + data.len() { data[j - offset] } else { 0 };
            let ghost fb = self.frames@;
            let ghost bb = self.bytes@;
            let ghost prev = *self;
            let total = self.bytes.len();
            proof {
                lemma_set_byte(fb, bb, k as int, j as int, v);
            }
            assert(k * 4096 + j < self.bytes@.len()) by (nonlinear_arith)
                requires
                    k < self.frames@.len(),
                    j < 4096,
                    self.bytes@.len() == self.frames@.len() * 4096,
            ;
            self.bytes.set(k * 4096 + j, v);
            proof {
                assert forall|a: int| #[trigger] self.byte(a) == if frame <= a < frame + j + 1 {
                    if frame + offset <= a < frame + offset + data@.len() { data@[a - frame - offset] } else { 0u8 }
                } else {
                    start.byte(a)
                } by {
                    assert(mem_byte(fb, bb.update(k * 4096 + j, v), a)
                        == if a == fb[k as int] + j { v } else { mem_byte(fb, bb, a) });
                    assert(prev.byte(a) == mem_byte(fb, bb, a));
                }
            }
            j = j + 1;
        }
    }
}

/// Clears the `len` bytes from `pa`; no other byte changes.
pub fn zero_bytes(mem: &mut PhysMem, pa: u64, len: u64)
    requires
        old(mem).wf(),
        pa + len <= u64::MAX,
        (old(mem).frames@.len() + len + 1) * 4096 <= usize::MAX,
    ensures
        final(mem).wf(),
        forall|a: int| #[trigger] final(mem).byte(a) == if pa <= a < pa + len { 0 } else { old(mem).byte(a) },
        final(mem).frames@.len() <= old(mem).frames@.len() + len,
{
    let mut k: u64 = 0;
    while k < len
        invariant
            mem.wf(),
            pa + len <= u64::MAX,
            (old(mem).frames@.len() + len + 1) * 4096 <= usize::MAX,
            k <= len,
            mem.frames@.len() <= old(mem).frames@.len() + k,
            forall|a: int| #[trigger] mem.byte(a) == if pa <= a < pa + k { 0 } else { old(mem).byte(a) },
        decreases len - k,
    {
        let ghost prev = *mem;
        mem.write(pa + k, 0);
        proof {
            assert forall|a: int| #[trigger] mem.byte(a) == if pa <= a < pa + k + 1 { 0 } else { old(mem).byte(a) } by {
                assert(prev.byte(a) == if pa <= a < pa + k { 0 } else { old(mem).byte(a) });
            }
        }
        k = k + 1;
    }
}

/// The number of frames that `n` bytes take.
pub open spec fn frames_for(n: int) -> int {
    (n + 4095) / 4096
}

/// Copies `data` into the frames from `pa` on, one frame after another; each
/// frame is cleared first, so the rest of the last one reads zero. No other
/// byte changes.
pub fn place_bytes(mem: &mut PhysMem, pa: u64, data: &[u8])
    requires
        old(mem).wf(),
        pa % 4096 == 0,
        pa + data@.len() + 4096 <= u64::MAX,
        (old(mem).frames@.len() + data@.len() / 4096 + 2) * 4096 <= usize::MAX,
    ensures
        final(mem).wf(),
        forall|a: int| #[trigger] final(mem).byte(a) == if pa <= a < pa + frames_for(data@.len() as int) * 4096 {
            if a - pa < data@.len() { data@[a - pa] } else { 0u8 }
        } else {
            old(mem).byte(a)
        },
{
    let len = data.len();
    let mut off: usize = 0;
    let ghost mut k: int = 0;
    while off < len
        invariant
            mem.wf(),
            len == data@.len(),
            pa % 4096 == 0,
            pa + len + 4096 <= u64::MAX,
            (old(mem).frames@.len() + len / 4096 + 2) * 4096 <= usize::MAX,
            off == k * 4096,
            0 <= k,
            off <= len + 4095,
            k <= len / 4096 + 1,
            mem.frames@.len() <= old(mem).frames@.len() + k,
            forall|a: int| #[trigger] mem.byte(a) == if pa <= a < pa + off {
                if a - pa < len { data@[a - pa] } else { 0u8 }
            } else {
                old(mem).byte(a)
            },
        decreases len + 4096 - off,
    {
        let end: usize = if len - off < 4096 { len } else { off + 4096 };
        let chunk = vstd::slice::slice_subrange(data, off, end);
        proof {
            assert(k + 1 <= len / 4096 + 1) by (nonlinear_arith)
                requires
                    off == k * 4096,
                    off < len,
            ;
            assert((pa + off) % 4096 == 0) by (nonlinear_arith)
                requires
                    pa % 4096 == 0,
                    off == k * 4096,
            ;
        }
        let ghost prev = *mem;
        mem.fill(pa + off as u64, 0, chunk);
        proof {
            assert forall|a: int| #[trigger] mem.byte(a) == if pa <= a < pa + off + 4096 {
                if a - pa < len { data@[a - pa] } else { 0u8 }
            } else {
                old(mem).byte(a)
            } by {
                assert(prev.byte(a) == if pa <= a < pa + off {
                    if a - pa < len { data@[a - pa] } else { 0u8 }
                } else {
                    old(mem).byte(a)
                });
                if pa + off <= a < pa + off + chunk@.len() {
                    assert(chunk@[a - (pa + off) - 0] == data@[a - pa]);
                }
            }
        }
        off = off + 4096;
        proof {
            k = k + 1;
        }
    }
    proof {
        assert(off == frames_for(len as int) * 4096) by (nonlinear_arith)
            requires
                off == k * 4096,
                off >= len,
                off < len + 4096,
                k >= 0,
        ;
    }
}

} // verus!
