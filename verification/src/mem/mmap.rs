//! Mapped regions of a user address space and the pool of nodes that describe them.
//!
//! A process keeps its mapped regions as a list ordered by address; the nodes of
//! all such lists come from one pool of `N_MMAP` nodes.
use vstd::prelude::*;
use super::VA_MAX;

verus! {

/// Number of region nodes in the pool.
pub const N_MMAP: usize = 256;

/// A mapped region: `npages` pages from the page-aligned address `begin`.
#[derive(Clone, Copy, PartialEq, Eq, Structural, Debug)]
pub struct MmapRegion {
    pub begin: u64,
    pub npages: u32,
}

/// One past the last byte of a region.
pub open spec fn region_end(r: MmapRegion) -> int {
    r.begin + r.npages * 4096
}

/// A region list is ordered and without overlap; each region is non-empty,
/// page-aligned and below the top of the user address space.
pub open spec fn list_wf(s: Seq<MmapRegion>) -> bool {
    &&& forall|i: int| 0 <= i < s.len() ==> (#[trigger] s[i]).npages > 0 && s[i].begin % 4096 == 0 && region_end(s[i]) <= VA_MAX
    &&& forall|i: int, j: int| 0 <= i < j < s.len() ==> region_end(#[trigger] s[i]) <= (#[trigger] s[j]).begin
}

/// The region holds the address `x`.
pub open spec fn in_region(r: MmapRegion, x: int) -> bool {
    r.begin <= x < region_end(r)
}

/// The addresses a region list covers.
pub open spec fn covered(s: Seq<MmapRegion>) -> Set<int> {
    Set::new(|x: int| exists|i: int| 0 <= i < s.len() && #[trigger] in_region(s[i], x))
}

impl MmapRegion {
    /// An empty region at address zero.
    pub fn zero() -> (r: Self)
        ensures
            r.begin == 0 && r.npages == 0,
    {
        MmapRegion { begin: 0, npages: 0 }
    }
}

/// The pool of region nodes: how many are not in any list.
pub struct MmapPool {
    pub free: usize,
}

impl MmapPool {
    /// A pool with every node free.
    pub fn new() -> (r: Self)
        ensures
            r.free == N_MMAP,
    {
        MmapPool { free: N_MMAP }
    }

    /// Takes a node from the pool; `None` when none is left.
    pub fn region_alloc(&mut self) -> (r: Option<MmapRegion>)
        ensures
            old(self).free == 0 ==> r.is_none() && final(self).free == 0,
            old(self).free > 0 ==> r == Some(MmapRegion { begin: 0, npages: 0 }) && final(self).free == old(self).free - 1,
    {
        if self.free == 0 {
            return None;
        }
        self.free = self.free - 1;
        Some(MmapRegion::zero())
    }

    /// Returns a node to the pool.
    pub fn region_free(&mut self, region: MmapRegion)
        requires
            old(self).free < N_MMAP,
        ensures
            final(self).free == old(self).free + 1,
    {
        self.free = self.free + 1;
    }
}

/// The first-fit search for a free gap of `need` bytes, starting at `cursor`
/// and walking the list from position `i`: a region at or above the cursor
/// either leaves a big enough gap before it (found: the cursor) or moves the
/// cursor to its end. The second result is the cursor where the walk stopped.
pub open spec fn scan_gap(s: Seq<MmapRegion>, i: int, cursor: int, need: int) -> (Option<int>, int)
    decreases s.len() - i,
{
    if i < 0 || i >= s.len() {
        (None, cursor)
    } else if s[i].begin >= cursor {
        if s[i].begin - cursor >= need {
            (Some(cursor), cursor)
        } else {
            scan_gap(s, i + 1, region_end(s[i]), need)
        }
    } else {
        scan_gap(s, i + 1, cursor, need)
    }
}

/// The start of a new mapping of `need` bytes: the requested address when it is
/// not zero; otherwise the first gap in `[mmap_begin, mmap_end)` that the scan
/// finds, or, failing a gap at a non-zero address, the space after the last
/// region when it is big enough.
pub open spec fn chosen_begin(s: Seq<MmapRegion>, req: int, need: int, mmap_begin: int, mmap_end: int) -> Option<int> {
    if req != 0 {
        Some(req)
    } else {
        let (f, c) = scan_gap(s, 0, mmap_begin, need);
        if f is Some && f->0 != 0 {
            f
        } else if mmap_end - c >= need {
            Some(c)
        } else {
            None
        }
    }
}

/// The position of the first region starting at or above `x`, walking from `i`.
pub open spec fn first_at_or_above(s: Seq<MmapRegion>, x: int, i: int) -> int
    decreases s.len() - i,
{
    if i < 0 || i >= s.len() || s[i].begin >= x {
        i
    } else {
        first_at_or_above(s, x, i + 1)
    }
}

/// Where a mapping of `need` bytes goes: its start and the position in the list
/// before which it lies; `None` when the start is outside `[mmap_begin,
/// mmap_end)`, not page-aligned, or overlaps a neighbouring region.
pub open spec fn mmap_place(s: Seq<MmapRegion>, req: int, need: int, mmap_begin: int, mmap_end: int) -> Option<(int, int)> {
    match chosen_begin(s, req, need, mmap_begin, mmap_end) {
        None => None,
        Some(b) => {
            let idx = first_at_or_above(s, b, 0);
            if b < mmap_begin || b + need > mmap_end || b % 4096 != 0 {
                None
            } else if idx > 0 && region_end(s[idx - 1]) > b {
                None
            } else if idx < s.len() && b + need > s[idx].begin {
                None
            } else {
                Some((b, idx))
            }
        },
    }
}

/// The new mapping `[b, e)` ends exactly where the region before position `idx` ends.
pub open spec fn joins_prev(s: Seq<MmapRegion>, idx: int, b: int) -> bool {
    idx > 0 && region_end(s[idx - 1]) == b
}

/// The new mapping `[b, e)` ends exactly where the region at position `idx` begins.
pub open spec fn joins_next(s: Seq<MmapRegion>, idx: int, e: int) -> bool {
    idx < s.len() && e == s[idx].begin
}

/// The list after adding the mapping `[b, e)` before position `idx`: it is merged
/// into the region before it and/or the region after it when they touch, and is
/// a region of its own otherwise.
pub open spec fn merged_list(s: Seq<MmapRegion>, idx: int, b: int, e: int) -> Seq<MmapRegion> {
    let up = joins_prev(s, idx, b);
    let cn = joins_next(s, idx, e);
    if up && cn {
        s.update(idx - 1, MmapRegion { begin: s[idx - 1].begin, npages: ((region_end(s[idx]) - s[idx - 1].begin) / 4096) as u32 }).remove(idx)
    } else if up {
        s.update(idx - 1, MmapRegion { begin: s[idx - 1].begin, npages: ((e - s[idx - 1].begin) / 4096) as u32 })
    } else if cn {
        s.update(idx, MmapRegion { begin: b as u64, npages: ((region_end(s[idx]) - b) / 4096) as u32 })
    } else {
        s.insert(idx, MmapRegion { begin: b as u64, npages: ((e - b) / 4096) as u32 })
    }
}

/// `first_at_or_above` finds the boundary between the regions below `x` and the rest.
pub proof fn lemma_first_at_or_above(s: Seq<MmapRegion>, x: int, i: int)
    requires
        0 <= i <= s.len(),
        forall|j: int| 0 <= j < i ==> s[j].begin < x,
    ensures
        i <= first_at_or_above(s, x, i) <= s.len(),
        forall|j: int| 0 <= j < first_at_or_above(s, x, i) ==> s[j].begin < x,
        first_at_or_above(s, x, i) < s.len() ==> s[first_at_or_above(s, x, i)].begin >= x,
    decreases s.len() - i,
{
    if i < s.len() && s[i].begin < x {
        lemma_first_at_or_above(s, x, i + 1);
    }
}

proof fn lemma_pages_exact(b: int, e: int)
    requires
        0 <= b <= e <= VA_MAX,
        b % 4096 == 0,
        e % 4096 == 0,
    ensures
        ((e - b) / 4096) as u32 as int * 4096 == e - b,
        ((e - b) / 4096) <= u32::MAX,
{
    assert((e - b) % 4096 == 0);
    assert((e - b) / 4096 <= VA_MAX / 4096);
}

#[verifier::rlimit(100)]
#[verifier::spinoff_prover]
proof fn lemma_merged_both(s: Seq<MmapRegion>, idx: int, b: int, e: int)
    requires
        list_wf(s),
        0 <= idx <= s.len(),
        forall|j: int| 0 <= j < idx ==> s[j].begin < b,
        idx < s.len() ==> s[idx].begin >= b,
        b % 4096 == 0,
        e % 4096 == 0,
        0 <= b < e <= VA_MAX,
        idx > 0 ==> region_end(s[idx - 1]) <= b,
        idx < s.len() ==> e <= s[idx].begin,
        joins_prev(s, idx, b) && joins_next(s, idx, e),
    ensures
        list_wf(merged_list(s, idx, b, e)),
        covered(merged_list(s, idx, b, e)) == covered(s).union(Set::new(|x: int| b <= x < e)),
{
    let m = merged_list(s, idx, b, e);
    let p = s[idx - 1];
    let q = s[idx];
    lemma_pages_exact(p.begin as int, region_end(q));
    let mid = MmapRegion { begin: p.begin, npages: ((region_end(q) - p.begin) / 4096) as u32 };
    assert(region_end(mid) == region_end(q));
    assert(m =~= s.take(idx - 1).push(mid) + s.skip(idx + 1));
    assert forall|i: int, j: int| 0 <= i < j < m.len() implies region_end(#[trigger] m[i]) <= (#[trigger] m[j]).begin by {
        let si = if i < idx - 1 { i } else if i == idx - 1 { idx - 1 } else { i + 1 };
        let sj = if j < idx - 1 { j } else if j == idx - 1 { idx } else { j + 1 };
        if i == idx - 1 {
            assert(region_end(m[i]) == region_end(s[idx]));
            assert(m[j] == s[j + 1]);
            assert(region_end(s[idx]) <= s[j + 1].begin);
        } else if j == idx - 1 {
            assert(m[i] == s[i]);
            assert(region_end(s[i]) <= s[idx - 1].begin);
        } else {
            assert(m[i] == s[si] && m[j] == s[sj]);
            assert(si < sj);
        }
    }
    assert forall|i: int| 0 <= i < m.len() implies (#[trigger] m[i]).npages > 0 && m[i].begin % 4096 == 0 && region_end(m[i]) <= VA_MAX by {
        if i < idx - 1 {
            assert(m[i] == s[i]);
        } else if i > idx - 1 {
            assert(m[i] == s[i + 1]);
        }
    }
    lemma_merged_both_cover(s, idx, b, e);
}

#[verifier::rlimit(100)]
#[verifier::spinoff_prover]
proof fn lemma_merged_both_cover(s: Seq<MmapRegion>, idx: int, b: int, e: int)
    requires
        list_wf(s),
        0 <= idx <= s.len(),
        forall|j: int| 0 <= j < idx ==> s[j].begin < b,
        idx < s.len() ==> s[idx].begin >= b,
        b % 4096 == 0,
        e % 4096 == 0,
        0 <= b < e <= VA_MAX,
        idx > 0 ==> region_end(s[idx - 1]) <= b,
        idx < s.len() ==> e <= s[idx].begin,
        joins_prev(s, idx, b) && joins_next(s, idx, e),
    ensures
        covered(merged_list(s, idx, b, e)) == covered(s).union(Set::new(|x: int| b <= x < e)),
{
    let m = merged_list(s, idx, b, e);
    let nw = Set::new(|x: int| b <= x < e);
    let p = s[idx - 1];
    let q = s[idx];
    lemma_pages_exact(p.begin as int, region_end(q));
    let mid = MmapRegion { begin: p.begin, npages: ((region_end(q) - p.begin) / 4096) as u32 };
    assert(region_end(mid) == region_end(q));
    assert(m =~= s.take(idx - 1).push(mid) + s.skip(idx + 1));
    assert forall|x: int| covered(m).contains(x) <==> covered(s).union(nw).contains(x) by {
        if covered(m).contains(x) {
            let i = choose|i: int| 0 <= i < m.len() && #[trigger] in_region(m[i], x);
            if i < idx - 1 {
                assert(in_region(s[i], x));
            } else if i > idx - 1 {
                assert(in_region(s[i + 1], x));
            } else {
                if x < b {
                    assert(in_region(s[idx - 1], x));
                } else if x >= e {
                    assert(in_region(s[idx], x));
                }
            }
        }
        if covered(s).contains(x) {
            let i = choose|i: int| 0 <= i < s.len() && #[trigger] in_region(s[i], x);
            if i < idx - 1 {
                assert(in_region(m[i], x));
            } else if i > idx {
                assert(in_region(m[i - 1], x));
            } else {
                assert(in_region(m[idx - 1], x));
            }
        }
        if nw.contains(x) {
            assert(in_region(m[idx - 1], x));
        }
    }
    assert(covered(m) =~= covered(s).union(nw));
}

#[verifier::rlimit(50)]
#[verifier::spinoff_prover]
proof fn lemma_merged_prev(s: Seq<MmapRegion>, idx: int, b: int, e: int)
    requires
        list_wf(s),
        0 <= idx <= s.len(),
        forall|j: int| 0 <= j < idx ==> s[j].begin < b,
        idx < s.len() ==> s[idx].begin >= b,
        b % 4096 == 0,
        e % 4096 == 0,
        0 <= b < e <= VA_MAX,
        idx > 0 ==> region_end(s[idx - 1]) <= b,
        idx < s.len() ==> e <= s[idx].begin,
        joins_prev(s, idx, b) && !joins_next(s, idx, e),
    ensures
        list_wf(merged_list(s, idx, b, e)),
        covered(merged_list(s, idx, b, e)) == covered(s).union(Set::new(|x: int| b <= x < e)),
{
    let m = merged_list(s, idx, b, e);
    let nw = Set::new(|x: int| b <= x < e);
    let p = s[idx - 1];
    lemma_pages_exact(p.begin as int, e);
    let mid = MmapRegion { begin: p.begin, npages: ((e - p.begin) / 4096) as u32 };
    assert(region_end(mid) == e);
    assert forall|i: int, j: int| 0 <= i < j < m.len() implies region_end(#[trigger] m[i]) <= (#[trigger] m[j]).begin by {
        if i == idx - 1 {
            assert(m[j] == s[j]);
        } else if j == idx - 1 {
            assert(m[i] == s[i]);
            assert(region_end(s[i]) <= s[idx - 1].begin);
        } else {
            assert(m[i] == s[i] && m[j] == s[j]);
        }
    }
    assert forall|i: int| 0 <= i < m.len() implies (#[trigger] m[i]).npages > 0 && m[i].begin % 4096 == 0 && region_end(m[i]) <= VA_MAX by {
        if i != idx - 1 {
            assert(m[i] == s[i]);
        }
    }
    assert forall|x: int| covered(m).contains(x) <==> covered(s).union(nw).contains(x) by {
        if covered(m).contains(x) {
            let i = choose|i: int| 0 <= i < m.len() && #[trigger] in_region(m[i], x);
            if i != idx - 1 {
                assert(in_region(s[i], x));
            } else if x < b {
                assert(in_region(s[idx - 1], x));
            }
        }
        if covered(s).contains(x) {
            let i = choose|i: int| 0 <= i < s.len() && #[trigger] in_region(s[i], x);
            assert(in_region(m[i], x));
        }
        if nw.contains(x) {
            assert(in_region(m[idx - 1], x));
        }
    }
    assert(covered(m) =~= covered(s).union(nw));
}

#[verifier::rlimit(50)]
#[verifier::spinoff_prover]
proof fn lemma_merged_next(s: Seq<MmapRegion>, idx: int, b: int, e: int)
    requires
        list_wf(s),
        0 <= idx <= s.len(),
        forall|j: int| 0 <= j < idx ==> s[j].begin < b,
        idx < s.len() ==> s[idx].begin >= b,
        b % 4096 == 0,
        e % 4096 == 0,
        0 <= b < e <= VA_MAX,
        idx > 0 ==> region_end(s[idx - 1]) <= b,
        idx < s.len() ==> e <= s[idx].begin,
        !joins_prev(s, idx, b) && joins_next(s, idx, e),
    ensures
        list_wf(merged_list(s, idx, b, e)),
        covered(merged_list(s, idx, b, e)) == covered(s).union(Set::new(|x: int| b <= x < e)),
{
    let m = merged_list(s, idx, b, e);
    let nw = Set::new(|x: int| b <= x < e);
    let q = s[idx];
    lemma_pages_exact(b, region_end(q));
    let mid = MmapRegion { begin: b as u64, npages: ((region_end(q) - b) / 4096) as u32 };
    assert(region_end(mid) == region_end(q));
    assert forall|i: int, j: int| 0 <= i < j < m.len() implies region_end(#[trigger] m[i]) <= (#[trigger] m[j]).begin by {
        if i == idx {
            assert(m[j] == s[j]);
        } else if j == idx {
            assert(m[i] == s[i]);
            if i < idx - 1 {
                assert(region_end(s[i]) <= s[idx - 1].begin);
            }
        } else {
            assert(m[i] == s[i] && m[j] == s[j]);
        }
    }
    assert forall|i: int| 0 <= i < m.len() implies (#[trigger] m[i]).npages > 0 && m[i].begin % 4096 == 0 && region_end(m[i]) <= VA_MAX by {
        if i != idx {
            assert(m[i] == s[i]);
        }
    }
    assert forall|x: int| covered(m).contains(x) <==> covered(s).union(nw).contains(x) by {
        if covered(m).contains(x) {
            let i = choose|i: int| 0 <= i < m.len() && #[trigger] in_region(m[i], x);
            if i != idx {
                assert(in_region(s[i], x));
            } else if x >= e {
                assert(in_region(s[idx], x));
            }
        }
        if covered(s).contains(x) {
            let i = choose|i: int| 0 <= i < s.len() && #[trigger] in_region(s[i], x);
            assert(in_region(m[i], x));
        }
        if nw.contains(x) {
            assert(in_region(m[idx], x));
        }
    }
    assert(covered(m) =~= covered(s).union(nw));
}

#[verifier::rlimit(50)]
#[verifier::spinoff_prover]
proof fn lemma_merged_new(s: Seq<MmapRegion>, idx: int, b: int, e: int)
    requires
        list_wf(s),
        0 <= idx <= s.len(),
        forall|j: int| 0 <= j < idx ==> s[j].begin < b,
        idx < s.len() ==> s[idx].begin >= b,
        b % 4096 == 0,
        e % 4096 == 0,
        0 <= b < e <= VA_MAX,
        idx > 0 ==> region_end(s[idx - 1]) <= b,
        idx < s.len() ==> e <= s[idx].begin,
        !joins_prev(s, idx, b) && !joins_next(s, idx, e),
    ensures
        list_wf(merged_list(s, idx, b, e)),
        covered(merged_list(s, idx, b, e)) == covered(s).union(Set::new(|x: int| b <= x < e)),
{
    let m = merged_list(s, idx, b, e);
    let nw = Set::new(|x: int| b <= x < e);
    lemma_pages_exact(b, e);
    let mid = MmapRegion { begin: b as u64, npages: ((e - b) / 4096) as u32 };
    assert(region_end(mid) == e);
    assert(m[idx] == mid);
    assert forall|i: int, j: int| 0 <= i < j < m.len() implies region_end(#[trigger] m[i]) <= (#[trigger] m[j]).begin by {
        if i == idx {
            assert(m[j] == s[j - 1]);
        } else if j == idx {
            assert(m[i] == s[i]);
            if i < idx - 1 {
                assert(region_end(s[i]) <= s[idx - 1].begin);
            }
        } else if i < idx && j < idx {
            assert(m[i] == s[i] && m[j] == s[j]);
        } else if i < idx {
            assert(m[i] == s[i] && m[j] == s[j - 1]);
            if idx < s.len() && i < idx - 1 {
                assert(region_end(s[i]) <= s[idx - 1].begin);
            }
        } else {
            assert(m[i] == s[i - 1] && m[j] == s[j - 1]);
        }
    }
    assert forall|i: int| 0 <= i < m.len() implies (#[trigger] m[i]).npages > 0 && m[i].begin % 4096 == 0 && region_end(m[i]) <= VA_MAX by {
        if i < idx {
            assert(m[i] == s[i]);
        } else if i > idx {
            assert(m[i] == s[i - 1]);
        }
    }
    assert forall|x: int| covered(m).contains(x) <==> covered(s).union(nw).contains(x) by {
        if covered(m).contains(x) {
            let i = choose|i: int| 0 <= i < m.len() && #[trigger] in_region(m[i], x);
            if i < idx {
                assert(in_region(s[i], x));
            } else if i > idx {
                assert(in_region(s[i - 1], x));
            }
        }
        if covered(s).contains(x) {
            let i = choose|i: int| 0 <= i < s.len() && #[trigger] in_region(s[i], x);
            if i < idx {
                assert(in_region(m[i], x));
            } else {
                assert(in_region(m[i + 1], x));
            }
        }
        if nw.contains(x) {
            assert(in_region(m[idx], x));
        }
    }
    assert(covered(m) =~= covered(s).union(nw));
}

/// Adding a mapping that fits between its neighbours keeps the list ordered and
/// without overlap, and the list then covers exactly what it covered before and
/// the new mapping.
pub proof fn lemma_merged_list(s: Seq<MmapRegion>, idx: int, b: int, e: int)
    requires
        list_wf(s),
        0 <= idx <= s.len(),
        forall|j: int| 0 <= j < idx ==> s[j].begin < b,
        idx < s.len() ==> s[idx].begin >= b,
        b % 4096 == 0,
        e % 4096 == 0,
        0 <= b < e <= VA_MAX,
        idx > 0 ==> region_end(s[idx - 1]) <= b,
        idx < s.len() ==> e <= s[idx].begin,
    ensures
        list_wf(merged_list(s, idx, b, e)),
        covered(merged_list(s, idx, b, e)) == covered(s).union(Set::new(|x: int| b <= x < e)),
{
    if joins_prev(s, idx, b) && joins_next(s, idx, e) {
        lemma_merged_both(s, idx, b, e);
    } else if joins_prev(s, idx, b) {
        lemma_merged_prev(s, idx, b, e);
    } else if joins_next(s, idx, e) {
        lemma_merged_next(s, idx, b, e);
    } else {
        lemma_merged_new(s, idx, b, e);
    }
}

/// The region shares an address with `[start, end)`.
pub open spec fn overlaps(r: MmapRegion, start: int, end: int) -> bool {
    region_end(r) > start && end > r.begin
}

/// What remains of a region once `[start, end)` is taken out: the region itself
/// when they do not overlap; otherwise the part below `start` and the part from
/// `end`, each when not empty.
pub open spec fn cut_region(r: MmapRegion, start: int, end: int) -> Seq<MmapRegion> {
    let b = r.begin as int;
    let e = region_end(r);
    if !overlaps(r, start, end) {
        seq![r]
    } else {
        let left = if b < start { seq![MmapRegion { begin: r.begin, npages: ((start - b) / 4096) as u32 }] } else { Seq::empty() };
        let right = if end < e { seq![MmapRegion { begin: end as u64, npages: ((e - end) / 4096) as u32 }] } else { Seq::empty() };
        left + right
    }
}

/// The list once `[start, end)` is taken out of each region.
pub open spec fn cut_list(s: Seq<MmapRegion>, start: int, end: int) -> Seq<MmapRegion>
    decreases s.len(),
{
    if s.len() == 0 {
        Seq::empty()
    } else {
        cut_list(s.drop_last(), start, end) + cut_region(s.last(), start, end)
    }
}

/// Some region reaches both below `start` and from `end` on, so taking out
/// `[start, end)` splits it in two.
pub open spec fn needs_split(s: Seq<MmapRegion>, start: int, end: int) -> bool {
    exists|i: int| 0 <= i < s.len() && (#[trigger] s[i]).begin < start && end < region_end(s[i])
}

/// What a concatenation of lists covers is what either list covers.
pub proof fn lemma_covered_concat(a: Seq<MmapRegion>, b: Seq<MmapRegion>)
    ensures
        covered(a + b) == covered(a).union(covered(b)),
{
    let c = a + b;
    assert forall|x: int| covered(c).contains(x) <==> covered(a).union(covered(b)).contains(x) by {
        if covered(c).contains(x) {
            let i = choose|i: int| 0 <= i < c.len() && #[trigger] in_region(c[i], x);
            if i < a.len() {
                assert(in_region(a[i], x));
            } else {
                assert(in_region(b[i - a.len()], x));
            }
        }
        if covered(a).contains(x) {
            let i = choose|i: int| 0 <= i < a.len() && #[trigger] in_region(a[i], x);
            assert(in_region(c[i], x));
        }
        if covered(b).contains(x) {
            let i = choose|i: int| 0 <= i < b.len() && #[trigger] in_region(b[i], x);
            assert(in_region(c[i + a.len()], x));
        }
    }
    assert(covered(c) =~= covered(a).union(covered(b)));
}

#[verifier::rlimit(50)]
proof fn lemma_cut_region(r: MmapRegion, start: int, end: int)
    requires
        r.npages > 0,
        r.begin % 4096 == 0,
        region_end(r) <= VA_MAX,
        start % 4096 == 0,
        end % 4096 == 0,
        0 <= start < end,
    ensures
        list_wf(cut_region(r, start, end)),
        covered(cut_region(r, start, end)) == covered(seq![r]).difference(Set::new(|x: int| start <= x < end)),
        forall|k: int| 0 <= k < cut_region(r, start, end).len() ==> r.begin <= (#[trigger] cut_region(r, start, end)[k]).begin
            && region_end(cut_region(r, start, end)[k]) <= region_end(r),
{
    let c = cut_region(r, start, end);
    let b = r.begin as int;
    let e = region_end(r);
    let cut = Set::new(|x: int| start <= x < end);
    if !overlaps(r, start, end) {
        assert forall|x: int| covered(c).contains(x) <==> covered(seq![r]).difference(cut).contains(x) by {
            if covered(seq![r]).contains(x) {
                let i = choose|i: int| 0 <= i < 1 && #[trigger] in_region(seq![r][i], x);
                assert(in_region(c[0], x));
            }
        }
        assert(covered(c) =~= covered(seq![r]).difference(cut));
    } else {
        let left = MmapRegion { begin: r.begin, npages: ((start - b) / 4096) as u32 };
        let right = MmapRegion { begin: end as u64, npages: ((e - end) / 4096) as u32 };
        if b < start {
            assert((start - b) % 4096 == 0);
            assert(region_end(left) == start);
        }
        if end < e {
            assert((e - end) % 4096 == 0);
            assert(region_end(right) == e);
        }
        assert forall|x: int| covered(c).contains(x) <==> covered(seq![r]).difference(cut).contains(x) by {
            if covered(c).contains(x) {
                let i = choose|i: int| 0 <= i < c.len() && #[trigger] in_region(c[i], x);
                assert(in_region(seq![r][0], x));
            }
            if covered(seq![r]).difference(cut).contains(x) {
                let i = choose|i: int| 0 <= i < 1 && #[trigger] in_region(seq![r][i], x);
                if x < start {
                    assert(in_region(c[0], x));
                } else {
                    assert(in_region(c[c.len() - 1], x));
                }
            }
        }
        assert(covered(c) =~= covered(seq![r]).difference(cut));
    }
}

/// Taking a page-aligned range out of an ordered list keeps it ordered and
/// without overlap, and the list then covers what it covered outside the range.
pub proof fn lemma_cut_list(s: Seq<MmapRegion>, start: int, end: int)
    requires
        list_wf(s),
        start % 4096 == 0,
        end % 4096 == 0,
        0 <= start < end,
    ensures
        list_wf(cut_list(s, start, end)),
        covered(cut_list(s, start, end)) == covered(s).difference(Set::new(|x: int| start <= x < end)),
        s.len() > 0 ==> forall|k: int| 0 <= k < cut_list(s, start, end).len()
            ==> region_end(#[trigger] cut_list(s, start, end)[k]) <= region_end(s.last()),
    decreases s.len(),
{
    if s.len() == 0 {
        assert(covered(s) =~= Set::empty());
        assert(covered(cut_list(s, start, end)) =~= Set::empty());
    } else {
        let t = s.drop_last();
        let l = s.last();
        assert(list_wf(t)) by {
            assert forall|i: int| 0 <= i < t.len() implies (#[trigger] t[i]).npages > 0 && t[i].begin % 4096 == 0 && region_end(t[i]) <= VA_MAX by {
                assert(t[i] == s[i]);
            }
            assert forall|i: int, j: int| 0 <= i < j < t.len() implies region_end(#[trigger] t[i]) <= (#[trigger] t[j]).begin by {
                assert(t[i] == s[i] && t[j] == s[j]);
            }
        }
        lemma_cut_list(t, start, end);
        assert(l == s[s.len() - 1]);
        lemma_cut_region(l, start, end);
        let a = cut_list(t, start, end);
        let p = cut_region(l, start, end);
        let c = cut_list(s, start, end);
        assert(c == a + p);
        if t.len() > 0 {
            assert(region_end(t.last()) <= l.begin) by {
                assert(t.last() == s[s.len() - 2]);
            }
        }
        assert forall|i: int| 0 <= i < c.len() implies (#[trigger] c[i]).npages > 0 && c[i].begin % 4096 == 0 && region_end(c[i]) <= VA_MAX by {
            if i < a.len() {
                assert(c[i] == a[i]);
            } else {
                assert(c[i] == p[i - a.len()]);
            }
        }
        assert forall|i: int, j: int| 0 <= i < j < c.len() implies region_end(#[trigger] c[i]) <= (#[trigger] c[j]).begin by {
            if j < a.len() {
                assert(c[i] == a[i] && c[j] == a[j]);
            } else if i >= a.len() {
                assert(c[i] == p[i - a.len()] && c[j] == p[j - a.len()]);
            } else {
                assert(c[i] == a[i] && c[j] == p[j - a.len()]);
                assert(region_end(a[i]) <= region_end(t.last()));
            }
        }
        assert forall|k: int| 0 <= k < c.len() implies region_end(#[trigger] c[k]) <= region_end(s.last()) by {
            if k < a.len() {
                assert(c[k] == a[k]);
                assert(region_end(a[k]) <= region_end(t.last()));
            } else {
                assert(c[k] == p[k - a.len()]);
            }
        }
        lemma_covered_concat(a, p);
        assert(s =~= t + seq![l]);
        lemma_covered_concat(t, seq![l]);
        assert(covered(c) =~= covered(s).difference(Set::new(|x: int| start <= x < end)));
    }
}

/// A new mapping never lands on a mapped address: when `mmap_place` accepts a
/// start, the `need` bytes from it are disjoint from what the list covers, the
/// list with the mapping added stays ordered and without overlap, and it covers
/// exactly the old addresses and the new ones.
pub proof fn law_mmap_adds_exactly_the_new_range(s: Seq<MmapRegion>, req: int, need: int, mmap_begin: int, mmap_end: int)
    requires
        list_wf(s),
        need > 0,
        need % 4096 == 0,
        0 <= mmap_begin,
        mmap_end <= VA_MAX,
        mmap_place(s, req, need, mmap_begin, mmap_end) is Some,
    ensures
        ({
            let (b, idx) = mmap_place(s, req, need, mmap_begin, mmap_end)->0;
            let m = merged_list(s, idx, b, b + need);
            let nw = Set::new(|x: int| b <= x < b + need);
            &&& covered(s).intersect(nw) == Set::<int>::empty()
            &&& list_wf(m)
            &&& covered(m) == covered(s).union(nw)
        }),
{
    let (b, idx) = mmap_place(s, req, need, mmap_begin, mmap_end)->0;
    let e = b + need;
    let nw = Set::new(|x: int| b <= x < e);
    lemma_first_at_or_above(s, b, 0);
    assert(idx == first_at_or_above(s, b, 0));
    lemma_merged_list(s, idx, b, e);
    assert forall|x: int| !(covered(s).contains(x) && nw.contains(x)) by {
        if covered(s).contains(x) && nw.contains(x) {
            let i = choose|i: int| 0 <= i < s.len() && #[trigger] in_region(s[i], x);
            if i < idx - 1 {
                assert(region_end(s[i]) <= s[idx - 1].begin);
            } else if i >= idx + 1 {
                assert(region_end(s[idx]) <= s[i].begin);
            }
        }
    }
    assert(covered(s).intersect(nw) =~= Set::<int>::empty());
}

/// Unmapping takes exactly the range out: the list stays ordered and without
/// overlap and covers what it covered outside `[start, end)`.
pub proof fn law_munmap_takes_out_exactly_the_range(s: Seq<MmapRegion>, start: int, end: int)
    requires
        list_wf(s),
        start % 4096 == 0,
        end % 4096 == 0,
        0 <= start < end,
    ensures
        list_wf(cut_list(s, start, end)),
        covered(cut_list(s, start, end)) == covered(s).difference(Set::new(|x: int| start <= x < end)),
{
    lemma_cut_list(s, start, end);
}

/// Unmapping what a mapping just added gives back the addresses covered before it.
pub proof fn law_munmap_undoes_mmap(s: Seq<MmapRegion>, req: int, need: int, mmap_begin: int, mmap_end: int)
    requires
        list_wf(s),
        need > 0,
        need % 4096 == 0,
        0 <= mmap_begin,
        mmap_end <= VA_MAX,
        mmap_place(s, req, need, mmap_begin, mmap_end) is Some,
    ensures
        ({
            let (b, idx) = mmap_place(s, req, need, mmap_begin, mmap_end)->0;
            covered(cut_list(merged_list(s, idx, b, b + need), b, b + need)) == covered(s)
        }),
{
    let (b, idx) = mmap_place(s, req, need, mmap_begin, mmap_end)->0;
    law_mmap_adds_exactly_the_new_range(s, req, need, mmap_begin, mmap_end);
    let m = merged_list(s, idx, b, b + need);
    let nw = Set::new(|x: int| b <= x < b + need);
    lemma_cut_list(m, b, b + need);
    assert forall|x: int| covered(m).difference(nw).contains(x) <==> covered(s).contains(x) by {
        if covered(s).contains(x) {
            assert(!(covered(s).intersect(nw).contains(x)));
        }
    }
    assert(covered(m).difference(nw) =~= covered(s));
}

/// Some region of the list overlaps `[a, a + need)`.
pub open spec fn blocked(s: Seq<MmapRegion>, a: int, need: int) -> bool {
    exists|j: int| 0 <= j < s.len() && #[trigger] overlaps(s[j], a, a + need)
}

proof fn lemma_scan_first_fit(s: Seq<MmapRegion>, i: int, cursor: int, need: int, m: int)
    requires
        list_wf(s),
        0 <= i <= s.len(),
        need > 0,
        m <= cursor,
        forall|j: int| 0 <= j < i ==> region_end(#[trigger] s[j]) <= cursor,
        forall|j: int| i <= j < s.len() ==> (#[trigger] s[j]).begin >= cursor || region_end(s[j]) <= cursor,
        forall|a: int| m <= a < cursor ==> #[trigger] blocked(s, a, need),
    ensures
        ({
            let (f, c) = scan_gap(s, i, cursor, need);
            &&& c >= cursor
            &&& forall|a: int| m <= a < c ==> #[trigger] blocked(s, a, need)
            &&& f is Some ==> f->0 == c && !blocked(s, c, need)
            &&& f is None ==> forall|j: int| 0 <= j < s.len() ==> region_end(#[trigger] s[j]) <= c
        }),
    decreases s.len() - i,
{
    if i < s.len() {
        let r = s[i];
        if r.begin >= cursor {
            if r.begin - cursor >= need {
                assert forall|j: int| 0 <= j < s.len() implies !overlaps(#[trigger] s[j], cursor, cursor + need) by {
                    if j > i {
                        assert(region_end(s[i]) <= s[j].begin);
                    }
                }
            } else {
                let c2 = region_end(r);
                assert forall|a: int| m <= a < c2 implies #[trigger] blocked(s, a, need) by {
                    if a >= cursor {
                        assert(overlaps(s[i], a, a + need));
                    }
                }
                assert forall|j: int| i + 1 <= j < s.len() implies (#[trigger] s[j]).begin >= c2 || region_end(s[j]) <= c2 by {
                    assert(region_end(s[i]) <= s[j].begin);
                }
                lemma_scan_first_fit(s, i + 1, c2, need, m);
            }
        } else {
            lemma_scan_first_fit(s, i + 1, cursor, need, m);
        }
    }
}

/// First fit: asked for `need` bytes at no particular address, mmap takes the
/// lowest start at or above `mmap_begin` where `[start, start + need)` meets no
/// region (when no region straddles `mmap_begin`); when there is none below
/// `mmap_end`, it takes none.
pub proof fn law_mmap_first_fit(s: Seq<MmapRegion>, need: int, mmap_begin: int, mmap_end: int)
    requires
        list_wf(s),
        need > 0,
        mmap_begin > 0,
        forall|j: int| 0 <= j < s.len() ==> (#[trigger] s[j]).begin >= mmap_begin || region_end(s[j]) <= mmap_begin,
    ensures
        match chosen_begin(s, 0, need, mmap_begin, mmap_end) {
            Some(b) => {
                &&& b >= mmap_begin
                &&& !blocked(s, b, need)
                &&& forall|a: int| mmap_begin <= a < b ==> #[trigger] blocked(s, a, need)
            },
            None => forall|a: int| mmap_begin <= a && a + need <= mmap_end ==> #[trigger] blocked(s, a, need),
        },
{
    lemma_scan_first_fit(s, 0, mmap_begin, need, mmap_begin);
    let (f, c) = scan_gap(s, 0, mmap_begin, need);
    if f is None {
        assert(!blocked(s, c, need)) by {
            assert forall|j: int| 0 <= j < s.len() implies !overlaps(#[trigger] s[j], c, c + need) by {}
        }
    }
}

} // verus!
