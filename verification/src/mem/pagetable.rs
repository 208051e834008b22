//! Sv39 page tables.
//!
//! A page table is a root page of 512 entries; the pages of the lower levels
//! live in a `TableStore`, which records for each table page its physical
//! address and holds its 512 entries. Following an entry to the next level
//! means finding the table page whose address the entry holds.
use vstd::prelude::*;
use super::addr::{PhysAddr, VirtAddr};
use super::pte::{Pte, PteFlags, pte_valid, pte_leaf, pte_pa, pte_ppn, pte_encode, with_flags, lemma_with_flags, PTEFLAGS_MASK, VALID, WRITE, EXECUTE};
use super::{Perms, PGNUM, PGSIZE};
use crate::error::Error;

verus! {

/// Where an entry lives: in the root page, or in the `t`-th page of the store.
#[derive(Clone, Copy, PartialEq, Eq, Structural, Debug)]
pub enum PteLoc {
    Root(usize),
    Table(usize, usize),
}

/// A page-table page: 512 entries.
pub struct PageTable {
    pub entries: Vec<Pte>,
}

/// The lower-level page-table pages: their physical addresses and, 512 per page, their entries.
pub struct TableStore {
    pub addrs: Vec<PhysAddr>,
    pub entries: Vec<Pte>,
}

/// The index into the table at `level` (0 = leaf level) that translation of `va` uses.
pub open spec fn vpn_index(va: u64, level: u64) -> int {
    ((va >> ((12 + 9 * level) as u64)) & 0x1FFu64) as int
}

/// The first table page of the store held at physical address `pa`.
pub open spec fn table_index(addrs: Seq<PhysAddr>, pa: u64) -> Option<int> {
    if exists|i: int| 0 <= i < addrs.len() && addrs[i].0 == pa {
        Some(
            choose|i: int|
                0 <= i < addrs.len() && addrs[i].0 == pa && (forall|j: int|
                    0 <= j < i ==> addrs[j].0 != pa),
        )
    } else {
        None
    }
}

/// The entry at a location.
pub open spec fn entry_at(root: Seq<Pte>, ents: Seq<Pte>, loc: PteLoc) -> Pte {
    match loc {
        PteLoc::Root(j) => root[j as int],
        PteLoc::Table(t, j) => ents[t * 512 + j],
    }
}

/// The root page after writing `v` at `loc`.
pub open spec fn put_root(root: Seq<Pte>, loc: PteLoc, v: Pte) -> Seq<Pte> {
    match loc {
        PteLoc::Root(j) => root.update(j as int, v),
        PteLoc::Table(_, _) => root,
    }
}

/// The store's entries after writing `v` at `loc`.
pub open spec fn put_ents(ents: Seq<Pte>, loc: PteLoc, v: Pte) -> Seq<Pte> {
    match loc {
        PteLoc::Root(_) => ents,
        PteLoc::Table(t, j) => ents.update(t * 512 + j, v),
    }
}

/// A location that exists in a root of 512 entries and a store of `ents_len` entries.
pub open spec fn loc_in_range(loc: PteLoc, ents_len: int) -> bool {
    match loc {
        PteLoc::Root(j) => j < 512,
        PteLoc::Table(t, j) => j < 512 && t * 512 + j < ents_len,
    }
}

/// The entry at which translation of `va` stops: the level-0 entry, or a valid
/// leaf (huge page) met on the way; `None` when a level on the way is not valid
/// or points to no table page of the store.
#[verifier::opaque]
pub open spec fn walk_spec(root: Seq<Pte>, addrs: Seq<PhysAddr>, ents: Seq<Pte>, va: u64) -> Option<PteLoc> {
    let i2 = vpn_index(va, 2);
    let e2 = root[i2];
    if !pte_valid(e2.0) {
        None
    } else if pte_leaf(e2.0) {
        Some(PteLoc::Root(i2 as usize))
    } else {
        match table_index(addrs, pte_pa(e2.0)) {
            None => None,
            Some(t1) => {
                let i1 = vpn_index(va, 1);
                let e1 = ents[t1 * 512 + i1];
                if !pte_valid(e1.0) {
                    None
                } else if pte_leaf(e1.0) {
                    Some(PteLoc::Table(t1 as usize, i1 as usize))
                } else {
                    match table_index(addrs, pte_pa(e1.0)) {
                        None => None,
                        Some(t0) => Some(PteLoc::Table(t0 as usize, vpn_index(va, 0) as usize)),
                    }
                }
            },
        }
    }
}

/// The level-0 entry of `va`, found without allocating: `None` when `va` lies
/// at or above `VA_MAX`, or when a level above is not a valid entry pointing to
/// a table page of the store (a huge page on the way counts as no entry).
#[verifier::opaque]
pub open spec fn lookup_spec(root: Seq<Pte>, addrs: Seq<PhysAddr>, ents: Seq<Pte>, va: u64) -> Option<PteLoc> {
    let e2 = root[vpn_index(va, 2)];
    if va >= super::VA_MAX || !pte_valid(e2.0) || pte_leaf(e2.0) {
        None
    } else {
        match table_index(addrs, pte_pa(e2.0)) {
            None => None,
            Some(t1) => {
                let e1 = ents[t1 * 512 + vpn_index(va, 1)];
                if !pte_valid(e1.0) || pte_leaf(e1.0) {
                    None
                } else {
                    match table_index(addrs, pte_pa(e1.0)) {
                        None => None,
                        Some(t0) => Some(PteLoc::Table(t0 as usize, vpn_index(va, 0) as usize)),
                    }
                }
            },
        }
    }
}

/// How far `va` is below `end` (0 when it is not).
pub open spec fn gap(va: int, end: int) -> int {
    if va < end {
        end - va
    } else {
        0
    }
}

/// `size` rounded up to whole pages.
pub open spec fn round_up_page(size: int) -> int {
    ((size + 4095) / 4096) * 4096
}

/// Mapping the pages from `va` (up to `end`) to consecutive frames from `pa`, one
/// page at a time: a page whose walk fails stops with `MappingFailed`, a page
/// already mapped elsewhere stops with `AlreadyExists`; each other page gets an
/// entry for its frame with `flags`.
pub open spec fn map_run(
    root: Seq<Pte>,
    addrs: Seq<PhysAddr>,
    ents: Seq<Pte>,
    va: int,
    end: int,
    pa: int,
    flags: u64,
) -> (Seq<Pte>, Seq<Pte>, Result<(), Error>)
    decreases gap(va, end),
{
    if va >= end {
        (root, ents, Ok(()))
    } else {
        match walk_spec(root, addrs, ents, va as u64) {
            None => (root, ents, Err(Error::MappingFailed)),
            Some(loc) => {
                let old = entry_at(root, ents, loc);
                if pte_valid(old.0) && pte_pa(old.0) != pa {
                    (root, ents, Err(Error::AlreadyExists))
                } else {
                    let v = Pte(pte_encode(pa as u64, flags));
                    map_run(
                        put_root(root, loc, v),
                        addrs,
                        put_ents(ents, loc, v),
                        va + 4096,
                        end,
                        pa + 4096,
                        flags,
                    )
                }
            },
        }
    }
}


/// Changing the flags of the pages from `va` (up to `end`), one page at a time:
/// a page whose walk fails, or whose entry is not valid, stops with
/// `MappingFailed`; each other entry keeps its page number and has its flag
/// bits replaced by `flags` (see `with_flags`).
pub open spec fn update_run(
    root: Seq<Pte>,
    addrs: Seq<PhysAddr>,
    ents: Seq<Pte>,
    va: int,
    end: int,
    flags: u64,
) -> (Seq<Pte>, Seq<Pte>, Result<(), Error>)
    decreases gap(va, end),
{
    if va >= end {
        (root, ents, Ok(()))
    } else {
        match walk_spec(root, addrs, ents, va as u64) {
            None => (root, ents, Err(Error::MappingFailed)),
            Some(loc) => {
                let old = entry_at(root, ents, loc);
                if !pte_valid(old.0) {
                    (root, ents, Err(Error::MappingFailed))
                } else {
                    let v = Pte(with_flags(old.0, flags));
                    update_run(put_root(root, loc, v), addrs, put_ents(ents, loc, v), va + 4096, end, flags)
                }
            },
        }
    }
}

/// Clearing, one page at a time from `va` (up to `end`), the entry at which each
/// page's walk stops; pages whose walk fails are left alone.
pub open spec fn unmap_run(root: Seq<Pte>, addrs: Seq<PhysAddr>, ents: Seq<Pte>, va: int, end: int) -> (Seq<Pte>, Seq<Pte>)
    decreases gap(va, end),
{
    if va >= end {
        (root, ents)
    } else {
        match walk_spec(root, addrs, ents, va as u64) {
            None => unmap_run(root, addrs, ents, va + 4096, end),
            Some(loc) => unmap_run(
                put_root(root, loc, Pte(0)),
                addrs,
                put_ents(ents, loc, Pte(0)),
                va + 4096,
                end,
            ),
        }
    }
}

/// The location of the entry for `va` at `level` (1 or 2): the root entry for
/// level 2; for level 1, the entry in the table that the root entry points to,
/// when that root entry is a valid non-leaf entry pointing into the store.
pub open spec fn table_slot_spec(root: Seq<Pte>, addrs: Seq<PhysAddr>, ents: Seq<Pte>, va: u64, level: u64) -> Option<PteLoc> {
    let i2 = vpn_index(va, 2);
    if level == 2 {
        Some(PteLoc::Root(i2 as usize))
    } else {
        let e2 = root[i2];
        if !pte_valid(e2.0) || pte_leaf(e2.0) {
            None
        } else {
            match table_index(addrs, pte_pa(e2.0)) {
                None => None,
                Some(t1) => Some(PteLoc::Table(t1 as usize, vpn_index(va, 1) as usize)),
            }
        }
    }
}

/// The store's entries with the 512 entries of table page `t` set to zero.
pub open spec fn zero_table(ents: Seq<Pte>, t: int) -> Seq<Pte> {
    Seq::new(ents.len(), |i: int| if t * 512 <= i < t * 512 + 512 { Pte(0) } else { ents[i] })
}

proof fn lemma_next_page_fits(k: int, size: int)
    requires
        0 <= k,
        k * 4096 < size,
    ensures
        (k + 1) * 4096 <= round_up_page(size),
{
    assert((k + 1) * 4096 <= ((size + 4095) / 4096) * 4096) by (nonlinear_arith)
        requires
            0 <= k,
            k * 4096 < size,
    {
        assert(k + 1 <= (size + 4095) / 4096) by (nonlinear_arith)
            requires
                k * 4096 < size,
        ;
    }
}

pub(crate) fn vpn(va: u64, level: u64) -> (r: usize)
    requires
        level <= 2,
    ensures
        r as int == vpn_index(va, level),
        r < 512,
{
    let s: u64 = 12 + 9 * level;
    let x: u64 = (va >> s) & 0x1FF;
    assert(x <= 0x1FF) by (bit_vector)
        requires
            x == (va >> s) & 0x1FFu64,
    ;
    x as usize
}

impl TableStore {
    pub open spec fn wf(&self) -> bool {
        &&& self.entries@.len() == self.addrs@.len() * 512
        &&& self.entries@.len() <= usize::MAX
    }

    /// An empty store.
    pub fn new() -> (r: Self)
        ensures
            r.wf(),
            r.addrs@.len() == 0,
    {
        TableStore { addrs: Vec::new(), entries: Vec::new() }
    }

    /// Finds the first table page held at `pa`.
    pub fn find(&self, pa: u64) -> (r: Option<usize>)
        ensures
            match r {
                Some(i) => table_index(self.addrs@, pa) == Some(i as int) && i < self.addrs@.len(),
                None => table_index(self.addrs@, pa).is_none(),
            },
    {
        let mut i: usize = 0;
        while i < self.addrs.len()
            invariant
                i <= self.addrs@.len(),
                forall|j: int| 0 <= j < i ==> self.addrs@[j].0 != pa,
            decreases self.addrs@.len() - i,
        {
            if self.addrs[i].0 == pa {
                proof {
                    let addrs = self.addrs@;
                    assert(addrs[i as int].0 == pa);
                    let c = table_index(addrs, pa).unwrap();
                    assert(0 <= c < addrs.len() && addrs[c].0 == pa);
                    assert(c == i) by {
                        if c < i {
                            assert(addrs[c].0 != pa);
                        } else if c > i {
                            assert(addrs[i as int].0 != pa);
                        }
                    }
                }
                return Some(i);
            }
            i += 1;
        }
        None
    }

    /// Adds a zeroed table page held at `pa`; returns its index.
    pub fn push_table(&mut self, pa: PhysAddr) -> (r: usize)
        requires
            old(self).wf(),
            (old(self).addrs@.len() + 1) * 512 <= usize::MAX,
        ensures
            final(self).wf(),
            r == old(self).addrs@.len(),
            final(self).addrs@ == old(self).addrs@.push(pa),
            final(self).entries@.len() == old(self).entries@.len() + 512,
            forall|i: int| 0 <= i < old(self).entries@.len() ==> final(self).entries@[i] == old(self).entries@[i],
            forall|i: int| old(self).entries@.len() <= i < final(self).entries@.len() ==> final(self).entries@[i].0 == 0,
    {
        let r = self.addrs.len();
        self.addrs.push(pa);
        let mut k: usize = 0;
        while k < PGNUM
            invariant
                self.addrs@ == old(self).addrs@.push(pa),
                r == old(self).addrs@.len(),
                old(self).entries@.len() == r * 512,
                self.entries@.len() == old(self).entries@.len() + k,
                k <= 512,
                forall|i: int| 0 <= i < old(self).entries@.len() ==> self.entries@[i] == old(self).entries@[i],
                forall|i: int| old(self).entries@.len() <= i < self.entries@.len() ==> self.entries@[i].0 == 0,
            decreases 512 - k,
        {
            self.entries.push(Pte::null());
            k += 1;
        }
        r
    }
}

impl PageTable {
    pub open spec fn wf(&self) -> bool {
        self.entries@.len() == 512
    }

    /// An empty table page: every entry is null.
    pub fn new() -> (r: Self)
        ensures
            r.wf(),
            forall|i: int| 0 <= i < 512 ==> r.entries@[i].0 == 0,
    {
        let mut entries: Vec<Pte> = Vec::new();
        let mut k: usize = 0;
        while k < PGNUM
            invariant
                entries@.len() == k,
                k <= 512,
                forall|i: int| 0 <= i < k ==> entries@[i].0 == 0,
            decreases 512 - k,
        {
            entries.push(Pte::null());
            k += 1;
        }
        PageTable { entries }
    }

    /// Reads the entry at `loc`.
    pub fn read_entry(&self, store: &TableStore, loc: PteLoc) -> (r: Pte)
        requires
            self.wf(),
            store.wf(),
            loc_in_range(loc, store.entries@.len() as int),
        ensures
            r == entry_at(self.entries@, store.entries@, loc),
    {
        match loc {
            PteLoc::Root(j) => self.entries[j],
            PteLoc::Table(t, j) => {
                assert(t * 512 <= t * 512 + j);
                store.entries[t * 512 + j]
            },
        }
    }

    /// Writes `v` at `loc`.
    pub fn write_entry(&mut self, store: &mut TableStore, loc: PteLoc, v: Pte)
        requires
            old(self).wf(),
            old(store).wf(),
            loc_in_range(loc, old(store).entries@.len() as int),
        ensures
            final(self).wf(),
            final(store).wf(),
            final(store).addrs@ == old(store).addrs@,
            final(self).entries@ == put_root(old(self).entries@, loc, v),
            final(store).entries@ == put_ents(old(store).entries@, loc, v),
    {
        match loc {
            PteLoc::Root(j) => {
                self.entries.set(j, v);
            },
            PteLoc::Table(t, j) => {
                assert(t * 512 <= t * 512 + j);
                store.entries.set(t * 512 + j, v);
            },
        }
    }

    /// Finds the entry at which translation of `va` stops (see `walk_spec`).
    #[verifier::rlimit(40)]
    pub fn walk(&self, store: &TableStore, va: VirtAddr) -> (r: Option<PteLoc>)
        requires
            self.wf(),
            store.wf(),
        ensures
            r == walk_spec(self.entries@, store.addrs@, store.entries@, va.0),
            r matches Some(loc) ==> loc_in_range(loc, store.entries@.len() as int),
    {
        reveal(walk_spec);
        let i2 = vpn(va.0, 2);
        let e2 = self.entries[i2];
        if !e2.is_valid() {
            return None;
        }
        if e2.is_leaf() {
            return Some(PteLoc::Root(i2));
        }
        let t1 = match store.find(e2.pa().0) {
            None => return None,
            Some(t) => t,
        };
        let i1 = vpn(va.0, 1);
        assert(t1 * 512 + i1 < store.entries@.len()) by (nonlinear_arith)
            requires
                t1 < store.addrs@.len(),
                i1 < 512,
                store.entries@.len() == store.addrs@.len() * 512,
        ;
        let e1 = store.entries[t1 * 512 + i1];
        if !e1.is_valid() {
            return None;
        }
        if e1.is_leaf() {
            return Some(PteLoc::Table(t1, i1));
        }
        let t0 = match store.find(e1.pa().0) {
            None => return None,
            Some(t) => t,
        };
        let i0 = vpn(va.0, 0);
        Some(PteLoc::Table(t0, i0))
    }

    /// Finds the level-0 entry of `va` (see `lookup_spec`).
    pub fn lookup(&self, store: &TableStore, va: VirtAddr) -> (r: Option<PteLoc>)
        requires
            self.wf(),
            store.wf(),
        ensures
            r == lookup_spec(self.entries@, store.addrs@, store.entries@, va.0),
            r matches Some(loc) ==> loc_in_range(loc, store.entries@.len() as int),
    {
        reveal(lookup_spec);
        let i2 = vpn(va.0, 2);
        let e2 = self.entries[i2];
        if va.0 >= super::VA_MAX || !e2.is_valid() || e2.is_leaf() {
            return None;
        }
        let t1 = match store.find(e2.pa().0) {
            None => return None,
            Some(t) => t,
        };
        let i1 = vpn(va.0, 1);
        assert(t1 * 512 + i1 < store.entries@.len()) by (nonlinear_arith)
            requires
                t1 < store.addrs@.len(),
                i1 < 512,
                store.entries@.len() == store.addrs@.len() * 512,
        ;
        let e1 = store.entries[t1 * 512 + i1];
        if !e1.is_valid() || e1.is_leaf() {
            return None;
        }
        let t0 = match store.find(e1.pa().0) {
            None => return None,
            Some(t) => t,
        };
        let i0 = vpn(va.0, 0);
        assert(t0 * 512 + i0 < store.entries@.len()) by (nonlinear_arith)
            requires
                t0 < store.addrs@.len(),
                i0 < 512,
                store.entries@.len() == store.addrs@.len() * 512,
        ;
        Some(PteLoc::Table(t0, i0))
    }

    /// Maps `size` bytes at `va` to the frames from `pa` with `flags`; the
    /// intermediate tables must exist already.
    pub fn map(&mut self, store: &mut TableStore, va: VirtAddr, pa: PhysAddr, size: usize, flags: Perms) -> (r: Result<(), Error>)
        requires
            old(self).wf(),
            old(store).wf(),
            va.0 % 4096 == 0,
            pa.0 % 4096 == 0,
            va.0 + round_up_page(size as int) <= u64::MAX,
            pa.0 + round_up_page(size as int) <= u64::MAX,
        ensures
            final(self).wf(),
            final(store).wf(),
            final(store).addrs@ == old(store).addrs@,
            flags.spec_write_and_exec() ==> r == Err::<(), Error>(Error::InvalidArgs)
                && final(self).entries@ == old(self).entries@
                && final(store).entries@ == old(store).entries@,
            !flags.spec_write_and_exec() ==> (final(self).entries@, final(store).entries@, r) == map_run(
                old(self).entries@,
                old(store).addrs@,
                old(store).entries@,
                va.0 as int,
                va.0 + size,
                pa.0 as int,
                flags.0 & PTEFLAGS_MASK,
            ),
    {
        if flags.contains(Perms(WRITE)) && flags.contains(Perms(EXECUTE)) {
            return Err(Error::InvalidArgs);
        }
        let pflags = PteFlags::from(flags.bits());
        let mut cur_va: u64 = va.0;
        let mut cur_pa: u64 = pa.0;
        proof {
            assert(round_up_page(size as int) >= size) by (nonlinear_arith);
        }
        let end_va: u64 = va.0 + size as u64;
        let ghost mut k: int = 0;
        while cur_va < end_va
            invariant
                self.wf(),
                store.wf(),
                store.addrs@ == old(store).addrs@,
                !flags.spec_write_and_exec(),
                pflags.0 == flags.0 & PTEFLAGS_MASK,
                end_va == va.0 + size,
                0 <= k,
                cur_va == va.0 + k * 4096,
                cur_pa == pa.0 + k * 4096,
                va.0 + round_up_page(size as int) <= u64::MAX,
                pa.0 + round_up_page(size as int) <= u64::MAX,
                map_run(old(self).entries@, old(store).addrs@, old(store).entries@, va.0 as int, va.0 + size, pa.0 as int, pflags.0)
                    == map_run(self.entries@, store.addrs@, store.entries@, cur_va as int, va.0 + size, cur_pa as int, pflags.0),
            decreases gap(cur_va as int, end_va as int),
        {
            proof {
                lemma_next_page_fits(k, size as int);
            }
            let loc = match self.walk(store, VirtAddr::from(cur_va)) {
                Some(l) => l,
                None => return Err(Error::MappingFailed),
            };
            let old_pte = self.read_entry(store, loc);
            if old_pte.is_valid() && old_pte.pa().0 != cur_pa {
                return Err(Error::AlreadyExists);
            }
            let v = Pte::from(PhysAddr::from(cur_pa), pflags);
            self.write_entry(store, loc, v);
            cur_va = cur_va + 4096;
            cur_pa = cur_pa + 4096;
            proof {
                k = k + 1;
            }
        }
        Ok(())
    }

    /// Changes the flags of the mapped pages of `size` bytes at `va` to `flags` (with V set).
    pub fn update(&mut self, store: &mut TableStore, va: VirtAddr, size: usize, flags: Perms) -> (r: Result<(), Error>)
        requires
            old(self).wf(),
            old(store).wf(),
            va.0 % 4096 == 0,
            va.0 + round_up_page(size as int) <= u64::MAX,
        ensures
            final(self).wf(),
            final(store).wf(),
            final(store).addrs@ == old(store).addrs@,
            flags.spec_write_and_exec() ==> r == Err::<(), Error>(Error::InvalidArgs)
                && final(self).entries@ == old(self).entries@
                && final(store).entries@ == old(store).entries@,
            !flags.spec_write_and_exec() ==> (final(self).entries@, final(store).entries@, r) == update_run(
                old(self).entries@,
                old(store).addrs@,
                old(store).entries@,
                va.0 as int,
                va.0 + size,
                (flags.0 | VALID) & PTEFLAGS_MASK,
            ),
    {
        if flags.contains(Perms(WRITE)) && flags.contains(Perms(EXECUTE)) {
            return Err(Error::InvalidArgs);
        }
        let pflags = PteFlags::from(flags.union(Perms(VALID)).bits());
        let mut cur_va: u64 = va.0;
        proof {
            assert(round_up_page(size as int) >= size) by (nonlinear_arith);
        }
        let end_va: u64 = va.0 + size as u64;
        let ghost mut k: int = 0;
        while cur_va < end_va
            invariant
                self.wf(),
                store.wf(),
                store.addrs@ == old(store).addrs@,
                !flags.spec_write_and_exec(),
                pflags.0 == (flags.0 | VALID) & PTEFLAGS_MASK,
                end_va == va.0 + size,
                0 <= k,
                cur_va == va.0 + k * 4096,
                va.0 + round_up_page(size as int) <= u64::MAX,
                update_run(old(self).entries@, old(store).addrs@, old(store).entries@, va.0 as int, va.0 + size, pflags.0)
                    == update_run(self.entries@, store.addrs@, store.entries@, cur_va as int, va.0 + size, pflags.0),
            decreases gap(cur_va as int, end_va as int),
        {
            proof {
                lemma_next_page_fits(k, size as int);
            }
            let loc = match self.walk(store, VirtAddr::from(cur_va)) {
                Some(l) => l,
                None => return Err(Error::MappingFailed),
            };
            let mut pte = self.read_entry(store, loc);
            if !pte.is_valid() {
                return Err(Error::MappingFailed);
            }
            pte.set_flags(pflags);
            self.write_entry(store, loc, pte);
            cur_va = cur_va + 4096;
            proof {
                k = k + 1;
            }
        }
        Ok(())
    }

    /// Clears the entries of the pages covering `[va, va + size)`; pages whose
    /// walk fails are skipped. The frames are not freed.
    pub fn unmap(&mut self, store: &mut TableStore, va: VirtAddr, size: usize) -> (r: Result<(), Error>)
        requires
            old(self).wf(),
            old(store).wf(),
            va.0 + size + 4096 <= u64::MAX,
        ensures
            final(self).wf(),
            final(store).wf(),
            final(store).addrs@ == old(store).addrs@,
            r == Ok::<(), Error>(()),
            (final(self).entries@, final(store).entries@) == unmap_run(
                old(self).entries@,
                old(store).addrs@,
                old(store).entries@,
                va.0 - va.0 % 4096,
                (va.0 + size) + (4096 - (va.0 + size) % 4096) % 4096,
            ),
    {
        proof {
            vstd::arithmetic::power2::lemma2_to64();
            assert(crate::mem::addr::is_pow2(4096u64));
        }
        let start_va = va.align_down(PGSIZE as u64);
        let end_va = VirtAddr::from(va.0 + size as u64).align_up(PGSIZE as u64);
        proof {
            let e = (va.0 + size) as int;
            let ghost ru = end_va.0 as int;
            assert(ru == e + (4096 - e % 4096) % 4096) by {
                if e % 4096 == 0 {
                } else {
                    assert(ru % 4096 == 0 && ru >= e && ru - e < 4096);
                    assert(ru == e + (4096 - e % 4096)) by (nonlinear_arith)
                        requires
                            ru % 4096 == 0,
                            ru >= e,
                            ru - e < 4096,
                            e % 4096 != 0,
                            e >= 0,
                    ;
                }
            }
        }
        let mut cur_va: u64 = start_va.0;
        while cur_va < end_va.0
            invariant
                self.wf(),
                store.wf(),
                store.addrs@ == old(store).addrs@,
                cur_va % 4096 == 0,
                end_va.0 % 4096 == 0,
                unmap_run(old(self).entries@, old(store).addrs@, old(store).entries@, start_va.0 as int, end_va.0 as int)
                    == unmap_run(self.entries@, store.addrs@, store.entries@, cur_va as int, end_va.0 as int),
            decreases gap(cur_va as int, end_va.0 as int),
        {
            assert(cur_va + 4096 <= end_va.0) by (nonlinear_arith)
                requires
                    cur_va % 4096 == 0,
                    end_va.0 % 4096 == 0,
                    cur_va < end_va.0,
            ;
            match self.walk(store, VirtAddr::from(cur_va)) {
                Some(loc) => {
                    self.write_entry(store, loc, Pte::null());
                },
                None => {},
            }
            cur_va = cur_va + 4096;
        }
        Ok(())
    }

    /// Finds the slot of `va` at `level` (see `table_slot_spec`).
    fn table_slot(&self, store: &TableStore, va: VirtAddr, level: usize) -> (r: Option<PteLoc>)
        requires
            self.wf(),
            store.wf(),
            level == 1 || level == 2,
        ensures
            r == table_slot_spec(self.entries@, store.addrs@, store.entries@, va.0, level as u64),
            r matches Some(loc) ==> loc_in_range(loc, store.entries@.len() as int),
    {
        let i2 = vpn(va.0, 2);
        if level == 2 {
            return Some(PteLoc::Root(i2));
        }
        let e2 = self.entries[i2];
        if !e2.is_valid() || e2.is_leaf() {
            return None;
        }
        match store.find(e2.pa().0) {
            None => None,
            Some(t1) => {
                let i1 = vpn(va.0, 1);
                assert(t1 * 512 + i1 < store.entries@.len()) by (nonlinear_arith)
                    requires
                        t1 < store.addrs@.len(),
                        i1 < 512,
                        store.entries@.len() == store.addrs@.len() * 512,
                ;
                Some(PteLoc::Table(t1, i1))
            },
        }
    }

    /// Installs the table page at `table_pa` as the table of `va` at `level` (1 or 2).
    pub fn map_table(&mut self, store: &mut TableStore, va: VirtAddr, table_pa: PhysAddr, level: usize) -> (r: Result<(), Error>)
        requires
            old(self).wf(),
            old(store).wf(),
        ensures
            final(self).wf(),
            final(store).wf(),
            final(store).addrs@ == old(store).addrs@,
            (level == 0 || level >= 3) ==> r == Err::<(), Error>(Error::InvalidArgs),
            r.is_err() ==> final(self).entries@ == old(self).entries@ && final(store).entries@ == old(store).entries@,
            (level == 1 || level == 2) ==> match table_slot_spec(old(self).entries@, old(store).addrs@, old(store).entries@, va.0, level as u64) {
                None => r == Err::<(), Error>(Error::MappingFailed),
                Some(loc) => if pte_valid(entry_at(old(self).entries@, old(store).entries@, loc).0) {
                    r == Err::<(), Error>(Error::AlreadyExists)
                } else {
                    &&& r == Ok::<(), Error>(())
                    &&& final(self).entries@ == put_root(old(self).entries@, loc, Pte(pte_encode(table_pa.0, VALID)))
                    &&& final(store).entries@ == put_ents(old(store).entries@, loc, Pte(pte_encode(table_pa.0, VALID)))
                },
            },
    {
        if level == 0 || level >= 3 {
            return Err(Error::InvalidArgs);
        }
        let loc = match self.table_slot(store, va, level) {
            None => return Err(Error::MappingFailed),
            Some(l) => l,
        };
        let cur = self.read_entry(store, loc);
        if cur.is_valid() {
            return Err(Error::AlreadyExists);
        }
        let v = Pte::from(table_pa, PteFlags::from(VALID));
        proof {
            assert(1u64 & 0x3FFu64 == 1u64) by (bit_vector);
        }
        self.write_entry(store, loc, v);
        Ok(())
    }

    /// Sets the entries of table page `t` to zero.
    fn zero_table_page(store: &mut TableStore, t: usize)
        requires
            old(store).wf(),
            t < old(store).addrs@.len(),
        ensures
            final(store).wf(),
            final(store).addrs@ == old(store).addrs@,
            final(store).entries@ == zero_table(old(store).entries@, t as int),
    {
        assert(t * 512 + 512 <= store.entries@.len()) by (nonlinear_arith)
            requires
                t < store.addrs@.len(),
                store.entries@.len() == store.addrs@.len() * 512,
        ;
        let base = t * 512;
        let mut k: usize = 0;
        while k < 512
            invariant
                store.wf(),
                store.addrs@ == old(store).addrs@,
                base == t * 512,
                base + 512 <= store.entries@.len(),
                k <= 512,
                store.entries@.len() == old(store).entries@.len(),
                forall|i: int| 0 <= i < store.entries@.len() ==> store.entries@[i] == (
                    if base <= i < base + k { Pte(0) } else { old(store).entries@[i] }),
            decreases 512 - k,
        {
            store.entries.set(base + k, Pte::null());
            k += 1;
        }
        assert(store.entries@ =~= zero_table(old(store).entries@, t as int));
    }

    /// Removes the table of `va` at `level` (1 or 2): the slot is cleared and, when
    /// it held a table, that table page is zeroed. A missing path is not an error.
    pub fn unmap_table(&mut self, store: &mut TableStore, va: VirtAddr, level: usize) -> (r: Result<(), Error>)
        requires
            old(self).wf(),
            old(store).wf(),
        ensures
            final(self).wf(),
            final(store).wf(),
            final(store).addrs@ == old(store).addrs@,
            (level == 0 || level >= 3) ==> r == Err::<(), Error>(Error::InvalidArgs)
                && final(self).entries@ == old(self).entries@ && final(store).entries@ == old(store).entries@,
            (level == 1 || level == 2) ==> r == Ok::<(), Error>(()) && match table_slot_spec(old(self).entries@, old(store).addrs@, old(store).entries@, va.0, level as u64) {
                None => final(self).entries@ == old(self).entries@ && final(store).entries@ == old(store).entries@,
                Some(loc) => {
                    let e = entry_at(old(self).entries@, old(store).entries@, loc);
                    let zeroed = if pte_valid(e.0) && !pte_leaf(e.0) {
                        match table_index(old(store).addrs@, pte_pa(e.0)) {
                            Some(t) => zero_table(old(store).entries@, t),
                            None => old(store).entries@,
                        }
                    } else {
                        old(store).entries@
                    };
                    &&& final(self).entries@ == put_root(old(self).entries@, loc, Pte(0))
                    &&& final(store).entries@ == put_ents(zeroed, loc, Pte(0))
                },
            },
    {
        if level == 0 || level >= 3 {
            return Err(Error::InvalidArgs);
        }
        let loc = match self.table_slot(store, va, level) {
            None => return Ok(()),
            Some(l) => l,
        };
        let cur = self.read_entry(store, loc);
        if cur.is_valid() && !cur.is_leaf() {
            match store.find(cur.pa().0) {
                Some(t) => Self::zero_table_page(store, t),
                None => {},
            }
        }
        self.write_entry(store, loc, Pte::null());
        Ok(())
    }
}

proof fn lemma_least_index(addrs: Seq<PhysAddr>, pa: u64, w: int)
    requires
        0 <= w < addrs.len(),
        addrs[w].0 == pa,
    ensures
        exists|i: int| 0 <= i < addrs.len() && addrs[i].0 == pa && (forall|j: int| 0 <= j < i ==> addrs[j].0 != pa),
    decreases w,
{
    if exists|j: int| 0 <= j < w && addrs[j].0 == pa {
        let j = choose|j: int| 0 <= j < w && addrs[j].0 == pa;
        lemma_least_index(addrs, pa, j);
    } else {
        assert(forall|j: int| 0 <= j < w ==> addrs[j].0 != pa);
    }
}

pub proof fn lemma_table_index_bound(addrs: Seq<PhysAddr>, pa: u64)
    ensures
        table_index(addrs, pa) matches Some(t) ==> 0 <= t < addrs.len(),
{
    if exists|i: int| 0 <= i < addrs.len() && addrs[i].0 == pa {
        let w = choose|i: int| 0 <= i < addrs.len() && addrs[i].0 == pa;
        lemma_least_index(addrs, pa, w);
    }
}

/// A table page found in the store is still found, at the same place, after
/// another page joins the store.
pub proof fn lemma_table_index_push(addrs: Seq<PhysAddr>, x: PhysAddr, pa: u64)
    requires
        table_index(addrs, pa) is Some,
    ensures
        table_index(addrs.push(x), pa) == table_index(addrs, pa),
{
    let b = addrs.push(x);
    let w = choose|i: int| 0 <= i < addrs.len() && addrs[i].0 == pa;
    lemma_least_index(addrs, pa, w);
    let t = table_index(addrs, pa)->0;
    assert(b[w].0 == pa);
    lemma_least_index(b, pa, w);
    let u = table_index(b, pa)->0;
    assert(b[t] == addrs[t]);
    if u < t {
        assert(addrs[u] == b[u]);
    } else if u > t {
        assert(b[t].0 == pa);
    }
}

pub proof fn lemma_vpn_bounds(va: u64)
    ensures
        0 <= vpn_index(va, 2) < 512,
        0 <= vpn_index(va, 1) < 512,
        0 <= vpn_index(va, 0) < 512,
{
    assert(((va >> 30u64) & 0x1FFu64) < 512u64) by (bit_vector);
    assert(((va >> 21u64) & 0x1FFu64) < 512u64) by (bit_vector);
    assert(((va >> 12u64) & 0x1FFu64) < 512u64) by (bit_vector);
}

/// The walk with the root and store as given, unfolded.
pub proof fn lemma_walk_unfold(root: Seq<Pte>, addrs: Seq<PhysAddr>, ents: Seq<Pte>, va: u64)
    ensures
        walk_spec(root, addrs, ents, va) == ({
            let i2 = vpn_index(va, 2);
            let e2 = root[i2];
            if !pte_valid(e2.0) {
                None
            } else if pte_leaf(e2.0) {
                Some(PteLoc::Root(i2 as usize))
            } else {
                match table_index(addrs, pte_pa(e2.0)) {
                    None => None,
                    Some(t1) => {
                        let i1 = vpn_index(va, 1);
                        let e1 = ents[t1 * 512 + i1];
                        if !pte_valid(e1.0) {
                            None
                        } else if pte_leaf(e1.0) {
                            Some(PteLoc::Table(t1 as usize, i1 as usize))
                        } else {
                            match table_index(addrs, pte_pa(e1.0)) {
                                None => None,
                                Some(t0) => Some(PteLoc::Table(t0 as usize, vpn_index(va, 0) as usize)),
                            }
                        }
                    },
                }
            }
        }),
{
    reveal(walk_spec);
}

/// What a read gives back of a write: when translation of `va` ends at `loc`,
/// writing a valid leaf entry there leaves the translation of `va` ending at
/// `loc`, which now holds that entry.
#[verifier::rlimit(60)]
pub proof fn law_walk_after_write(root: Seq<Pte>, addrs: Seq<PhysAddr>, ents: Seq<Pte>, va: u64, v: Pte)
    requires
        root.len() == 512,
        ents.len() == addrs.len() * 512,
        ents.len() <= usize::MAX,
        walk_spec(root, addrs, ents, va) is Some,
        pte_valid(v.0),
        pte_leaf(v.0),
    ensures
        ({
            let loc = walk_spec(root, addrs, ents, va)->0;
            let root2 = put_root(root, loc, v);
            let ents2 = put_ents(ents, loc, v);
            &&& walk_spec(root2, addrs, ents2, va) == Some(loc)
            &&& entry_at(root2, ents2, loc) == v
        }),
{
    let loc = walk_spec(root, addrs, ents, va)->0;
    let root2 = put_root(root, loc, v);
    let ents2 = put_ents(ents, loc, v);
    lemma_walk_unfold(root, addrs, ents, va);
    lemma_walk_unfold(root2, addrs, ents2, va);
    lemma_vpn_bounds(va);
    let i2 = vpn_index(va, 2);
    let i1 = vpn_index(va, 1);
    let i0 = vpn_index(va, 0);
    let e2 = root[i2];
    lemma_table_index_bound(addrs, pte_pa(e2.0));
    if pte_leaf(e2.0) {
        assert(loc == PteLoc::Root(i2 as usize));
        assert(root2[i2] == v);
    } else {
        let t1 = table_index(addrs, pte_pa(e2.0))->0;
        assert(root2 == root);
        let e1 = ents[t1 * 512 + i1];
        lemma_table_index_bound(addrs, pte_pa(e1.0));
        assert(t1 * 512 + i1 < ents.len()) by (nonlinear_arith)
            requires
                0 <= t1 < addrs.len(),
                0 <= i1 < 512,
                ents.len() == addrs.len() * 512,
        ;
        if pte_leaf(e1.0) {
            assert(loc == PteLoc::Table(t1 as usize, i1 as usize));
            assert(ents2[t1 * 512 + i1] == v);
        } else {
            let t0 = table_index(addrs, pte_pa(e1.0))->0;
            assert(loc == PteLoc::Table(t0 as usize, i0 as usize));
            assert(t0 * 512 + i0 < ents.len()) by (nonlinear_arith)
                requires
                    0 <= t0 < addrs.len(),
                    0 <= i0 < 512,
                    ents.len() == addrs.len() * 512,
            ;
            if t1 * 512 + i1 == t0 * 512 + i0 {
                assert(t1 == t0 && i1 == i0) by (nonlinear_arith)
                    requires
                        t1 * 512 + i1 == t0 * 512 + i0,
                        0 <= i1 < 512,
                        0 <= i0 < 512,
                        0 <= t1,
                        0 <= t0,
                ;
                assert(ents2[t1 * 512 + i1] == v);
            } else {
                assert(ents2[t1 * 512 + i1] == e1);
                assert(ents2[t0 * 512 + i0] == v);
            }
        }
    }
}

/// Mapping one page and then translating its address gives back the entry just
/// written: the frame `pa` with `flags` (when those flags make a valid leaf).
pub proof fn law_map_then_walk(root: Seq<Pte>, addrs: Seq<PhysAddr>, ents: Seq<Pte>, va: u64, pa: u64, flags: u64)
    requires
        root.len() == 512,
        ents.len() == addrs.len() * 512,
        ents.len() <= usize::MAX,
        va + 4096 <= u64::MAX,
        pte_valid(pte_encode(pa, flags)),
        pte_leaf(pte_encode(pa, flags)),
    ensures
        ({
            let (r2, e2, res) = map_run(root, addrs, ents, va as int, va + 4096, pa as int, flags);
            res is Ok ==> walk_spec(r2, addrs, e2, va) is Some
                && entry_at(r2, e2, walk_spec(r2, addrs, e2, va)->0) == Pte(pte_encode(pa, flags))
        }),
{
    let (r2, e2, res) = map_run(root, addrs, ents, va as int, va + 4096, pa as int, flags);
    if res is Ok {
        let loc = walk_spec(root, addrs, ents, va)->0;
        let v = Pte(pte_encode(pa, flags));
        assert(map_run(put_root(root, loc, v), addrs, put_ents(ents, loc, v), va + 4096, va + 4096, pa + 4096, flags)
            == (put_root(root, loc, v), put_ents(ents, loc, v), Ok::<(), Error>(())));
        law_walk_after_write(root, addrs, ents, va, v);
    }
}


/// Where an entry of the store lies among the store's entries (-1 for the root).
pub open spec fn ent_index(loc: PteLoc) -> int {
    match loc {
        PteLoc::Root(_) => -1,
        PteLoc::Table(t, j) => t * 512 + j,
    }
}

/// `v` is one of the pages of `[va, end)`.
pub open spec fn page_of(va: int, end: int, v: u64) -> bool {
    va <= v < end && (v - va) % 4096 == 0
}

/// The pages of `[va, end)` each have a level-0 entry of their own, and none of
/// those entries lies on the way to another page of the range.
pub open spec fn pages_apart(root: Seq<Pte>, addrs: Seq<PhysAddr>, ents: Seq<Pte>, va: int, end: int) -> bool {
    &&& forall|v: u64| page_of(va, end, v) ==> (#[trigger] lookup_spec(root, addrs, ents, v)) is Some
    &&& forall|v: u64, w: u64| page_of(va, end, v) && page_of(va, end, w) && v != w
        ==> ent_index(#[trigger] lookup_spec(root, addrs, ents, v)->0) != ent_index(#[trigger] lookup_spec(root, addrs, ents, w)->0)
    &&& forall|v: u64, w: u64| page_of(va, end, v) && page_of(va, end, w)
        ==> ent_index(#[trigger] lookup_spec(root, addrs, ents, v)->0)
            != ent_index(#[trigger] table_slot_spec(root, addrs, ents, w, 1)->0)
}

/// Changing a store entry off the way to `v` leaves the lookup of `v` alone.
proof fn lemma_lookup_frame(root: Seq<Pte>, addrs: Seq<PhysAddr>, ents: Seq<Pte>, ents2: Seq<Pte>, v: u64)
    requires
        ents.len() == addrs.len() * 512,
        ents.len() <= usize::MAX,
        ents2.len() == ents.len(),
        lookup_spec(root, addrs, ents, v) is Some,
        ({
            let i = ent_index(table_slot_spec(root, addrs, ents, v, 1)->0);
            ents2[i] == ents[i]
        }),
    ensures
        lookup_spec(root, addrs, ents2, v) == lookup_spec(root, addrs, ents, v),
{
    reveal(lookup_spec);
    lemma_vpn_bounds(v);
    lemma_table_index_bound(addrs, pte_pa(root[vpn_index(v, 2)].0));
    let t1 = table_index(addrs, pte_pa(root[vpn_index(v, 2)].0))->0;
    assert(t1 * 512 + vpn_index(v, 1) < ents.len()) by (nonlinear_arith)
        requires
            0 <= t1 < addrs.len(),
            0 <= vpn_index(v, 1) < 512,
            ents.len() == addrs.len() * 512,
    ;
}

/// The entry the lookup of `v` finds lies in the store.
proof fn lemma_lookup_in_store(root: Seq<Pte>, addrs: Seq<PhysAddr>, ents: Seq<Pte>, v: u64)
    requires
        ents.len() == addrs.len() * 512,
        ents.len() <= usize::MAX,
        lookup_spec(root, addrs, ents, v) is Some,
    ensures
        lookup_spec(root, addrs, ents, v)->0 is Table,
        0 <= ent_index(lookup_spec(root, addrs, ents, v)->0) < ents.len(),
        0 <= ent_index(table_slot_spec(root, addrs, ents, v, 1)->0) < ents.len(),
        table_slot_spec(root, addrs, ents, v, 1) is Some,
{
    reveal(lookup_spec);
    lemma_vpn_bounds(v);
    let e2 = root[vpn_index(v, 2)];
    lemma_table_index_bound(addrs, pte_pa(e2.0));
    let t1 = table_index(addrs, pte_pa(e2.0))->0;
    assert(t1 * 512 + vpn_index(v, 1) < ents.len()) by (nonlinear_arith)
        requires
            0 <= t1 < addrs.len(),
            0 <= vpn_index(v, 1) < 512,
            ents.len() == addrs.len() * 512,
    ;
    let e1 = ents[t1 * 512 + vpn_index(v, 1)];
    lemma_table_index_bound(addrs, pte_pa(e1.0));
    let t0 = table_index(addrs, pte_pa(e1.0))->0;
    assert(t0 * 512 + vpn_index(v, 0) < ents.len()) by (nonlinear_arith)
        requires
            0 <= t0 < addrs.len(),
            0 <= vpn_index(v, 0) < 512,
            ents.len() == addrs.len() * 512,
    ;
}

/// The rest of a range still lies apart when the lookups of its pages are unchanged.
proof fn lemma_rest_apart(root: Seq<Pte>, addrs: Seq<PhysAddr>, ents: Seq<Pte>, ents1: Seq<Pte>, va: int, end: int)
    requires
        pages_apart(root, addrs, ents, va, end),
        forall|v: u64| page_of(va + 4096, end, v) ==> lookup_spec(root, addrs, ents1, v) == lookup_spec(root, addrs, ents, v),
    ensures
        pages_apart(root, addrs, ents1, va + 4096, end),
{
    assert forall|v: u64| page_of(va + 4096, end, v) implies (#[trigger] lookup_spec(root, addrs, ents1, v)) is Some by {
        assert(page_of(va, end, v));
    }
    assert forall|v: u64, w: u64| page_of(va + 4096, end, v) && page_of(va + 4096, end, w) && v != w
        implies ent_index(#[trigger] lookup_spec(root, addrs, ents1, v)->0) != ent_index(#[trigger] lookup_spec(root, addrs, ents1, w)->0) by {
        assert(page_of(va, end, v) && page_of(va, end, w));
    }
    assert forall|v: u64, w: u64| page_of(va + 4096, end, v) && page_of(va + 4096, end, w)
        implies ent_index(#[trigger] lookup_spec(root, addrs, ents1, v)->0)
            != ent_index(#[trigger] table_slot_spec(root, addrs, ents1, w, 1)->0) by {
        assert(page_of(va, end, v) && page_of(va, end, w));
        assert(table_slot_spec(root, addrs, ents1, w, 1) == table_slot_spec(root, addrs, ents, w, 1));
    }
}

/// Mapping a range whose pages lie apart maps each page to its own frame:
/// after a successful map of `[va, end)` to the frames from `pa`, every page
/// `v` of the range translates through its own level-0 entry, which now holds
/// the frame `pa + (v - va)` with `flags`; the root does not change, and store
/// entries that are none of the pages' entries keep what they held.
#[verifier::rlimit(100)]
#[verifier::spinoff_prover]
pub proof fn law_map_range_then_walk(
    root: Seq<Pte>,
    addrs: Seq<PhysAddr>,
    ents: Seq<Pte>,
    va: int,
    end: int,
    pa: int,
    flags: u64,
)
    requires
        root.len() == 512,
        ents.len() == addrs.len() * 512,
        ents.len() <= usize::MAX,
        0 <= va,
        end <= u64::MAX + 1,
        pages_apart(root, addrs, ents, va, end),
    ensures
        ({
            let (r2, e2, res) = map_run(root, addrs, ents, va, end, pa, flags);
            res is Ok ==> {
                &&& r2 == root
                &&& e2.len() == ents.len()
                &&& forall|v: u64| page_of(va, end, v) ==> {
                    &&& walk_spec(r2, addrs, e2, v) == #[trigger] lookup_spec(root, addrs, ents, v)
                    &&& entry_at(r2, e2, lookup_spec(root, addrs, ents, v)->0) == Pte(pte_encode((pa + (v - va)) as u64, flags))
                }
                &&& forall|i: int| 0 <= i < ents.len() && (forall|v: u64| page_of(va, end, v)
                    ==> ent_index(#[trigger] lookup_spec(root, addrs, ents, v)->0) != i) ==> #[trigger] e2[i] == ents[i]
            }
        }),
    decreases gap(va, end),
{
    if va < end {
        let v0 = va as u64;
        assert(page_of(va, end, v0));
        let loc = lookup_spec(root, addrs, ents, v0)->0;
        lemma_lookup_is_walk(root, addrs, ents, v0);
        lemma_lookup_in_store(root, addrs, ents, v0);
        let old = entry_at(root, ents, loc);
        if !(pte_valid(old.0) && pte_pa(old.0) != pa) {
            let x = Pte(pte_encode(pa as u64, flags));
            let ents1 = put_ents(ents, loc, x);
            let li = ent_index(loc);
            assert(0 <= li < ents.len());
            assert(ents1 == ents.update(li, x));
            assert(put_root(root, loc, x) == root);
            // the rest of the range still lies apart after the write
            assert forall|v: u64| page_of(va + 4096, end, v) implies lookup_spec(root, addrs, ents1, v) == lookup_spec(root, addrs, ents, v) by {
                assert(page_of(va, end, v));
                lemma_lookup_in_store(root, addrs, ents, v);
                let si = ent_index(table_slot_spec(root, addrs, ents, v, 1)->0);
                assert(li != si);
                lemma_lookup_frame(root, addrs, ents, ents1, v);
            }
            assert forall|v: u64| page_of(va + 4096, end, v) implies table_slot_spec(root, addrs, ents1, v, 1) == table_slot_spec(root, addrs, ents, v, 1) by {}
            lemma_rest_apart(root, addrs, ents, ents1, va, end);
            law_map_range_then_walk(root, addrs, ents1, va + 4096, end, pa + 4096, flags);
            let (r2, e2, res) = map_run(root, addrs, ents1, va + 4096, end, pa + 4096, flags);
            if res is Ok {
                assert forall|v: u64| page_of(va, end, v) implies {
                    &&& walk_spec(r2, addrs, e2, v) == #[trigger] lookup_spec(root, addrs, ents, v)
                    &&& entry_at(r2, e2, lookup_spec(root, addrs, ents, v)->0) == Pte(pte_encode((pa + (v - va)) as u64, flags))
                } by {
                    if v == v0 {
                        let si = ent_index(table_slot_spec(root, addrs, ents, v0, 1)->0);
                        assert(si != li);
                        assert forall|w: u64| page_of(va + 4096, end, w) implies ent_index(#[trigger] lookup_spec(root, addrs, ents1, w)->0) != si by {
                            assert(page_of(va, end, w));
                        }
                        assert forall|w: u64| page_of(va + 4096, end, w) implies ent_index(#[trigger] lookup_spec(root, addrs, ents1, w)->0) != li by {
                            assert(page_of(va, end, w));
                            assert(ent_index(lookup_spec(root, addrs, ents, w)->0) != ent_index(lookup_spec(root, addrs, ents, v0)->0));
                        }
                        assert(e2[si] == ents1[si]);
                        assert(e2[li] == ents1[li]);
                        lemma_lookup_frame(root, addrs, ents, e2, v0);
                        lemma_lookup_is_walk(root, addrs, e2, v0);
                    } else {
                        assert(page_of(va + 4096, end, v)) by {
                            assert((v - va) % 4096 == 0);
                        }
                        assert(pa + 4096 + (v - (va + 4096)) == pa + (v - va));
                    }
                }
                assert forall|i: int| 0 <= i < ents.len() && (forall|v: u64| page_of(va, end, v)
                    ==> ent_index(#[trigger] lookup_spec(root, addrs, ents, v)->0) != i) implies #[trigger] e2[i] == ents[i] by {
                    assert(ent_index(lookup_spec(root, addrs, ents, v0)->0) != i);
                    assert forall|w: u64| page_of(va + 4096, end, w) implies ent_index(#[trigger] lookup_spec(root, addrs, ents1, w)->0) != i by {
                        assert(page_of(va, end, w));
                    }
                }
            }
        }
    }
}

/// With valid flags, after a successful map of `[va, end)` to the frames from
/// `pa`, every page `v` of the range (its pages lying apart) translates to the
/// frame `pa + (v - va)`.
pub proof fn law_map_range_then_translate(
    root: Seq<Pte>,
    addrs: Seq<PhysAddr>,
    ents: Seq<Pte>,
    va: int,
    end: int,
    pa: int,
    flags: u64,
    v: u64,
)
    requires
        root.len() == 512,
        ents.len() == addrs.len() * 512,
        ents.len() <= usize::MAX,
        0 <= va,
        end <= u64::MAX + 1,
        pages_apart(root, addrs, ents, va, end),
        flags & VALID != 0,
        page_of(va, end, v),
    ensures
        ({
            let (r2, e2, res) = map_run(root, addrs, ents, va, end, pa, flags);
            res is Ok ==> translation(r2, addrs, e2, v) == Some(Pte(pte_encode((pa + (v - va)) as u64, flags)))
        }),
{
    law_map_range_then_walk(root, addrs, ents, va, end, pa, flags);
    super::pte::law_pte_roundtrip((pa + (v - va)) as u64, flags);
    lemma_lookup_in_store(root, addrs, ents, v);
}

/// The entry that translates `va`: the one its walk ends at, when valid.
pub open spec fn translation(root: Seq<Pte>, addrs: Seq<PhysAddr>, ents: Seq<Pte>, va: u64) -> Option<Pte> {
    match walk_spec(root, addrs, ents, va) {
        Some(loc) => if pte_valid(entry_at(root, ents, loc).0) { Some(entry_at(root, ents, loc)) } else { None },
        None => None,
    }
}

/// Where the lookup of `va` finds an entry, translation of `va` ends there too.
pub proof fn lemma_lookup_is_walk(root: Seq<Pte>, addrs: Seq<PhysAddr>, ents: Seq<Pte>, va: u64)
    requires
        lookup_spec(root, addrs, ents, va) is Some,
    ensures
        walk_spec(root, addrs, ents, va) == lookup_spec(root, addrs, ents, va),
{
    reveal(lookup_spec);
    reveal(walk_spec);
}

/// Clearing the entry at which the walk of `va` ends leaves `va` untranslated.
#[verifier::rlimit(60)]
pub proof fn lemma_walk_after_clear(root: Seq<Pte>, addrs: Seq<PhysAddr>, ents: Seq<Pte>, va: u64)
    requires
        root.len() == 512,
        ents.len() == addrs.len() * 512,
        ents.len() <= usize::MAX,
        walk_spec(root, addrs, ents, va) is Some,
    ensures
        ({
            let loc = walk_spec(root, addrs, ents, va)->0;
            translation(put_root(root, loc, Pte(0)), addrs, put_ents(ents, loc, Pte(0)), va) is None
        }),
{
    let loc = walk_spec(root, addrs, ents, va)->0;
    let v = Pte(0);
    let root2 = put_root(root, loc, v);
    let ents2 = put_ents(ents, loc, v);
    assert(!pte_valid(0u64)) by (bit_vector);
    lemma_walk_unfold(root, addrs, ents, va);
    lemma_walk_unfold(root2, addrs, ents2, va);
    lemma_vpn_bounds(va);
    let i2 = vpn_index(va, 2);
    let i1 = vpn_index(va, 1);
    let i0 = vpn_index(va, 0);
    let e2 = root[i2];
    lemma_table_index_bound(addrs, pte_pa(e2.0));
    if pte_leaf(e2.0) {
        assert(loc == PteLoc::Root(i2 as usize));
        assert(root2[i2] == v);
    } else {
        let t1 = table_index(addrs, pte_pa(e2.0))->0;
        assert(root2 == root);
        let e1 = ents[t1 * 512 + i1];
        lemma_table_index_bound(addrs, pte_pa(e1.0));
        assert(t1 * 512 + i1 < ents.len()) by (nonlinear_arith)
            requires
                0 <= t1 < addrs.len(),
                0 <= i1 < 512,
                ents.len() == addrs.len() * 512,
        ;
        if pte_leaf(e1.0) {
            assert(loc == PteLoc::Table(t1 as usize, i1 as usize));
            assert(ents2[t1 * 512 + i1] == v);
        } else {
            let t0 = table_index(addrs, pte_pa(e1.0))->0;
            assert(loc == PteLoc::Table(t0 as usize, i0 as usize));
            assert(t0 * 512 + i0 < ents.len()) by (nonlinear_arith)
                requires
                    0 <= t0 < addrs.len(),
                    0 <= i0 < 512,
                    ents.len() == addrs.len() * 512,
            ;
            if t1 * 512 + i1 == t0 * 512 + i0 {
                assert(ents2[t1 * 512 + i1] == v);
            } else {
                assert(ents2[t1 * 512 + i1] == e1);
                assert(ents2[t0 * 512 + i0] == v);
            }
        }
    }
}

/// What unmapping undoes: after unmapping the page of `va`, `va` no longer
/// translates, whatever mapped it before.
pub proof fn law_unmap_then_walk(root: Seq<Pte>, addrs: Seq<PhysAddr>, ents: Seq<Pte>, va: u64)
    requires
        root.len() == 512,
        ents.len() == addrs.len() * 512,
        ents.len() <= usize::MAX,
        va % 4096 == 0,
        va + 4096 <= u64::MAX,
    ensures
        ({
            let (r2, e2) = unmap_run(root, addrs, ents, va as int, va + 4096);
            translation(r2, addrs, e2, va) is None
        }),
{
    match walk_spec(root, addrs, ents, va) {
        None => {
            assert(unmap_run(root, addrs, ents, va + 4096, va + 4096) == (root, ents));
        },
        Some(loc) => {
            let r1 = put_root(root, loc, Pte(0));
            let e1 = put_ents(ents, loc, Pte(0));
            assert(unmap_run(r1, addrs, e1, va + 4096, va + 4096) == (r1, e1));
            lemma_walk_after_clear(root, addrs, ents, va);
        },
    }
}


/// Changing permissions keeps the frame: when `va` translates, updating its
/// page to flags that make a valid leaf succeeds, and `va` then translates to
/// an entry with the same page number and exactly those flag bits.
pub proof fn law_update_keeps_frame(root: Seq<Pte>, addrs: Seq<PhysAddr>, ents: Seq<Pte>, va: u64, flags: u64)
    requires
        root.len() == 512,
        ents.len() == addrs.len() * 512,
        ents.len() <= usize::MAX,
        va + 4096 <= u64::MAX,
        translation(root, addrs, ents, va) is Some,
        flags & PTEFLAGS_MASK == flags,
        pte_valid(flags),
        pte_leaf(flags),
    ensures
        ({
            let (r2, e2, res) = update_run(root, addrs, ents, va as int, va + 4096, flags);
            let old = translation(root, addrs, ents, va)->0;
            &&& res is Ok
            &&& translation(r2, addrs, e2, va) matches Some(e)
                && pte_ppn(e.0) == pte_ppn(old.0)
                && e.0 & PTEFLAGS_MASK == flags
        }),
{
    let loc = walk_spec(root, addrs, ents, va)->0;
    let old = entry_at(root, ents, loc);
    let v = Pte(with_flags(old.0, flags));
    lemma_with_flags(old.0, flags);
    assert(pte_valid(v.0) && pte_leaf(v.0));
    let r1 = put_root(root, loc, v);
    let e1 = put_ents(ents, loc, v);
    assert(update_run(r1, addrs, e1, va + 4096, va + 4096, flags) == (r1, e1, Ok::<(), Error>(())));
    law_walk_after_write(root, addrs, ents, va, v);
}

} // verus!
