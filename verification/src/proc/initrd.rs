//! The initial ramdisk image: a table of named payloads.
//!
//! The image begins with the magic word and the number of entries (both 32-bit
//! little-endian); the entries start at byte 8, 48 bytes each: a type byte, the
//! payload's offset and size (32-bit little-endian), and a 32-byte name padded
//! with zeros.
use vstd::prelude::*;
use crate::bytes::{le_u32, read_u32, is_utf8};
use vstd::utf8::valid_utf8;
use crate::proc::elf::{ElfFile, EHDR_SIZE, has_elf_magic, PageLoad, FrameFill, LoadFail, load_run, load_pages};
use crate::bytes::le_u64;
use crate::mem::pagetable::{PageTable, TableStore};
use crate::mem::pmem::PmemManager;
use crate::mem::uvm::frames_below_top;

verus! {

/// The magic word at the start of an image.
pub const PAYLOAD_MAGIC: u32 = 0x9999_9999;
/// Where the entry table begins.
pub const ENTRY_BASE: usize = 8;
/// Bytes per entry.
pub const ENTRY_SIZE: usize = 48;

/// What a payload is.
#[derive(Clone, Copy, PartialEq, Eq, Structural, Debug)]
pub enum PayloadType {
    RootTask,
}

/// An entry of the table, as found.
#[derive(Clone, Copy, Debug)]
pub struct Entry {
    pub info: PayloadType,
    pub offset: u32,
    pub size: u32,
    pub name: [u8; 32],
}

/// A payload found in the image: its entry and where its bytes lie in the image
/// (`data_len` 0 for an empty payload or one that does not fit the image).
#[derive(Clone, Copy, Debug)]
pub struct ProcPayload {
    pub metadata: Entry,
    pub data_start: usize,
    pub data_len: usize,
}

/// The image starts with the magic word.
pub fn check_magic(image: &[u8]) -> (r: bool)
    ensures
        r == (image@.len() >= 4 && le_u32(image@, 0) == PAYLOAD_MAGIC),
{
    if image.len() < 4 {
        return false;
    }
    read_u32(image, 0) == PAYLOAD_MAGIC
}

/// The number of entries of the image (0 when there is no image).
pub fn count_entries(region: Option<&[u8]>) -> (r: u32)
    requires
        region matches Some(image) ==> image@.len() >= 8,
    ensures
        r == match region {
            Some(image) => le_u32(image@, 4),
            None => 0,
        },
{
    match region {
        Some(image) => read_u32(image, 4),
        None => 0,
    }
}

/// The entry table fits in the image.
pub open spec fn table_fits(image: Seq<u8>) -> bool {
    image.len() >= 8 && ENTRY_BASE + le_u32(image, 4) * ENTRY_SIZE <= image.len()
}

/// The name bytes of entry `i`: up to the first zero of its 32-byte field.
pub open spec fn name_field(image: Seq<u8>, i: int) -> Seq<u8> {
    image.subrange(ENTRY_BASE + i * ENTRY_SIZE + 9, ENTRY_BASE + i * ENTRY_SIZE + 41)
}

/// The first zero of `s` at or after `k`, or the length of `s`.
pub open spec fn first_zero(s: Seq<u8>, k: int) -> int
    decreases s.len() - k,
{
    if k < 0 || k >= s.len() || s[k] == 0 {
        k
    } else {
        first_zero(s, k + 1)
    }
}

/// The bytes of entry `i`'s name field before its first zero.
pub open spec fn raw_name(image: Seq<u8>, i: int) -> Seq<u8> {
    let field = name_field(image, i);
    field.subrange(0, first_zero(field, 0))
}

/// The name of entry `i`: its raw name when it is UTF-8, the empty name otherwise.
pub open spec fn entry_name(image: Seq<u8>, i: int) -> Seq<u8> {
    if valid_utf8(raw_name(image, i)) { raw_name(image, i) } else { Seq::empty() }
}

/// The offset and size entry `i` records, and the range of the image its payload
/// takes: empty when the size is 0 or the payload does not fit the image.
pub open spec fn payload_of(image: Seq<u8>, i: int) -> (u32, u32, usize, usize) {
    let off = ENTRY_BASE + i * ENTRY_SIZE;
    let offset = le_u32(image, off + 1);
    let size = le_u32(image, off + 5);
    let fits = size > 0 && offset + size <= image.len();
    (offset, size, if fits { offset as usize } else { 0 }, if fits { size as usize } else { 0 })
}

/// The first entry from `i` on whose name is `name`.
pub open spec fn find_from(image: Seq<u8>, count: int, name: Seq<u8>, i: int) -> Option<int>
    decreases count - i,
{
    if i < 0 || i >= count {
        None
    } else if entry_name(image, i) == name {
        Some(i)
    } else {
        find_from(image, count, name, i + 1)
    }
}

proof fn lemma_first_zero(s: Seq<u8>, k: int)
    requires
        0 <= k <= s.len(),
        forall|j: int| 0 <= j < k ==> s[j] != 0,
    ensures
        k <= first_zero(s, k) <= s.len(),
        forall|j: int| 0 <= j < first_zero(s, k) ==> s[j] != 0,
        first_zero(s, k) < s.len() ==> s[first_zero(s, k)] == 0,
    decreases s.len() - k,
{
    if k < s.len() && s[k] != 0 {
        lemma_first_zero(s, k + 1);
    }
}

/// Reads the raw name of entry `i` and its whole name field.
fn read_name(image: &[u8], i: usize) -> (r: (Vec<u8>, [u8; 32]))
    requires
        ENTRY_BASE + (i + 1) * ENTRY_SIZE <= image@.len(),
    ensures
        r.0@ == raw_name(image@, i as int),
        r.1@ == name_field(image@, i as int),
{
    let total = image.len();
    proof {
        assert(ENTRY_BASE + i * ENTRY_SIZE + 48 <= total) by (nonlinear_arith)
            requires
                ENTRY_BASE + (i + 1) * ENTRY_SIZE <= total,
        ;
    }
    let off: usize = ENTRY_BASE + i * ENTRY_SIZE;
    let mut field: [u8; 32] = [0u8; 32];
    let mut j: usize = 0;
    while j < 32
        invariant
            off + 48 <= image@.len(),
            total == image@.len(),
            off == ENTRY_BASE + i * ENTRY_SIZE,
            j <= 32,
            field@.len() == 32,
            forall|k: int| 0 <= k < j ==> field@[k] == image@[off + 9 + k],
        decreases 32 - j,
    {
        field[j] = image[off + 9 + j];
        j = j + 1;
    }
    proof {
        assert(field@ =~= name_field(image@, i as int));
    }
    let mut len: usize = 0;
    while len < 32 && field[len] != 0
        invariant
            len <= 32,
            field@.len() == 32,
            forall|k: int| 0 <= k < len ==> field@[k] != 0,
            first_zero(field@, 0) == first_zero(field@, len as int),
        decreases 32 - len,
    {
        len = len + 1;
    }
    let mut name: Vec<u8> = Vec::new();
    let mut k: usize = 0;
    while k < len
        invariant
            len <= 32,
            field@.len() == 32,
            k <= len,
            name@ == field@.subrange(0, k as int),
        decreases len - k,
    {
        name.push(field[k]);
        k = k + 1;
        proof {
            assert(name@ =~= field@.subrange(0, k as int));
        }
    }
    (name, field)
}

/// The payload entry `i` records, with its name field `field`.
fn payload_at(image: &[u8], i: usize, field: [u8; 32]) -> (r: ProcPayload)
    requires
        ENTRY_BASE + (i + 1) * ENTRY_SIZE <= image@.len(),
    ensures
        (r.metadata.offset, r.metadata.size, r.data_start, r.data_len) == payload_of(image@, i as int),
        r.metadata.info == PayloadType::RootTask,
        r.metadata.name == field,
{
    let total: usize = image.len();
    proof {
        assert(ENTRY_BASE + i * ENTRY_SIZE + 48 <= image@.len()) by (nonlinear_arith)
            requires
                ENTRY_BASE + (i + 1) * ENTRY_SIZE <= image@.len(),
        ;
    }
    let off: usize = ENTRY_BASE + i * ENTRY_SIZE;
    let offset = read_u32(image, off + 1);
    let size = read_u32(image, off + 5);
    let mut data_start: usize = 0;
    let mut data_len: usize = 0;
    if size > 0 {
        if (offset as u64) + (size as u64) <= total as u64 {
            data_start = offset as usize;
            data_len = size as usize;
        }
    }
    ProcPayload {
        metadata: Entry { info: PayloadType::RootTask, offset, size, name: field },
        data_start,
        data_len,
    }
}

/// The payload of entry `idx` (none without an image, or past the last entry).
pub fn get_by_index(region: Option<&[u8]>, idx: usize) -> (r: Option<ProcPayload>)
    requires
        region matches Some(image) ==> image@.len() >= 8
            && (idx < le_u32(image@, 4) ==> ENTRY_BASE + (idx + 1) * ENTRY_SIZE <= image@.len()),
    ensures
        match region {
            None => r.is_none(),
            Some(image) => if idx < le_u32(image@, 4) {
                r matches Some(p) && (p.metadata.offset, p.metadata.size, p.data_start, p.data_len) == payload_of(image@, idx as int)
                    && p.metadata.info == PayloadType::RootTask
                    && p.metadata.name@ == name_field(image@, idx as int)
            } else {
                r.is_none()
            },
        },
{
    let image = match region {
        None => return None,
        Some(im) => im,
    };
    let count = count_entries(region);
    if idx >= count as usize {
        return None;
    }
    let (_, field) = read_name(image, idx);
    Some(payload_at(image, idx, field))
}

/// Finds the payload named `name` in the image (none without an image, or when
/// no entry has that name); the first entry with the name wins.
pub fn find(region: Option<&[u8]>, name: &[u8]) -> (r: Option<ProcPayload>)
    requires
        region matches Some(image) ==> table_fits(image@),
    ensures
        match region {
            None => r.is_none(),
            Some(image) => match find_from(image@, le_u32(image@, 4) as int, name@, 0) {
                None => r.is_none(),
                Some(i) => r matches Some(p) && (p.metadata.offset, p.metadata.size, p.data_start, p.data_len) == payload_of(image@, i)
                    && p.metadata.info == PayloadType::RootTask
                    && p.metadata.name@ == name_field(image@, i),
            },
        },
{
    let image = match region {
        None => return None,
        Some(im) => im,
    };
    let count = count_entries(region);
    if count == 0 {
        return None;
    }
    let total = image.len();
    let mut i: usize = 0;
    while i < count as usize
        invariant
            region == Some(image),
            total == image@.len(),
            table_fits(image@),
            count == le_u32(image@, 4),
            i <= count,
            find_from(image@, count as int, name@, 0) == find_from(image@, count as int, name@, i as int),
        decreases count - i,
    {
        proof {
            assert(ENTRY_BASE + (i + 1) * ENTRY_SIZE <= image@.len()) by (nonlinear_arith)
                requires
                    i < count,
                    ENTRY_BASE + count * ENTRY_SIZE <= image@.len(),
            ;
            assert(ENTRY_BASE + i * ENTRY_SIZE + 48 <= image@.len()) by (nonlinear_arith)
                requires
                    ENTRY_BASE + (i + 1) * ENTRY_SIZE <= image@.len(),
            ;
        }
        let (raw, field) = read_name(image, i);
        let entry_name_bytes: Vec<u8> = if is_utf8(raw.as_slice()) { raw } else { Vec::new() };
        if slice_eq(entry_name_bytes.as_slice(), name) {
            assert(entry_name(image@, i as int) == name@);
            assert(find_from(image@, count as int, name@, i as int) == Some(i as int));
            return Some(payload_at(image, i, field));
        }
        i = i + 1;
    }
    proof {
        assert(find_from(image@, count as int, name@, i as int).is_none());
    }
    None
}

/// Whether the image holds its whole entry table.
pub fn table_fits_in(image: &[u8]) -> (r: bool)
    ensures
        r == table_fits(image@),
{
    if image.len() < 8 {
        return false;
    }
    let count = read_u32(image, 4) as u64;
    (ENTRY_BASE as u64) + count * (ENTRY_SIZE as u64) <= image.len() as u64
}

/// The raw name and the size of each entry, in table order (nothing without an image).
pub fn list_entries(region: Option<&[u8]>) -> (r: Vec<(Vec<u8>, u32)>)
    requires
        region matches Some(image) ==> table_fits(image@),
    ensures
        match region {
            None => r@.len() == 0,
            Some(image) => r@.len() == le_u32(image@, 4) && forall|i: int| 0 <= i < r@.len() ==>
                (#[trigger] r@[i]).0@ == raw_name(image@, i) && r@[i].1 == le_u32(image@, ENTRY_BASE + i * ENTRY_SIZE + 5),
        },
{
    let mut out: Vec<(Vec<u8>, u32)> = Vec::new();
    let image = match region {
        None => return out,
        Some(im) => im,
    };
    let count = count_entries(region);
    let total = image.len();
    let mut i: usize = 0;
    while i < count as usize
        invariant
            total == image@.len(),
            table_fits(image@),
            count == le_u32(image@, 4),
            i <= count,
            out@.len() == i,
            forall|k: int| 0 <= k < i ==> (#[trigger] out@[k]).0@ == raw_name(image@, k) && out@[k].1 == le_u32(image@, ENTRY_BASE + k * ENTRY_SIZE + 5),
        decreases count - i,
    {
        proof {
            assert(ENTRY_BASE + (i + 1) * ENTRY_SIZE <= total) by (nonlinear_arith)
                requires
                    i < count,
                    ENTRY_BASE + count * ENTRY_SIZE <= total,
            ;
            assert(ENTRY_BASE + i * ENTRY_SIZE + 48 <= total) by (nonlinear_arith)
                requires
                    ENTRY_BASE + (i + 1) * ENTRY_SIZE <= total,
            ;
        }
        let (raw, _field) = read_name(image, i);
        let off: usize = ENTRY_BASE + i * ENTRY_SIZE;
        let size = read_u32(image, off + 5);
        out.push((raw, size));
        i = i + 1;
    }
    out
}

/// Two byte strings are equal.
fn slice_eq(a: &[u8], b: &[u8]) -> (r: bool)
    ensures
        r == (a@ == b@),
{
    if a.len() != b.len() {
        return false;
    }
    let mut i: usize = 0;
    while i < a.len()
        invariant
            a@.len() == b@.len(),
            i <= a@.len(),
            forall|k: int| 0 <= k < i ==> a@[k] == b@[k],
        decreases a@.len() - i,
    {
        if a[i] != b[i] {
            return false;
        }
        i = i + 1;
    }
    proof {
        assert(a@ =~= b@);
    }
    true
}


impl ProcPayload {
    /// The payload's bytes in `image`.
    pub open spec fn bytes_in(&self, image: Seq<u8>) -> Seq<u8> {
        image.subrange(self.data_start as int, self.data_start + self.data_len)
    }

    /// The payload read as an ELF file: `None` unless its bytes hold a whole
    /// ELF header and begin with the ELF magic.
    pub fn as_elf<'a>(&self, image: &'a [u8]) -> (r: Option<ElfFile<'a>>)
        requires
            self.data_start + self.data_len <= image@.len(),
        ensures
            r is Some <==> (self.data_len >= EHDR_SIZE && has_elf_magic(self.bytes_in(image@))),
            r matches Some(f) ==> f.wf() && f.data@ == self.bytes_in(image@),
    {
        let _len: usize = image.len();
        let data = &image[self.data_start..self.data_start + self.data_len];
        if data.len() < 4 {
            return None;
        }
        if !(data[0] == 0x7F && data[1] == 0x45 && data[2] == 0x4C && data[3] == 0x46) {
            return None;
        }
        match ElfFile::new(data) {
            Ok(f) => Some(f),
            Err(_) => None,
        }
    }
}


/// Where a flat binary of `len` bytes goes when loaded at `user_va`: page `j`
/// at `user_va` plus `j` pages, user readable, writable, executable and valid,
/// holding up to a page of the binary from its byte `j` pages in.
pub open spec fn flat_plan(len: u64, user_va: u64) -> Seq<PageLoad> {
    Seq::new(((len + 4095) / 4096) as nat, |j: int| PageLoad {
        va: (user_va + j * 4096) as u64,
        flags: 0x1F,
        dst_off: 0,
        src_off: (j * 4096) as u64,
        len: (if len - j * 4096 < 4096 { len - j * 4096 } else { 4096 }) as u64,
    })
}

impl ProcPayload {
    /// The entry point and the initial stack top of the task: the ELF entry
    /// point when the payload reads as an ELF file (see `as_elf`), else the
    /// start of a flat binary; the stack starts at `stack_top`.
    pub fn info(&self, image: &[u8], stack_top: u64) -> (r: (u64, u64))
        requires
            self.data_start + self.data_len <= image@.len(),
        ensures
            r.0 == if self.data_len >= EHDR_SIZE && has_elf_magic(self.bytes_in(image@)) {
                le_u64(self.bytes_in(image@), 24)
            } else {
                0x10000
            },
            r.1 == stack_top,
    {
        let entry: u64 = match self.as_elf(image) {
            Some(elf) => elf.entry_point(),
            None => 0x10000,
        };
        (entry, stack_top)
    }

    /// Loads the payload as a flat binary at `user_va` (see `flat_plan` and
    /// `load_pages`): every page gets a fresh frame and is mapped user
    /// readable, writable and executable; the frames are returned with what
    /// to copy into them from the payload's bytes.
    pub fn map_flat(&self, pt: &mut PageTable, store: &mut TableStore, pmem: &mut PmemManager, user_va: u64)
        -> (r: Result<Vec<FrameFill>, LoadFail>)
        requires
            old(pt).wf(),
            old(store).wf(),
            old(pmem).wf(),
            frames_below_top(old(pmem).regions@),
            user_va + self.data_len + 0x4000_2000 <= u64::MAX,
        ensures
            final(pt).wf(),
            final(store).wf(),
            final(pmem).wf(),
            ({
                let plan = flat_plan(self.data_len as u64, user_va);
                let (r2, a2, e2, g2, res) = load_run(old(pt).entries@, old(store).addrs@, old(store).entries@, old(pmem).regions@, plan, 0, Seq::empty());
                &&& final(pt).entries@ == r2
                &&& final(store).addrs@ == a2
                &&& final(store).entries@ == e2
                &&& final(pmem).regions@ == g2
                &&& match res {
                    Ok(frames) => r matches Ok(fills) && fills@.len() == plan.len() && forall|i: int| 0 <= i < plan.len()
                        ==> (#[trigger] fills@[i]).frame == frames[i] && fills@[i].load == plan[i],
                    Err(e) => r == Err::<Vec<FrameFill>, LoadFail>(e),
                }
            }),
    {
        let len: u64 = self.data_len as u64;
        let n: u64 = (len + 4095) / 4096;
        let ghost want = flat_plan(len, user_va);
        let mut plan: Vec<PageLoad> = Vec::new();
        let mut j: u64 = 0;
        while j < n
            invariant
                n == (len + 4095) / 4096,
                len == self.data_len,
                user_va + len + 0x4000_2000 <= u64::MAX,
                want == flat_plan(len, user_va),
                j <= n,
                plan@.len() == j,
                forall|k: int| 0 <= k < j ==> #[trigger] plan@[k] == want[k],
            decreases n - j,
        {
            proof {
                assert(j * 4096 < len) by (nonlinear_arith)
                    requires
                        j < n,
                        n == (len + 4095) / 4096,
                ;
            }
            let rest: u64 = len - j * 4096;
            let take: u64 = if rest < 4096 { rest } else { 4096 };
            plan.push(PageLoad { va: user_va + j * 4096, flags: 0x1F, dst_off: 0, src_off: j * 4096, len: take });
            j = j + 1;
        }
        proof {
            assert(plan@ =~= want);
            assert forall|k: int| 0 <= k < plan@.len() implies #[trigger] plan@[k].va + 0x4000_0000 + 4096 <= u64::MAX by {
                assert(k * 4096 < len + 4096) by (nonlinear_arith)
                    requires
                        0 <= k < n,
                        n == (len + 4095) / 4096,
                ;
            }
        }
        load_pages(&plan, pt, store, pmem)
    }
}

} // verus!
