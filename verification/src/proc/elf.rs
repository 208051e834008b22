//! ELF64 images: the file header, the program headers, and the page-by-page plan
//! for loading the loadable segments.
use vstd::prelude::*;
use crate::bytes::{le_u16, le_u32, le_u64, read_u16, read_u32, read_u64};
use crate::mem::addr::{PhysAddr, VirtAddr, spec_align_down};
use crate::mem::pagetable::{PageTable, TableStore};
use crate::mem::pmem::{PmemManager, RegionState, alloc_spec, first_fit, region_fits, lemma_first_fit, alloc_frame_cap};
use crate::mem::pte::{Pte, VALID};
use crate::mem::table_alloc::map_alloc_run;
use crate::mem::uvm::frames_below_top;
use crate::mem::Perms;
use crate::mem::physmem::PhysMem;

verus! {

/// Bytes of the ELF64 file header.
pub const EHDR_SIZE: usize = 64;
/// Bytes of an ELF64 program header.
pub const PHDR_SIZE: usize = 56;
/// A loadable segment.
pub const PT_LOAD: u32 = 1;
/// Segment flag: executable.
pub const PF_X: u32 = 1;
/// Segment flag: writable.
pub const PF_W: u32 = 2;
/// Segment flag: readable.
pub const PF_R: u32 = 4;

/// The ELF64 file header.
#[derive(Clone, Copy, Debug)]
pub struct Elf64Ehdr {
    pub e_ident: [u8; 16],
    pub e_type: u16,
    pub e_machine: u16,
    pub e_version: u32,
    pub e_entry: u64,
    pub e_phoff: u64,
    pub e_shoff: u64,
    pub e_flags: u32,
    pub e_ehsize: u16,
    pub e_phentsize: u16,
    pub e_phnum: u16,
    pub e_shentsize: u16,
    pub e_shnum: u16,
    pub e_shstrndx: u16,
}

/// An ELF64 program header.
#[derive(Clone, Copy, PartialEq, Eq, Structural, Debug)]
pub struct Elf64Phdr {
    pub p_type: u32,
    pub p_flags: u32,
    pub p_offset: u64,
    pub p_vaddr: u64,
    pub p_paddr: u64,
    pub p_filesz: u64,
    pub p_memsz: u64,
    pub p_align: u64,
}

/// The image begins with the ELF magic bytes 0x7F 'E' 'L' 'F'.
pub open spec fn has_elf_magic(data: Seq<u8>) -> bool {
    data.len() >= 4 && data[0] == 0x7F && data[1] == 0x45 && data[2] == 0x4C && data[3] == 0x46
}

/// The header fields read from the image (little-endian, at their ELF64 offsets).
pub open spec fn header_matches(h: Elf64Ehdr, d: Seq<u8>) -> bool {
    &&& h.e_ident@ == d.subrange(0, 16)
    &&& h.e_type == le_u16(d, 16)
    &&& h.e_machine == le_u16(d, 18)
    &&& h.e_version == le_u32(d, 20)
    &&& h.e_entry == le_u64(d, 24)
    &&& h.e_phoff == le_u64(d, 32)
    &&& h.e_shoff == le_u64(d, 40)
    &&& h.e_flags == le_u32(d, 48)
    &&& h.e_ehsize == le_u16(d, 52)
    &&& h.e_phentsize == le_u16(d, 54)
    &&& h.e_phnum == le_u16(d, 56)
    &&& h.e_shentsize == le_u16(d, 58)
    &&& h.e_shnum == le_u16(d, 60)
    &&& h.e_shstrndx == le_u16(d, 62)
}

/// The program header at byte `off` of the image.
pub open spec fn phdr_at(d: Seq<u8>, off: int) -> Elf64Phdr {
    Elf64Phdr {
        p_type: le_u32(d, off),
        p_flags: le_u32(d, off + 4),
        p_offset: le_u64(d, off + 8),
        p_vaddr: le_u64(d, off + 16),
        p_paddr: le_u64(d, off + 24),
        p_filesz: le_u64(d, off + 32),
        p_memsz: le_u64(d, off + 40),
        p_align: le_u64(d, off + 48),
    }
}

/// An ELF image and its header.
pub struct ElfFile<'a> {
    pub data: &'a [u8],
    pub header: Elf64Ehdr,
}

impl<'a> ElfFile<'a> {
    /// The header is the one the image holds.
    pub open spec fn wf(&self) -> bool {
        &&& self.data@.len() >= EHDR_SIZE
        &&& has_elf_magic(self.data@)
        &&& header_matches(self.header, self.data@)
    }

    /// Reads the header of an image: refused when the image is shorter than a
    /// header or does not begin with the ELF magic.
    pub fn new(data: &'a [u8]) -> (r: Result<Self, &'static str>)
        ensures
            data@.len() < EHDR_SIZE ==> (r matches Err(m) && m@ == "Buffer too small for ELF header"@),
            data@.len() >= EHDR_SIZE && !has_elf_magic(data@) ==> (r matches Err(m) && m@ == "Invalid ELF magic"@),
            data@.len() >= EHDR_SIZE && has_elf_magic(data@) ==> (r matches Ok(f) && f.wf() && f.data@ == data@),
    {
        if data.len() < EHDR_SIZE {
            return Err("Buffer too small for ELF header");
        }
        if !(data[0] == 0x7F && data[1] == 0x45 && data[2] == 0x4C && data[3] == 0x46) {
            return Err("Invalid ELF magic");
        }
        let mut ident: [u8; 16] = [0u8; 16];
        let mut k: usize = 0;
        while k < 16
            invariant
                data@.len() >= EHDR_SIZE,
                k <= 16,
                ident@.len() == 16,
                forall|j: int| 0 <= j < k ==> ident@[j] == data@[j],
            decreases 16 - k,
        {
            ident[k] = data[k];
            k = k + 1;
        }
        proof {
            assert(ident@ =~= data@.subrange(0, 16));
        }
        let header = Elf64Ehdr {
            e_ident: ident,
            e_type: read_u16(data, 16),
            e_machine: read_u16(data, 18),
            e_version: read_u32(data, 20),
            e_entry: read_u64(data, 24),
            e_phoff: read_u64(data, 32),
            e_shoff: read_u64(data, 40),
            e_flags: read_u32(data, 48),
            e_ehsize: read_u16(data, 52),
            e_phentsize: read_u16(data, 54),
            e_phnum: read_u16(data, 56),
            e_shentsize: read_u16(data, 58),
            e_shnum: read_u16(data, 60),
            e_shstrndx: read_u16(data, 62),
        };
        Ok(ElfFile { data, header })
    }

    /// The program headers (see `program_headers`).
    pub open spec fn program_headers_spec(&self) -> Seq<Elf64Phdr> {
        let off = self.header.e_phoff as int;
        let n = self.header.e_phnum as int;
        if off + n * self.header.e_phentsize > self.data@.len() || off + n * PHDR_SIZE > self.data@.len() {
            Seq::empty()
        } else {
            Seq::new(n as nat, |i: int| phdr_at(self.data@, off + i * PHDR_SIZE))
        }
    }

    /// The entry point address.
    pub fn entry_point(&self) -> (r: u64)
        ensures
            r == self.header.e_entry,
    {
        self.header.e_entry
    }

    /// The program headers: `e_phnum` headers of 56 bytes from `e_phoff`; none
    /// when the table, counted with `e_phentsize` or with 56 bytes a header,
    /// does not fit in the image.
    pub fn program_headers(&self) -> (r: Vec<Elf64Phdr>)
        ensures
            r@ == self.program_headers_spec(),
    {
        let mut out: Vec<Elf64Phdr> = Vec::new();
        let len = self.data.len();
        let off = self.header.e_phoff;
        let n = self.header.e_phnum;
        let size = self.header.e_phentsize;
        proof {
            assert((n as int) * (size as int) <= 0xFFFF * 0xFFFF) by (nonlinear_arith)
                requires
                    n <= 0xFFFF,
                    size <= 0xFFFF,
            ;
        }
        let table: u128 = (n as u128) * (size as u128);
        let table56: u128 = (n as u128) * (PHDR_SIZE as u128);
        if (off as u128) + table > len as u128 || (off as u128) + table56 > len as u128 {
            proof {
                assert(out@ =~= self.program_headers_spec());
            }
            return out;
        }
        let off: usize = off as usize;
        let mut i: u16 = 0;
        while i < n
            invariant
                len == self.data@.len(),
                off == self.header.e_phoff,
                n == self.header.e_phnum,
                off + n * PHDR_SIZE <= len,
                i <= n,
                out@.len() == i,
                forall|k: int| 0 <= k < i ==> #[trigger] out@[k] == phdr_at(self.data@, off + k * PHDR_SIZE),
            decreases n - i,
        {
            proof {
                assert(off + (i + 1) * PHDR_SIZE <= len) by (nonlinear_arith)
                    requires
                        i < n,
                        off + n * PHDR_SIZE <= len,
                ;
            }
            let b: usize = off + (i as usize) * PHDR_SIZE;
            let ph = Elf64Phdr {
                p_type: read_u32(self.data, b),
                p_flags: read_u32(self.data, b + 4),
                p_offset: read_u64(self.data, b + 8),
                p_vaddr: read_u64(self.data, b + 16),
                p_paddr: read_u64(self.data, b + 24),
                p_filesz: read_u64(self.data, b + 32),
                p_memsz: read_u64(self.data, b + 40),
                p_align: read_u64(self.data, b + 48),
            };
            out.push(ph);
            i = i + 1;
        }
        proof {
            assert(out@ =~= self.program_headers_spec());
        }
        out
    }
}

/// One page of a loadable segment: where it goes, with which permissions, and
/// which bytes of the image are copied into its frame (`len` bytes from
/// `src_off` to `dst_off` within the page; the rest of the page is zero).
#[derive(Clone, Copy, PartialEq, Eq, Structural, Debug)]
pub struct PageLoad {
    pub va: u64,
    pub flags: u64,
    pub dst_off: u64,
    pub src_off: u64,
    pub len: u64,
}

/// A frame given to a page of a segment, to be zeroed and filled as `load` says.
#[derive(Clone, Copy, PartialEq, Eq, Structural, Debug)]
pub struct FrameFill {
    pub frame: PhysAddr,
    pub load: PageLoad,
}

/// Fill `f` stays inside its frame, and its source bytes lie inside the `n`
/// bytes of the image from `base` on.
pub open spec fn fill_fits(f: FrameFill, base: int, n: int) -> bool {
    &&& f.frame.0 % 4096 == 0
    &&& f.frame.0 + 4096 <= u64::MAX
    &&& f.load.dst_off + f.load.len <= 4096
    &&& base + f.load.src_off + f.load.len <= n
}

/// The byte at `a` after the fills, in order: each clears its frame and copies
/// its bytes of `data` (from `base`) in.
pub open spec fn filled_byte(mem: PhysMem, data: Seq<u8>, base: int, fills: Seq<FrameFill>, a: int) -> u8
    decreases fills.len(),
{
    if fills.len() == 0 {
        mem.byte(a)
    } else {
        let f = fills.last();
        let lo = f.frame.0 + f.load.dst_off;
        if f.frame.0 <= a < f.frame.0 + 4096 {
            if lo <= a < lo + f.load.len { data[base + f.load.src_off + (a - lo)] } else { 0 }
        } else {
            filled_byte(mem, data, base, fills.drop_last(), a)
        }
    }
}

/// Whether a fill stays inside its frame and the image (see `fill_fits`).
fn fill_fits_exec(f: &FrameFill, base: usize, n: usize) -> (r: bool)
    ensures
        r == fill_fits(*f, base as int, n as int),
{
    let nn = n as u64;
    let b = base as u64;
    f.frame.0 % 4096 == 0 && f.frame.0 <= u64::MAX - 4096 && f.load.dst_off <= 4096
        && f.load.len <= 4096 - f.load.dst_off && b <= nn && f.load.src_off <= nn - b
        && f.load.len <= nn - b - f.load.src_off
}

/// Loads the segment bytes into their frames: when every fill fits (see
/// `fill_fits`), each in turn clears its frame and copies its bytes of `data`
/// from `base` in; otherwise nothing is written.
pub fn load_fills(mem: &mut PhysMem, data: &[u8], base: usize, fills: &Vec<FrameFill>) -> (r: bool)
    requires
        old(mem).wf(),
        (old(mem).frames@.len() + fills@.len() + 1) * 4096 <= usize::MAX,
    ensures
        final(mem).wf(),
        r == forall|i: int| 0 <= i < fills@.len() ==> fill_fits(#[trigger] fills@[i], base as int, data@.len() as int),
        r ==> forall|a: int| #[trigger] final(mem).byte(a) == filled_byte(*old(mem), data@, base as int, fills@, a),
        !r ==> *final(mem) == *old(mem),
{
    let n = data.len();
    let mut i: usize = 0;
    while i < fills.len()
        invariant
            mem.wf(),
            *mem == *old(mem),
            i <= fills@.len(),
            forall|j: int| 0 <= j < i ==> fill_fits(#[trigger] fills@[j], base as int, data@.len() as int),
        decreases fills@.len() - i,
    {
        if !fill_fits_exec(&fills[i], base, data.len()) {
            return false;
        }
        i = i + 1;
    }
    let mut k: usize = 0;
    proof {
        assert(fills@.take(0) =~= Seq::<FrameFill>::empty());
    }
    while k < fills.len()
        invariant
            mem.wf(),
            n == data@.len(),
            k <= fills@.len(),
            forall|j: int| 0 <= j < fills@.len() ==> fill_fits(#[trigger] fills@[j], base as int, data@.len() as int),
            mem.frames@.len() <= old(mem).frames@.len() + k,
            (old(mem).frames@.len() + fills@.len() + 1) * 4096 <= usize::MAX,
            forall|a: int| #[trigger] mem.byte(a) == filled_byte(*old(mem), data@, base as int, fills@.take(k as int), a),
        decreases fills@.len() - k,
    {
        let f = fills[k];
        assert(fill_fits(fills@[k as int], base as int, data@.len() as int));
        let src = base + f.load.src_off as usize;
        let chunk = vstd::slice::slice_subrange(data, src, src + f.load.len as usize);
        let ghost prev = *mem;
        mem.fill(f.frame.0, f.load.dst_off as usize, chunk);
        proof {
            assert(fills@.take(k + 1).drop_last() =~= fills@.take(k as int));
            assert(fills@.take(k + 1).last() == f);
            assert forall|a: int| #[trigger] mem.byte(a) == filled_byte(*old(mem), data@, base as int, fills@.take(k + 1), a) by {
                assert(prev.byte(a) == filled_byte(*old(mem), data@, base as int, fills@.take(k as int), a));
            }
        }
        k = k + 1;
    }
    proof {
        assert(fills@.take(fills@.len() as int) =~= fills@);
    }
    true
}

/// The permissions of a segment's pages: user and valid, with execute, write
/// and read as its flags say.
pub open spec fn seg_flags(ph: Elf64Phdr) -> u64 {
    let f0: u64 = 17;
    let f1 = if ph.p_flags & PF_X != 0 { f0 | 8 } else { f0 };
    let f2 = if ph.p_flags & PF_W != 0 { f1 | 4 } else { f1 };
    if ph.p_flags & PF_R != 0 { f2 | 2 } else { f2 }
}

/// The permission bits of a page whose segment has flag word `x`, bit by bit.
spec fn perm_bits(x: u32) -> u64 {
    let f1: u64 = if x & 1u32 != 0 { 17u64 | 8u64 } else { 17u64 };
    let f2: u64 = if x & 2u32 != 0 { f1 | 4u64 } else { f1 };
    if x & 4u32 != 0 { f2 | 2u64 } else { f2 }
}

proof fn lemma_perm_bits(x: u32)
    by (bit_vector)
    ensures
        perm_bits(x) & 1u64 != 0,
        perm_bits(x) & 16u64 != 0,
        (perm_bits(x) & 2u64 != 0) == (x & 4u32 != 0),
        (perm_bits(x) & 4u64 != 0) == (x & 2u32 != 0),
        (perm_bits(x) & 8u64 != 0) == (x & 1u32 != 0),
        perm_bits(x) & !0x1Fu64 == 0,
{
}

/// A segment's pages carry its permissions: every page is valid (V) and user
/// accessible (U), readable (R) exactly when the segment has `PF_R`, writable
/// (W) exactly when it has `PF_W`, executable (X) exactly when it has `PF_X`,
/// and no other bit is set.
pub proof fn law_page_flags_follow_segment(ph: Elf64Phdr, j: int)
    ensures
        page_load(ph, j).flags & VALID != 0,
        page_load(ph, j).flags & 16u64 != 0,
        (page_load(ph, j).flags & 2u64 != 0) == (ph.p_flags & PF_R != 0),
        (page_load(ph, j).flags & 4u64 != 0) == (ph.p_flags & PF_W != 0),
        (page_load(ph, j).flags & 8u64 != 0) == (ph.p_flags & PF_X != 0),
        page_load(ph, j).flags & !0x1Fu64 == 0,
{
    let x = ph.p_flags;
    assert(seg_flags(ph) == perm_bits(x));
    lemma_perm_bits(x);
}

/// How many pages a segment spans from its page-aligned start.
pub open spec fn seg_pages(ph: Elf64Phdr) -> int {
    (ph.p_memsz + ph.p_vaddr % 4096 + 4095) / 4096
}

/// Page `j` of a segment.
pub open spec fn page_load(ph: Elf64Phdr, j: int) -> PageLoad {
    let off = ph.p_vaddr % 4096;
    let start = if j == 0 { 0 } else { j * 4096 - off };
    let end = (j + 1) * 4096 - off;
    let copy_end = if ph.p_filesz < end { ph.p_filesz as int } else { end };
    let copies = start < copy_end;
    PageLoad {
        va: (ph.p_vaddr - off + j * 4096) as u64,
        flags: seg_flags(ph),
        dst_off: if copies && j == 0 { off as u64 } else { 0 },
        src_off: if copies { (ph.p_offset + start) as u64 } else { 0 },
        len: if copies { (copy_end - start) as u64 } else { 0 },
    }
}

/// The pages of the loadable segments, in order.
pub open spec fn load_plan(phs: Seq<Elf64Phdr>) -> Seq<PageLoad>
    decreases phs.len(),
{
    if phs.len() == 0 {
        Seq::empty()
    } else {
        let ph = phs.last();
        load_plan(phs.drop_last()) + if ph.p_type == PT_LOAD {
            Seq::new(seg_pages(ph) as nat, |j: int| page_load(ph, j))
        } else {
            Seq::empty()
        }
    }
}

/// A loadable segment lies well below the top of the address space.
pub open spec fn seg_sane(ph: Elf64Phdr) -> bool {
    ph.p_type == PT_LOAD ==> ph.p_vaddr + ph.p_memsz + 0x8000_0000 <= u64::MAX && ph.p_offset + ph.p_filesz <= u64::MAX
}

/// Every page's copy reads bytes of the image only.
pub open spec fn plan_fits(plan: Seq<PageLoad>, len: int) -> bool {
    forall|i: int| 0 <= i < plan.len() ==> (#[trigger] plan[i]).len > 0 ==> plan[i].src_off + plan[i].len <= len
}

/// Why loading failed.
#[derive(Clone, Copy, PartialEq, Eq, Structural, Debug)]
pub enum LoadFail {
    NoFrame,
    MapFailed,
}

/// Loading the plan from page `i`: each page gets a fresh frame from the
/// allocator and is mapped there (see `map_alloc_run`); `acc` holds the frames
/// given so far.
pub open spec fn load_run(
    root: Seq<Pte>,
    addrs: Seq<PhysAddr>,
    ents: Seq<Pte>,
    regs: Seq<RegionState>,
    plan: Seq<PageLoad>,
    i: int,
    acc: Seq<PhysAddr>,
) -> (Seq<Pte>, Seq<PhysAddr>, Seq<Pte>, Seq<RegionState>, Result<Seq<PhysAddr>, LoadFail>)
    decreases plan.len() - i,
{
    if i < 0 || i >= plan.len() {
        (root, addrs, ents, regs, Ok(acc))
    } else {
        match alloc_spec(regs, 4096, 4096) {
            None => (root, addrs, ents, regs, Err(LoadFail::NoFrame)),
            Some((p, g1)) => {
                let (r2, a2, e2, g2, res) = map_alloc_run(root, addrs, ents, g1, plan[i].va as int, plan[i].va + 4096,
                    spec_align_down(p, 4096) as int, plan[i].flags | VALID);
                if res is Err {
                    (r2, a2, e2, g2, Err(LoadFail::MapFailed))
                } else {
                    load_run(r2, a2, e2, g2, plan, i + 1, acc.push(PhysAddr(p)))
                }
            },
        }
    }
}

/// Page `j` of a segment (see `page_load`).
fn page_load_exec(ph: &Elf64Phdr, j: u64) -> (r: PageLoad)
    requires
        seg_sane(*ph),
        ph.p_type == PT_LOAD,
        j < seg_pages(*ph),
    ensures
        r == page_load(*ph, j as int),
{
    let off: u64 = ph.p_vaddr % 4096;
    proof {
        assert(j * 4096 <= ph.p_memsz + off + 4095) by (nonlinear_arith)
            requires
                j < (ph.p_memsz + off + 4095) / 4096,
        ;
    }
    let start: u64 = if j == 0 { 0 } else { j * 4096 - off };
    let end: u64 = (j + 1) * 4096 - off;
    let copy_end: u64 = if ph.p_filesz < end { ph.p_filesz } else { end };
    let mut flags: u64 = 17;
    if ph.p_flags & PF_X != 0 {
        flags = flags | 8;
    }
    if ph.p_flags & PF_W != 0 {
        flags = flags | 4;
    }
    if ph.p_flags & PF_R != 0 {
        flags = flags | 2;
    }
    let copies = start < copy_end;
    PageLoad {
        va: ph.p_vaddr - off + j * 4096,
        flags,
        dst_off: if copies && j == 0 { off } else { 0 },
        src_off: if copies { ph.p_offset + start } else { 0 },
        len: if copies { copy_end - start } else { 0 },
    }
}

/// The pages of the loadable segments among `phs` (see `load_plan`).
pub fn load_plan_exec(phs: &Vec<Elf64Phdr>) -> (r: Vec<PageLoad>)
    requires
        forall|k: int| 0 <= k < phs@.len() ==> seg_sane(#[trigger] phs@[k]),
    ensures
        r@ == load_plan(phs@),
{
    let mut out: Vec<PageLoad> = Vec::new();
    let mut k: usize = 0;
    while k < phs.len()
        invariant
            k <= phs@.len(),
            forall|m: int| 0 <= m < phs@.len() ==> seg_sane(#[trigger] phs@[m]),
            out@ == load_plan(phs@.take(k as int)),
        decreases phs@.len() - k,
    {
        let ph = &phs[k];
        let ghost before = out@;
        if ph.p_type == PT_LOAD {
            assert(seg_sane(phs@[k as int]));
            let off: u64 = ph.p_vaddr % 4096;
            let n: u64 = (ph.p_memsz + off + 4095) / 4096;
            let mut j: u64 = 0;
            while j < n
                invariant
                    seg_sane(*ph),
                    ph.p_type == PT_LOAD,
                    n == seg_pages(*ph),
                    j <= n,
                    out@ == before + Seq::new(j as nat, |i: int| page_load(*ph, i)),
                decreases n - j,
            {
                let pl = page_load_exec(ph, j);
                out.push(pl);
                j = j + 1;
                proof {
                    assert(out@ =~= before + Seq::new(j as nat, |i: int| page_load(*ph, i)));
                }
            }
        }
        proof {
            let t = phs@.take(k + 1);
            assert(t.drop_last() =~= phs@.take(k as int));
            assert(t.last() == phs@[k as int]);
            if ph.p_type != PT_LOAD {
                assert(out@ =~= load_plan(t));
            }
        }
        k = k + 1;
    }
    proof {
        assert(phs@.take(phs@.len() as int) =~= phs@);
    }
    out
}

proof fn lemma_plan_va_bound(phs: Seq<Elf64Phdr>)
    requires
        forall|k: int| 0 <= k < phs.len() ==> seg_sane(#[trigger] phs[k]),
    ensures
        forall|k: int| 0 <= k < load_plan(phs).len() ==> #[trigger] load_plan(phs)[k].va + 0x4000_0000 + 4096 <= u64::MAX,
    decreases phs.len(),
{
    if phs.len() > 0 {
        let t = phs.drop_last();
        assert forall|k: int| 0 <= k < t.len() implies seg_sane(#[trigger] t[k]) by {
            assert(t[k] == phs[k]);
        }
        lemma_plan_va_bound(t);
        let ph = phs.last();
        assert(seg_sane(phs[phs.len() - 1]));
        let a = load_plan(t);
        let b = if ph.p_type == PT_LOAD { Seq::new(seg_pages(ph) as nat, |j: int| page_load(ph, j)) } else { Seq::<PageLoad>::empty() };
        assert(load_plan(phs) == a + b);
        assert forall|k: int| 0 <= k < load_plan(phs).len() implies #[trigger] load_plan(phs)[k].va + 0x4000_0000 + 4096 <= u64::MAX by {
            if k < a.len() {
                assert(load_plan(phs)[k] == a[k]);
            } else {
                let j = k - a.len();
                assert(load_plan(phs)[k] == b[j]);
                let off = ph.p_vaddr % 4096;
                assert(j * 4096 <= ph.p_memsz + off + 4095 - 4096) by (nonlinear_arith)
                    requires
                        0 <= j,
                        j < (ph.p_memsz + off + 4095) / 4096,
                ;
            }
        }
    }
}

/// Loads the pages of `plan` into an address space, in order (see
/// `load_run`): each page gets a fresh frame from `pmem` and is mapped there
/// with the page's permissions. Returns, page by page, the frame and what the
/// caller must copy into it after zeroing it. No free frame ends with
/// `NoFrame`; a page that cannot be mapped with `MapFailed` (the pages before
/// stay mapped).
#[verifier::rlimit(80)]
pub fn load_pages(plan: &Vec<PageLoad>, pt: &mut PageTable, store: &mut TableStore, pmem: &mut PmemManager)
    -> (r: Result<Vec<FrameFill>, LoadFail>)
    requires
        old(pt).wf(),
        old(store).wf(),
        old(pmem).wf(),
        frames_below_top(old(pmem).regions@),
        forall|k: int| 0 <= k < plan@.len() ==> #[trigger] plan@[k].va + 0x4000_0000 + 4096 <= u64::MAX,
    ensures
        final(pt).wf(),
        final(store).wf(),
        final(pmem).wf(),
        ({
            let (r2, a2, e2, g2, res) = load_run(old(pt).entries@, old(store).addrs@, old(store).entries@, old(pmem).regions@, plan@, 0, Seq::empty());
            &&& final(pt).entries@ == r2
            &&& final(store).addrs@ == a2
            &&& final(store).entries@ == e2
            &&& final(pmem).regions@ == g2
            &&& match res {
                Ok(frames) => r matches Ok(fills) && fills@.len() == plan@.len() && forall|i: int| 0 <= i < plan@.len()
                    ==> (#[trigger] fills@[i]).frame == frames[i] && fills@[i].load == plan@[i],
                Err(e) => r == Err::<Vec<FrameFill>, LoadFail>(e),
            }
        }),
{
    let mut fills: Vec<FrameFill> = Vec::new();
    let mut i: usize = 0;
    proof {
        assert(Seq::new(0nat, |k: int| fills@[k].frame) =~= Seq::<PhysAddr>::empty());
    }
    while i < plan.len()
        invariant
            pt.wf(),
            store.wf(),
            pmem.wf(),
            frames_below_top(pmem.regions@),
            i <= plan@.len(),
            forall|k: int| 0 <= k < plan@.len() ==> #[trigger] plan@[k].va + 0x4000_0000 + 4096 <= u64::MAX,
            fills@.len() == i,
            forall|k: int| 0 <= k < i ==> (#[trigger] fills@[k]).load == plan@[k],
            load_run(old(pt).entries@, old(store).addrs@, old(store).entries@, old(pmem).regions@, plan@, 0, Seq::empty())
                == load_run(pt.entries@, store.addrs@, store.entries@, pmem.regions@, plan@, i as int,
                    Seq::new(i as nat, |k: int| fills@[k].frame)),
        decreases plan@.len() - i,
    {
        let pl = plan[i];
        proof {
            lemma_first_fit(pmem.regions@, 4096, 4096);
        }
        let ghost regs = pmem.regions@;
        let ghost root0 = pt.entries@;
        let ghost addrs0 = store.addrs@;
        let ghost ents0 = store.entries@;
        let ghost acc0 = Seq::new(i as nat, |k: int| fills@[k].frame);
        let cap = match alloc_frame_cap(pmem, 1) {
            None => {
                assert(alloc_spec(regs, 4096, 4096).is_none());
                assert(load_run(root0, addrs0, ents0, regs, plan@, i as int, acc0).4 == Err::<Seq<PhysAddr>, LoadFail>(LoadFail::NoFrame));
                return Err(LoadFail::NoFrame);
            },
            Some(c) => c,
        };
        let frame = cap.paddr;
        proof {
            let idx = first_fit(regs, 4096, 4096).unwrap();
            assert(region_fits(regs[idx], 4096, 4096));
            assert(frames_below_top(pmem.regions@)) by {
                assert forall|j: int| 0 <= j < pmem.regions@.len() implies #[trigger] pmem.regions@[j].end.0 + 8192 <= u64::MAX by {
                    assert(pmem.regions@[j].end == regs[j].end);
                }
            }
        }
        let ghost g1 = pmem.regions@;
        proof {
            assert(alloc_spec(regs, 4096, 4096) == Some((frame.0, g1)));
        }
        match pt.map_with_alloc(store, pmem, VirtAddr::from(pl.va), frame, 4096, Perms(pl.flags)) {
            Err(_) => {
                assert(load_run(root0, addrs0, ents0, regs, plan@, i as int, acc0).4 == Err::<Seq<PhysAddr>, LoadFail>(LoadFail::MapFailed));
                return Err(LoadFail::MapFailed);
            },
            Ok(()) => {},
        }
        proof {
            let (r2, a2, e2, g2, res) = map_alloc_run(root0, addrs0, ents0, g1, pl.va as int, pl.va + 4096,
                spec_align_down(frame.0, 4096) as int, pl.flags | VALID);
            assert(res is Ok);
            assert(load_run(root0, addrs0, ents0, regs, plan@, i as int, acc0)
                == load_run(pt.entries@, store.addrs@, store.entries@, pmem.regions@, plan@, i + 1, acc0.push(frame)));
        }
        fills.push(FrameFill { frame, load: pl });
        i = i + 1;
        proof {
            assert(Seq::new(i as nat, |k: int| fills@[k].frame) =~= acc0.push(frame));
        }
    }
Ok(fills)
}

impl<'a> ElfFile<'a> {
    /// Whether `map` can load this file: every loadable segment lies well below
    /// the top of the address space, and every page copies bytes of the image
    /// only.
    pub fn loadable(&self) -> (r: bool)
        ensures
            r == ((forall|k: int| 0 <= k < self.program_headers_spec().len() ==> seg_sane(#[trigger] self.program_headers_spec()[k]))
                && plan_fits(load_plan(self.program_headers_spec()), self.data@.len() as int)),
    {
        let phs = self.program_headers();
        let mut k: usize = 0;
        while k < phs.len()
            invariant
                k <= phs@.len(),
                phs@ == self.program_headers_spec(),
                forall|m: int| 0 <= m < k ==> seg_sane(#[trigger] phs@[m]),
            decreases phs@.len() - k,
        {
            let ph = &phs[k];
            if ph.p_type == PT_LOAD {
                if ph.p_vaddr > u64::MAX - 0x8000_0000 || ph.p_memsz > u64::MAX - 0x8000_0000 - ph.p_vaddr
                    || ph.p_offset > u64::MAX - ph.p_filesz {
                    assert(!seg_sane(phs@[k as int]));
                    return false;
                }
            }
            k = k + 1;
        }
        let plan = load_plan_exec(&phs);
        let len: u64 = self.data.len() as u64;
        let mut i: usize = 0;
        while i < plan.len()
            invariant
                i <= plan@.len(),
                len == self.data@.len(),
                plan@ == load_plan(self.program_headers_spec()),
                forall|m: int| 0 <= m < i ==> (#[trigger] plan@[m]).len > 0 ==> plan@[m].src_off + plan@[m].len <= len,
            decreases plan@.len() - i,
        {
            let pl = plan[i];
            if pl.len > 0 && (pl.src_off > len || pl.len > len - pl.src_off) {
                return false;
            }
            i = i + 1;
        }
        true
    }

    /// Loads the loadable segments into an address space: every page of each
    /// segment gets a fresh frame from `pmem` and is mapped with the segment's
    /// permissions (see `load_plan` and `load_run`). Returns, page by page, the
    /// frame and what the caller must copy into it from the image after zeroing
    /// it. No free frame ends with "Failed to alloc frame for segment"; a page
    /// that cannot be mapped with "Failed to map segment" (the pages before stay
    /// mapped).
    pub fn map(&self, pt: &mut PageTable, store: &mut TableStore, pmem: &mut PmemManager) -> (r: Result<Vec<FrameFill>, &'static str>)
        requires
            self.wf(),
            old(pt).wf(),
            old(store).wf(),
            old(pmem).wf(),
            frames_below_top(old(pmem).regions@),
            forall|k: int| 0 <= k < self.program_headers_spec().len() ==> seg_sane(#[trigger] self.program_headers_spec()[k]),
            plan_fits(load_plan(self.program_headers_spec()), self.data@.len() as int),
        ensures
            final(pt).wf(),
            final(store).wf(),
            final(pmem).wf(),
            ({
                let plan = load_plan(self.program_headers_spec());
                let (r2, a2, e2, g2, res) = load_run(old(pt).entries@, old(store).addrs@, old(store).entries@, old(pmem).regions@, plan, 0, Seq::empty());
                &&& final(pt).entries@ == r2
                &&& final(store).addrs@ == a2
                &&& final(store).entries@ == e2
                &&& final(pmem).regions@ == g2
                &&& match res {
                    Ok(frames) => r matches Ok(fills) && fills@.len() == plan.len() && forall|i: int| 0 <= i < plan.len()
                        ==> (#[trigger] fills@[i]).frame == frames[i] && fills@[i].load == plan[i],
                    Err(LoadFail::NoFrame) => r matches Err(m) && m@ == "Failed to alloc frame for segment"@,
                    Err(LoadFail::MapFailed) => r matches Err(m) && m@ == "Failed to map segment"@,
                }
            }),
    {
        let phs = self.program_headers();
        let plan = load_plan_exec(&phs);
        proof {
            lemma_plan_va_bound(phs@);
        }
        match load_pages(&plan, pt, store, pmem) {
            Ok(fills) => Ok(fills),
            Err(LoadFail::NoFrame) => Err("Failed to alloc frame for segment"),
            Err(LoadFail::MapFailed) => Err("Failed to map segment"),
        }
    }
}

} // verus!
