//! Platform description: the physical memory regions, processors and boot
//! arguments that the firmware reports in a flattened device tree (read by
//! the host driver, which hands the facts over as plain values).
use vstd::prelude::*;
use crate::mem::PhysAddr;

verus! {

/// The most memory regions a platform description holds.
pub const MAX_MEMORY_REGIONS: usize = 128;

/// The kind of a physical memory region.
#[derive(Clone, Copy, PartialEq, Eq, Structural, Debug)]
pub enum MemoryType {
    Ram,
    Mmio,
    Reserved,
    Reclaimable,
}

/// A block of physical memory.
#[derive(Clone, Copy, PartialEq, Eq, Structural, Debug)]
pub struct MemoryRegion {
    pub start: PhysAddr,
    pub size: usize,
    pub region_type: MemoryType,
}

/// What a device tree reports: the `reg` entries
/// of `/memory` (start and, where given, size), the number of `cpu` nodes
/// under `/cpus`, the first cpu's `timebase-frequency`, the `bootargs` of
/// `/chosen` and the root's `model`.
pub struct FdtFacts {
    pub memory: Vec<(u64, Option<usize>)>,
    pub cpu_count: usize,
    pub timebase_freq: Option<usize>,
    pub bootargs: Option<Vec<u8>>,
    pub model: Vec<u8>,
}

/// The facts of a device tree as plain values.
pub type FdtFactsView = (Seq<(u64, Option<usize>)>, usize, Option<usize>, Option<Seq<u8>>, Seq<u8>);

impl View for FdtFacts {
    type V = FdtFactsView;

    open spec fn view(&self) -> FdtFactsView {
        (
            self.memory@,
            self.cpu_count,
            self.timebase_freq,
            match self.bootargs {
                Some(b) => Some(b@),
                None => None,
            },
            self.model@,
        )
    }
}

/// What the kernel keeps of the platform.
pub struct PlatformInfo {
    pub regions: Vec<MemoryRegion>,
    pub bootargs: Vec<u8>,
    pub cpu_count: usize,
    pub timebase_freq: usize,
    pub model: Vec<u8>,
}

/// The memory region of a `reg` entry: RAM of the given size, 0 where none is given.
pub open spec fn ram_region(m: (u64, Option<usize>)) -> MemoryRegion {
    MemoryRegion {
        start: PhysAddr(m.0),
        size: match m.1 {
            Some(s) => s,
            None => 0,
        },
        region_type: MemoryType::Ram,
    }
}

/// The platform that the facts describe: the first `MAX_MEMORY_REGIONS`
/// memory entries as RAM, the boot arguments (empty where there are none), the
/// number of processors, the timebase (0 where there is no processor) and the
/// model.
pub open spec fn platform_spec(v: FdtFactsView) -> (Seq<MemoryRegion>, Seq<u8>, usize, usize, Seq<u8>) {
    let n = if v.0.len() < MAX_MEMORY_REGIONS { v.0.len() as int } else { MAX_MEMORY_REGIONS as int };
    (
        Seq::new(n as nat, |i: int| ram_region(v.0[i])),
        match v.3 {
            Some(b) => b,
            None => Seq::empty(),
        },
        v.1,
        match v.2 {
            Some(t) => t,
            None => 0,
        },
        v.4,
    )
}

impl PlatformInfo {
    /// The platform as plain values.
    pub open spec fn spec_view(&self) -> (Seq<MemoryRegion>, Seq<u8>, usize, usize, Seq<u8>) {
        (self.regions@, self.bootargs@, self.cpu_count, self.timebase_freq, self.model@)
    }
}

/// Builds the platform description from what the device tree reports.
pub fn platform_from_facts(facts: FdtFacts) -> (r: PlatformInfo)
    ensures
        r.spec_view() == platform_spec(facts@),
{
    let n = if facts.memory.len() < MAX_MEMORY_REGIONS { facts.memory.len() } else { MAX_MEMORY_REGIONS };
    let mut regions: Vec<MemoryRegion> = Vec::new();
    let mut i: usize = 0;
    while i < n
        invariant
            n <= facts.memory@.len(),
            i <= n,
            regions@.len() == i,
            forall|k: int| 0 <= k < i ==> regions@[k] == ram_region(#[trigger] facts.memory@[k]),
        decreases n - i,
    {
        let (start, size) = facts.memory[i];
        let sz: usize = match size {
            Some(s) => s,
            None => 0,
        };
        regions.push(MemoryRegion { start: PhysAddr(start), size: sz, region_type: MemoryType::Ram });
        i = i + 1;
    }
    let bootargs: Vec<u8> = match facts.bootargs {
        Some(b) => b,
        None => Vec::new(),
    };
    let timebase_freq: usize = match facts.timebase_freq {
        Some(t) => t,
        None => 0,
    };
    let r = PlatformInfo { regions, bootargs, cpu_count: facts.cpu_count, timebase_freq, model: facts.model };
    proof {
        assert(r.regions@ =~= platform_spec(facts@).0);
    }
    r
}

} // verus!
