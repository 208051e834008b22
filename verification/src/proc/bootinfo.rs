//! The boot information page handed to the root task.
use vstd::prelude::*;
use crate::mem::untyped::UntypedRegion;

verus! {

/// Untyped regions the page can describe.
pub const MAX_UNTYPED_REGIONS: usize = 4;
/// Device memory regions the page can describe.
pub const MAX_MMIO_REGIONS: usize = 64;

/// How the platform describes itself.
#[derive(Clone, Copy, PartialEq, Eq, Structural, Debug)]
pub enum PlatformType {
    NULL,
    ACPI,
    DTB,
}

/// The boot information: the initial ramdisk, the platform description, the
/// kernel version and build, the untyped regions given to the root task, and
/// the kernel command line.
#[derive(Clone, Copy, Debug)]
pub struct BootInfo {
    pub initrd_paddr: usize,
    pub initrd_size: usize,
    pub platform_type: PlatformType,
    pub addr: usize,
    pub size: usize,
    pub version: u32,
    pub build: [u8; 64],
    pub git_hash: [u8; 8],
    pub untyped_count: usize,
    pub untyped_list: [UntypedRegion; 4],
    pub cmdline: [u8; 256],
}

impl BootInfo {
    /// Empty boot information: no ramdisk, no platform table, no untyped region.
    pub fn new() -> (r: Self)
        ensures
            r.initrd_paddr == 0 && r.initrd_size == 0,
            r.platform_type == PlatformType::NULL,
            r.addr == 0 && r.size == 0 && r.version == 0,
            r.untyped_count == 0,
            forall|i: int| 0 <= i < 4 ==> r.untyped_list@[i].pages == 0 && r.untyped_list@[i].watermark == 0 && r.untyped_list@[i].start.0 == 0,
            forall|i: int| 0 <= i < 64 ==> r.build@[i] == 0,
            forall|i: int| 0 <= i < 8 ==> r.git_hash@[i] == 0,
            forall|i: int| 0 <= i < 256 ==> r.cmdline@[i] == 0,
    {
        let e = UntypedRegion::empty();
        BootInfo {
            initrd_paddr: 0,
            initrd_size: 0,
            platform_type: PlatformType::NULL,
            addr: 0,
            size: 0,
            version: 0,
            build: [0u8; 64],
            git_hash: [0u8; 8],
            untyped_count: 0,
            untyped_list: [e, e, e, e],
            cmdline: [0u8; 256],
        }
    }
}


} // verus!
