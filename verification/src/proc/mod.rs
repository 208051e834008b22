//! Threads and their scheduling, address-space identifiers, the initial
//! ramdisk, program loading and the root task's address space.
pub mod asid;
pub mod bootinfo;
pub mod context;
pub mod elf;
pub mod initrd;
pub mod roottask;
pub mod runnable_queue;
pub mod scheduler;
pub mod thread;
pub mod virt;
