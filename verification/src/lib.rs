//! Glenda microkernel core: the address, page-table, memory-allocation,
//! IPC and scheduling logic of the kernel, with machine-checked contracts.
pub mod bytes;
pub mod cap;
pub mod error;
pub mod ipc;
pub mod irq;
pub mod platform;
pub mod proc;
pub mod shell;
pub mod mem;
