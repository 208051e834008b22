//! Kernel error codes.
use vstd::prelude::*;

verus! {

/// The errors that kernel operations report to their callers.
#[derive(Clone, Copy, PartialEq, Eq, Structural, Debug)]
pub enum Error {
    InvalidArgs,
    InvalidAddress,
    InvalidCapability,
    InvalidType,
    MappingFailed,
    AlreadyExists,
    OutOfMemory,
    NotSupported,
}

} // verus!
