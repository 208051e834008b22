//! Little-endian words in byte strings, and UTF-8 validity.
use vstd::prelude::*;
use vstd::utf8::valid_utf8;

verus! {

/// The 16-bit little-endian word at `off`.
pub open spec fn le_u16(s: Seq<u8>, off: int) -> u16 {
    ((s[off] as u16) | ((s[off + 1] as u16) << 8u16)) as u16
}

/// The 32-bit little-endian word at `off`.
pub open spec fn le_u32(s: Seq<u8>, off: int) -> u32 {
    (s[off] as u32) | ((s[off + 1] as u32) << 8u32) | ((s[off + 2] as u32) << 16u32) | ((s[off + 3] as u32) << 24u32)
}

/// The 64-bit little-endian word at `off`.
pub open spec fn le_u64(s: Seq<u8>, off: int) -> u64 {
    (le_u32(s, off) as u64) | ((le_u32(s, off + 4) as u64) << 32u64)
}

/// Reads the 16-bit little-endian word at `off`.
pub fn read_u16(bytes: &[u8], off: usize) -> (r: u16)
    requires
        off + 2 <= bytes@.len(),
    ensures
        r == le_u16(bytes@, off as int),
{
    (bytes[off] as u16) | ((bytes[off + 1] as u16) << 8)
}

/// Reads the 32-bit little-endian word at `off`.
pub fn read_u32(bytes: &[u8], off: usize) -> (r: u32)
    requires
        off + 4 <= bytes@.len(),
    ensures
        r == le_u32(bytes@, off as int),
{
    (bytes[off] as u32) | ((bytes[off + 1] as u32) << 8) | ((bytes[off + 2] as u32) << 16) | ((bytes[off + 3] as u32) << 24)
}

/// Reads the 64-bit little-endian word at `off`.
pub fn read_u64(bytes: &[u8], off: usize) -> (r: u64)
    requires
        off + 8 <= bytes@.len(),
    ensures
        r == le_u64(bytes@, off as int),
{
    let _n = bytes.len();
    (read_u32(bytes, off) as u64) | ((read_u32(bytes, off + 4) as u64) << 32)
}

/// Calls `core::str::from_utf8` and reports whether it accepted the bytes,
/// which it does exactly when they are well-formed UTF-8 (`valid_utf8`: each
/// scalar a leading byte and its continuation bytes, not overlong, not a
/// surrogate, at most U+10FFFF).
#[verifier::external_body]
pub(crate) fn is_utf8(bytes: &[u8]) -> (r: bool)
    ensures
        r == valid_utf8(bytes@),
{
    core::str::from_utf8(bytes).is_ok()
}

} // verus!
