//! Message tags: the label in bits 16 and up, the length in bits 0..3, and flags between.
use vstd::prelude::*;

verus! {

/// The tag is followed by a capability to transfer.
pub const FLAG_HAS_CAP: usize = 16;
/// The message carries data in the IPC buffer.
pub const FLAG_HAS_BUFFER: usize = 32;

/// Label of a page-fault message.
pub const LABEL_PAGE_FAULT: usize = 0xFFFF;
/// Label of a general exception message.
pub const LABEL_EXCEPTION: usize = 0xFFFE;
/// Label of an unknown system call.
pub const LABEL_UNKNOWN_SYSCALL: usize = 0xFFFD;
/// Label of a capability fault.
pub const LABEL_CAP_FAULT: usize = 0xFFFC;
/// Label of an interrupt notification.
pub const LABEL_IRQ: usize = 0xFFFB;
/// Label of an asynchronous notification.
pub const LABEL_NOTIFY: usize = 0xFFFA;

/// A message tag.
#[derive(Clone, Copy, PartialEq, Eq, Structural, Debug)]
pub struct MsgTag(pub usize);

impl MsgTag {
    /// A tag with `label` (shifted up 16 bits) and the low four bits of `length`.
    pub fn new(label: usize, length: usize) -> (r: Self)
        ensures
            r.0 == (label << 16usize) | (length & 0xF),
    {
        Self((label << 16) | (length & 0xF))
    }

    pub fn label(&self) -> (r: usize)
        ensures
            r == self.0 >> 16usize,
    {
        self.0 >> 16
    }

    pub fn length(&self) -> (r: usize)
        ensures
            r == self.0 & 0xF,
    {
        self.0 & 0xF
    }

    pub fn has_cap(&self) -> (r: bool)
        ensures
            r == (self.0 & FLAG_HAS_CAP != 0),
    {
        (self.0 & FLAG_HAS_CAP) != 0
    }

    pub fn has_buffer(&self) -> (r: bool)
        ensures
            r == (self.0 & FLAG_HAS_BUFFER != 0),
    {
        (self.0 & FLAG_HAS_BUFFER) != 0
    }

    pub fn set_has_cap(&mut self)
        ensures
            final(self).0 == old(self).0 | FLAG_HAS_CAP,
    {
        self.0 = self.0 | FLAG_HAS_CAP;
    }
}

/// A tag gives back its label (when it fits in the bits above 16) and its length
/// (the low four bits), carries no capability flag, and keeps both once the flag is set.
pub proof fn law_tag_fields(label: usize, length: usize)
    requires
        label <= (!0usize) >> 16usize,
    ensures
        ((label << 16usize) | (length & 0xF)) >> 16usize == label,
        ((label << 16usize) | (length & 0xF)) & 0xF == length & 0xF,
        ((label << 16usize) | (length & 0xF)) & FLAG_HAS_CAP == 0,
        ((label << 16usize) | (length & 0xF) | FLAG_HAS_CAP) >> 16usize == label,
        ((label << 16usize) | (length & 0xF) | FLAG_HAS_CAP) & 0xF == length & 0xF,
        ((label << 16usize) | (length & 0xF) | FLAG_HAS_CAP) & FLAG_HAS_CAP != 0,
{
    assert(label <= (!0usize) >> 16usize ==> ((label << 16usize) | (length & 0xFusize)) >> 16usize == label) by (bit_vector);
    assert(((label << 16usize) | (length & 0xFusize)) & 0xFusize == length & 0xFusize) by (bit_vector);
    assert(((label << 16usize) | (length & 0xFusize)) & 16usize == 0) by (bit_vector);
    assert(label <= (!0usize) >> 16usize ==> ((label << 16usize) | (length & 0xFusize) | 16usize) >> 16usize == label) by (bit_vector);
    assert(((label << 16usize) | (length & 0xFusize) | 16usize) & 0xFusize == length & 0xFusize) by (bit_vector);
    assert(((label << 16usize) | (length & 0xFusize) | 16usize) & 16usize != 0) by (bit_vector);
}

} // verus!
