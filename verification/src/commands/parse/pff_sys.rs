//! The libpff entry kinds the PST reader asks for.

use vstd::prelude::*;

verus! {

/// An entry of a PST item.
pub enum LibPffEntryType {
    MessageTransportHeaders,
    AttachmentFilenameLong,
}

impl LibPffEntryType {
    /// The entry's number in the PST format.
    pub fn code(&self) -> (code: u32)
        ensures
            code == match *self {
                LibPffEntryType::MessageTransportHeaders => 0x007du32,
                LibPffEntryType::AttachmentFilenameLong => 0x3707u32,
            },
    {
        match self {
            LibPffEntryType::MessageTransportHeaders => 0x007d,
            LibPffEntryType::AttachmentFilenameLong => 0x3707,
        }
    }
}

/// Flags of an entry lookup.
pub enum LibPffEntryValueFlags {
    MatchAnyValueType,
}

impl LibPffEntryValueFlags {
    /// The flag's bits.
    pub fn code(&self) -> (code: u8)
        ensures
            code == 0x01,
    {
        match self {
            LibPffEntryValueFlags::MatchAnyValueType => 0x01,
        }
    }
}

} // verus!
