//! Decoding of the open-flag word a request carries into the access intent
//! an open or create performs: read and write per the access mode, append
//! and truncate per their own bits.

use vstd::prelude::*;

verus! {

/// The mask of the access-mode bits in an open-flag word.
pub const ACCESS_MODE_MASK: i32 = 3;

/// The access mode requesting reading only.
pub const ACCESS_READ_ONLY: i32 = 0;

/// The access mode requesting writing only.
pub const ACCESS_WRITE_ONLY: i32 = 1;

/// The access mode requesting reading and writing.
pub const ACCESS_READ_WRITE: i32 = 2;

/// The bit requesting append mode.
pub const APPEND_BIT: i32 = 1024;

/// The bit requesting truncation on open.
pub const TRUNCATE_BIT: i32 = 512;

/// The intent an open-flag word encodes.
#[derive(Clone, Copy, PartialEq, Eq, Structural, Debug)]
pub struct OpenIntent {
    pub read: bool,
    pub write: bool,
    pub append: bool,
    pub truncate: bool,
}

/// Whether the flag word's access mode requests reading.
pub open spec fn reads(flags: i32) -> bool {
    flags & ACCESS_MODE_MASK == ACCESS_READ_ONLY || flags & ACCESS_MODE_MASK == ACCESS_READ_WRITE
}

/// Whether the flag word's access mode requests writing.
pub open spec fn writes(flags: i32) -> bool {
    flags & ACCESS_MODE_MASK == ACCESS_WRITE_ONLY || flags & ACCESS_MODE_MASK == ACCESS_READ_WRITE
}

/// Decodes an open-flag word into the intent it encodes.
pub fn decode_flags(flags: i32) -> (r: OpenIntent)
    ensures
        r.read == reads(flags),
        r.write == writes(flags),
        r.append == (flags & APPEND_BIT != 0),
        r.truncate == (flags & TRUNCATE_BIT != 0),
{
    let mode = flags & ACCESS_MODE_MASK;
    OpenIntent {
        read: mode == ACCESS_READ_ONLY || mode == ACCESS_READ_WRITE,
        write: mode == ACCESS_WRITE_ONLY || mode == ACCESS_READ_WRITE,
        append: flags & APPEND_BIT != 0,
        truncate: flags & TRUNCATE_BIT != 0,
    }
}

} // verus!
