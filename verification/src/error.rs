//! Typed error values surfaced by the metadata core. None are silently
//! swallowed: every fallible operation reports exactly one of these kinds.

use vstd::prelude::*;

verus! {

/// The error kinds of the metadata core.
///
/// - `OutOfBounds`: an identifier outside a bitmap's capacity (a caller error,
///   never silent corruption of adjacent words).
/// - `Decode`: bytes at an offset do not deserialize into the expected record,
///   including a truncated backing store or an unrecognized file-type tag.
/// - `Format`: the superblock magic or version check failed; the image must
///   not be trusted.
/// - `Io`: a backing-store read or write could not be performed. The verified
///   core raises it only when a write does not fit the store; a front end
///   maps its own open/read/write failures to this kind.
/// - `Exhausted`: no free inode or block identifier is available ("disk
///   full"), distinguishable from structural corruption.
#[derive(Clone, Copy, Debug, PartialEq, Eq, Structural)]
pub enum FsError {
    OutOfBounds,
    Decode,
    Format,
    Io,
    Exhausted,
}

impl FsError {
    /// A short human-readable name for the error kind.
    pub fn describe(&self) -> (r: &'static str) {
        match self {
            FsError::OutOfBounds => "identifier out of bounds",
            FsError::Decode => "record failed to decode",
            FsError::Format => "superblock magic/version check failed",
            FsError::Io => "backing store failure",
            FsError::Exhausted => "no free identifier available",
        }
    }
}

} // verus!
