//! Metadata core of a block-based filesystem: the on-disk superblock, the
//! inode table, and the free-space bitmaps that track which inodes and data
//! blocks are in use. The binary layout of each record and the allocation
//! invariants are stated as contracts and proved.

use vstd::prelude::*;

pub mod bitmaps;
pub mod codec;
pub mod error;
pub mod image;
pub mod inode;
pub mod superblock;

verus! {

use crate::error::FsError;

/// Entry point for a front end driving this core. All work of this crate is
/// done through the record and allocator types; opening a backing store and
/// drawing a banner belong to the front end.
pub fn run() -> (r: Result<(), FsError>)
    ensures
        r == Ok::<(), FsError>(()),
{
    Ok(())
}

} // verus!
