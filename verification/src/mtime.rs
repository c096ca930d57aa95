//! The modification time of a processed file.

use vstd::prelude::*;

verus! {

/// How far the modification time of a processed file is moved, in seconds.
pub const MTIME_BUMP: u64 = 60;

/// The modification time of a processed file: a minute after the one it had, so that an indexer
/// takes the file for changed. Both are in seconds since the Unix epoch.
pub fn bump_mtime(original_mtime: u64) -> (res: u64)
    requires
        original_mtime <= u64::MAX - MTIME_BUMP,
    ensures
        res == original_mtime + 60,
{
    original_mtime + MTIME_BUMP
}

} // verus!
