//! What is remembered of processed files between runs.
//!
//! The rows of the table are kept elsewhere; here is what they mean.

use vstd::prelude::*;

verus! {

/// The row for a path.
#[derive(Debug, Clone, Copy, PartialEq, Eq, Structural)]
pub struct StateRow {
    /// The modification time that the file had, as the table stores it.
    pub mtime: i64,
    /// When the row was written, as the table stores it.
    pub processed_at: i64,
}

/// A number of seconds as the table stores it: times after the range of `i64` wrap around.
pub open spec fn stored_time(secs: u64) -> int {
    if secs <= i64::MAX {
        secs as int
    } else {
        secs - 0x1_0000_0000_0000_0000
    }
}

fn store_time(secs: u64) -> (res: i64)
    ensures
        res == stored_time(secs),
{
    assert(secs <= 0x7fff_ffff_ffff_ffff ==> #[verifier::truncate] (secs as i64) == secs) by (bit_vector);
    assert(secs > 0x7fff_ffff_ffff_ffff ==> #[verifier::truncate] (secs as i64) == secs
        - 0x1_0000_0000_0000_0000) by (bit_vector);
    #[verifier::truncate]
    (secs as i64)
}

/// The table, a row for each path, holds the path with that modification time.
pub open spec fn knows(table: Map<Seq<char>, StateRow>, path: Seq<char>, mtime: u64) -> bool {
    table.dom().contains(path) && table[path].mtime == stored_time(mtime)
}

/// Whether a file with that modification time has been processed, given the modification time
/// stored for its path, if any.
pub fn is_current(stored: Option<i64>, mtime: u64) -> (res: bool)
    ensures
        res == (stored matches Some(t) && t == stored_time(mtime)),
{
    match stored {
        Some(t) => t == store_time(mtime),
        None => false,
    }
}

/// The row that records a file as processed at the time `now`. It takes the place of any earlier
/// row for the path.
pub fn record(mtime: u64, now: u64) -> (res: StateRow)
    ensures
        res.mtime == stored_time(mtime),
        res.processed_at == stored_time(now),
{
    StateRow { mtime: store_time(mtime), processed_at: store_time(now) }
}

/// A recorded file is known until its modification time changes, whatever was recorded before;
/// what is known of other files stays as it was.
pub proof fn law_recorded_until_changed(
    table: Map<Seq<char>, StateRow>,
    path: Seq<char>,
    row: StateRow,
    recorded: u64,
)
    requires
        row.mtime == stored_time(recorded),
    ensures
        forall|mtime: u64| knows(table.insert(path, row), path, mtime) <==> mtime == recorded,
        forall|other: Seq<char>, mtime: u64|
            other != path ==> (#[trigger] knows(table.insert(path, row), other, mtime) <==> knows(
                table,
                other,
                mtime,
            )),
{
}

/// A time is stored as the number of 64 bits with a sign that has the same bits: times that fit are
/// stored as they are, and no two times are stored alike.
pub proof fn law_times_are_stored_apart(a: u64, b: u64)
    ensures
        i64::MIN <= stored_time(a) <= i64::MAX,
        a <= i64::MAX ==> stored_time(a) == a,
        (stored_time(a) - a) % 0x1_0000_0000_0000_0000 == 0,
        stored_time(a) == stored_time(b) <==> a == b,
{
}

/// A file is current exactly if its path has a row with its modification time.
pub proof fn law_current_is_a_matching_row(
    table: Map<Seq<char>, StateRow>,
    path: Seq<char>,
    mtime: u64,
)
    requires
        mtime <= i64::MAX,
    ensures
        !table.dom().contains(path) ==> !knows(table, path, mtime),
        table.dom().contains(path) ==> (knows(table, path, mtime) <==> table[path].mtime == mtime),
{
}

} // verus!
