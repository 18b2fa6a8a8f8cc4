//! Checkpoints: giving up a log segment once the storage engine holds what
//! the segment covers.

use crate::naming::{file_name, wal_file_name};
use vstd::prelude::*;

verus! {

/// What the storage engine can report to the log.
pub enum CheckPoint {
    /// A memtable that covers a whole window has been flushed.
    SequenceWindowMemtableFlushed,
}

pub struct CheckPointManager {}

impl CheckPointManager {
    /// The segment that is no longer needed once the range from
    /// `seq_beginning` to `seq_end` has been flushed: the one that the log
    /// wrote for exactly this range, by its file name. The caller deletes
    /// the file if it is there; that it is gone already is no error.
    pub fn sequence_window_memtable_flushed(seq_beginning: u64, seq_end: u64) -> (filename: String)
        ensures
            filename@ == file_name(seq_beginning, seq_end),
    {
        wal_file_name(seq_beginning, seq_end)
    }
}

} // verus!
