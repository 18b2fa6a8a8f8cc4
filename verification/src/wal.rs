//! The write-ahead log: which segments a directory holds, in which order
//! they are replayed, which windows the replay gives back, and with which
//! sequence number work goes on afterwards.

use crate::naming::{file_name, range_of, wal_file_name};
use crate::transaction::Transaction;
use vstd::prelude::*;
use vstd::seq_lib::{to_multiset_build, to_multiset_insert};

verus! {

/// A log segment: the sequence range it covers and the name of its file.
pub struct WalFile {
    pub seq_start: u64,
    pub seq_end: Option<u64>,
    pub filename: String,
}

/// The transactions that replaying one segment gave back, with the range
/// that the segment's name states.
pub struct RecoveredWindow {
    pub seq_beginning: u64,
    pub seq_end: u64,
    pub transactions: Vec<Transaction>,
}

/// The log kept in one directory.
pub struct WriteAheadLog {
    initial: bool,
    folder: String,
}

/// Whether range `a` comes before range `b`, or is `b`, in the order in
/// which segments are replayed: by start, and by end where the starts are
/// equal.
pub open spec fn precedes(a: (u64, u64), b: (u64, u64)) -> bool {
    a.0 < b.0 || (a.0 == b.0 && a.1 <= b.1)
}

/// Whether each range of `s` precedes all that follow it.
pub open spec fn ordered(s: Seq<(u64, u64)>) -> bool {
    forall|i: int, j: int| 0 <= i < j < s.len() ==> precedes(#[trigger] s[i], #[trigger] s[j])
}

/// The ranges of those of `names` that are names of segments, in the order
/// of `names`.
pub open spec fn ranges(names: Seq<String>) -> Seq<(u64, u64)>
    decreases names.len(),
{
    if names.len() == 0 {
        Seq::empty()
    } else {
        match range_of(names.last()@) {
            Some(range) => ranges(names.drop_last()).push(range),
            None => ranges(names.drop_last()),
        }
    }
}

/// The ranges that `files` cover, where each has an end.
pub open spec fn spans(files: Seq<WalFile>) -> Seq<(u64, u64)> {
    files.map_values(|f: WalFile| (f.seq_start, f.seq_end->0))
}

/// The entries of `s` that hold something, in order.
pub open spec fn present<T>(s: Seq<Option<T>>) -> Seq<T>
    decreases s.len(),
{
    if s.len() == 0 {
        Seq::empty()
    } else {
        match s.last() {
            Some(t) => present(s.drop_last()).push(t),
            None => present(s.drop_last()),
        }
    }
}

/// The windows of `replayed` that hold at least one transaction, in order.
pub open spec fn non_empty(replayed: Seq<RecoveredWindow>) -> Seq<RecoveredWindow>
    decreases replayed.len(),
{
    if replayed.len() == 0 {
        Seq::empty()
    } else if replayed.last().transactions@.len() > 0 {
        non_empty(replayed.drop_last()).push(replayed.last())
    } else {
        non_empty(replayed.drop_last())
    }
}

/// The greatest `seq_end` among `replayed`, and 0 where there is none.
pub open spec fn max_seq_end(replayed: Seq<RecoveredWindow>) -> u64
    decreases replayed.len(),
{
    if replayed.len() == 0 {
        0
    } else if replayed.last().seq_end > max_seq_end(replayed.drop_last()) {
        replayed.last().seq_end
    } else {
        max_seq_end(replayed.drop_last())
    }
}

/// The sequence number with which work goes on after a replay: one more
/// than the greatest `seq_end` of any segment, and 0 where there was no
/// segment at all.
pub open spec fn next_seq_num(replayed: Seq<RecoveredWindow>) -> int {
    if replayed.len() == 0 {
        0
    } else {
        max_seq_end(replayed) + 1
    }
}

impl WalFile {
    /// Whether the file has an end and is named for its range.
    pub open spec fn well_named(&self) -> bool {
        &&& self.seq_end is Some
        &&& self.filename@ == file_name(self.seq_start, self.seq_end->0)
    }

    /// The segment that covers `seq_start` to `seq_end`, under the name that
    /// belongs to this range.
    pub fn new(seq_start: u64, seq_end: u64) -> (file: WalFile)
        ensures
            file.seq_start == seq_start,
            file.seq_end == Some(seq_end),
            file.filename@ == file_name(seq_start, seq_end),
    {
        WalFile { seq_start, seq_end: Some(seq_end), filename: wal_file_name(seq_start, seq_end) }
    }
}

impl RecoveredWindow {
    /// The window of the segment named for `seq_beginning` and `seq_end`,
    /// from what its intact records decoded to: the transactions of those
    /// that did decode, in the order of the records. A record that did not
    /// decode is passed over.
    pub fn new(seq_beginning: u64, seq_end: u64, decoded: Vec<Option<Transaction>>) -> (window:
        RecoveredWindow)
        ensures
            window.seq_beginning == seq_beginning,
            window.seq_end == seq_end,
            window.transactions@ == present(decoded@),
    {
        let mut transactions: Vec<Transaction> = Vec::new();
        let mut i: usize = 0;
        while i < decoded.len()
            invariant
                i <= decoded.len(),
                transactions@ == present(decoded@.take(i as int)),
            decreases decoded.len() - i,
        {
            proof {
                assert(decoded@.take(i + 1).drop_last() == decoded@.take(i as int));
            }
            match decoded[i] {
                Some(transaction) => transactions.push(transaction),
                None => {},
            }
            i += 1;
        }
        proof {
            assert(decoded@.take(i as int) == decoded@);
        }
        RecoveredWindow { seq_beginning, seq_end, transactions }
    }
}

impl WriteAheadLog {
    /// The directory in which the log keeps its segments.
    pub closed spec fn folder_name(&self) -> Seq<char> {
        self.folder@
    }

    /// Whether the replay that opened the log gave back any window.
    pub closed spec fn found_windows(&self) -> bool {
        self.initial
    }

    pub fn folder(&self) -> (folder: &String)
        ensures
            folder@ == self.folder_name(),
    {
        &self.folder
    }

    pub fn initial(&self) -> (initial: bool)
        ensures
            initial == self.found_windows(),
    {
        self.initial
    }

    /// Picks the segments out of a directory listing and puts them in the
    /// order in which they are replayed.
    ///
    /// A name counts if it follows the naming pattern to the letter. The
    /// result holds one file for each such name, as often as the name occurs
    /// in the listing, ordered by the start of its range and by its end
    /// where starts are equal. Without any such name there is no result.
    pub fn find_wal_files(names: &Vec<String>) -> (found: Option<Vec<WalFile>>)
        ensures
            found is None <==> ranges(names@).len() == 0,
            found matches Some(files) ==> {
                &&& forall|i: int| 0 <= i < files@.len() ==> (#[trigger] files@[i]).well_named()
                &&& ordered(spans(files@))
                &&& spans(files@).to_multiset() == ranges(names@).to_multiset()
            },
    {
        let mut wal_files: Vec<WalFile> = Vec::new();
        let mut i: usize = 0;
        proof {
            assert(spans(wal_files@) == ranges(names@.take(0)));
        }
        while i < names.len()
            invariant
                i <= names.len(),
                forall|k: int| 0 <= k < wal_files@.len() ==> (#[trigger] wal_files@[k]).well_named(),
                ordered(spans(wal_files@)),
                spans(wal_files@).to_multiset() == ranges(names@.take(i as int)).to_multiset(),
                wal_files@.len() == ranges(names@.take(i as int)).len(),
            decreases names.len() - i,
        {
            proof {
                assert(names@.take(i + 1).drop_last() == names@.take(i as int));
            }
            if let Some((seq_start, seq_end)) = Self::extract_seq_range_from_path(names[i].as_str()) {
                let mut at: usize = 0;
                while at < wal_files.len() && (wal_files[at].seq_start < seq_start || (
                wal_files[at].seq_start == seq_start && wal_files[at].seq_end.unwrap() <= seq_end))
                    invariant
                        at <= wal_files.len(),
                        forall|k: int|
                            0 <= k < wal_files@.len() ==> (#[trigger] wal_files@[k]).well_named(),
                        forall|k: int|
                            0 <= k < at ==> precedes(
                                #[trigger] spans(wal_files@)[k],
                                (seq_start, seq_end),
                            ),
                    decreases wal_files.len() - at,
                {
                    at += 1;
                }
                let ghost before = wal_files@;
                let file = WalFile {
                    seq_start,
                    seq_end: Some(seq_end),
                    filename: names[i].clone(),
                };
                wal_files.insert(at, file);
                proof {
                    let range = (seq_start, seq_end);
                    assert(spans(wal_files@) == spans(before).insert(at as int, range));
                    to_multiset_insert(spans(before), at as int, range);
                    to_multiset_build(ranges(names@.take(i as int)), range);
                    assert forall|a: int, b: int|
                        0 <= a < b < spans(wal_files@).len() implies precedes(
                        #[trigger] spans(wal_files@)[a],
                        #[trigger] spans(wal_files@)[b],
                    ) by {
                        if a < at && b > at {
                            assert(precedes(spans(before)[a], spans(before)[b - 1]));
                        } else if a < at && b == at {
                            assert(precedes(spans(before)[a], range));
                        } else if a < at {
                            assert(precedes(spans(before)[a], spans(before)[b]));
                        } else if a == at {
                            assert(!precedes(spans(before)[at as int], range));
                            if b - 1 > at {
                                assert(precedes(spans(before)[at as int], spans(before)[b - 1]));
                            }
                        } else {
                            assert(precedes(spans(before)[a - 1], spans(before)[b - 1]));
                        }
                    }
                }
            }
            i += 1;
        }
        proof {
            assert(names@.take(i as int) == names@);
        }
        if wal_files.len() == 0 {
            None
        } else {
            Some(wal_files)
        }
    }

    /// Opens the log of `folder` from what replaying its segments gave.
    ///
    /// `replayed` holds one window for each segment of the directory, in the
    /// order of replay, also where a segment gave no transaction. The result
    /// is the log, the windows that hold a transaction (or nothing where
    /// none does), and the sequence number with which work goes on.
    pub fn recover(folder: String, replayed: Vec<RecoveredWindow>) -> (recovered: (
        Self,
        Option<Vec<RecoveredWindow>>,
        u64,
    ))
        requires
            forall|i: int| 0 <= i < replayed@.len() ==> (#[trigger] replayed@[i]).seq_end < u64::MAX,
        ensures
            recovered.0.folder_name() == folder@,
            recovered.0.found_windows() == (non_empty(replayed@).len() > 0),
            recovered.1 is None <==> non_empty(replayed@).len() == 0,
            recovered.1 matches Some(windows) ==> windows@ == non_empty(replayed@),
            recovered.2 == next_seq_num(replayed@),
    {
        let mut max_end: u64 = 0;
        let mut recovered_windows: Vec<RecoveredWindow> = Vec::new();
        let any_file = replayed.len() > 0;
        let ghost all = replayed@;
        for window in it: replayed.into_iter()
            invariant
                it.seq() == all,
                forall|i: int| 0 <= i < all.len() ==> (#[trigger] all[i]).seq_end < u64::MAX,
                recovered_windows@ == non_empty(all.take(it.index() as int)),
                max_end == max_seq_end(all.take(it.index() as int)),
                max_end < u64::MAX,
        {
            proof {
                assert(all.take(it.index() + 1).drop_last() == all.take(it.index() as int));
            }
            if window.seq_end > max_end {
                max_end = window.seq_end;
            }
            if window.transactions.len() > 0 {
                recovered_windows.push(window);
            }
        }
        proof {
            assert(all.take(all.len() as int) == all);
        }
        let next: u64 = if any_file {
            max_end + 1
        } else {
            0
        };
        let wal = Self { initial: recovered_windows.len() > 0, folder };
        let windows_result = if recovered_windows.len() == 0 {
            None
        } else {
            Some(recovered_windows)
        };
        (wal, windows_result, next)
    }
}

} // verus!
