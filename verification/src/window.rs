//! Windows: batches of pending transactions that are written and
//! acknowledged together.
//!
//! A window is open while it takes transactions in. The transaction that
//! finds it full closes it and stays outside: its sequence number becomes
//! the end of the window's range, and it goes back to whoever offered it,
//! to be offered to the next window. A closed window is written as one batch to the segment
//! named for its range. Once the batch is durable the window hands its
//! transactions out one by one, lowest sequence number first, for their
//! senders to be told; when none is left it is drained.
//!
//! Writing to disk and telling a sender are not done here. The owner of the
//! window does both, between the calls.

use crate::transaction::{PendingTransaction, Transaction};
use crate::wal::WalFile;
use crossbeam_skiplist::SkipMap;
use vstd::bytes::{spec_u64_to_le_bytes, u64_to_le_bytes};
use vstd::prelude::*;

verus! {

/// The number of transactions that a window takes in before it closes.
pub const DEFAULT_MIN_BATCH_SIZE: usize = 300;

/// A concurrent ordered map of `crossbeam_skiplist`. What it holds is stated
/// through `pending_entries`.
#[verifier::external_type_specification]
#[verifier::external_body]
#[verifier::reject_recursive_types(K)]
#[verifier::reject_recursive_types(V)]
pub struct ExSkipMap<K, V>(SkipMap<K, V>);

/// The entries that a map of pending transactions holds, by key.
pub uninterp spec fn pending_entries(map: SkipMap<u64, PendingTransaction>) -> Map<
    u64,
    PendingTransaction,
>;

/// Where a window stands in its life.
#[derive(Clone, Copy, PartialEq, Eq, Debug)]
pub enum WindowState {
    /// Transactions are taken in.
    Open,
    /// Full; the batch waits to be written.
    Closed,
    /// The batch is durable; transactions are handed out to be acknowledged.
    Acknowledging,
    /// Every transaction has been handed out.
    Drained,
}

/// What the owner of a closed window has to make durable: the segment to
/// write to, and the pending transactions in the order of their keys.
pub struct BatchWrite {
    pub file: WalFile,
    pub entries: Vec<(u64, Transaction)>,
}

pub struct WindowFormation {
    max_batch_size: usize,
    seq_beginning: u64,
    seq_end: Option<u64>,
    pending: SkipMap<u64, PendingTransaction>,
    state: WindowState,
}

/// Whether `key` is a key of `entries` and no key of `entries` is below it.
pub open spec fn is_least_key(entries: Map<u64, PendingTransaction>, key: u64) -> bool {
    &&& entries.dom().contains(key)
    &&& forall|other: u64| entries.dom().contains(other) ==> key <= other
}

/// The lowest key of `entries`, where it has one.
pub open spec fn least_key(entries: Map<u64, PendingTransaction>) -> u64 {
    choose|key: u64| is_least_key(entries, key)
}

/// Whether `listed` holds the key and the transaction of every entry of
/// `entries`, each once, in ascending order of the keys.
pub open spec fn lists(listed: Seq<(u64, Transaction)>, entries: Map<u64, PendingTransaction>) -> bool {
    &&& forall|i: int, j: int|
        0 <= i < j < listed.len() ==> (#[trigger] listed[i]).0 < (#[trigger] listed[j]).0
    &&& forall|i: int|
        0 <= i < listed.len() ==> entries.dom().contains((#[trigger] listed[i]).0)
            && entries[listed[i].0].tx == listed[i].1
    &&& forall|key: u64|
        entries.dom().contains(key) ==> exists|i: int|
            0 <= i < listed.len() && (#[trigger] listed[i]).0 == key
}

/// Whether `entries` are `count` entries, no more and no fewer.
pub open spec fn counts(entries: Map<u64, PendingTransaction>, count: nat) -> bool {
    entries.dom().finite() && entries.len() == count
}

/// `SkipMap::len`: the number of entries of the map.
#[verifier::external_body]
fn pending_len(map: &SkipMap<u64, PendingTransaction>) -> (count: usize)
    ensures
        counts(pending_entries(*map), count as nat),
{
    map.len()
}

/// `SkipMap::contains_key`: whether the map holds an entry under `key`.
#[verifier::external_body]
fn pending_contains(map: &SkipMap<u64, PendingTransaction>, key: u64) -> (held: bool)
    ensures
        held == pending_entries(*map).dom().contains(key),
{
    map.contains_key(&key)
}

/// `SkipMap::insert`: afterwards the map holds `value` under `key`, in place
/// of what it held there before, and its other entries as they were.
#[verifier::external_body]
fn pending_insert(map: &mut SkipMap<u64, PendingTransaction>, key: u64, value: PendingTransaction)
    ensures
        pending_entries(*final(map)) == pending_entries(*old(map)).insert(key, value),
{
    map.insert(key, value);
}

/// `SkipMap::pop_front`: takes the entry with the lowest key out of the map
/// and gives its key and a copy of its value; gives nothing, and leaves the
/// map as it is, where the map is empty.
#[verifier::external_body]
fn pending_pop_front(map: &mut SkipMap<u64, PendingTransaction>) -> (popped: Option<
    (u64, PendingTransaction),
>)
    ensures
        match popped {
            Some((key, value)) => {
                &&& is_least_key(pending_entries(*old(map)), key)
                &&& value == pending_entries(*old(map))[key]
                &&& pending_entries(*final(map)) == pending_entries(*old(map)).remove(key)
            },
            None => {
                &&& pending_entries(*old(map)).dom() =~= Set::<u64>::empty()
                &&& pending_entries(*final(map)) == pending_entries(*old(map))
            },
        },
{
    map.pop_front().map(
        |entry| {
            let held = entry.value();
            let value = PendingTransaction {
                tx: held.tx,
                seq_num: held.seq_num,
                response_tx: held.response_tx.clone(),
                closed: held.closed,
            };
            (*entry.key(), value)
        },
    )
}

/// `SkipMap::iter`: the key and the transaction of every entry of the map,
/// each once, in ascending order of the keys.
#[verifier::external_body]
fn pending_list(map: &SkipMap<u64, PendingTransaction>) -> (listed: Vec<(u64, Transaction)>)
    ensures
        lists(listed@, pending_entries(*map)),
{
    map.iter().map(|entry| (*entry.key(), entry.value().tx)).collect()
}

/// The key/value pair under which a transaction with sequence number
/// `seq_num` goes into a batch: the sequence number in eight bytes, least
/// significant first, and the transaction's encoding as it is.
pub fn batch_entry(seq_num: u64, payload: Vec<u8>) -> (entry: (Vec<u8>, Vec<u8>))
    ensures
        entry.0@ == spec_u64_to_le_bytes(seq_num),
        entry.1@ == payload@,
{
    (u64_to_le_bytes(seq_num), payload)
}

/// Every pending transaction is handed out once: the one that leaves is
/// gone from the window, the window is smaller by exactly that one, and all
/// that stay have higher sequence numbers, so they leave later and in
/// ascending order.
pub proof fn lemma_handed_out_once(entries: Map<u64, PendingTransaction>, key: u64)
    requires
        entries.dom().finite(),
        is_least_key(entries, key),
    ensures
        key == least_key(entries),
        !entries.remove(key).dom().contains(key),
        entries.remove(key).dom().finite(),
        entries.remove(key).len() == entries.len() - 1,
        forall|other: u64| entries.remove(key).dom().contains(other) ==> key < other,
        forall|other: u64|
            other != key ==> (entries.remove(key).dom().contains(other) <==> entries.dom().contains(
                other,
            )),
{
    assert(is_least_key(entries, least_key(entries)));
}

impl WindowFormation {
    /// The transactions that wait in the window, by sequence number.
    pub closed spec fn entries(&self) -> Map<u64, PendingTransaction> {
        pending_entries(self.pending)
    }

    /// Where the window stands in its life.
    pub closed spec fn state(&self) -> WindowState {
        self.state
    }

    /// The first sequence number of the window's range.
    pub closed spec fn seq_beginning(&self) -> u64 {
        self.seq_beginning
    }

    /// The end of the window's range, once the window is closed.
    pub closed spec fn seq_end(&self) -> Option<u64> {
        self.seq_end
    }

    /// The number of transactions that the window takes in.
    pub closed spec fn max_batch_size(&self) -> usize {
        self.max_batch_size
    }

    /// Whether the window would admit a transaction now: it is open and
    /// holds fewer transactions than it takes in.
    pub open spec fn admits(&self) -> bool {
        self.state() == WindowState::Open && self.entries().len() < self.max_batch_size()
    }

    /// Whether the window is in order: it has an end exactly when it is no
    /// longer open.
    pub closed spec fn wf(&self) -> bool {
        self.seq_end is None <==> self.state == WindowState::Open
    }

    /// An open window that starts at `seq_beginning` and keeps its
    /// transactions in `pending`.
    pub fn new(seq_beginning: u64, pending: SkipMap<u64, PendingTransaction>) -> (window: Self)
        ensures
            window.wf(),
            window.state() == WindowState::Open,
            window.seq_beginning() == seq_beginning,
            window.seq_end() is None,
            window.entries() == pending_entries(pending),
            window.max_batch_size() == DEFAULT_MIN_BATCH_SIZE,
    {
        Self {
            seq_beginning,
            seq_end: None,
            pending,
            max_batch_size: DEFAULT_MIN_BATCH_SIZE,
            state: WindowState::Open,
        }
    }

    /// Where the window stands in its life.
    pub fn current_state(&self) -> (state: WindowState)
        ensures
            state == self.state(),
    {
        self.state
    }

    /// The number of transactions that wait in the window.
    pub fn pending_count(&self) -> (count: usize)
        ensures
            self.entries().dom().finite(),
            count == self.entries().len(),
    {
        pending_len(&self.pending)
    }

    /// Whether the window would admit a transaction now.
    pub fn is_admitting(&self) -> (admitting: bool)
        ensures
            admitting == self.admits(),
    {
        let count = pending_len(&self.pending);
        match self.state {
            WindowState::Open => count < self.max_batch_size,
            _ => false,
        }
    }

    /// Whether a transaction waits in the window under `seq_num`.
    pub fn is_pending(&self, seq_num: u64) -> (held: bool)
        ensures
            held == self.entries().dom().contains(seq_num),
    {
        pending_contains(&self.pending, seq_num)
    }

    /// Offers a transaction to the window.
    ///
    /// An open window that holds fewer transactions than it takes in admits
    /// the transaction under its sequence number and stays open. An open
    /// window that is full closes: the transaction's sequence number becomes
    /// the end of the range, and the transaction is not admitted. A window
    /// that is no longer open admits nothing and changes nothing.
    ///
    /// The result is the state of the window after the call and, where the
    /// transaction was not admitted, the transaction itself: it is for the
    /// caller to open the next window and offer it there.
    ///
    /// A sequence number is admitted once only: a transaction whose number
    /// already waits in the window must not be offered while the window
    /// admits.
    pub fn add_transaction(&mut self, tx: PendingTransaction) -> (offered: (
        WindowState,
        Option<PendingTransaction>,
    ))
        requires
            old(self).wf(),
            old(self).admits() ==> !old(self).entries().dom().contains(tx.seq_num),
        ensures
            final(self).wf(),
            offered.0 == final(self).state(),
            final(self).seq_beginning() == old(self).seq_beginning(),
            final(self).max_batch_size() == old(self).max_batch_size(),
            final(self).entries().dom().finite(),
            old(self).admits() ==> {
                &&& offered.0 == WindowState::Open
                &&& offered.1 is None
                &&& final(self).seq_end() is None
                &&& final(self).entries() == old(self).entries().insert(tx.seq_num, tx)
                &&& final(self).entries().len() == old(self).entries().len() + 1
                &&& final(self).entries().len() <= final(self).max_batch_size()
            },
            old(self).state() == WindowState::Open && old(self).entries().len() >= old(
                self,
            ).max_batch_size() ==> {
                &&& offered.0 == WindowState::Closed
                &&& offered.1 == Some(tx)
                &&& final(self).seq_end() == Some(tx.seq_num)
                &&& final(self).entries() == old(self).entries()
            },
            old(self).state() != WindowState::Open ==> {
                &&& offered.0 == old(self).state()
                &&& offered.1 == Some(tx)
                &&& final(self).seq_end() == old(self).seq_end()
                &&& final(self).entries() == old(self).entries()
            },
    {
        let count = pending_len(&self.pending);
        match self.state {
            WindowState::Open => {
                if count >= self.max_batch_size {
                    self.seq_end = Some(tx.seq_num);
                    self.state = WindowState::Closed;
                    return (WindowState::Closed, Some(tx));
                }
                let ghost before = pending_entries(self.pending);
                pending_insert(&mut self.pending, tx.seq_num, tx);
                proof {
                    assert(pending_entries(self.pending).dom() =~= before.dom().insert(tx.seq_num));
                }
                (WindowState::Open, None)
            },
            WindowState::Closed => (WindowState::Closed, Some(tx)),
            WindowState::Acknowledging => (WindowState::Acknowledging, Some(tx)),
            WindowState::Drained => (WindowState::Drained, Some(tx)),
        }
    }

    /// What has to be made durable for a closed window: nothing where no
    /// transaction waits in it, and otherwise the segment named for the
    /// window's range with every pending transaction, lowest sequence number
    /// first. The window itself stays as it is; `written` moves it on once
    /// the batch is durable.
    pub fn write(&self) -> (batch: Option<BatchWrite>)
        requires
            self.wf(),
            self.state() == WindowState::Closed,
        ensures
            batch is None <==> self.entries().len() == 0,
            batch matches Some(b) ==> {
                &&& b.file.seq_start == self.seq_beginning()
                &&& b.file.seq_end == self.seq_end()
                &&& b.file.well_named()
                &&& lists(b.entries@, self.entries())
            },
    {
        if pending_len(&self.pending) == 0 {
            return None;
        }
        let seq_end = match self.seq_end {
            Some(seq_end) => seq_end,
            None => {
                return None;
            },
        };
        let file = WalFile::new(self.seq_beginning, seq_end);
        let entries = pending_list(&self.pending);
        Some(BatchWrite { file, entries })
    }

    /// Records that the batch of the closed window is durable. From now on
    /// its transactions may be acknowledged.
    pub fn written(&mut self)
        requires
            old(self).wf(),
            old(self).state() == WindowState::Closed,
        ensures
            final(self).wf(),
            final(self).state() == WindowState::Acknowledging,
            final(self).entries() == old(self).entries(),
            final(self).seq_beginning() == old(self).seq_beginning(),
            final(self).seq_end() == old(self).seq_end(),
            final(self).max_batch_size() == old(self).max_batch_size(),
    {
        self.state = WindowState::Acknowledging;
    }

    /// Takes the pending transaction with the lowest sequence number out of
    /// the window and hands it over, for its sender to be told that it is
    /// durable. Where none is left the window is drained.
    ///
    /// A transaction leaves the window in the very call that hands it over,
    /// so none is handed over twice and none leaves unseen.
    pub fn ack_batch(&mut self) -> (next: Option<PendingTransaction>)
        requires
            old(self).wf(),
            old(self).state() == WindowState::Acknowledging,
        ensures
            final(self).wf(),
            final(self).seq_beginning() == old(self).seq_beginning(),
            final(self).seq_end() == old(self).seq_end(),
            final(self).max_batch_size() == old(self).max_batch_size(),
            next is None <==> old(self).entries().dom() =~= Set::<u64>::empty(),
            match next {
                Some(pending) => {
                    &&& is_least_key(old(self).entries(), least_key(old(self).entries()))
                    &&& pending == old(self).entries()[least_key(old(self).entries())]
                    &&& final(self).entries() == old(self).entries().remove(
                        least_key(old(self).entries()),
                    )
                    &&& final(self).state() == WindowState::Acknowledging
                },
                None => {
                    &&& final(self).entries() == old(self).entries()
                    &&& final(self).state() == WindowState::Drained
                },
            },
    {
        match pending_pop_front(&mut self.pending) {
            Some((key, pending)) => {
                proof {
                    let entries = old(self).entries();
                    assert(is_least_key(entries, key));
                    assert(is_least_key(entries, least_key(entries)));
                    assert(least_key(entries) == key);
                }
                Some(pending)
            },
            None => {
                self.state = WindowState::Drained;
                None
            },
        }
    }
}

} // verus!
