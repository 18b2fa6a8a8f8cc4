//! Transactions as the log sees them: a signer, a fixed number of
//! instructions of fixed size, and the time at which the transaction was
//! taken in.

use kanal::AsyncSender;
use std::time::{Duration, SystemTime, UNIX_EPOCH};
use tiny_keccak::{Hasher, Sha3};
use vstd::bytes::{spec_u64_to_le_bytes, u64_to_le_bytes};
use vstd::prelude::*;
use vstd::slice::slice_to_vec;

verus! {

/// The number of data bytes that an instruction carries.
pub const MAX_DATA_TRANSACTION_BYTES: usize = 1600;

/// The number of instructions in a transaction.
pub const MAX_INSTRUCTION_TRANSACTION: usize = 5;

/// The SHA3-256 digest of `data`, as `tiny_keccak::Sha3` computes it.
pub uninterp spec fn sha3_256(data: Seq<u8>) -> Seq<u8>;

/// The sending half of a `kanal` channel. Nothing is known of what it holds.
#[verifier::external_type_specification]
#[verifier::external_body]
#[verifier::reject_recursive_types(T)]
pub struct ExAsyncSender<T>(AsyncSender<T>);

/// The key of the account that signed a transaction.
#[derive(Copy, Clone, PartialEq, Debug)]
pub struct Signer([u8; 32]);

/// The digest that stands for what a transaction changes in storage.
#[derive(Copy, Clone, PartialEq, Debug)]
pub struct StorageDelta([u8; 32]);

/// One call of a contract on a storage account.
#[derive(Copy, Clone, PartialEq, Debug)]
pub struct Instruction {
    pub contract: [u8; 32],
    pub storage_account: [u8; 32],
    pub data: [u8; 1600],
}

/// A transaction with the time, in seconds since the Unix epoch, at which it
/// was taken in.
#[derive(Copy, Clone, PartialEq, Debug)]
pub struct Transaction {
    pub signer: Signer,
    pub itxs: [Instruction; 5],
    pub timestamp: u64,
}

/// A transaction as it comes from the network, before it has a timestamp.
#[derive(Copy, Clone, PartialEq, Debug)]
pub struct TransactionBody {
    pub signer: Signer,
    pub itxs: [Instruction; 5],
}

/// A transaction that waits in a window for its batch to be written, with
/// the sequence number it holds there and the channel on which its sender
/// hears that it is durable.
pub struct PendingTransaction {
    pub tx: Transaction,
    pub seq_num: u64,
    pub response_tx: AsyncSender<()>,
    pub closed: bool,
}

/// `n` bytes, all of them zero.
pub open spec fn zeros(n: nat) -> Seq<u8> {
    Seq::new(n, |i: int| 0u8)
}

impl View for Signer {
    type V = Seq<u8>;

    closed spec fn view(&self) -> Seq<u8> {
        self.0@
    }
}

impl View for StorageDelta {
    type V = Seq<u8>;

    closed spec fn view(&self) -> Seq<u8> {
        self.0@
    }
}

impl Instruction {
    /// Whether every byte of the instruction is zero.
    pub open spec fn is_zero(&self) -> bool {
        &&& self.contract@ == zeros(32)
        &&& self.storage_account@ == zeros(32)
        &&& self.data@ == zeros(1600)
    }
}

/// A reading of the machine's clock. Nothing is known of what it holds.
#[verifier::external_type_specification]
#[verifier::external_body]
pub struct ExSystemTime(SystemTime);

/// `SystemTime::now`: what the machine's clock says. Nothing is promised of
/// it.
pub assume_specification[ SystemTime::now ]() -> SystemTime;

/// `Duration::as_secs`: the whole seconds of a span of time. Nothing is
/// promised of it, as nothing is known of the span.
pub assume_specification[ Duration::as_secs ](span: &Duration) -> u64;

/// `SystemTime::duration_since` with the Unix epoch: the time that has
/// passed since the epoch, and nothing where the clock stands before it.
#[verifier::external_body]
fn since_epoch(time: &SystemTime) -> Option<Duration> {
    time.duration_since(UNIX_EPOCH).ok()
}

/// The clock's reading in whole seconds since the Unix epoch, and 0 where
/// the clock stands before the epoch.
fn unix_time() -> u64 {
    let now = SystemTime::now();
    match since_epoch(&now) {
        Some(span) => span.as_secs(),
        None => 0,
    }
}

/// `tiny_keccak::Sha3` with 256 bits: the digest of the bytes of `first`
/// followed by the bytes of `second`, fed to one hasher in two calls of
/// `update`. The contract only names the result; it is the same for the
/// same bytes.
#[verifier::external_body]
fn sha3_of(first: &[u8], second: &[u8]) -> (digest: [u8; 32])
    ensures
        digest@ == sha3_256(first@ + second@),
{
    let mut sha3 = Sha3::v256();
    sha3.update(first);
    sha3.update(second);
    let mut output = [0u8; 32];
    sha3.finalize(&mut output);
    output
}

impl PendingTransaction {
    /// A pending transaction that has not been acknowledged yet.
    pub fn new(tx: Transaction, seq_num: u64, response_tx: AsyncSender<()>) -> (pending:
        PendingTransaction)
        ensures
            pending == (PendingTransaction { tx, seq_num, response_tx, closed: false }),
    {
        PendingTransaction { seq_num, tx, response_tx, closed: false }
    }
}

impl Signer {
    pub fn new(bytes: [u8; 32]) -> (signer: Self)
        ensures
            signer@ == bytes@,
    {
        Self(bytes)
    }

    pub fn as_bytes(&self) -> (bytes: &[u8; 32])
        ensures
            bytes@ == self@,
    {
        &self.0
    }
}

impl StorageDelta {
    /// The thirty-two bytes of the digest.
    pub fn as_bytes(&self) -> (bytes: &[u8; 32])
        ensures
            bytes@ == self@,
    {
        &self.0
    }
}

impl Transaction {
    /// A transaction stamped with the current time.
    pub fn new(signer: Signer, itxs: [Instruction; 5]) -> (tx: Self)
        ensures
            tx.signer == signer,
            tx.itxs == itxs,
    {
        let timestamp = unix_time();
        Self::new_with_timestamp(signer, itxs, timestamp)
    }

    pub fn new_with_timestamp(signer: Signer, itxs: [Instruction; 5], timestamp: u64) -> (tx: Self)
        ensures
            tx == (Transaction { signer, itxs, timestamp }),
    {
        Self { signer, itxs, timestamp }
    }

    /// The transaction of `body`, stamped with the current time.
    pub fn from_body(body: TransactionBody) -> (tx: Self)
        ensures
            tx.signer == body.signer,
            tx.itxs == body.itxs,
    {
        let timestamp = unix_time();
        Self::from_body_with_timestamp(body, timestamp)
    }

    /// The transaction of `body`, stamped with `timestamp`.
    pub fn from_body_with_timestamp(body: TransactionBody, timestamp: u64) -> (tx: Self)
        ensures
            tx == (Transaction { signer: body.signer, itxs: body.itxs, timestamp }),
    {
        Self { signer: body.signer, itxs: body.itxs, timestamp }
    }

    pub fn get_timestamp(&self) -> (timestamp: u64)
        ensures
            timestamp == self.timestamp,
    {
        self.timestamp
    }

    /// Whether more than `seconds` seconds lie between the transaction's
    /// timestamp and `current_time`. A timestamp in the future is not older
    /// than anything.
    pub fn is_older_than_at(&self, current_time: u64, seconds: u64) -> (older: bool)
        ensures
            older == (current_time - self.timestamp > seconds),
    {
        current_time.saturating_sub(self.timestamp) > seconds
    }

    /// Whether the transaction was stamped more than `seconds` seconds before
    /// now. What now is, the clock decides; for every reading of it the
    /// answer is that of `is_older_than_at`, so it is `true` only where the
    /// timestamp and `seconds` together stay below the clock's range.
    pub fn is_older_than(&self, seconds: u64) -> (older: bool)
        ensures
            older ==> self.timestamp + seconds < u64::MAX,
    {
        let current_time = unix_time();
        self.is_older_than_at(current_time, seconds)
    }

    /// The digest of the first instruction's data followed by the timestamp
    /// in eight bytes, least significant first.
    pub fn storage_delta(&self) -> (delta: StorageDelta)
        ensures
            delta@ == sha3_256(self.itxs[0].data@ + spec_u64_to_le_bytes(self.timestamp)),
    {
        let timestamp_bytes = u64_to_le_bytes(self.timestamp);
        let output = sha3_of(self.itxs[0].data.as_slice(), timestamp_bytes.as_slice());
        StorageDelta(output)
    }
}

impl Default for Signer {
    fn default() -> (signer: Self)
        ensures
            signer@ == zeros(32),
    {
        Self([0u8; 32])
    }
}

impl Default for Instruction {
    fn default() -> (itx: Self)
        ensures
            itx.is_zero(),
    {
        let itx = Self { contract: [0u8; 32], storage_account: [0u8; 32], data: [0u8; 1600] };
        assert(itx.contract@ =~= zeros(32));
        assert(itx.storage_account@ =~= zeros(32));
        assert(itx.data@ =~= zeros(1600));
        itx
    }
}

impl Default for TransactionBody {
    fn default() -> (body: Self)
        ensures
            body.signer@ == zeros(32),
            forall|i: int| 0 <= i < 5 ==> (#[trigger] body.itxs[i]).is_zero(),
    {
        Self { signer: Signer::default(), itxs: [Instruction::default(); 5] }
    }
}

impl Default for Transaction {
    fn default() -> (tx: Self)
        ensures
            tx.signer@ == zeros(32),
            forall|i: int| 0 <= i < 5 ==> (#[trigger] tx.itxs[i]).is_zero(),
            tx.timestamp == 0,
    {
        Self { signer: Signer::default(), itxs: [Instruction::default(); 5], timestamp: 0 }
    }
}

} // verus!
