//! What is streamed to subscribers after a memtable is frozen.

use std::sync::Arc;
use vstd::prelude::*;

verus! {

/// Marks the last chunk of a stream.
pub const END_FRAME: u8 = 0x01;

/// Marks a chunk in the middle of a stream.
pub const ONGOING_FRAME: u8 = 0x02;

/// Marks the first chunk of a stream.
pub const BEGINNING_FRAME: u8 = 0x03;

/// When account updates are streamed.
pub enum SyncMode {
    ByMemtableFrozen,
}

pub struct Memtable {}

/// One chunk of streamed accounts: what kind of frame it is, and its bytes.
pub struct StreamedAccountsChunk<'a> {
    pub frame: u8,
    pub data: &'a [u8],
}

pub struct Synchronous {
    pub sync_mode: SyncMode,
    pub post_execution_cache: Arc<Memtable>,
}

/// The chunk that opens a stream: a first frame with a single zero byte.
pub open spec fn opening_chunk<'a>() -> StreamedAccountsChunk<'a> {
    StreamedAccountsChunk { frame: BEGINNING_FRAME, data: vstd::array::spec_array_as_slice(&[0u8]) }
}

impl<'a> From<&Memtable> for StreamedAccountsChunk<'a> {
    /// The chunk that opens the stream of a memtable.
    fn from(memtable: &Memtable) -> (chunk: Self) {
        StreamedAccountsChunk { frame: BEGINNING_FRAME, data: &[0u8] }
    }
}

impl<'a> vstd::std_specs::convert::FromSpecImpl<&Memtable> for StreamedAccountsChunk<'a> {
    open spec fn obeys_from_spec() -> bool {
        true
    }

    open spec fn from_spec(memtable: &Memtable) -> Self {
        opening_chunk()
    }
}

impl<'a> Default for StreamedAccountsChunk<'a> {
    fn default() -> (chunk: Self)
        ensures
            chunk == opening_chunk(),
            chunk.frame == BEGINNING_FRAME,
            chunk.data@ == seq![0u8],
    {
        let chunk = StreamedAccountsChunk { frame: BEGINNING_FRAME, data: &[0u8] };
        assert(chunk.data@ =~= seq![0u8]);
        chunk
    }
}

impl Synchronous {
    /// Streaming of what `memtable` holds, once it is frozen.
    pub fn new(memtable: Arc<Memtable>) -> (sync: Self)
        ensures
            sync.post_execution_cache == memtable,
            sync.sync_mode is ByMemtableFrozen,
    {
        Synchronous { sync_mode: SyncMode::ByMemtableFrozen, post_execution_cache: memtable }
    }
}

} // verus!
