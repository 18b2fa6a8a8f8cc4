//! Framing of key/value records in a log segment.
//!
//! A record is the key's length in two bytes, the key, the value's length in
//! two bytes, the value, and a CRC-32 of all of these in four bytes. Every
//! integer is written most significant byte first. A batch is the records
//! one after another, with nothing between them.

use crate::wal::WriteAheadLog;
use vstd::prelude::*;
use vstd::slice::{slice_subrange, slice_to_vec};

verus! {

/// The CRC-32 checksum of `data`, as `crc32fast::hash` computes it.
pub uninterp spec fn crc32(data: Seq<u8>) -> u32;

/// The two bytes of `n`, most significant first.
pub open spec fn be16(n: u16) -> Seq<u8> {
    seq![(n / 0x100) as u8, (n % 0x100) as u8]
}

/// The four bytes of `n`, most significant first.
pub open spec fn be32(n: u32) -> Seq<u8> {
    seq![
        (n / 0x100_0000) as u8,
        (n / 0x1_0000 % 0x100) as u8,
        (n / 0x100 % 0x100) as u8,
        (n % 0x100) as u8,
    ]
}

/// The number that two bytes stand for, most significant first.
pub open spec fn be16_value(hi: u8, lo: u8) -> int {
    hi * 0x100 + lo
}

/// The number that four bytes stand for, most significant first.
pub open spec fn be32_value(b0: u8, b1: u8, b2: u8, b3: u8) -> int {
    b0 * 0x100_0000 + b1 * 0x1_0000 + b2 * 0x100 + b3
}

/// What a length field holds for a key or value of `len` bytes: the length
/// itself up to 65535, and its low sixteen bits beyond that.
pub open spec fn length_field(len: nat) -> u16 {
    (len % 0x1_0000) as u16
}

/// The checksummed part of a record: both length fields, the key and the value.
pub open spec fn frame_body(key: Seq<u8>, value: Seq<u8>) -> Seq<u8> {
    be16(length_field(key.len())) + key + be16(length_field(value.len())) + value
}

/// A whole record: the checksummed part, then its checksum.
pub open spec fn frame(key: Seq<u8>, value: Seq<u8>) -> Seq<u8> {
    frame_body(key, value) + be32(crc32(frame_body(key, value)))
}

/// The records of `entries`, one after another.
pub open spec fn batch(entries: Seq<(Seq<u8>, Seq<u8>)>) -> Seq<u8>
    decreases entries.len(),
{
    if entries.len() == 0 {
        Seq::empty()
    } else {
        batch(entries.drop_last()) + frame(entries.last().0, entries.last().1)
    }
}

/// The key/value pairs that a slice of owned pairs holds.
pub open spec fn pairs(entries: Seq<(Vec<u8>, Vec<u8>)>) -> Seq<(Seq<u8>, Seq<u8>)> {
    entries.map_values(|e: (Vec<u8>, Vec<u8>)| (e.0@, e.1@))
}

/// `bytes::BufMut::put_u16` on a `Vec<u8>`: appends the two bytes of `n`,
/// most significant first, and leaves what was there untouched.
#[verifier::external_body]
fn put_u16(buf: &mut Vec<u8>, n: u16)
    ensures
        final(buf)@ == old(buf)@ + be16(n),
{
    bytes::BufMut::put_u16(buf, n)
}

/// `bytes::BufMut::put_u32` on a `Vec<u8>`: appends the four bytes of `n`,
/// most significant first, and leaves what was there untouched.
#[verifier::external_body]
fn put_u32(buf: &mut Vec<u8>, n: u32)
    ensures
        final(buf)@ == old(buf)@ + be32(n),
{
    bytes::BufMut::put_u32(buf, n)
}

/// `bytes::BufMut::put_slice` on a `Vec<u8>`: appends the bytes of `src` in
/// order, and leaves what was there untouched.
#[verifier::external_body]
fn put_slice(buf: &mut Vec<u8>, src: &[u8])
    ensures
        final(buf)@ == old(buf)@ + src@,
{
    bytes::BufMut::put_slice(buf, src)
}

/// `crc32fast::hash`: the CRC-32 of the bytes of `data`. The contract only
/// names the result; it is the same for the same bytes.
#[verifier::external_body]
fn checksum(data: &[u8]) -> (crc: u32)
    ensures
        crc == crc32(data@),
{
    crc32fast::hash(data)
}

/// Frames one key/value pair as a record.
pub fn encode_record(key: &[u8], value: &[u8]) -> (out: Vec<u8>)
    ensures
        out@ == frame(key@, value@),
{
    let key_len: u16 = (key.len() % 0x1_0000) as u16;
    let value_len: u16 = (value.len() % 0x1_0000) as u16;
    let mut entry_buf: Vec<u8> = Vec::new();
    put_u16(&mut entry_buf, key_len);
    put_slice(&mut entry_buf, key);
    put_u16(&mut entry_buf, value_len);
    put_slice(&mut entry_buf, value);
    let crc: u32 = checksum(entry_buf.as_slice());
    put_u32(&mut entry_buf, crc);
    entry_buf
}

/// Frames every pair of `entries`, in order, into one buffer.
pub fn encode_batch(entries: &[(Vec<u8>, Vec<u8>)]) -> (out: Vec<u8>)
    ensures
        out@ == batch(pairs(entries@)),
{
    let mut batch_buf: Vec<u8> = Vec::new();
    let mut i: usize = 0;
    while i < entries.len()
        invariant
            i <= entries.len(),
            batch_buf@ == batch(pairs(entries@).take(i as int)),
        decreases entries.len() - i,
    {
        let entry_buf = encode_record(entries[i].0.as_slice(), entries[i].1.as_slice());
        put_slice(&mut batch_buf, entry_buf.as_slice());
        proof {
            let p = pairs(entries@);
            assert(p.take(i + 1).drop_last() == p.take(i as int));
            assert(p.take(i + 1).last() == p[i as int]);
        }
        i += 1;
    }
    proof {
        assert(pairs(entries@).take(i as int) == pairs(entries@));
    }
    batch_buf
}

/// The length of the key of the record at the start of `buf`, as its first
/// two bytes give it.
pub open spec fn first_key_len(buf: Seq<u8>) -> int
    recommends
        buf.len() >= 2,
{
    be16_value(buf[0], buf[1])
}

/// The length of the value of the record at the start of `buf`, as the two
/// bytes behind the key give it.
pub open spec fn first_value_len(buf: Seq<u8>) -> int
    recommends
        buf.len() >= 4 + first_key_len(buf),
{
    be16_value(buf[2 + first_key_len(buf)], buf[3 + first_key_len(buf)])
}

/// The length of the record at the start of `buf`, checksum included, if `buf`
/// is long enough to hold all of it; `None` where `buf` ends before a length
/// field, the key, the value or the checksum is complete.
pub open spec fn first_frame_len(buf: Seq<u8>) -> Option<int> {
    if buf.len() < 2 {
        None
    } else if buf.len() < 4 + first_key_len(buf) {
        None
    } else if buf.len() < 8 + first_key_len(buf) + first_value_len(buf) {
        None
    } else {
        Some(8 + first_key_len(buf) + first_value_len(buf))
    }
}

/// The key of the record at the start of `buf`.
pub open spec fn first_key(buf: Seq<u8>) -> Seq<u8> {
    buf.subrange(2, 2 + first_key_len(buf))
}

/// The value of the record at the start of `buf`.
pub open spec fn first_value(buf: Seq<u8>) -> Seq<u8> {
    buf.subrange(4 + first_key_len(buf), 4 + first_key_len(buf) + first_value_len(buf))
}

/// Whether the checksum stored with the record at the start of `buf` is the
/// checksum of the bytes before it.
pub open spec fn first_intact(buf: Seq<u8>) -> bool {
    let n = 4 + first_key_len(buf) + first_value_len(buf);
    be32_value(buf[n], buf[n + 1], buf[n + 2], buf[n + 3]) == crc32(buf.subrange(0, n))
}

/// The key/value pairs that replaying `buf` yields.
///
/// Records are read one after another from the start. A record whose
/// checksum does not match is left out and reading goes on behind it. Reading
/// stops where the rest of `buf` is too short to hold a whole record.
pub open spec fn scan(buf: Seq<u8>) -> Seq<(Seq<u8>, Seq<u8>)>
    decreases buf.len(),
{
    match first_frame_len(buf) {
        None => Seq::empty(),
        Some(n) => {
            let rest = scan(buf.skip(n));
            if first_intact(buf) {
                seq![(first_key(buf), first_value(buf))] + rest
            } else {
                rest
            }
        },
    }
}

/// The lengths of the key and of the value of the record that starts at
/// `pos`, if the buffer holds the whole record.
fn frame_at(buffer: &[u8], pos: usize) -> (r: Option<(usize, usize)>)
    requires
        pos <= buffer.len(),
    ensures
        match r {
            Some((key_len, value_len)) => {
                &&& first_frame_len(buffer@.skip(pos as int)) == Some(8 + key_len + value_len)
                &&& key_len == first_key_len(buffer@.skip(pos as int))
                &&& value_len == first_value_len(buffer@.skip(pos as int))
                &&& key_len <= 0xffff
                &&& value_len <= 0xffff
                &&& pos + 8 + key_len + value_len <= buffer.len()
            },
            None => first_frame_len(buffer@.skip(pos as int)) is None,
        },
{
    let left: usize = buffer.len() - pos;
    if left < 2 {
        return None;
    }
    let key_len: usize = buffer[pos] as usize * 0x100 + buffer[pos + 1] as usize;
    if left - 2 < key_len {
        return None;
    }
    if left - 2 - key_len < 2 {
        return None;
    }
    let value_len: usize = buffer[pos + 2 + key_len] as usize * 0x100 + buffer[pos + 3
        + key_len] as usize;
    if left - 4 - key_len < value_len {
        return None;
    }
    if left - 4 - key_len - value_len < 4 {
        return None;
    }
    Some((key_len, value_len))
}

impl WriteAheadLog {
    /// Replays the content of one log segment: the key and value of every whole
    /// record whose checksum matches, in the order in which they were written.
    ///
    /// A record with a wrong checksum is skipped. A tail too short to be a
    /// record ends the replay, and what was read before it stands.
    pub fn recover_from_file(buffer: &[u8]) -> (records: Vec<(Vec<u8>, Vec<u8>)>)
        ensures
            pairs(records@) == scan(buffer@),
    {
        let mut records: Vec<(Vec<u8>, Vec<u8>)> = Vec::new();
        let mut pos: usize = 0;
        proof {
            assert(buffer@.skip(0) == buffer@);
            assert(pairs(records@) + scan(buffer@) == scan(buffer@));
        }
        loop
            invariant
                pos <= buffer.len(),
                pairs(records@) + scan(buffer@.skip(pos as int)) == scan(buffer@),
            decreases buffer.len() - pos,
        {
            let ghost here = buffer@.skip(pos as int);
            match frame_at(buffer, pos) {
                None => {
                    return records;
                },
                Some((key_len, value_len)) => {
                    let data_end: usize = pos + 4 + key_len + value_len;
                    let stored_crc: u32 = buffer[data_end] as u32 * 0x100_0000 + buffer[data_end
                        + 1] as u32 * 0x1_0000 + buffer[data_end + 2] as u32 * 0x100
                        + buffer[data_end + 3] as u32;
                    let computed_crc: u32 = checksum(slice_subrange(buffer, pos, data_end));
                    proof {
                        assert(buffer@.subrange(pos as int, data_end as int) == here.subrange(
                            0,
                            4 + key_len + value_len,
                        ));
                        assert(buffer@.skip(data_end + 4) == here.skip(8 + key_len + value_len));
                    }
                    if stored_crc == computed_crc {
                        let key = slice_to_vec(slice_subrange(buffer, pos + 2, pos + 2 + key_len));
                        let value = slice_to_vec(
                            slice_subrange(buffer, pos + 4 + key_len, data_end),
                        );
                        let ghost before = pairs(records@);
                        records.push((key, value));
                        proof {
                            assert(key@ == first_key(here));
                            assert(value@ == first_value(here));
                            assert(pairs(records@) == before + seq![(key@, value@)]);
                        }
                    }
                    pos = data_end + 4;
                },
            }
        }
    }
}

/// Whether the key and the value of `entry` are short enough for their
/// lengths to be written in two bytes each.
pub open spec fn fits(entry: (Seq<u8>, Seq<u8>)) -> bool {
    entry.0.len() <= 0xffff && entry.1.len() <= 0xffff
}

/// How a buffer reads that starts with the checksummed part of a record and
/// some stored checksum.
proof fn lemma_first_frame(key: Seq<u8>, value: Seq<u8>, stored: u32, rest: Seq<u8>)
    requires
        fits((key, value)),
    ensures
        ({
            let buf = frame_body(key, value) + be32(stored) + rest;
            &&& first_frame_len(buf) == Some(8 + key.len() as int + value.len() as int)
            &&& first_key(buf) == key
            &&& first_value(buf) == value
            &&& first_intact(buf) == (stored == crc32(frame_body(key, value)))
            &&& buf.skip(8 + key.len() as int + value.len() as int) == rest
        }),
{
    let body = frame_body(key, value);
    let buf = body + be32(stored) + rest;
    let k = key.len() as int;
    let v = value.len() as int;
    assert(body.len() == 4 + k + v);
    assert(buf[0] == be16(length_field(key.len()))[0]);
    assert(buf[1] == be16(length_field(key.len()))[1]);
    assert(first_key_len(buf) == k);
    assert(buf[2 + k] == be16(length_field(value.len()))[0]);
    assert(buf[3 + k] == be16(length_field(value.len()))[1]);
    assert(first_value_len(buf) == v);
    assert(buf.subrange(2, 2 + k) == key);
    assert(buf.subrange(4 + k, 4 + k + v) == value);
    assert(buf.subrange(0, 4 + k + v) == body);
    let n = 4 + k + v;
    assert(buf[n] == be32(stored)[0]);
    assert(buf[n + 1] == be32(stored)[1]);
    assert(buf[n + 2] == be32(stored)[2]);
    assert(buf[n + 3] == be32(stored)[3]);
    assert(be32_value(buf[n], buf[n + 1], buf[n + 2], buf[n + 3]) == stored);
    assert(buf.skip(8 + k + v) == rest);
}

/// Replaying a batch followed by anything yields the batch's pairs, then what
/// replaying the rest yields.
pub proof fn lemma_replay_batch_then(entries: Seq<(Seq<u8>, Seq<u8>)>, rest: Seq<u8>)
    requires
        forall|i: int| 0 <= i < entries.len() ==> fits(#[trigger] entries[i]),
    ensures
        scan(batch(entries) + rest) == entries + scan(rest),
    decreases entries.len(),
{
    if entries.len() == 0 {
        assert(batch(entries) + rest == rest);
        assert(entries + scan(rest) == scan(rest));
    } else {
        let init = entries.drop_last();
        let last = entries.last();
        let tail = frame(last.0, last.1) + rest;
        assert(batch(entries) + rest == batch(init) + tail);
        lemma_replay_batch_then(init, tail);
        lemma_first_frame(last.0, last.1, crc32(frame_body(last.0, last.1)), rest);
        assert(scan(tail) == seq![last] + scan(rest));
        assert(init + (seq![last] + scan(rest)) == entries + scan(rest));
    }
}

/// Replaying what was written gives back what was written: for every batch
/// whose keys and values fit their length fields, replaying its bytes yields
/// exactly its pairs, in order.
pub proof fn lemma_replay_round_trip(entries: Seq<(Seq<u8>, Seq<u8>)>)
    requires
        forall|i: int| 0 <= i < entries.len() ==> fits(#[trigger] entries[i]),
    ensures
        scan(batch(entries)) == entries,
{
    lemma_replay_batch_then(entries, Seq::empty());
    assert(batch(entries) + Seq::<u8>::empty() == batch(entries));
    assert(scan(Seq::<u8>::empty()) == Seq::<(Seq<u8>, Seq<u8>)>::empty());
    assert(entries + Seq::<(Seq<u8>, Seq<u8>)>::empty() == entries);
}

/// A record whose key or value bytes were altered after it was written, with
/// lengths and stored checksum left as they were, is dropped by the replay
/// whenever the checksum of the altered bytes differs from the stored one,
/// and the records before and behind it are replayed as if it were not there.
pub proof fn lemma_replay_drops_altered_record(
    before: Seq<(Seq<u8>, Seq<u8>)>,
    written: (Seq<u8>, Seq<u8>),
    altered: (Seq<u8>, Seq<u8>),
    after: Seq<(Seq<u8>, Seq<u8>)>,
)
    requires
        forall|i: int| 0 <= i < before.len() ==> fits(#[trigger] before[i]),
        forall|i: int| 0 <= i < after.len() ==> fits(#[trigger] after[i]),
        fits(written),
        altered.0.len() == written.0.len(),
        altered.1.len() == written.1.len(),
        crc32(frame_body(altered.0, altered.1)) != crc32(frame_body(written.0, written.1)),
    ensures
        scan(
            batch(before) + (frame_body(altered.0, altered.1) + be32(
                crc32(frame_body(written.0, written.1)),
            )) + batch(after),
        ) == before + after,
{
    let stored = crc32(frame_body(written.0, written.1));
    let damaged = frame_body(altered.0, altered.1) + be32(stored);
    let tail = damaged + batch(after);
    assert(batch(before) + damaged + batch(after) == batch(before) + tail);
    lemma_replay_batch_then(before, tail);
    lemma_first_frame(altered.0, altered.1, stored, batch(after));
    assert(scan(tail) == scan(batch(after)));
    lemma_replay_round_trip(after);
}

/// A record cut short at the end of a segment ends the replay without harm:
/// every record written before it is replayed, and nothing else.
pub proof fn lemma_replay_ignores_cut_tail(
    entries: Seq<(Seq<u8>, Seq<u8>)>,
    last: (Seq<u8>, Seq<u8>),
    kept: int,
)
    requires
        forall|i: int| 0 <= i < entries.len() ==> fits(#[trigger] entries[i]),
        fits(last),
        0 <= kept < frame(last.0, last.1).len(),
    ensures
        scan(batch(entries) + frame(last.0, last.1).take(kept)) == entries,
{
    let whole = frame(last.0, last.1);
    let cut = whole.take(kept);
    let k = last.0.len() as int;
    let v = last.1.len() as int;
    lemma_first_frame(last.0, last.1, crc32(frame_body(last.0, last.1)), Seq::empty());
    assert(whole + Seq::<u8>::empty() == whole);
    assert(whole.len() == 8 + k + v);
    if kept >= 2 {
        assert(cut[0] == whole[0] && cut[1] == whole[1]);
        if kept >= 4 + k {
            assert(cut[2 + k] == whole[2 + k] && cut[3 + k] == whole[3 + k]);
        }
    }
    assert(first_frame_len(cut) is None);
    lemma_replay_batch_then(entries, cut);
    assert(entries + Seq::<(Seq<u8>, Seq<u8>)>::empty() == entries);
}

} // verus!
