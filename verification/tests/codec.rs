use txlog::codec::{encode_batch, encode_record};
use txlog::wal::WriteAheadLog;

fn sample(n: usize) -> Vec<(Vec<u8>, Vec<u8>)> {
    (0..n)
        .map(|i| {
            let key = (i as u64).to_le_bytes().to_vec();
            let value = vec![(i % 251) as u8; i % 7];
            (key, value)
        })
        .collect()
}

#[test]
fn empty_record_has_known_checksum() {
    // CRC-32 of four zero bytes is 0x2144DF1C.
    assert_eq!(encode_record(&[], &[]), vec![0, 0, 0, 0, 0x21, 0x44, 0xdf, 0x1c]);
}

#[test]
fn record_layout_is_lengths_key_value_checksum() {
    let record = encode_record(b"a", b"bc");
    assert_eq!(&record[..7], &[0, 1, b'a', 0, 2, b'b', b'c']);
    let crc = crc32fast::hash(&record[..7]);
    assert_eq!(&record[7..], &crc.to_be_bytes());
    assert_eq!(record.len(), 11);
}

#[test]
fn lengths_are_big_endian() {
    let key = vec![1u8; 0x0102];
    let value = vec![2u8; 0x0304];
    let record = encode_record(&key, &value);
    assert_eq!(&record[..2], &[0x01, 0x02]);
    assert_eq!(&record[2 + 0x0102..4 + 0x0102], &[0x03, 0x04]);
    assert_eq!(record.len(), 8 + 0x0102 + 0x0304);
}

#[test]
fn oversized_key_keeps_low_bits_of_its_length() {
    let key = vec![9u8; 0x1_0001];
    let record = encode_record(&key, b"v");
    assert_eq!(&record[..2], &[0, 1]);
    assert_eq!(record.len(), 8 + 0x1_0001 + 1);
}

#[test]
fn batch_is_records_one_after_another() {
    let entries = vec![(b"k1".to_vec(), b"v1".to_vec()), (b"k2".to_vec(), Vec::new())];
    let mut expected = encode_record(b"k1", b"v1");
    expected.extend(encode_record(b"k2", b""));
    assert_eq!(encode_batch(&entries), expected);
    assert_eq!(encode_batch(&[]), Vec::<u8>::new());
}

#[test]
fn replay_gives_back_what_was_written() {
    let entries = sample(50);
    assert_eq!(WriteAheadLog::recover_from_file(&encode_batch(&entries)), entries);
    assert_eq!(WriteAheadLog::recover_from_file(&[]), Vec::new());
}

#[test]
fn longest_key_and_value_survive_the_round_trip() {
    let entries = vec![(vec![3u8; 0xffff], vec![4u8; 0xffff]), (vec![], vec![5u8])];
    assert_eq!(WriteAheadLog::recover_from_file(&encode_batch(&entries)), entries);
}

#[test]
fn flipped_byte_drops_only_its_record() {
    let entries = vec![
        (b"first".to_vec(), b"one".to_vec()),
        (b"second".to_vec(), b"two".to_vec()),
        (b"third".to_vec(), b"three".to_vec()),
    ];
    let first_len = encode_record(b"first", b"one").len();
    let second_len = encode_record(b"second", b"two").len();
    // Every byte of the second record's key and value, one at a time.
    let key_at = first_len + 2;
    let value_at = first_len + 2 + 6 + 2;
    for at in (key_at..key_at + 6).chain(value_at..value_at + 3) {
        let mut bytes = encode_batch(&entries);
        bytes[at] ^= 0x40;
        let replayed = WriteAheadLog::recover_from_file(&bytes);
        assert_eq!(replayed, vec![entries[0].clone(), entries[2].clone()]);
    }
    assert_eq!(first_len + second_len, 16 + 17);
}

#[test]
fn wrong_checksum_drops_the_record() {
    let mut bytes = encode_record(b"k", b"v");
    let last = bytes.len() - 1;
    bytes[last] ^= 1;
    bytes.extend(encode_record(b"next", b"kept"));
    assert_eq!(WriteAheadLog::recover_from_file(&bytes), vec![(b"next".to_vec(), b"kept".to_vec())]);
}

#[test]
fn cut_tail_ends_the_replay_and_keeps_what_came_before() {
    let entries = sample(5);
    let whole = encode_batch(&entries);
    let tail = encode_record(b"partial", b"write");
    for kept in 0..tail.len() {
        let mut bytes = whole.clone();
        bytes.extend_from_slice(&tail[..kept]);
        assert_eq!(WriteAheadLog::recover_from_file(&bytes), entries);
    }
    let mut bytes = whole.clone();
    bytes.extend_from_slice(&tail);
    assert_eq!(WriteAheadLog::recover_from_file(&bytes).len(), 6);
}

#[test]
fn three_thousand_records_replayed_and_unflushed_batch_absent() {
    let entries = sample(3000);
    let mut bytes = encode_batch(&entries);
    let fourth = encode_batch(&sample(1));
    bytes.extend_from_slice(&fourth[..fourth.len() - 1]);
    let replayed = WriteAheadLog::recover_from_file(&bytes);
    assert_eq!(replayed.len(), 3000);
    assert_eq!(replayed, entries);
}
