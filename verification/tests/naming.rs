use txlog::checkpoint::CheckPointManager;
use txlog::naming::wal_file_name;
use txlog::wal::{WalFile, WriteAheadLog};

#[test]
fn names_are_zero_padded_to_twenty_digits() {
    assert_eq!(wal_file_name(0, 0), "wal-00000000000000000000-00000000000000000000.log");
    assert_eq!(wal_file_name(1, 3000), "wal-00000000000000000001-00000000000000003000.log");
    assert_eq!(
        wal_file_name(u64::MAX, 1234567890),
        "wal-18446744073709551615-00000000001234567890.log"
    );
    assert_eq!(wal_file_name(7, 42), format!("wal-{:020}-{:020}.log", 7, 42));
}

#[test]
fn reading_a_name_gives_its_range() {
    for (a, b) in [(0u64, 0u64), (1, 3000), (u64::MAX, u64::MAX), (300, 299), (10, 1 << 40)] {
        assert_eq!(WriteAheadLog::extract_seq_range_from_path(&wal_file_name(a, b)), Some((a, b)));
    }
    assert_eq!(
        WriteAheadLog::extract_seq_range_from_path("wal-00000000000000000005-00000000000000000009.log"),
        Some((5, 9))
    );
}

#[test]
fn names_off_the_pattern_are_not_segments() {
    for name in [
        "",
        "wal-1-2.log",
        "wal-00000000000000000005-00000000000000000009.lo",
        "wal-00000000000000000005-00000000000000000009.log ",
        "wal-00000000000000000005-00000000000000000009.txt",
        "Wal-00000000000000000005-00000000000000000009.log",
        "wal_00000000000000000005-00000000000000000009.log",
        "wal-00000000000000000005_00000000000000000009.log",
        "wal-0000000000000000000a-00000000000000000009.log",
        "wal-+0000000000000000005-00000000000000000009.log",
        "wal-00000000000000000005-0000000000000000000 .log",
        "wal-18446744073709551616-00000000000000000009.log",
        "wal-00000000000000000005-99999999999999999999.log",
        "wal-0000000000000000000\u{663}-00000000000000000009.log",
        "w\u{e4}l-00000000000000000005-0000000000000000009.log",
    ] {
        assert_eq!(WriteAheadLog::extract_seq_range_from_path(name), None, "{}", name);
    }
}

#[test]
fn writer_and_checkpoint_agree_on_the_name() {
    let file = WalFile::new(300, 600);
    assert_eq!(file.seq_start, 300);
    assert_eq!(file.seq_end, Some(600));
    assert_eq!(file.filename, "wal-00000000000000000300-00000000000000000600.log");
    assert_eq!(CheckPointManager::sequence_window_memtable_flushed(300, 600), file.filename);
    assert_ne!(CheckPointManager::sequence_window_memtable_flushed(300, 601), file.filename);
}
