use txlog::naming::wal_file_name;
use txlog::transaction::{Instruction, Signer, Transaction};
use txlog::wal::{RecoveredWindow, WriteAheadLog};

fn tx(timestamp: u64) -> Transaction {
    Transaction::new_with_timestamp(Signer::default(), [Instruction::default(); 5], timestamp)
}

fn window(seq_beginning: u64, seq_end: u64, stamps: &[u64]) -> RecoveredWindow {
    RecoveredWindow::new(seq_beginning, seq_end, stamps.iter().map(|t| Some(tx(*t))).collect())
}

#[test]
fn segments_are_picked_and_ordered_by_start() {
    let names = vec![
        wal_file_name(600, 900),
        "notes.txt".to_string(),
        wal_file_name(0, 300),
        "wal-1-2.log".to_string(),
        wal_file_name(300, 600),
        "wal-00000000000000000005-00000000000000000009.log.bak".to_string(),
    ];
    let found = WriteAheadLog::find_wal_files(&names).unwrap();
    let ranges: Vec<(u64, Option<u64>)> = found.iter().map(|f| (f.seq_start, f.seq_end)).collect();
    assert_eq!(ranges, vec![(0, Some(300)), (300, Some(600)), (600, Some(900))]);
    let file_names: Vec<&str> = found.iter().map(|f| f.filename.as_str()).collect();
    assert_eq!(file_names, vec![names[2].as_str(), names[4].as_str(), names[0].as_str()]);
}

#[test]
fn equal_starts_are_ordered_by_end() {
    let names = vec![wal_file_name(5, 9), wal_file_name(5, 7), wal_file_name(4, 100)];
    let found = WriteAheadLog::find_wal_files(&names).unwrap();
    let ranges: Vec<(u64, Option<u64>)> = found.iter().map(|f| (f.seq_start, f.seq_end)).collect();
    assert_eq!(ranges, vec![(4, Some(100)), (5, Some(7)), (5, Some(9))]);
}

#[test]
fn no_segment_in_the_listing_gives_nothing() {
    assert!(WriteAheadLog::find_wal_files(&Vec::new()).is_none());
    let names = vec!["wal-1-2.log".to_string(), "data.log".to_string()];
    assert!(WriteAheadLog::find_wal_files(&names).is_none());
}

#[test]
fn window_keeps_what_decoded_and_passes_over_the_rest() {
    let decoded = vec![Some(tx(1)), None, Some(tx(2)), None, None, Some(tx(3))];
    let w = RecoveredWindow::new(10, 20, decoded);
    assert_eq!(w.seq_beginning, 10);
    assert_eq!(w.seq_end, 20);
    let stamps: Vec<u64> = w.transactions.iter().map(|t| t.get_timestamp()).collect();
    assert_eq!(stamps, vec![1, 2, 3]);
    assert!(RecoveredWindow::new(1, 2, vec![None, None]).transactions.is_empty());
}

#[test]
fn empty_log_starts_at_zero() {
    let (wal, windows, next) = WriteAheadLog::recover("logs".to_string(), Vec::new());
    assert!(windows.is_none());
    assert_eq!(next, 0);
    assert_eq!(wal.folder(), "logs");
    assert!(!wal.initial());
}

#[test]
fn next_sequence_number_follows_the_greatest_end() {
    let replayed = vec![window(0, 300, &[1, 2]), window(300, 900, &[3]), window(900, 600, &[4])];
    let (wal, windows, next) = WriteAheadLog::recover("logs".to_string(), replayed);
    assert_eq!(next, 901);
    assert!(wal.initial());
    let windows = windows.unwrap();
    let ranges: Vec<(u64, u64, usize)> =
        windows.iter().map(|w| (w.seq_beginning, w.seq_end, w.transactions.len())).collect();
    assert_eq!(ranges, vec![(0, 300, 2), (300, 900, 1), (900, 600, 1)]);
}

#[test]
fn segment_without_transactions_counts_for_the_number_but_gives_no_window() {
    let replayed = vec![window(0, 300, &[1]), window(300, 700, &[]), window(700, 650, &[5, 6])];
    let (_, windows, next) = WriteAheadLog::recover("d".to_string(), replayed);
    assert_eq!(next, 701);
    let windows = windows.unwrap();
    assert_eq!(windows.len(), 2);
    assert_eq!(windows[0].seq_end, 300);
    assert_eq!(windows[1].seq_beginning, 700);

    let (wal, windows, next) = WriteAheadLog::recover("d".to_string(), vec![window(0, 41, &[])]);
    assert!(windows.is_none());
    assert_eq!(next, 42);
    assert!(!wal.initial());
}

#[test]
fn segment_that_ends_at_zero_moves_the_number_to_one() {
    let (_, windows, next) = WriteAheadLog::recover("d".to_string(), vec![window(0, 0, &[9])]);
    assert_eq!(next, 1);
    assert_eq!(windows.unwrap().len(), 1);
}
