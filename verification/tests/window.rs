use crossbeam_skiplist::SkipMap;
use kanal::AsyncReceiver;
use txlog::transaction::{Instruction, PendingTransaction, Signer, Transaction};
use txlog::window::{batch_entry, WindowFormation, WindowState, DEFAULT_MIN_BATCH_SIZE};

fn pending(seq_num: u64) -> (PendingTransaction, AsyncReceiver<()>) {
    let (sender, receiver) = kanal::bounded_async::<()>(1);
    let tx = Transaction::new_with_timestamp(Signer::default(), [Instruction::default(); 5], seq_num);
    (PendingTransaction::new(tx, seq_num, sender), receiver)
}

#[test]
fn full_window_is_written_then_acknowledged_once_each() {
    assert_eq!(DEFAULT_MIN_BATCH_SIZE, 300);
    let mut window = WindowFormation::new(1000, SkipMap::new());
    let mut receivers = Vec::new();
    // Offered out of order: the window keeps them by sequence number.
    for i in (0..300u64).rev() {
        let (tx, receiver) = pending(1000 + i);
        assert!(matches!(window.add_transaction(tx), (WindowState::Open, None)));
        receivers.push((1000 + i, receiver));
    }
    assert_eq!(window.pending_count(), 300);
    let (extra, extra_receiver) = pending(1300);
    let (state, back) = window.add_transaction(extra);
    assert!(matches!(state, WindowState::Closed));
    // The transaction that closed the window comes back to be offered again.
    let extra = back.unwrap();
    assert_eq!(extra.seq_num, 1300);
    assert_eq!(window.pending_count(), 300);

    let batch = window.write().unwrap();
    assert_eq!(batch.file.seq_start, 1000);
    assert_eq!(batch.file.seq_end, Some(1300));
    assert_eq!(batch.file.filename, "wal-00000000000000001000-00000000000000001300.log");
    let keys: Vec<u64> = batch.entries.iter().map(|e| e.0).collect();
    assert_eq!(keys, (1000..1300).collect::<Vec<u64>>());
    assert!(batch.entries.iter().all(|e| e.1.get_timestamp() == e.0));
    // Nothing is acknowledged before the batch is durable.
    for (_, receiver) in &receivers {
        assert_eq!(receiver.as_sync().try_recv(), Ok(None));
    }

    window.written();
    assert!(matches!(window.current_state(), WindowState::Acknowledging));
    let mut acknowledged = Vec::new();
    while let Some(next) = window.ack_batch() {
        assert_eq!(next.response_tx.as_sync().try_send(()), Ok(true));
        acknowledged.push(next.seq_num);
    }
    assert_eq!(acknowledged, (1000..1300).collect::<Vec<u64>>());
    assert_eq!(window.pending_count(), 0);
    assert!(matches!(window.current_state(), WindowState::Drained));
    for (_, receiver) in &receivers {
        assert_eq!(receiver.as_sync().try_recv(), Ok(Some(())));
        // Exactly one: nothing more arrives on this channel.
        assert!(!matches!(receiver.as_sync().try_recv(), Ok(Some(()))));
    }
    assert_eq!(extra_receiver.as_sync().try_recv(), Ok(None));
    let mut next = WindowFormation::new(1300, SkipMap::new());
    assert!(matches!(next.add_transaction(extra), (WindowState::Open, None)));
    assert!(next.is_pending(1300));
}

#[test]
fn closed_window_admits_nothing_and_keeps_its_end() {
    let mut window = WindowFormation::new(0, SkipMap::new());
    for i in 0..300u64 {
        let (tx, _) = pending(i);
        assert!(matches!(window.add_transaction(tx), (WindowState::Open, None)));
    }
    let (tx, _) = pending(300);
    assert!(matches!(window.add_transaction(tx), (WindowState::Closed, Some(_))));
    let (tx, _) = pending(301);
    assert!(matches!(window.add_transaction(tx), (WindowState::Closed, Some(_))));
    assert_eq!(window.pending_count(), 300);
    assert_eq!(window.write().unwrap().file.seq_end, Some(300));
    window.written();
    let (tx, _) = pending(302);
    assert!(matches!(window.add_transaction(tx), (WindowState::Acknowledging, Some(_))));
    while window.ack_batch().is_some() {}
    let (tx, _) = pending(303);
    assert!(matches!(window.add_transaction(tx), (WindowState::Drained, Some(_))));
    assert_eq!(window.pending_count(), 0);
}

#[test]
fn window_over_a_full_map_closes_at_once() {
    let map = SkipMap::new();
    for i in 0..300u64 {
        let (tx, _) = pending(i);
        map.insert(i, tx);
    }
    let mut window = WindowFormation::new(0, map);
    let (tx, _) = pending(300);
    assert!(matches!(window.add_transaction(tx), (WindowState::Closed, Some(_))));
    window.written();
    while window.ack_batch().is_some() {}
    assert!(matches!(window.current_state(), WindowState::Drained));

    let mut fresh = WindowFormation::new(5, SkipMap::new());
    assert!(matches!(fresh.current_state(), WindowState::Open));
    assert_eq!(fresh.pending_count(), 0);
    assert!(fresh.is_admitting());
    assert!(!fresh.is_pending(5));
    let (tx, _) = pending(5);
    assert!(matches!(fresh.add_transaction(tx), (WindowState::Open, None)));
    assert_eq!(fresh.pending_count(), 1);
    assert!(fresh.is_pending(5));
    assert!(!fresh.is_pending(6));
}

#[test]
fn full_or_closed_window_does_not_admit() {
    let mut window = WindowFormation::new(0, SkipMap::new());
    for i in 0..299u64 {
        let (tx, _) = pending(i);
        window.add_transaction(tx);
    }
    assert!(window.is_admitting());
    let (tx, _) = pending(299);
    window.add_transaction(tx);
    assert!(!window.is_admitting());
    assert!(matches!(window.current_state(), WindowState::Open));
    let (tx, _) = pending(300);
    assert!(matches!(window.add_transaction(tx), (WindowState::Closed, Some(_))));
    assert!(!window.is_admitting());
    assert!(!window.is_pending(300));
}

#[test]
fn batch_entry_is_keyed_by_little_endian_sequence_number() {
    let (key, value) = batch_entry(0x0102030405060708, vec![9, 9]);
    assert_eq!(key, vec![8, 7, 6, 5, 4, 3, 2, 1]);
    assert_eq!(value, vec![9, 9]);
}
