use polyfill_rs::book::{
    DeltaOutcome, OrderBook, SnapshotOutcome, SyncState, DEFAULT_PENDING_LIMIT,
};
use polyfill_rs::ladder::{build_ladder, copy_levels, set_level};
use polyfill_rs::types::{BookSnapshot, LevelUpdate, PriceLevel};
use polyfill_rs::{Decimal, OrderBookImpl, OrderDelta, PolyfillError, Side};

fn d(text: &str) -> Decimal {
    Decimal::from_str(text).unwrap()
}

fn level(price: &str, size: &str) -> PriceLevel {
    PriceLevel { price: d(price), size: d(size) }
}

fn update(side: Side, price: &str, size: &str, sequence: u64) -> LevelUpdate {
    LevelUpdate { side, price: d(price), size: d(size), sequence, timestamp: 1_000 + sequence }
}

fn empty_snapshot(token: &str, sequence: u64) -> BookSnapshot {
    BookSnapshot {
        token_id: token.to_string(),
        bids: vec![],
        asks: vec![],
        sequence,
        timestamp: 500,
    }
}

/// A live, empty book at sequence nought.
fn live_book(depth: usize) -> OrderBook {
    let mut book = OrderBook::new("token".to_string(), depth);
    assert_eq!(book.apply_snapshot(&empty_snapshot("token", 0)), SnapshotOutcome::Installed);
    assert_eq!(book.state(), SyncState::Live);
    book
}

#[test]
fn new_book_is_empty_and_uninitialized() {
    let book = OrderBookImpl::new("token_id".to_string(), 100);
    assert_eq!(book.token_id(), "token_id");
    assert_eq!(book.state(), SyncState::Uninitialized);
    assert_eq!(book.sequence(), 0);
    assert_eq!(book.max_depth(), 100);
    assert_eq!(book.best_bid(), None);
    assert_eq!(book.best_ask(), None);
    assert_eq!(book.pending_len(), 0);
}

#[test]
fn zero_depth_is_a_configuration_fault() {
    assert_eq!(
        OrderBook::try_new("t".to_string(), 0).err(),
        Some(PolyfillError::Configuration)
    );
    assert!(OrderBook::try_new("t".to_string(), 1).is_ok());
}

#[test]
fn ladder_keeps_price_priority() {
    let mut bids: Vec<PriceLevel> = Vec::new();
    for (p, s) in [("0.50", "10"), ("0.52", "20"), ("0.48", "30"), ("0.51", "40")] {
        set_level(Side::BUY, &mut bids, d(p), d(s), 10);
    }
    assert_eq!(
        bids,
        vec![level("0.52", "20"), level("0.51", "40"), level("0.50", "10"), level("0.48", "30")]
    );
    let mut asks: Vec<PriceLevel> = Vec::new();
    for (p, s) in [("0.50", "10"), ("0.52", "20"), ("0.48", "30"), ("0.51", "40")] {
        set_level(Side::SELL, &mut asks, d(p), d(s), 10);
    }
    assert_eq!(
        asks,
        vec![level("0.48", "30"), level("0.50", "10"), level("0.51", "40"), level("0.52", "20")]
    );
}

#[test]
fn delta_replaces_size_and_does_not_add() {
    let mut book = live_book(10);
    assert_eq!(book.apply_update(update(Side::BUY, "0.75", "100", 1)), DeltaOutcome::Applied);
    assert_eq!(book.apply_update(update(Side::BUY, "0.75", "40", 2)), DeltaOutcome::Applied);
    assert_eq!(book.levels(Side::BUY), vec![level("0.75", "40")]);
    assert_eq!(book.sequence(), 2);
    assert_eq!(book.last_update(), 1_002);
}

#[test]
fn zero_size_removes_level_and_readding_is_fresh() {
    let mut book = live_book(10);
    book.apply_update(update(Side::SELL, "0.80", "100", 1));
    book.apply_update(update(Side::SELL, "0.81", "50", 2));
    assert_eq!(book.apply_update(update(Side::SELL, "0.80", "0", 3)), DeltaOutcome::Applied);
    assert_eq!(book.levels(Side::SELL), vec![level("0.81", "50")]);
    assert_eq!(book.apply_update(update(Side::SELL, "0.80", "7", 4)), DeltaOutcome::Applied);
    assert_eq!(book.levels(Side::SELL), vec![level("0.80", "7"), level("0.81", "50")]);
    // removing what is not there changes nothing but the sequence
    assert_eq!(book.apply_update(update(Side::SELL, "0.99", "0", 5)), DeltaOutcome::Applied);
    assert_eq!(book.levels(Side::SELL), vec![level("0.80", "7"), level("0.81", "50")]);
    assert_eq!(book.sequence(), 5);
}

#[test]
fn stale_and_duplicate_deltas_are_dropped() {
    let mut book = live_book(10);
    let first = update(Side::BUY, "0.75", "100", 1);
    assert_eq!(book.apply_update(first), DeltaOutcome::Applied);
    let before = book.snapshot();
    assert_eq!(book.apply_update(first), DeltaOutcome::Stale);
    assert_eq!(book.apply_update(update(Side::BUY, "0.10", "5", 0)), DeltaOutcome::Stale);
    let after = book.snapshot();
    assert_eq!(after.bids, before.bids);
    assert_eq!(after.asks, before.asks);
    assert_eq!(after.sequence, 1);
    assert_eq!(after.last_update, before.last_update);
    assert_eq!(after.state, SyncState::Live);
}

#[test]
fn batch_equals_one_at_a_time() {
    let updates = vec![
        update(Side::BUY, "0.50", "10", 1),
        update(Side::SELL, "0.60", "20", 2),
        update(Side::BUY, "0.50", "0", 3),
        update(Side::BUY, "0.49", "5", 3),
        update(Side::BUY, "0.51", "5", 4),
        update(Side::SELL, "0.61", "9", 7),
        update(Side::SELL, "0.62", "9", 8),
    ];
    let mut batched = live_book(3);
    let answers = batched.apply_updates(&updates);
    let mut single = live_book(3);
    let mut expected = Vec::new();
    for u in &updates {
        expected.push(single.apply_update(*u));
    }
    assert_eq!(answers, expected);
    assert_eq!(
        answers,
        vec![
            DeltaOutcome::Applied,
            DeltaOutcome::Applied,
            DeltaOutcome::Applied,
            DeltaOutcome::Stale,
            DeltaOutcome::Applied,
            DeltaOutcome::GapDetected,
            DeltaOutcome::Buffered,
        ]
    );
    let a = batched.snapshot();
    let b = single.snapshot();
    assert_eq!(a.bids, b.bids);
    assert_eq!(a.asks, b.asks);
    assert_eq!(a.sequence, b.sequence);
    assert_eq!(a.state, b.state);
    assert_eq!(batched.pending_len(), single.pending_len());
    assert_eq!(a.bids, vec![level("0.51", "5")]);
    assert_eq!(a.asks, vec![level("0.60", "20")]);
    assert_eq!(a.sequence, 4);
    assert_eq!(a.state, SyncState::OutOfSync);
}

#[test]
fn batch_split_anywhere_gives_the_same_book() {
    let updates: Vec<LevelUpdate> = (1..=6)
        .map(|i| update(if i % 2 == 0 { Side::BUY } else { Side::SELL }, "0.5", "1", i))
        .collect();
    let mut whole = live_book(5);
    whole.apply_updates(&updates);
    for cut in 0..=updates.len() {
        let mut parts = live_book(5);
        parts.apply_updates(&updates[..cut].to_vec());
        parts.apply_updates(&updates[cut..].to_vec());
        assert_eq!(parts.snapshot().bids, whole.snapshot().bids);
        assert_eq!(parts.snapshot().asks, whole.snapshot().asks);
        assert_eq!(parts.sequence(), whole.sequence());
    }
}

#[test]
fn gap_puts_book_out_of_sync_and_suppresses_deltas() {
    let mut book = live_book(10);
    book.apply_update(update(Side::BUY, "0.75", "100", 1));
    // sequence 2 is missing
    assert_eq!(book.apply_update(update(Side::BUY, "0.76", "10", 3)), DeltaOutcome::GapDetected);
    assert_eq!(book.state(), SyncState::OutOfSync);
    assert_eq!(book.apply_update(update(Side::BUY, "0.77", "10", 4)), DeltaOutcome::Buffered);
    assert_eq!(book.apply_update(update(Side::BUY, "0.78", "10", 2)), DeltaOutcome::Buffered);
    assert_eq!(book.levels(Side::BUY), vec![level("0.75", "100")]);
    assert_eq!(book.sequence(), 1);
    assert_eq!(book.pending_len(), 3);
    assert!(book.request_snapshot());
    assert_eq!(book.state(), SyncState::Syncing);
    assert!(!book.request_snapshot());
}

#[test]
fn stale_snapshot_does_not_resume() {
    let mut book = live_book(10);
    for i in 1..=5 {
        book.apply_update(update(Side::BUY, "0.75", "100", i));
    }
    book.apply_update(update(Side::BUY, "0.76", "1", 9));
    assert!(book.request_snapshot());
    let mut old = empty_snapshot("token", 4);
    old.bids = vec![level("0.10", "1")];
    assert_eq!(book.apply_snapshot(&old), SnapshotOutcome::Stale);
    assert_eq!(book.state(), SyncState::OutOfSync);
    assert_eq!(book.levels(Side::BUY), vec![level("0.75", "100")]);
    assert_eq!(book.sequence(), 5);
    // a baseline at the book's own sequence is taken
    let mut same = empty_snapshot("token", 5);
    same.bids = vec![level("0.10", "1")];
    assert_eq!(book.apply_snapshot(&same), SnapshotOutcome::Installed);
    assert_eq!(book.levels(Side::BUY), vec![level("0.10", "1")]);
}

#[test]
fn snapshot_replaces_ladders_and_sequence() {
    let mut book = live_book(10);
    book.apply_update(update(Side::BUY, "0.40", "1", 1));
    book.apply_update(update(Side::SELL, "0.60", "2", 2));
    let snapshot = BookSnapshot {
        token_id: "token".to_string(),
        bids: vec![level("0.50", "10"), level("0.49", "20")],
        asks: vec![level("0.55", "30"), level("0.56", "40")],
        sequence: 42,
        timestamp: 777,
    };
    assert_eq!(book.apply_snapshot(&snapshot), SnapshotOutcome::Installed);
    let summary = book.snapshot();
    assert_eq!(summary.bids, snapshot.bids);
    assert_eq!(summary.asks, snapshot.asks);
    assert_eq!(summary.sequence, 42);
    assert_eq!(summary.last_update, 777);
    assert_eq!(summary.state, SyncState::Live);
    assert_eq!(summary.bid_size, 30_000_000);
    assert_eq!(summary.ask_size, 70_000_000);
    assert_eq!(summary.token_id, "token");
}

#[test]
fn snapshot_levels_in_any_order_are_normalised() {
    let mut book = OrderBook::new("token".to_string(), 3);
    let snapshot = BookSnapshot {
        token_id: "token".to_string(),
        bids: vec![
            level("0.49", "20"),
            level("0.50", "10"),
            level("0.47", "5"),
            level("0.48", "0"),
            level("0.49", "21"),
            level("0.46", "1"),
        ],
        asks: vec![level("0.56", "40"), level("0.55", "30")],
        sequence: 7,
        timestamp: 1,
    };
    assert_eq!(book.apply_snapshot(&snapshot), SnapshotOutcome::Installed);
    assert_eq!(
        book.levels(Side::BUY),
        vec![level("0.50", "10"), level("0.49", "21"), level("0.47", "5")]
    );
    assert_eq!(book.levels(Side::SELL), vec![level("0.55", "30"), level("0.56", "40")]);
    assert_eq!(
        build_ladder(Side::BUY, &snapshot.bids, 10),
        vec![level("0.50", "10"), level("0.49", "21"), level("0.47", "5"), level("0.46", "1")]
    );
}

#[test]
fn snapshot_replays_newer_buffered_deltas_in_order() {
    let mut book = OrderBook::new("token".to_string(), 10);
    assert!(book.request_snapshot());
    // arrive out of order while the baseline is fetched
    assert_eq!(book.apply_update(update(Side::BUY, "0.52", "3", 12)), DeltaOutcome::Buffered);
    assert_eq!(book.apply_update(update(Side::BUY, "0.51", "2", 11)), DeltaOutcome::Buffered);
    assert_eq!(book.apply_update(update(Side::BUY, "0.40", "9", 9)), DeltaOutcome::Buffered);
    assert_eq!(book.apply_update(update(Side::BUY, "0.50", "0", 13)), DeltaOutcome::Buffered);
    let mut snapshot = empty_snapshot("token", 10);
    snapshot.bids = vec![level("0.50", "1")];
    assert_eq!(book.apply_snapshot(&snapshot), SnapshotOutcome::Installed);
    assert_eq!(book.state(), SyncState::Live);
    assert_eq!(book.sequence(), 13);
    assert_eq!(book.levels(Side::BUY), vec![level("0.52", "3"), level("0.51", "2")]);
    assert_eq!(book.pending_len(), 0);
}

#[test]
fn replay_that_meets_a_gap_leaves_the_book_out_of_sync() {
    let mut book = OrderBook::new("token".to_string(), 10);
    book.request_snapshot();
    book.apply_update(update(Side::BUY, "0.51", "2", 11));
    book.apply_update(update(Side::BUY, "0.53", "4", 13));
    book.apply_update(update(Side::BUY, "0.54", "5", 14));
    assert_eq!(book.apply_snapshot(&empty_snapshot("token", 10)), SnapshotOutcome::Installed);
    assert_eq!(book.state(), SyncState::OutOfSync);
    assert_eq!(book.sequence(), 11);
    assert_eq!(book.levels(Side::BUY), vec![level("0.51", "2")]);
    assert_eq!(book.pending_len(), 2);
}

#[test]
fn depth_bound_evicts_the_farthest_level() {
    let mut book = live_book(3);
    book.apply_update(update(Side::BUY, "0.50", "1", 1));
    book.apply_update(update(Side::BUY, "0.49", "2", 2));
    book.apply_update(update(Side::BUY, "0.48", "3", 3));
    // a better level pushes the farthest out
    book.apply_update(update(Side::BUY, "0.51", "4", 4));
    assert_eq!(
        book.levels(Side::BUY),
        vec![level("0.51", "4"), level("0.50", "1"), level("0.49", "2")]
    );
    // a level beyond the bound is itself the one evicted
    book.apply_update(update(Side::BUY, "0.10", "5", 5));
    assert_eq!(
        book.levels(Side::BUY),
        vec![level("0.51", "4"), level("0.50", "1"), level("0.49", "2")]
    );
    assert_eq!(book.sequence(), 5);
    for (i, p) in ["0.60", "0.61", "0.59", "0.62"].iter().enumerate() {
        book.apply_update(update(Side::SELL, p, "1", 6 + i as u64));
    }
    assert_eq!(
        book.levels(Side::SELL),
        vec![level("0.59", "1"), level("0.60", "1"), level("0.61", "1")]
    );
}

#[test]
fn pending_queue_is_bounded() {
    let mut book = OrderBook::with_pending_limit("token".to_string(), 5, 2);
    assert_eq!(book.apply_update(update(Side::BUY, "0.5", "1", 1)), DeltaOutcome::Buffered);
    assert_eq!(book.apply_update(update(Side::BUY, "0.5", "1", 2)), DeltaOutcome::Buffered);
    assert_eq!(book.apply_update(update(Side::BUY, "0.5", "1", 3)), DeltaOutcome::Dropped);
    assert_eq!(book.pending_len(), 2);
    let mut none = OrderBook::with_pending_limit("token".to_string(), 5, 0);
    assert_eq!(none.apply_update(update(Side::BUY, "0.5", "1", 1)), DeltaOutcome::Dropped);
    assert_eq!(DEFAULT_PENDING_LIMIT, 1024);
}

#[test]
fn delta_for_another_instrument_is_rejected() {
    let mut book = live_book(5);
    let delta = OrderDelta {
        token_id: "other".to_string(),
        timestamp: 1,
        side: Side::BUY,
        price: d("0.5"),
        size: d("1"),
        sequence: 1,
    };
    assert_eq!(book.apply_delta(&delta), DeltaOutcome::Rejected);
    assert_eq!(book.sequence(), 0);
    let own = OrderDelta { token_id: "token".to_string(), ..delta.clone() };
    assert_eq!(own.update(), update(Side::BUY, "0.5", "1", 1).clone_with_time(1));
    assert_eq!(book.apply_delta(&own), DeltaOutcome::Applied);
    assert_eq!(book.apply_snapshot(&empty_snapshot("other", 9)), SnapshotOutcome::Rejected);
    assert_eq!(book.sequence(), 1);
}

trait WithTime {
    fn clone_with_time(self, timestamp: u64) -> Self;
}

impl WithTime for LevelUpdate {
    fn clone_with_time(self, timestamp: u64) -> Self {
        LevelUpdate { timestamp, ..self }
    }
}

#[test]
fn state_machine_of_a_book() {
    let mut book = OrderBook::new("token".to_string(), 5);
    assert_eq!(book.state(), SyncState::Uninitialized);
    book.snapshot_failed();
    assert_eq!(book.state(), SyncState::Uninitialized);
    assert!(book.request_snapshot());
    assert_eq!(book.state(), SyncState::Syncing);
    book.snapshot_failed();
    assert_eq!(book.state(), SyncState::OutOfSync);
    assert!(book.request_snapshot());
    assert_eq!(book.apply_snapshot(&empty_snapshot("token", 3)), SnapshotOutcome::Installed);
    assert_eq!(book.state(), SyncState::Live);
    assert!(!book.request_snapshot());
    book.mark_out_of_sync();
    assert_eq!(book.state(), SyncState::OutOfSync);
    book.apply_update(update(Side::BUY, "0.5", "1", 4));
    book.close();
    assert_eq!(book.state(), SyncState::Closed);
    assert_eq!(book.pending_len(), 0);
    assert_eq!(book.apply_update(update(Side::BUY, "0.5", "1", 5)), DeltaOutcome::Rejected);
    assert_eq!(book.apply_snapshot(&empty_snapshot("token", 9)), SnapshotOutcome::Rejected);
    book.mark_out_of_sync();
    assert!(!book.request_snapshot());
    assert_eq!(book.state(), SyncState::Closed);
}

#[test]
fn copy_levels_adds_sizes() {
    let levels = vec![level("0.5", "1.5"), level("0.4", "2.5")];
    let (copy, total) = copy_levels(&levels);
    assert_eq!(copy, levels);
    assert_eq!(total, 4_000_000);
    let big = vec![
        PriceLevel { price: Decimal::from_units(2), size: Decimal::from_units(u64::MAX) },
        PriceLevel { price: Decimal::from_units(1), size: Decimal::from_units(u64::MAX) },
    ];
    assert_eq!(copy_levels(&big).1, 2 * (u64::MAX as u128));
}

#[test]
fn outcomes_report_their_faults() {
    assert_eq!(DeltaOutcome::Applied.fault(), None);
    assert_eq!(DeltaOutcome::Stale.fault(), Some(PolyfillError::SequenceGap));
    assert_eq!(DeltaOutcome::GapDetected.fault(), Some(PolyfillError::SequenceGap));
    assert_eq!(DeltaOutcome::Buffered.fault(), Some(PolyfillError::OutOfSync));
    assert_eq!(DeltaOutcome::Dropped.fault(), Some(PolyfillError::OutOfSync));
    assert_eq!(DeltaOutcome::Rejected.fault(), None);
}

#[test]
fn a_stale_copy_says_so() {
    let mut book = live_book(5);
    assert_eq!(book.snapshot().ensure_synced(), Ok(()));
    book.apply_update(update(Side::BUY, "0.5", "1", 3));
    let copy = book.snapshot();
    assert_eq!(copy.state, SyncState::OutOfSync);
    assert_eq!(copy.ensure_synced(), Err(PolyfillError::OutOfSync));
    let fresh = OrderBook::new("t".to_string(), 1).snapshot();
    assert_eq!(fresh.ensure_synced(), Err(PolyfillError::OutOfSync));
}

#[test]
fn contiguous_deltas_are_all_applied() {
    let mut book = live_book(4);
    let updates: Vec<LevelUpdate> =
        (1..=50).map(|i| update(Side::SELL, &format!("0.{:02}", i), "1", i)).collect();
    let answers = book.apply_updates(&updates);
    assert!(answers.iter().all(|a| *a == DeltaOutcome::Applied));
    assert_eq!(book.sequence(), 50);
    assert_eq!(book.state(), SyncState::Live);
    assert_eq!(book.pending_len(), 0);
    assert_eq!(
        book.levels(Side::SELL),
        vec![level("0.01", "1"), level("0.02", "1"), level("0.03", "1"), level("0.04", "1")]
    );
}
