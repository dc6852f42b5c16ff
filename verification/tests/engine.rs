use polyfill_rs::book::{DeltaOutcome, SnapshotOutcome, SyncState};
use polyfill_rs::decode::{RawFrame, RawLevel};
use polyfill_rs::engine::{Engine, Routed};
use polyfill_rs::stream::{ChannelType, StreamAction, StreamConfig, StreamEvent};
use polyfill_rs::types::{TickSizeChange, Trade};
use polyfill_rs::{DecodeError, Decimal, OrderDelta, PolyfillError, Side, StreamMessage};

fn text(s: &str) -> Option<String> {
    Some(s.to_string())
}

fn frame(kind: &str, token: &str, sequence: u64) -> RawFrame {
    RawFrame {
        event_type: text(kind),
        asset_id: text(token),
        side: text("BUY"),
        price: text("0.5"),
        size: text("10"),
        sequence: Some(sequence.to_string()),
        timestamp: text("1"),
        old_tick_size: None,
        new_tick_size: None,
        bids: Some(vec![RawLevel { price: "0.4".to_string(), size: "1".to_string() }]),
        asks: Some(vec![]),
        message: None,
    }
}

fn engine() -> Engine {
    Engine::new(StreamConfig::new(1_000, 3, 100, 5_000).unwrap(), 10, 16).unwrap()
}

#[test]
fn engine_is_validated() {
    let good = StreamConfig::new(1_000, 3, 100, 5_000).unwrap();
    assert_eq!(Engine::new(good, 0, 16).err(), Some(PolyfillError::Configuration));
    let bad = StreamConfig { initial_backoff_ms: 0, ..good };
    assert_eq!(Engine::new(bad, 10, 16).err(), Some(PolyfillError::Configuration));
}

#[test]
fn reconnect_marks_the_instruments_of_that_connection() {
    let mut e = engine();
    let first = e.streams.subscribe(vec!["A".to_string(), "B".to_string()], vec![ChannelType::Book]);
    let second = e.streams.subscribe(vec!["C".to_string()], vec![ChannelType::Book]);
    for token in ["A", "B", "C"] {
        assert_eq!(
            e.on_frame(&frame("snapshot", token, 1)),
            Ok(Routed::Snapshot(SnapshotOutcome::Installed))
        );
    }
    for handle in [first, second] {
        e.on_stream_event(handle, StreamEvent::Start, 0, 0);
        e.on_stream_event(handle, StreamEvent::Connected, 0, 0);
        e.on_stream_event(handle, StreamEvent::Subscribed, 0, 0);
    }
    for token in ["A", "B", "C"] {
        assert_eq!(e.books.snapshot(token).unwrap().state, SyncState::Live);
    }
    assert_eq!(e.on_stream_event(first, StreamEvent::Frame, 10, 0), StreamAction::Nothing);
    assert_eq!(e.books.snapshot("A").unwrap().state, SyncState::Live);
    assert_eq!(
        e.on_stream_event(first, StreamEvent::Failed, 20, 0),
        StreamAction::Backoff { delay_ms: 100 }
    );
    assert_eq!(e.books.snapshot("A").unwrap().state, SyncState::OutOfSync);
    assert_eq!(e.books.snapshot("B").unwrap().state, SyncState::OutOfSync);
    assert_eq!(e.books.snapshot("C").unwrap().state, SyncState::Live);
    // a missed heartbeat on the other connection does the same for C
    assert_eq!(
        e.on_stream_event(second, StreamEvent::Tick, 100_000, 0),
        StreamAction::Backoff { delay_ms: 100 }
    );
    assert_eq!(e.books.snapshot("C").unwrap().state, SyncState::OutOfSync);
}

#[test]
fn frames_reach_the_books() {
    let mut e = engine();
    assert_eq!(e.on_frame(&frame("delta", "A", 1)), Ok(Routed::Delta(DeltaOutcome::Buffered)));
    assert_eq!(
        e.on_frame(&frame("snapshot", "A", 0)),
        Ok(Routed::Snapshot(SnapshotOutcome::Installed))
    );
    let book = e.books.snapshot("A").unwrap();
    assert_eq!(book.sequence, 1);
    assert_eq!(book.bids.len(), 2);
    assert_eq!(e.on_frame(&frame("delta", "A", 2)), Ok(Routed::Delta(DeltaOutcome::Applied)));
    assert_eq!(e.on_frame(&frame("delta", "A", 2)), Ok(Routed::Delta(DeltaOutcome::Stale)));
    assert_eq!(e.on_frame(&frame("delta", "A", 9)), Ok(Routed::Delta(DeltaOutcome::GapDetected)));
    assert_eq!(e.on_frame(&frame("heartbeat", "A", 0)), Ok(Routed::Passed));
    assert_eq!(e.on_frame(&frame("something_new", "A", 0)), Ok(Routed::Passed));
    assert_eq!(e.on_message(StreamMessage::Heartbeat), Routed::Passed);
    assert_eq!(e.on_message(StreamMessage::Unknown), Routed::Passed);
    assert_eq!(e.books.len(), 1);
}

#[test]
fn a_bad_frame_changes_nothing() {
    let mut e = engine();
    e.on_frame(&frame("snapshot", "A", 5)).unwrap();
    let mut bad = frame("delta", "A", 6);
    bad.price = text("0.5.5");
    assert_eq!(e.on_frame(&bad), Err(DecodeError::InvalidNumber));
    let book = e.books.snapshot("A").unwrap();
    assert_eq!(book.sequence, 5);
    assert_eq!(book.state, SyncState::Live);
    assert_eq!(e.on_frame(&frame("delta", "A", 6)), Ok(Routed::Delta(DeltaOutcome::Applied)));
}

#[test]
fn messages_find_their_audience() {
    let mut e = engine();
    e.streams.subscribe(vec!["A".to_string()], vec![ChannelType::Book]);
    e.streams.subscribe(vec!["A".to_string(), "B".to_string()], vec![ChannelType::Trades]);
    e.streams.subscribe(vec!["B".to_string()], vec![ChannelType::Ticks, ChannelType::Book]);
    let delta = |token: &str| {
        StreamMessage::OrderDelta(OrderDelta {
            token_id: token.to_string(),
            timestamp: 0,
            side: Side::BUY,
            price: Decimal::zero(),
            size: Decimal::zero(),
            sequence: 1,
        })
    };
    let trade = |token: &str| {
        StreamMessage::Trade(Trade {
            token_id: token.to_string(),
            side: Side::BUY,
            price: Decimal::zero(),
            size: Decimal::zero(),
            timestamp: 0,
        })
    };
    let tick = |token: &str| {
        StreamMessage::TickSizeChange(TickSizeChange {
            token_id: token.to_string(),
            old_tick_size: Decimal::zero(),
            new_tick_size: Decimal::zero(),
            timestamp: 0,
        })
    };
    assert_eq!(e.audience(&delta("A")), vec![0]);
    assert_eq!(e.audience(&delta("B")), vec![2]);
    assert_eq!(e.audience(&trade("A")), vec![1]);
    assert_eq!(e.audience(&trade("B")), vec![1]);
    assert_eq!(e.audience(&tick("B")), vec![2]);
    assert_eq!(e.audience(&tick("A")), Vec::<usize>::new());
    assert_eq!(e.audience(&StreamMessage::Heartbeat), Vec::<usize>::new());
    assert_eq!(e.audience(&StreamMessage::Unknown), Vec::<usize>::new());
    assert_eq!(e.audience(&StreamMessage::Error("x".to_string())), Vec::<usize>::new());
    match e.on_frame(&frame("snapshot", "B", 3)) {
        Ok(Routed::Snapshot(SnapshotOutcome::Installed)) => {}
        other => panic!("{:?}", other),
    }
}

#[test]
fn bytes_reach_the_books() {
    let mut e = engine();
    let snapshot = b"{\"event_type\":\"snapshot\",\"asset_id\":\"A\",\"bids\":[{\"price\":\"0.4\",\"size\":\"1\"}],\"asks\":[{\"price\":\"0.6\",\"size\":\"2\"}],\"sequence\":\"7\",\"timestamp\":\"1\"}";
    assert_eq!(e.on_bytes(snapshot), Ok(Routed::Snapshot(SnapshotOutcome::Installed)));
    let delta = b"{\"event_type\":\"delta\",\"asset_id\":\"A\",\"side\":\"SELL\",\"price\":\"0.6\",\"size\":\"0\",\"sequence\":\"8\",\"timestamp\":\"2\"}";
    assert_eq!(e.on_bytes(delta), Ok(Routed::Delta(DeltaOutcome::Applied)));
    assert_eq!(e.on_bytes(&delta[..40]), Err(DecodeError::Truncated));
    assert_eq!(e.on_bytes(b"not a frame"), Err(DecodeError::Malformed));
    let book = e.books.snapshot("A").unwrap();
    assert_eq!(book.sequence, 8);
    assert!(book.asks.is_empty());
    assert_eq!(book.bids.len(), 1);
    assert_eq!(book.last_update, 2);
}
