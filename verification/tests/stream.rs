use polyfill_rs::backoff::doubled_delay;
use polyfill_rs::stream::{
    ChannelType, ConnectionState, ConnectionStatus, StreamAction, StreamConfig, StreamEvent,
};
use polyfill_rs::{PolyfillError, StreamManager};

fn config() -> StreamConfig {
    StreamConfig::new(1_000, 3, 100, 5_000).unwrap()
}

#[test]
fn stream_config_is_validated() {
    assert!(StreamConfig::new(1_000, 3, 100, 5_000).is_ok());
    assert_eq!(StreamConfig::new(0, 3, 100, 5_000), Err(PolyfillError::Configuration));
    assert_eq!(StreamConfig::new(1_000, 0, 100, 5_000), Err(PolyfillError::Configuration));
    assert_eq!(StreamConfig::new(1_000, 3, 0, 5_000), Err(PolyfillError::Configuration));
    assert_eq!(StreamConfig::new(1_000, 3, 5_001, 5_000), Err(PolyfillError::Configuration));
    assert!(StreamConfig::new(1_000, 3, 5_000, 5_000).is_ok());
    let bad = StreamConfig {
        heartbeat_interval_ms: 0,
        grace_multiple: 1,
        initial_backoff_ms: 1,
        max_backoff_ms: 1,
    };
    assert_eq!(StreamManager::new(bad).err(), Some(PolyfillError::Configuration));
}

#[test]
fn backoff_doubles_up_to_the_cap() {
    let c = config();
    let expected = [100u64, 200, 400, 800, 1_600, 3_200, 5_000, 5_000];
    for (attempt, want) in expected.iter().enumerate() {
        assert_eq!(c.base_delay(attempt as u32), *want);
    }
    assert_eq!(c.base_delay(64), 5_000);
    assert_eq!(c.base_delay(u32::MAX), 5_000);
    assert_eq!(doubled_delay(1, u64::MAX, 63), 1u64 << 63);
    assert_eq!(doubled_delay(1, u64::MAX, 64), u64::MAX);
    assert_eq!(doubled_delay(3, 1_000, 8), 768);
    assert_eq!(doubled_delay(3, 1_000, 9), 1_000);
}

#[test]
fn jitter_shortens_backoff_by_at_most_half() {
    let c = config();
    // base 400, span 201
    assert_eq!(c.delay(2, 0), 400);
    assert_eq!(c.delay(2, 1), 399);
    assert_eq!(c.delay(2, 200), 200);
    assert_eq!(c.delay(2, 201), 400);
    assert_eq!(c.delay(2, 12_345), 400 - 12_345 % 201);
    for jitter in [0u64, 7, 999, u64::MAX] {
        for attempt in [0u32, 1, 5, 40, u32::MAX] {
            let delay = c.delay(attempt, jitter);
            let base = c.base_delay(attempt);
            assert!(delay <= base && delay >= base - base / 2 && delay <= 5_000 && delay > 0);
        }
    }
}

#[test]
fn heartbeat_timing() {
    let c = config();
    assert!(!c.due(1_999, 1_000));
    assert!(c.due(2_000, 1_000));
    assert!(!c.due(500, 1_000));
    assert!(!c.dead(4_000, 1_000));
    assert!(c.dead(4_001, 1_000));
    assert!(!c.dead(0, 1_000));
    let huge = StreamConfig::new(u64::MAX, 2, 1, 1).unwrap();
    assert!(!huge.dead(u64::MAX, 0));
}

#[test]
fn connection_walks_through_its_states() {
    let c = config();
    let mut s = ConnectionStatus::new();
    assert_eq!(s.state, ConnectionState::Disconnected);
    assert_eq!(s.on_event(&c, StreamEvent::Frame, 1, 0), StreamAction::Nothing);
    assert_eq!(s.on_event(&c, StreamEvent::Start, 1, 0), StreamAction::Connect);
    assert_eq!(s.state, ConnectionState::Connecting);
    assert_eq!(s.on_event(&c, StreamEvent::Start, 1, 0), StreamAction::Nothing);
    assert_eq!(s.on_event(&c, StreamEvent::Connected, 10, 0), StreamAction::SendSubscription);
    assert_eq!(s.state, ConnectionState::Subscribing);
    assert_eq!(s.on_event(&c, StreamEvent::Subscribed, 20, 0), StreamAction::Nothing);
    assert_eq!(s.state, ConnectionState::Streaming);
    assert_eq!(s.last_received, 20);
    assert_eq!(s.on_event(&c, StreamEvent::Frame, 500, 0), StreamAction::Nothing);
    assert_eq!(s.last_received, 500);
    assert_eq!(s.on_event(&c, StreamEvent::Tick, 900, 0), StreamAction::Nothing);
    assert_eq!(s.on_event(&c, StreamEvent::Tick, 1_010, 0), StreamAction::SendHeartbeat);
    assert_eq!(s.last_sent, 1_010);
    assert_eq!(s.on_event(&c, StreamEvent::Tick, 1_500, 0), StreamAction::Nothing);
    assert_eq!(s.on_event(&c, StreamEvent::Close, 1_600, 0), StreamAction::Release);
    assert_eq!(s.state, ConnectionState::Closed);
    for event in [
        StreamEvent::Start,
        StreamEvent::Connected,
        StreamEvent::Subscribed,
        StreamEvent::Frame,
        StreamEvent::Tick,
        StreamEvent::Failed,
        StreamEvent::BackoffElapsed,
        StreamEvent::Close,
    ] {
        assert_eq!(s.on_event(&c, event, 9_999_999, 0), StreamAction::Nothing);
        assert_eq!(s.state, ConnectionState::Closed);
    }
}

#[test]
fn failure_leads_to_backoff_and_reconnect() {
    let c = config();
    let mut s = ConnectionStatus::new();
    s.on_event(&c, StreamEvent::Start, 0, 0);
    assert_eq!(s.on_event(&c, StreamEvent::Failed, 1, 0), StreamAction::Backoff { delay_ms: 100 });
    assert_eq!(s.state, ConnectionState::Reconnecting);
    assert_eq!(s.attempt, 1);
    assert_eq!(s.on_event(&c, StreamEvent::Failed, 2, 0), StreamAction::Nothing);
    assert_eq!(s.on_event(&c, StreamEvent::BackoffElapsed, 101, 0), StreamAction::Connect);
    assert_eq!(s.on_event(&c, StreamEvent::Failed, 102, 0), StreamAction::Backoff { delay_ms: 200 });
    assert_eq!(s.attempt, 2);
    s.on_event(&c, StreamEvent::BackoffElapsed, 302, 0);
    s.on_event(&c, StreamEvent::Connected, 303, 0);
    assert_eq!(s.attempt, 2);
    s.on_event(&c, StreamEvent::Subscribed, 304, 0);
    // streaming again: the count of failures starts over
    assert_eq!(s.attempt, 0);
    assert_eq!(s.on_event(&c, StreamEvent::Failed, 400, 3), StreamAction::Backoff { delay_ms: 97 });
}

#[test]
fn silence_beyond_grace_is_a_dead_connection() {
    let c = config();
    let mut s = ConnectionStatus::new();
    s.on_event(&c, StreamEvent::Start, 0, 0);
    s.on_event(&c, StreamEvent::Connected, 0, 0);
    s.on_event(&c, StreamEvent::Subscribed, 0, 0);
    assert_eq!(s.on_event(&c, StreamEvent::Tick, 3_000, 0), StreamAction::SendHeartbeat);
    assert_eq!(s.on_event(&c, StreamEvent::Tick, 3_001, 0), StreamAction::Backoff { delay_ms: 100 });
    assert_eq!(s.state, ConnectionState::Reconnecting);
    let mut saturated = ConnectionStatus {
        state: ConnectionState::Streaming,
        attempt: u32::MAX,
        last_received: 0,
        last_sent: 0,
    };
    assert_eq!(
        saturated.on_event(&c, StreamEvent::Failed, 1, 0),
        StreamAction::Backoff { delay_ms: 5_000 }
    );
    assert_eq!(saturated.attempt, u32::MAX);
}

#[test]
fn manager_keeps_connections_apart() {
    let mut manager = StreamManager::new(config()).unwrap();
    let first = manager.subscribe(vec!["A".to_string(), "B".to_string()], vec![ChannelType::Book]);
    let second = manager.subscribe(vec!["C".to_string()], vec![ChannelType::Book, ChannelType::Trades]);
    assert_eq!((first, second), (0, 1));
    assert_eq!(manager.state(first), Some(ConnectionState::Disconnected));
    assert_eq!(manager.state(2), None);
    assert_eq!(manager.subscription(first), Some(vec!["A".to_string(), "B".to_string()]));
    assert_eq!(manager.subscription(7), None);
    for handle in [first, second] {
        assert_eq!(manager.on_event(handle, StreamEvent::Start, 0, 0).action, StreamAction::Connect);
        manager.on_event(handle, StreamEvent::Connected, 1, 0);
        manager.on_event(handle, StreamEvent::Subscribed, 2, 0);
    }
    let out = manager.on_event(first, StreamEvent::Failed, 3, 0);
    assert_eq!(out.action, StreamAction::Backoff { delay_ms: 100 });
    assert_eq!(out.out_of_sync, vec!["A".to_string(), "B".to_string()]);
    assert_eq!(manager.state(first), Some(ConnectionState::Reconnecting));
    assert_eq!(manager.state(second), Some(ConnectionState::Streaming));
    let quiet = manager.on_event(second, StreamEvent::Frame, 4, 0);
    assert_eq!(quiet.action, StreamAction::Nothing);
    assert!(quiet.out_of_sync.is_empty());
    let stray = manager.on_event(9, StreamEvent::Failed, 5, 0);
    assert_eq!(stray.action, StreamAction::Nothing);
    assert!(stray.out_of_sync.is_empty());
    // the same subscription set goes out again after the reconnect
    assert_eq!(manager.on_event(first, StreamEvent::BackoffElapsed, 200, 0).action, StreamAction::Connect);
    assert_eq!(
        manager.on_event(first, StreamEvent::Connected, 201, 0).action,
        StreamAction::SendSubscription
    );
    assert_eq!(manager.subscription(first), Some(vec!["A".to_string(), "B".to_string()]));
}

#[test]
fn frames_go_to_the_subscriptions_that_asked() {
    let mut manager = StreamManager::new(config()).unwrap();
    let ab = manager.subscribe(vec!["A".to_string(), "B".to_string()], vec![ChannelType::Book]);
    let a_all = manager.subscribe(
        vec!["A".to_string()],
        vec![ChannelType::Trades, ChannelType::Book, ChannelType::Ticks],
    );
    let c = manager.subscribe(vec!["C".to_string()], vec![ChannelType::Book]);
    let none = manager.subscribe(vec![], vec![]);
    assert_eq!((ab, a_all, c, none), (0, 1, 2, 3));
    assert_eq!(manager.interested("A", ChannelType::Book), vec![0, 1]);
    assert_eq!(manager.interested("A", ChannelType::Trades), vec![1]);
    assert_eq!(manager.interested("B", ChannelType::Book), vec![0]);
    assert_eq!(manager.interested("B", ChannelType::Ticks), Vec::<usize>::new());
    assert_eq!(manager.interested("C", ChannelType::Book), vec![2]);
    assert_eq!(manager.interested("D", ChannelType::Book), Vec::<usize>::new());
    assert_eq!(manager.interested("", ChannelType::Book), Vec::<usize>::new());
    // a subscription that was torn down gets nothing more
    manager.on_event(ab, StreamEvent::Close, 0, 0);
    assert_eq!(manager.interested("A", ChannelType::Book), vec![1]);
    assert_eq!(manager.interested("B", ChannelType::Book), Vec::<usize>::new());
}
