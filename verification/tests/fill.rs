use polyfill_rs::book::{OrderBook, SnapshotOutcome, SyncState};
use polyfill_rs::fill::{fill_against, FillStatus};
use polyfill_rs::types::{BookSnapshot, PriceLevel};
use polyfill_rs::{Decimal, FillEngine, OrderBookSummary, Side};

fn d(text: &str) -> Decimal {
    Decimal::from_str(text).unwrap()
}

fn level(price: &str, size: &str) -> PriceLevel {
    PriceLevel { price: d(price), size: d(size) }
}

fn book_snapshot() -> OrderBookSummary {
    let mut book = OrderBook::new("token".to_string(), 10);
    let baseline = BookSnapshot {
        token_id: "token".to_string(),
        bids: vec![level("0.74", "30"), level("0.73", "70"), level("0.70", "500")],
        asks: vec![level("0.75", "100"), level("0.76", "50")],
        sequence: 1,
        timestamp: 1,
    };
    assert_eq!(book.apply_snapshot(&baseline), SnapshotOutcome::Installed);
    book.snapshot()
}

#[test]
fn marketable_buy_walks_two_levels() {
    let engine = FillEngine::new();
    let r = engine.simulate("token", Side::BUY, None, d("120"), &book_snapshot());
    assert_eq!(r.filled, d("120"));
    assert_eq!(r.remaining, d("0"));
    assert_eq!(r.status, FillStatus::Filled);
    // 100 at 0.75 and 20 at 0.76
    assert_eq!(r.notional, 100_000_000u128 * 750_000 + 20_000_000u128 * 760_000);
    // (100 * 0.75 + 20 * 0.76) / 120 = 0.751666..., rounded down
    assert_eq!(r.average_price, Some(Decimal::from_units(751_666)));
    let exact = (100.0 * 0.75 + 20.0 * 0.76) / 120.0;
    assert!((r.average_price.unwrap().units as f64 / 1e6 - exact).abs() < 1e-6);
    assert_eq!(r.slippage, Some(1_666));
}

#[test]
fn buy_beyond_liquidity_is_partial() {
    let engine = FillEngine::new();
    let r = engine.simulate("token", Side::BUY, None, d("200"), &book_snapshot());
    assert_eq!(r.filled, d("150"));
    assert_eq!(r.remaining, d("50"));
    assert_eq!(r.status, FillStatus::InsufficientLiquidity);
    assert_eq!(r.notional, 100_000_000u128 * 750_000 + 50_000_000u128 * 760_000);
    assert_eq!(r.average_price, Some(Decimal::from_units(753_333)));
    assert_eq!(r.slippage, Some(3_333));
}

#[test]
fn limit_stops_the_walk() {
    let engine = FillEngine::new();
    let snapshot = book_snapshot();
    let r = engine.simulate("token", Side::BUY, Some(d("0.75")), d("120"), &snapshot);
    assert_eq!(r.filled, d("100"));
    assert_eq!(r.remaining, d("20"));
    assert_eq!(r.status, FillStatus::LimitReached);
    assert_eq!(r.average_price, Some(d("0.75")));
    assert_eq!(r.slippage, Some(0));
    let none = engine.simulate("token", Side::BUY, Some(d("0.74")), d("120"), &snapshot);
    assert_eq!(none.filled, d("0"));
    assert_eq!(none.remaining, d("120"));
    assert_eq!(none.status, FillStatus::LimitReached);
    assert_eq!(none.average_price, None);
    assert_eq!(none.slippage, None);
    assert_eq!(none.notional, 0);
    // a limit that admits every level, on a size that the ladder cannot fill
    let all = engine.simulate("token", Side::BUY, Some(d("0.99")), d("151"), &snapshot);
    assert_eq!(all.filled, d("150"));
    assert_eq!(all.status, FillStatus::InsufficientLiquidity);
}

#[test]
fn sell_walks_the_bids_downward() {
    let engine = FillEngine::new();
    let snapshot = book_snapshot();
    let r = engine.simulate("token", Side::SELL, None, d("50"), &snapshot);
    assert_eq!(r.filled, d("50"));
    assert_eq!(r.status, FillStatus::Filled);
    // 30 at 0.74 and 20 at 0.73
    assert_eq!(r.notional, 30_000_000u128 * 740_000 + 20_000_000u128 * 730_000);
    assert_eq!(r.average_price, Some(Decimal::from_units(736_000)));
    assert_eq!(r.slippage, Some(-4_000));
    let limited = engine.simulate("token", Side::SELL, Some(d("0.72")), d("1000"), &snapshot);
    assert_eq!(limited.filled, d("100"));
    assert_eq!(limited.remaining, d("900"));
    assert_eq!(limited.status, FillStatus::LimitReached);
}

#[test]
fn exact_fill_of_one_level_is_full() {
    let engine = FillEngine::new();
    let r = engine.simulate("token", Side::BUY, None, d("100"), &book_snapshot());
    assert_eq!(r.filled, d("100"));
    assert_eq!(r.remaining, d("0"));
    assert_eq!(r.status, FillStatus::Filled);
    assert_eq!(r.slippage, Some(0));
    let nothing = engine.simulate("token", Side::BUY, None, d("0"), &book_snapshot());
    assert_eq!(nothing.status, FillStatus::Filled);
    assert_eq!(nothing.filled, d("0"));
    assert_eq!(nothing.average_price, None);
}

#[test]
fn empty_side_and_other_instrument_have_no_liquidity() {
    let engine = FillEngine::new();
    let snapshot = book_snapshot();
    let other = engine.simulate("elsewhere", Side::BUY, None, d("1"), &snapshot);
    assert_eq!(other.filled, d("0"));
    assert_eq!(other.remaining, d("1"));
    assert_eq!(other.status, FillStatus::InsufficientLiquidity);
    let empty = OrderBookSummary {
        token_id: "token".to_string(),
        bids: vec![],
        asks: vec![],
        bid_size: 0,
        ask_size: 0,
        sequence: 0,
        last_update: 0,
        state: SyncState::OutOfSync,
    };
    let r = engine.simulate("token", Side::SELL, None, d("5"), &empty);
    assert_eq!(r.status, FillStatus::InsufficientLiquidity);
    assert_eq!(r.filled, d("0"));
}

#[test]
fn simulation_leaves_the_snapshot_alone() {
    let engine = FillEngine::new();
    let snapshot = book_snapshot();
    let asks = snapshot.asks.clone();
    let bids = snapshot.bids.clone();
    engine.simulate("token", Side::BUY, None, d("120"), &snapshot);
    engine.simulate("token", Side::SELL, None, d("120"), &snapshot);
    assert_eq!(snapshot.asks, asks);
    assert_eq!(snapshot.bids, bids);
}

#[test]
fn largest_values_do_not_overflow() {
    let levels = vec![
        PriceLevel { price: Decimal::from_units(u64::MAX), size: Decimal::from_units(u64::MAX) },
        PriceLevel { price: Decimal::from_units(u64::MAX), size: Decimal::from_units(u64::MAX) },
    ];
    let r = fill_against(Side::SELL, &levels, None, Decimal::from_units(u64::MAX));
    assert_eq!(r.filled.units, u64::MAX);
    assert_eq!(r.notional, (u64::MAX as u128) * (u64::MAX as u128));
    assert_eq!(r.average_price, Some(Decimal::from_units(u64::MAX)));
    assert_eq!(r.slippage, Some(0));
    assert_eq!(r.status, FillStatus::Filled);
}
