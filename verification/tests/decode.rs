use polyfill_rs::decode::{parse_side, RawFrame, RawLevel};
use polyfill_rs::types::PriceLevel;
use polyfill_rs::{DecodeError, Decimal, Decoder, Side, StreamMessage};

fn text(s: &str) -> Option<String> {
    Some(s.to_string())
}

fn frame(kind: &str) -> RawFrame {
    RawFrame {
        event_type: text(kind),
        asset_id: None,
        side: None,
        price: None,
        size: None,
        sequence: None,
        timestamp: None,
        old_tick_size: None,
        new_tick_size: None,
        bids: None,
        asks: None,
        message: None,
    }
}

fn delta_frame() -> RawFrame {
    RawFrame {
        asset_id: text("test_token"),
        side: text("BUY"),
        price: text("0.75"),
        size: text("100.0"),
        sequence: text("17"),
        timestamp: text("1700000000000"),
        ..frame("delta")
    }
}

fn raw(price: &str, size: &str) -> RawLevel {
    RawLevel { price: price.to_string(), size: size.to_string() }
}

#[test]
fn decodes_a_delta() {
    match Decoder::new().decode(&delta_frame()) {
        Ok(StreamMessage::OrderDelta(d)) => {
            assert_eq!(d.token_id, "test_token");
            assert_eq!(d.side, Side::BUY);
            assert_eq!(d.price, Decimal::from_units(750_000));
            assert_eq!(d.size, Decimal::from_units(100_000_000));
            assert_eq!(d.sequence, 17);
            assert_eq!(d.timestamp, 1_700_000_000_000);
        }
        other => panic!("{:?}", other),
    }
}

#[test]
fn decodes_a_snapshot() {
    let f = RawFrame {
        asset_id: text("t"),
        bids: Some(vec![raw("0.49", "20"), raw("0.50", "10")]),
        asks: Some(vec![]),
        sequence: text("5"),
        timestamp: text("6"),
        ..frame("snapshot")
    };
    match Decoder::new().decode(&f) {
        Ok(StreamMessage::BookSnapshot(s)) => {
            assert_eq!(s.token_id, "t");
            assert_eq!(
                s.bids,
                vec![
                    PriceLevel { price: Decimal::from_units(490_000), size: Decimal::from_units(20_000_000) },
                    PriceLevel { price: Decimal::from_units(500_000), size: Decimal::from_units(10_000_000) },
                ]
            );
            assert!(s.asks.is_empty());
            assert_eq!((s.sequence, s.timestamp), (5, 6));
        }
        other => panic!("{:?}", other),
    }
}

#[test]
fn decodes_trade_tick_heartbeat_and_error() {
    let decoder = Decoder::new();
    let trade = RawFrame {
        asset_id: text("t"),
        side: text("SELL"),
        price: text("0.5"),
        size: text("2"),
        timestamp: text("9"),
        ..frame("trade")
    };
    match decoder.decode(&trade) {
        Ok(StreamMessage::Trade(t)) => {
            assert_eq!(t.side, Side::SELL);
            assert_eq!(t.price.units, 500_000);
            assert_eq!(t.size.units, 2_000_000);
            assert_eq!(t.timestamp, 9);
        }
        other => panic!("{:?}", other),
    }
    let tick = RawFrame {
        asset_id: text("t"),
        old_tick_size: text("0.01"),
        new_tick_size: text("0.001"),
        timestamp: text("9"),
        ..frame("tick_size_change")
    };
    match decoder.decode(&tick) {
        Ok(StreamMessage::TickSizeChange(c)) => {
            assert_eq!(c.old_tick_size.units, 10_000);
            assert_eq!(c.new_tick_size.units, 1_000);
        }
        other => panic!("{:?}", other),
    }
    assert!(matches!(decoder.decode(&frame("heartbeat")), Ok(StreamMessage::Heartbeat)));
    let error = RawFrame { message: text("boom"), ..frame("error") };
    match decoder.decode(&error) {
        Ok(StreamMessage::Error(m)) => assert_eq!(m, "boom"),
        other => panic!("{:?}", other),
    }
    assert_eq!(decoder.decode(&frame("error")).err(), Some(DecodeError::MissingField));
}

#[test]
fn unknown_kinds_are_not_faults() {
    let decoder = Decoder::new();
    for kind in ["", "DELTA", "delta ", "new_kind", "snapshots"] {
        assert!(matches!(decoder.decode(&frame(kind)), Ok(StreamMessage::Unknown)), "{}", kind);
    }
    let mut none = frame("delta");
    none.event_type = None;
    assert_eq!(decoder.decode(&none).err(), Some(DecodeError::MissingField));
}

#[test]
fn missing_fields_are_faults() {
    let decoder = Decoder::new();
    let strip: Vec<fn(&mut RawFrame)> = vec![
        |f| f.asset_id = None,
        |f| f.side = None,
        |f| f.price = None,
        |f| f.size = None,
        |f| f.sequence = None,
        |f| f.timestamp = None,
    ];
    for s in strip {
        let mut f = delta_frame();
        s(&mut f);
        assert_eq!(decoder.decode(&f).err(), Some(DecodeError::MissingField));
    }
    let snapshot = RawFrame {
        asset_id: text("t"),
        bids: Some(vec![]),
        sequence: text("5"),
        timestamp: text("6"),
        ..frame("snapshot")
    };
    assert_eq!(decoder.decode(&snapshot).err(), Some(DecodeError::MissingField));
}

#[test]
fn bad_values_are_faults() {
    let decoder = Decoder::new();
    let cases: Vec<(fn(&mut RawFrame), DecodeError)> = vec![
        (|f| f.side = Some("buy".to_string()), DecodeError::UnknownSide),
        (|f| f.side = Some("".to_string()), DecodeError::UnknownSide),
        (|f| f.price = Some("0,75".to_string()), DecodeError::InvalidNumber),
        (|f| f.price = Some("0.7500001".to_string()), DecodeError::TooPrecise),
        (|f| f.size = Some("99999999999999999999".to_string()), DecodeError::OutOfRange),
        (|f| f.size = Some("-1".to_string()), DecodeError::InvalidNumber),
        (|f| f.sequence = Some("1.5".to_string()), DecodeError::InvalidNumber),
        (|f| f.sequence = Some("18446744073709551616".to_string()), DecodeError::OutOfRange),
        (|f| f.timestamp = Some("now".to_string()), DecodeError::InvalidNumber),
    ];
    for (spoil, fault) in cases {
        let mut f = delta_frame();
        spoil(&mut f);
        assert_eq!(decoder.decode(&f).err(), Some(fault));
    }
}

#[test]
fn first_fault_in_field_order_is_reported() {
    let decoder = Decoder::new();
    let mut f = delta_frame();
    f.side = text("both");
    f.price = text("x");
    f.sequence = None;
    assert_eq!(decoder.decode(&f).err(), Some(DecodeError::UnknownSide));
    f.side = text("SELL");
    assert_eq!(decoder.decode(&f).err(), Some(DecodeError::InvalidNumber));
    f.price = text("1");
    assert_eq!(decoder.decode(&f).err(), Some(DecodeError::MissingField));
    let snapshot = RawFrame {
        asset_id: text("t"),
        bids: Some(vec![raw("0.5", "1"), raw("0.4", "1.0000001"), raw("x", "1")]),
        asks: Some(vec![raw("bad", "1")]),
        sequence: text("5"),
        timestamp: text("6"),
        ..frame("snapshot")
    };
    assert_eq!(decoder.decode(&snapshot).err(), Some(DecodeError::TooPrecise));
}

#[test]
fn side_names_are_exact() {
    assert_eq!(parse_side("BUY"), Ok(Side::BUY));
    assert_eq!(parse_side("SELL"), Ok(Side::SELL));
    assert_eq!(parse_side("Sell"), Err(DecodeError::UnknownSide));
    assert_eq!(Side::BUY.opposite(), Side::SELL);
    assert_eq!(Side::SELL.opposite(), Side::BUY);
}

#[test]
fn a_bad_frame_does_not_stop_the_next() {
    let decoder = Decoder::new();
    let mut bad = delta_frame();
    bad.price = text("oops");
    assert!(decoder.decode(&bad).is_err());
    assert!(decoder.decode(&delta_frame()).is_ok());
}
