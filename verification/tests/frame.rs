use polyfill_rs::frame::parse_frame;
use polyfill_rs::types::PriceLevel;
use polyfill_rs::{DecodeError, Decimal, Decoder, Side, StreamMessage};

const DELTA: &str = "{\"event_type\":\"delta\",\"asset_id\":\"test_token\",\"side\":\"BUY\",\"price\":\"0.75\",\"size\":\"100.0\",\"sequence\":\"17\",\"timestamp\":\"1700000000000\"}";

const SNAPSHOT: &str = "{\"event_type\":\"snapshot\",\"asset_id\":\"t\",\"bids\":[{\"price\":\"0.49\",\"size\":\"20\"},{\"price\":\"0.50\",\"size\":\"10\"}],\"asks\":[],\"sequence\":\"5\",\"timestamp\":\"6\"}";

#[test]
fn frame_is_cut_into_fields() {
    let frame = parse_frame(DELTA.as_bytes()).unwrap();
    assert_eq!(frame.event_type.as_deref(), Some("delta"));
    assert_eq!(frame.asset_id.as_deref(), Some("test_token"));
    assert_eq!(frame.side.as_deref(), Some("BUY"));
    assert_eq!(frame.price.as_deref(), Some("0.75"));
    assert_eq!(frame.size.as_deref(), Some("100.0"));
    assert_eq!(frame.sequence.as_deref(), Some("17"));
    assert_eq!(frame.timestamp.as_deref(), Some("1700000000000"));
    assert!(frame.bids.is_none() && frame.asks.is_none() && frame.message.is_none());
    assert!(frame.old_tick_size.is_none() && frame.new_tick_size.is_none());
}

#[test]
fn frame_with_levels_is_cut_into_fields() {
    let frame = parse_frame(SNAPSHOT.as_bytes()).unwrap();
    let bids = frame.bids.unwrap();
    assert_eq!(bids.len(), 2);
    assert_eq!((bids[0].price.as_str(), bids[0].size.as_str()), ("0.49", "20"));
    assert_eq!((bids[1].price.as_str(), bids[1].size.as_str()), ("0.50", "10"));
    assert_eq!(frame.asks.unwrap().len(), 0);
    assert_eq!(frame.sequence.as_deref(), Some("5"));
}

#[test]
fn empty_and_unknown_members() {
    let empty = parse_frame(b"{}").unwrap();
    assert!(empty.event_type.is_none());
    let frame = parse_frame(b"{\"future\":\"x\",\"side\":\"BUY\",\"more\":[],\"side\":\"SELL\"}").unwrap();
    // names that stand for no field are passed over; the later member stands
    assert_eq!(frame.side.as_deref(), Some("SELL"));
    assert!(frame.event_type.is_none());
    let text = parse_frame("{\"message\":\"héllo, wörld: {}[]\"}".as_bytes()).unwrap();
    assert_eq!(text.message.as_deref(), Some("héllo, wörld: {}[]"));
    let blank = parse_frame(b"{\"message\":\"\"}").unwrap();
    assert_eq!(blank.message.as_deref(), Some(""));
}

#[test]
fn truncated_frames_are_faults() {
    let whole = SNAPSHOT.as_bytes();
    for cut in 0..whole.len() {
        assert_eq!(
            parse_frame(&whole[..cut]).err(),
            Some(DecodeError::Truncated),
            "cut at {}",
            cut
        );
    }
    assert!(parse_frame(whole).is_ok());
    let delta = DELTA.as_bytes();
    for cut in 0..delta.len() {
        assert_eq!(parse_frame(&delta[..cut]).err(), Some(DecodeError::Truncated));
    }
}

#[test]
fn malformed_frames_are_faults() {
    let cases: [&str; 17] = [
        "x",
        "[]",
        "{}x",
        "{\"a\":\"b\"}}",
        "{\"a\" :\"b\"}",
        "{\"a\":\"b\" }",
        "{ \"a\":\"b\"}",
        "{\"a\":\"b\";\"c\":\"d\"}",
        "{\"a\":1}",
        "{\"a\":\"b\\n\"}",
        "{a:\"b\"}",
        "{\"a\":\"b\",}",
        "{\"bids\":\"x\"}",
        "{\"price\":[]}",
        "{\"bids\":[{\"size\":\"1\",\"price\":\"1\"}]}",
        "{\"bids\":[{\"price\":\"1\",\"size\":\"1\"},]}",
        "{\"bids\":[{\"price\":\"1\",\"size\":\"1\",\"x\":\"y\"}]}",
    ];
    for case in cases {
        assert_eq!(parse_frame(case.as_bytes()).err(), Some(DecodeError::Malformed), "{}", case);
    }
    assert_eq!(parse_frame(b"{\"a\":\"b\",").err(), Some(DecodeError::Truncated));
}

#[test]
fn invalid_encoding_is_a_fault() {
    let mut bytes = b"{\"message\":\"".to_vec();
    bytes.extend_from_slice(&[0xff, 0xfe]);
    bytes.extend_from_slice(b"\"}");
    assert_eq!(parse_frame(&bytes).err(), Some(DecodeError::InvalidEncoding));
    // a sequence that was cut short inside a character
    let mut cut = b"{\"asset_id\":\"".to_vec();
    cut.extend_from_slice(&"é".as_bytes()[..1]);
    cut.extend_from_slice(b"\"}");
    assert_eq!(parse_frame(&cut).err(), Some(DecodeError::InvalidEncoding));
    let mut level = b"{\"bids\":[{\"price\":\"".to_vec();
    level.push(0x80);
    level.extend_from_slice(b"\",\"size\":\"1\"}]}");
    assert_eq!(parse_frame(&level).err(), Some(DecodeError::InvalidEncoding));
}

#[test]
fn bytes_decode_to_messages() {
    let decoder = Decoder::new();
    match decoder.decode_bytes(DELTA.as_bytes()) {
        Ok(StreamMessage::OrderDelta(d)) => {
            assert_eq!(d.token_id, "test_token");
            assert_eq!(d.side, Side::BUY);
            assert_eq!(d.price, Decimal::from_units(750_000));
            assert_eq!(d.size, Decimal::from_units(100_000_000));
            assert_eq!(d.sequence, 17);
        }
        other => panic!("{:?}", other),
    }
    match decoder.decode_bytes(SNAPSHOT.as_bytes()) {
        Ok(StreamMessage::BookSnapshot(s)) => {
            assert_eq!(
                s.bids[1],
                PriceLevel { price: Decimal::from_units(500_000), size: Decimal::from_units(10_000_000) }
            );
            assert!(s.asks.is_empty());
        }
        other => panic!("{:?}", other),
    }
    assert!(matches!(decoder.decode_bytes(b"{\"event_type\":\"heartbeat\"}"), Ok(StreamMessage::Heartbeat)));
    assert!(matches!(decoder.decode_bytes(b"{\"event_type\":\"novel\"}"), Ok(StreamMessage::Unknown)));
    assert_eq!(decoder.decode_bytes(b"{}").err(), Some(DecodeError::MissingField));
    assert_eq!(decoder.decode_bytes(b"").err(), Some(DecodeError::Truncated));
    assert_eq!(
        decoder.decode_bytes(b"{\"event_type\":\"delta\",\"asset_id\":\"t\",\"side\":\"UP\"}").err(),
        Some(DecodeError::UnknownSide)
    );
    assert_eq!(
        decoder
            .decode_bytes(b"{\"event_type\":\"trade\",\"asset_id\":\"t\",\"side\":\"SELL\",\"price\":\"1e3\"}")
            .err(),
        Some(DecodeError::InvalidNumber)
    );
}
