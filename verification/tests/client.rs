use polyfill_rs::{ClobClient, Decimal, OrderArgs, Side};

#[test]
fn test_client_creation() {
    let _client = ClobClient::new("https://test.example.com");
}

#[test]
fn test_order_args_creation() {
    let args = OrderArgs::new(
        "test_token",
        Decimal::from_str("0.75").unwrap(),
        Decimal::from_str("100.0").unwrap(),
        Side::BUY,
    );

    assert_eq!(args.token_id, "test_token");
    assert_eq!(args.side, Side::BUY);
}

#[test]
fn test_order_args_default() {
    let args = OrderArgs::default();
    assert_eq!(args.token_id, "");
    assert_eq!(args.price, Decimal::zero());
    assert_eq!(args.size, Decimal::zero());
    assert_eq!(args.side, Side::BUY);
}
