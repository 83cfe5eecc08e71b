use orderflow_rs::order_book::{
    book_from_snapshot, OrderBook, OrderBookError, OrderBookLevel, OrderBookManager,
    OrderBookSnapshot, OrderBookUpdate, Price,
};
use orderflow_rs::parse::parse_units;
use orderflow_rs::SCALE;

fn pair(p: &str, q: &str) -> (String, String) {
    (p.to_string(), q.to_string())
}

fn snapshot(id: u64, bids: Vec<(String, String)>, asks: Vec<(String, String)>) -> OrderBookSnapshot {
    OrderBookSnapshot { last_update_id: id, bids, asks }
}

fn update(
    first: u64,
    last: u64,
    bids: Vec<(String, String)>,
    asks: Vec<(String, String)>,
) -> OrderBookUpdate {
    OrderBookUpdate {
        symbol: "BTCUSDT".to_string(),
        first_update_id: first,
        final_update_id: last,
        bids,
        asks,
    }
}

#[test]
fn test_parse_units_values() {
    assert_eq!(parse_units("100.0"), Ok(100 * SCALE));
    assert_eq!(parse_units("0"), Ok(0));
    assert_eq!(parse_units("0.00000001"), Ok(1));
    assert_eq!(parse_units("50000.5"), Ok(5_000_050_000_000));
    assert_eq!(parse_units("100."), Ok(100 * SCALE));
    assert_eq!(parse_units(".5"), Ok(50_000_000));
    assert_eq!(parse_units("1000000000"), Ok(100_000_000_000_000_000));
}

#[test]
fn test_parse_units_rejects() {
    assert!(parse_units("").is_err());
    assert!(parse_units(".").is_err());
    assert!(parse_units("abc").is_err());
    assert!(parse_units("1e3").is_err());
    assert!(parse_units("-1.0").is_err());
    assert!(parse_units("+1.0").is_err());
    assert!(parse_units("1.123456789").is_err());
    assert!(parse_units("1000000000.00000001").is_err());
    assert!(parse_units("1.2.3").is_err());
    assert!(parse_units("NaN").is_err());
    assert!(parse_units("inf").is_err());
}

#[test]
fn test_best_bid_ask_spread_mid() {
    let book = book_from_snapshot(
        "BTCUSDT",
        &snapshot(1, vec![pair("100.0", "2.0"), pair("99.0", "1.0")], vec![pair("101.0", "1.0")]),
        7,
    )
    .unwrap();
    assert_eq!(book.best_bid().unwrap().price, Price(100 * SCALE));
    assert_eq!(book.best_ask().unwrap().price, Price(101 * SCALE));
    assert_eq!(book.spread(), Some((1 * SCALE) as i64));
    assert_eq!(book.mid_price(), Some(100 * SCALE + SCALE / 2));
    assert_eq!(book.last_update, 1);
    let (tb, ta) = book.get_top_levels(1);
    assert_eq!(tb.len(), 1);
    assert_eq!(tb[0].price, Price(100 * SCALE));
    assert_eq!(ta[0].price, Price(101 * SCALE));
}

#[test]
fn test_zero_quantity_removes_level() {
    // A tombstone removes a resting level, and removing an absent price is
    // a silent no-op.
    let mut book = book_from_snapshot(
        "BTCUSDT",
        &snapshot(1, vec![pair("100.0", "2.0")], vec![pair("101.0", "1.0")]),
        7,
    )
    .unwrap();
    let d = update(2, 2, vec![pair("100.0", "0"), pair("55.5", "0")], vec![]);
    assert!(book.apply_update(&d, 8).is_ok());
    assert!(book.best_bid().is_none());
    assert_eq!(book.asks.len(), 1);
    assert_eq!(book.last_update, 2);
}

#[test]
fn test_crossed_book_is_invalid() {
    let crossed = book_from_snapshot(
        "BTCUSDT",
        &snapshot(1, vec![pair("101.0", "1.0")], vec![pair("100.0", "1.0")]),
        7,
    )
    .unwrap();
    assert!(!crossed.is_valid());
    let locked = book_from_snapshot(
        "BTCUSDT",
        &snapshot(1, vec![pair("100.0", "1.0")], vec![pair("100.0", "1.0")]),
        7,
    )
    .unwrap();
    assert!(!locked.is_valid());
    let normal = book_from_snapshot(
        "BTCUSDT",
        &snapshot(1, vec![pair("100.0", "1.0")], vec![pair("101.0", "1.0")]),
        7,
    )
    .unwrap();
    assert!(normal.is_valid());
    let empty_side = book_from_snapshot("BTCUSDT", &snapshot(1, vec![], vec![pair("101.0", "1.0")]), 7)
        .unwrap();
    assert!(!empty_side.is_valid());
}

#[test]
fn test_same_changes_applied_twice_idempotent() {
    // Two diffs carrying the same level changes leave the same sides:
    // last-write-wins on each price, not cumulative.
    let snap = snapshot(
        1,
        vec![pair("100.0", "2.0"), pair("99.0", "1.0")],
        vec![pair("101.0", "1.0")],
    );
    let mut book = book_from_snapshot("BTCUSDT", &snap, 7).unwrap();
    let changes = vec![pair("100.0", "5.0"), pair("99.0", "0")];
    let d1 = update(2, 2, changes.clone(), vec![]);
    assert!(book.apply_update(&d1, 9).is_ok());
    let bids_once = book.bids.clone();
    let asks_once = book.asks.clone();
    let d2 = update(3, 3, changes, vec![]);
    assert!(book.apply_update(&d2, 9).is_ok());
    assert_eq!(book.bids, bids_once);
    assert_eq!(book.asks, asks_once);
    assert_eq!(book.last_update, 3);
}

#[test]
fn test_stale_diff_discarded() {
    let mut book = book_from_snapshot(
        "BTCUSDT",
        &snapshot(5, vec![pair("100.0", "2.0")], vec![pair("101.0", "1.0")]),
        7,
    )
    .unwrap();
    let stale = update(4, 5, vec![pair("100.0", "9.0")], vec![]);
    assert!(book.apply_update(&stale, 9).is_ok());
    assert_eq!(book.best_bid().unwrap().quantity, 2 * SCALE);
    assert_eq!(book.last_update, 5);
}

#[test]
fn test_parse_error_leaves_book_untouched() {
    let mut book = book_from_snapshot(
        "BTCUSDT",
        &snapshot(1, vec![pair("100.0", "2.0")], vec![pair("101.0", "1.0")]),
        7,
    )
    .unwrap();
    let bad = update(2, 2, vec![pair("100.0", "3.0"), pair("oops", "1.0")], vec![]);
    assert!(book.apply_update(&bad, 9).is_err());
    assert_eq!(book.best_bid().unwrap().quantity, 2 * SCALE);
    assert_eq!(book.last_update, 1);
}

#[test]
fn test_insert_replace_keeps_order() {
    let mut book = book_from_snapshot(
        "BTCUSDT",
        &snapshot(1, vec![pair("100.0", "2.0"), pair("98.0", "1.0")], vec![pair("101.0", "1.0")]),
        7,
    )
    .unwrap();
    let d = update(2, 2, vec![pair("99.0", "4.0"), pair("100.0", "7.0")], vec![pair("102.0", "3.0")]);
    assert!(book.apply_update(&d, 9).is_ok());
    let bid_prices: Vec<u64> = book.bids.iter().map(|l| l.price.0).collect();
    assert_eq!(bid_prices, vec![100 * SCALE, 99 * SCALE, 98 * SCALE]);
    assert_eq!(book.bids[0].quantity, 7 * SCALE);
    let ask_prices: Vec<u64> = book.asks.iter().map(|l| l.price.0).collect();
    assert_eq!(ask_prices, vec![101 * SCALE, 102 * SCALE]);
}

#[test]
fn test_snapshot_skips_zero_quantities() {
    let book = book_from_snapshot(
        "BTCUSDT",
        &snapshot(1, vec![pair("100.0", "0"), pair("99.0", "1.0")], vec![pair("101.0", "1.0")]),
        7,
    )
    .unwrap();
    assert_eq!(book.bids.len(), 1);
    assert_eq!(book.bids[0].price, Price(99 * SCALE));
}

#[test]
fn test_manager_depth_bound_keeps_best() {
    // After any mutation each side holds at most max_depth levels, and the
    // retained ones are the best priced.
    let manager = OrderBookManager::with_max_depth(2);
    let snap = snapshot(
        1,
        vec![pair("100.0", "1.0"), pair("99.0", "1.0"), pair("98.0", "1.0")],
        vec![pair("101.0", "1.0"), pair("102.0", "1.0"), pair("103.0", "1.0")],
    );
    assert!(manager.initialize_from_snapshot("BTCUSDT", &snap).is_ok());
    let book = manager.get_order_book().unwrap();
    let bid_prices: Vec<u64> = book.bids.iter().map(|l| l.price.0).collect();
    assert_eq!(bid_prices, vec![100 * SCALE, 99 * SCALE]);
    let ask_prices: Vec<u64> = book.asks.iter().map(|l| l.price.0).collect();
    assert_eq!(ask_prices, vec![101 * SCALE, 102 * SCALE]);

    // A diff inserting a better bid still leaves at most two, best first.
    let d = update(2, 2, vec![pair("100.5", "1.0")], vec![]);
    assert!(manager.apply_update(&d).is_ok());
    let book = manager.get_order_book().unwrap();
    let bid_prices: Vec<u64> = book.bids.iter().map(|l| l.price.0).collect();
    assert_eq!(bid_prices, vec![100 * SCALE + SCALE / 2, 100 * SCALE]);
}

#[test]
fn test_manager_not_initialized() {
    let manager = OrderBookManager::new();
    let d = update(2, 2, vec![pair("100.0", "1.0")], vec![]);
    assert!(matches!(manager.apply_update(&d), Err(OrderBookError::NotInitialized)));
    assert!(manager.get_order_book().is_none());
    assert!(!manager.is_ready());
    assert!(manager.get_mid_price().is_none());
    assert!(manager.get_spread().is_none());
}

#[test]
fn test_manager_reads() {
    let manager = OrderBookManager::new();
    let snap = snapshot(1, vec![pair("100.0", "2.0")], vec![pair("101.0", "1.0")]);
    assert!(manager.initialize_from_snapshot("BTCUSDT", &snap).is_ok());
    assert!(manager.is_ready());
    assert_eq!(manager.get_mid_price(), Some(100 * SCALE + SCALE / 2));
    assert_eq!(manager.get_spread(), Some(SCALE as i64));
    let d = update(2, 2, vec![], vec![pair("101.0", "0")]);
    assert!(manager.apply_update(&d).is_ok());
    assert!(!manager.is_ready());
    assert_eq!(manager.get_spread(), None);
}

#[test]
fn test_level_and_price_construction() {
    let level = OrderBookLevel::new(100 * SCALE, 2 * SCALE, 42);
    assert_eq!(level.price, Price::new(100 * SCALE));
    assert_eq!(level.quantity, 2 * SCALE);
    assert_eq!(level.timestamp, 42);
    let book = OrderBook::new("ETHUSDT".to_string());
    assert!(book.bids.is_empty());
    assert!(book.asks.is_empty());
    assert_eq!(book.last_update, 0);
    assert_eq!(book.symbol, "ETHUSDT");
}
