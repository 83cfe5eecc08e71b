use orderflow_rs::config::{parse_method, Config, FairPriceMethod};
use orderflow_rs::{default_precision, library_info};

#[test]
fn test_library_info() {
    let info = library_info();
    assert!(info.contains("orderflow-rs"));
    assert!(info.contains("0.1.0"));
}

#[test]
fn test_default_precision() {
    assert_eq!(default_precision(), 8);
}

#[test]
fn test_parse_method_names() {
    assert_eq!(parse_method("mid-price"), FairPriceMethod::MidPrice);
    assert_eq!(parse_method("MID-PRICE"), FairPriceMethod::MidPrice);
    assert_eq!(
        parse_method("volume-weighted"),
        FairPriceMethod::VolumeWeighted { levels: 5 }
    );
    assert_eq!(
        parse_method("Volume-Weighted"),
        FairPriceMethod::VolumeWeighted { levels: 5 }
    );
    assert_eq!(parse_method("micro-price"), FairPriceMethod::MicroPrice);
    assert_eq!(parse_method("MiCrO-pRiCe"), FairPriceMethod::MicroPrice);
    // Unrecognized input falls back to mid-price.
    assert_eq!(parse_method("anything-else"), FairPriceMethod::MidPrice);
    assert_eq!(parse_method(""), FairPriceMethod::MidPrice);
}

#[test]
fn test_config_new_defaults() {
    let config = Config::new("BTCUSDT".to_string(), "micro-price".to_string());
    assert_eq!(config.symbol, "BTCUSDT");
    assert_eq!(config.calculation_method, FairPriceMethod::MicroPrice);
    assert_eq!(config.websocket.base_url, "wss://stream.binance.com:9443/ws/");
    assert_eq!(config.websocket.reconnect_attempts, 5);
    assert_eq!(config.websocket.reconnect_delay_ms, 1000);
    assert_eq!(config.websocket.ping_interval_ms, 30000);
    assert_eq!(config.order_book.max_depth, 100);
    assert_eq!(config.order_book.update_threshold_us, 1000);
}

#[test]
fn test_config_default() {
    let config = Config::default();
    assert_eq!(config.symbol, "BTCUSDT");
    assert_eq!(config.calculation_method, FairPriceMethod::MidPrice);
}
