use orderflow_rs::config::{FairPriceMethod, WebSocketConfig};
use orderflow_rs::fair_price::FairPriceCalculator;
use orderflow_rs::order_book::{OrderBookManager, OrderBookSnapshot, OrderBookUpdate};
use orderflow_rs::websocket::{
    collect_stats, process_update, StreamSynchronizer, SyncAction, SyncEvent, SyncState,
    UpdateOutcome,
};
use orderflow_rs::SCALE;

fn ws_config(attempts: u32, delay: u64) -> WebSocketConfig {
    WebSocketConfig {
        base_url: "wss://stream.binance.com:9443/ws/".to_string(),
        reconnect_attempts: attempts,
        reconnect_delay_ms: delay,
        ping_interval_ms: 30000,
    }
}

fn pair(p: &str, q: &str) -> (String, String) {
    (p.to_string(), q.to_string())
}

#[test]
fn test_reconnect_exhaustion_after_three_attempts() {
    // A transport that always fails to connect: with three attempts and a
    // fixed backoff, exactly three attempts run, a sleep between each pair,
    // and the machine then fails for good.
    let mut sync = StreamSynchronizer::new(&ws_config(3, 1000));
    assert_eq!(sync.state(), SyncState::Idle);
    assert_eq!(sync.step(SyncEvent::Start), SyncAction::FetchSnapshot);
    assert_eq!(sync.state(), SyncState::Snapshotting);

    // Attempt 1.
    assert_eq!(sync.step(SyncEvent::SnapshotOk), SyncAction::OpenStream);
    assert_eq!(sync.step(SyncEvent::ConnectFailed), SyncAction::Sleep(1000));
    assert_eq!(sync.state(), SyncState::Closed);
    assert_eq!(sync.attempts(), 1);

    // Attempt 2.
    assert_eq!(sync.step(SyncEvent::SleepDone), SyncAction::FetchSnapshot);
    assert_eq!(sync.step(SyncEvent::SnapshotOk), SyncAction::OpenStream);
    assert_eq!(sync.step(SyncEvent::ConnectFailed), SyncAction::Sleep(1000));
    assert_eq!(sync.attempts(), 2);

    // Attempt 3: exhaustion is terminal.
    assert_eq!(sync.step(SyncEvent::SleepDone), SyncAction::FetchSnapshot);
    assert_eq!(sync.step(SyncEvent::SnapshotOk), SyncAction::OpenStream);
    assert_eq!(sync.step(SyncEvent::ConnectFailed), SyncAction::ReportFailure);
    assert_eq!(sync.state(), SyncState::Failed);
    assert_eq!(sync.attempts(), 3);

    // Failed is absorbing.
    assert_eq!(sync.step(SyncEvent::Start), SyncAction::ReportFailure);
    assert_eq!(sync.state(), SyncState::Failed);
}

#[test]
fn test_streaming_frame_dispatch() {
    let mut sync = StreamSynchronizer::new(&ws_config(5, 1000));
    sync.step(SyncEvent::Start);
    sync.step(SyncEvent::SnapshotOk);
    assert_eq!(sync.step(SyncEvent::ConnectOk), SyncAction::AwaitEvent);
    assert_eq!(sync.state(), SyncState::Streaming);

    assert_eq!(sync.step(SyncEvent::FrameDepthUpdate), SyncAction::ProcessUpdate);
    assert_eq!(
        sync.step(SyncEvent::FramePing(vec![1, 2, 3])),
        SyncAction::SendPong(vec![1, 2, 3])
    );
    assert_eq!(sync.step(SyncEvent::SendOk), SyncAction::AwaitEvent);
    assert_eq!(sync.step(SyncEvent::PingTick), SyncAction::SendPing);
    assert_eq!(sync.step(SyncEvent::FrameOther), SyncAction::AwaitEvent);
    assert_eq!(sync.step(SyncEvent::FramePong), SyncAction::AwaitEvent);
    assert_eq!(sync.state(), SyncState::Streaming);

    // A server close forces a retry with backoff.
    assert_eq!(sync.step(SyncEvent::FrameClose), SyncAction::Sleep(1000));
    assert_eq!(sync.state(), SyncState::Closed);
}

#[test]
fn test_snapshot_failure_spends_attempt() {
    let mut sync = StreamSynchronizer::new(&ws_config(1, 250));
    sync.step(SyncEvent::Start);
    assert_eq!(sync.step(SyncEvent::SnapshotFailed), SyncAction::ReportFailure);
    assert_eq!(sync.state(), SyncState::Failed);
    assert_eq!(sync.attempts(), 1);
}

#[test]
fn test_send_failure_is_transport_failure() {
    let mut sync = StreamSynchronizer::new(&ws_config(4, 50));
    sync.step(SyncEvent::Start);
    sync.step(SyncEvent::SnapshotOk);
    sync.step(SyncEvent::ConnectOk);
    sync.step(SyncEvent::PingTick);
    assert_eq!(sync.step(SyncEvent::SendFailed), SyncAction::Sleep(50));
    assert_eq!(sync.state(), SyncState::Closed);
}

fn ready_manager() -> OrderBookManager {
    let manager = OrderBookManager::new();
    let snap = OrderBookSnapshot {
        last_update_id: 1,
        bids: vec![pair("100.0", "2.0")],
        asks: vec![pair("101.0", "1.0")],
    };
    manager.initialize_from_snapshot("BTCUSDT", &snap).unwrap();
    manager
}

#[test]
fn test_process_update_symbol_mismatch() {
    let manager = ready_manager();
    let mut calc = FairPriceCalculator::new(FairPriceMethod::MidPrice);
    let update = OrderBookUpdate {
        symbol: "ETHUSDT".to_string(),
        first_update_id: 2,
        final_update_id: 2,
        bids: vec![],
        asks: vec![],
    };
    let symbol = "BTCUSDT".to_string();
    assert!(matches!(
        process_update(&manager, &mut calc, &symbol, &update),
        UpdateOutcome::SymbolMismatch
    ));
    // The mismatched diff was not applied.
    assert_eq!(manager.get_order_book().unwrap().last_update, 1);
}

#[test]
fn test_process_update_prices_book() {
    let manager = ready_manager();
    let mut calc = FairPriceCalculator::new(FairPriceMethod::MidPrice);
    let update = OrderBookUpdate {
        symbol: "BTCUSDT".to_string(),
        first_update_id: 2,
        final_update_id: 2,
        bids: vec![pair("100.5", "1.0")],
        asks: vec![],
    };
    let symbol = "BTCUSDT".to_string();
    match process_update(&manager, &mut calc, &symbol, &update) {
        UpdateOutcome::Priced(res) => {
            // New best bid 100.5 against ask 101: mid is 100.75.
            assert_eq!(res.mid_price, 10_075_000_000);
            assert_eq!(res.fair_price, 10_075_000_000);
            assert!(res.confidence <= SCALE);
        },
        other => panic!("expected a priced outcome, got {:?}", other),
    }
    assert_eq!(manager.get_order_book().unwrap().last_update, 2);
}

#[test]
fn test_process_update_invalid_book_is_soft_skip() {
    let manager = ready_manager();
    let mut calc = FairPriceCalculator::new(FairPriceMethod::MidPrice);
    let update = OrderBookUpdate {
        symbol: "BTCUSDT".to_string(),
        first_update_id: 2,
        final_update_id: 2,
        bids: vec![pair("100.0", "0")],
        asks: vec![],
    };
    let symbol = "BTCUSDT".to_string();
    assert!(matches!(
        process_update(&manager, &mut calc, &symbol, &update),
        UpdateOutcome::NoResult
    ));
}

#[test]
fn test_collect_stats() {
    let manager = ready_manager();
    let symbol = "BTCUSDT".to_string();
    let stats = collect_stats(&manager, &symbol);
    assert!(stats.is_order_book_ready);
    assert_eq!(stats.current_mid_price, Some(10_050_000_000));
    assert_eq!(stats.current_spread, Some(100_000_000));
    assert_eq!(stats.symbol, "BTCUSDT");

    let empty = OrderBookManager::new();
    let stats = collect_stats(&empty, &symbol);
    assert!(!stats.is_order_book_ready);
    assert_eq!(stats.current_mid_price, None);
}
