use orderflow_rs::config::FairPriceMethod;
use orderflow_rs::fair_price::{FairPriceCalculator, FairPriceMetadata, FairPriceResult, MarketSignal};
use orderflow_rs::order_book::{OrderBook, OrderBookLevel, Price};
use orderflow_rs::SCALE;

fn book_one_level_each(bid: u64, bid_qty: u64, ask: u64, ask_qty: u64) -> OrderBook {
    OrderBook {
        bids: vec![OrderBookLevel::new(bid, bid_qty, 1)],
        asks: vec![OrderBookLevel::new(ask, ask_qty, 1)],
        last_update: 1,
        symbol: "BTCUSDT".to_string(),
    }
}

#[test]
fn test_fair_price_calculation() {
    let mut calculator = FairPriceCalculator::new(FairPriceMethod::MidPrice);
    let mut order_book = OrderBook::new("BTCUSDT".to_string());
    order_book.bids.push(OrderBookLevel::new(50000 * SCALE, 1 * SCALE, 1));
    order_book.asks.push(OrderBookLevel::new(50001 * SCALE, 1 * SCALE, 1));

    let result = calculator.calculate(&order_book);
    assert!(result.is_some());

    let result = result.unwrap();
    assert_eq!(result.fair_price, 5_000_050_000_000);
    assert!(result.confidence > 0);
}

#[test]
fn test_scenario_mid_price() {
    // Snapshot-equivalent book: bids [(100, 2)], asks [(101, 1)].
    let book = book_one_level_each(100 * SCALE, 2 * SCALE, 101 * SCALE, 1 * SCALE);
    let mut calc = FairPriceCalculator::new(FairPriceMethod::MidPrice);
    let res = calc.calculate(&book).unwrap();
    assert_eq!(res.mid_price, 10_050_000_000);
    assert_eq!(res.spread, 100_000_000);
    assert_eq!(res.fair_price, 10_050_000_000);
    assert_eq!(res.confidence, 27_570_423);
    assert_eq!(res.metadata.bid_volume, 2 * SCALE);
    assert_eq!(res.metadata.ask_volume, 1 * SCALE);
    assert_eq!(res.metadata.total_volume, 3 * SCALE);
    assert_eq!(res.metadata.weighted_bid_price, 10_000_000_000);
    assert_eq!(res.metadata.order_flow_imbalance, 33_333_333);
    assert_eq!(res.metadata.depth_ratio, Some(2 * SCALE as u128));
}

#[test]
fn test_scenario_emptied_side_yields_no_result() {
    // Removing the only bid leaves an invalid book: pricing yields nothing.
    let mut book = book_one_level_each(100 * SCALE, 2 * SCALE, 101 * SCALE, 1 * SCALE);
    book.bids.clear();
    let mut calc = FairPriceCalculator::new(FairPriceMethod::MidPrice);
    assert!(calc.calculate(&book).is_none());
}

#[test]
fn test_scenario_volume_weighted() {
    // Volume-weighted over one level per side on bids [(100, 2)],
    // asks [(101, 1)]: fair = (100*2 + 101*1) / 3, confidence = 1 - 1/3.
    let book = book_one_level_each(100 * SCALE, 2 * SCALE, 101 * SCALE, 1 * SCALE);
    let mut calc = FairPriceCalculator::new(FairPriceMethod::VolumeWeighted { levels: 1 });
    let res = calc.calculate(&book).unwrap();
    assert_eq!(res.fair_price, 10_033_333_333);
    assert_eq!(res.confidence, 66_666_667);
    assert_eq!(res.metadata.weighted_bid_price, 10_000_000_000);
    assert_eq!(res.metadata.weighted_ask_price, 10_100_000_000);
}

#[test]
fn test_scenario_micro_price() {
    let book = book_one_level_each(100 * SCALE, 2 * SCALE, 101 * SCALE, 1 * SCALE);
    let mut calc = FairPriceCalculator::new(FairPriceMethod::MicroPrice);
    let res = calc.calculate(&book).unwrap();
    assert_eq!(res.fair_price, 10_069_999_999);
    assert_eq!(res.confidence, 76_371_100);
}

#[test]
fn test_volume_weighted_zero_levels_falls_back() {
    let book = book_one_level_each(100 * SCALE, 2 * SCALE, 101 * SCALE, 1 * SCALE);
    let mut calc = FairPriceCalculator::new(FairPriceMethod::VolumeWeighted { levels: 0 });
    let res = calc.calculate(&book).unwrap();
    assert_eq!(res.fair_price, 10_050_000_000);
    assert_eq!(res.confidence, 0);
}

#[test]
fn test_confidence_in_range_for_degenerate_books() {
    // Confidence stays within [0, SCALE] for every valid book, including a
    // minimal-quantity top level and a wide spread.
    let books = vec![
        book_one_level_each(1, 1, 2, 1),
        book_one_level_each(100 * SCALE, 1, 101 * SCALE, 90 * SCALE),
        book_one_level_each(0, 5 * SCALE, 1, 1),
        book_one_level_each(1 * SCALE, 1, 99_000_000_000_000_000, 1),
    ];
    for method in [
        FairPriceMethod::MidPrice,
        FairPriceMethod::VolumeWeighted { levels: 5 },
        FairPriceMethod::MicroPrice,
    ] {
        for book in &books {
            let mut calc = FairPriceCalculator::new(method);
            let res = calc.calculate(book).unwrap();
            assert!(res.confidence <= SCALE);
        }
    }
}

#[test]
fn test_confidence_degrades_with_imbalance() {
    // Holding total volume and spread fixed, more volume imbalance never
    // raises confidence.
    let balanced = book_one_level_each(100 * SCALE, 3 * SCALE, 101 * SCALE, 3 * SCALE);
    let skewed = book_one_level_each(100 * SCALE, 5 * SCALE, 101 * SCALE, 1 * SCALE);
    let mut mid = FairPriceCalculator::new(FairPriceMethod::MidPrice);
    let cb = mid.calculate(&balanced).unwrap().confidence;
    let cs = mid.calculate(&skewed).unwrap().confidence;
    assert!(cs <= cb);
    let mut vw = FairPriceCalculator::new(FairPriceMethod::VolumeWeighted { levels: 5 });
    let vb = vw.calculate(&balanced).unwrap().confidence;
    let vs = vw.calculate(&skewed).unwrap().confidence;
    assert!(vs <= vb);
}

#[test]
fn test_market_signal_classification() {
    let md = |imbalance: i64| FairPriceMetadata {
        bid_volume: SCALE,
        ask_volume: SCALE,
        total_volume: 2 * SCALE,
        weighted_bid_price: 100 * SCALE,
        weighted_ask_price: 101 * SCALE,
        order_flow_imbalance: imbalance,
        depth_ratio: Some(SCALE as u128),
        spread: SCALE as i64,
    };
    let res = |confidence: u64, imbalance: i64| FairPriceResult {
        fair_price: (100 * SCALE) as i64,
        calculation_method: FairPriceMethod::MidPrice,
        timestamp: 0,
        confidence,
        spread: SCALE as i64,
        mid_price: 100 * SCALE,
        metadata: md(imbalance),
    };
    assert_eq!(res(50_000_000, 90_000_000).market_signal(), MarketSignal::Neutral);
    assert_eq!(res(80_000_000, 40_000_000).market_signal(), MarketSignal::BuyPressure);
    assert_eq!(res(80_000_000, -40_000_000).market_signal(), MarketSignal::SellPressure);
    assert_eq!(res(80_000_000, 10_000_000).market_signal(), MarketSignal::Balanced);
    assert_eq!(res(70_000_000, 30_000_000).market_signal(), MarketSignal::Balanced);
}

#[test]
fn test_summary_rendering() {
    let book = book_one_level_each(100 * SCALE, 2 * SCALE, 101 * SCALE, 1 * SCALE);
    let mut calc = FairPriceCalculator::new(FairPriceMethod::MidPrice);
    let res = calc.calculate(&book).unwrap();
    assert_eq!(
        res.summary(),
        "Fair Price: $100.5000 | Method: Mid-Price | Confidence: 27.5% | Spread: $1.0000 | Flow: 0.33"
    );
}

#[test]
fn test_signal_labels_and_method_names() {
    assert_eq!(MarketSignal::BuyPressure.label(), "Buy Pressure");
    assert_eq!(MarketSignal::SellPressure.label(), "Sell Pressure");
    assert_eq!(MarketSignal::Balanced.label(), "Balanced");
    assert_eq!(MarketSignal::Neutral.label(), "Neutral");
    assert_eq!(FairPriceMethod::MidPrice.method_name(), "Mid-Price");
    assert_eq!(FairPriceMethod::VolumeWeighted { levels: 5 }.method_name(), "Volume-Weighted");
    assert_eq!(FairPriceMethod::MicroPrice.method_name(), "Micro-Price");
}

#[test]
fn test_price_volatility() {
    let mut calc = FairPriceCalculator::new(FairPriceMethod::MidPrice);
    assert!(calc.get_price_volatility(1).is_none());
    let b1 = book_one_level_each(100 * SCALE, 1 * SCALE, 101 * SCALE, 1 * SCALE);
    let b2 = book_one_level_each(101 * SCALE, 1 * SCALE, 102 * SCALE, 1 * SCALE);
    calc.calculate(&b1).unwrap();
    calc.calculate(&b2).unwrap();
    // Fair prices recorded: 100.5 and 101.5; the population standard
    // deviation of the pair is half their distance.
    assert_eq!(calc.get_price_volatility(2), Some(50_000_000));
    assert_eq!(calc.get_price_volatility(3), None);
    assert_eq!(calc.get_price_volatility(0), None);
    // A window of one has zero deviation.
    assert_eq!(calc.get_price_volatility(1), Some(0));
}

#[test]
fn test_price_trend() {
    let mut calc = FairPriceCalculator::new(FairPriceMethod::MidPrice);
    let b1 = book_one_level_each(100 * SCALE, 1 * SCALE, 101 * SCALE, 1 * SCALE);
    let b2 = book_one_level_each(101 * SCALE, 1 * SCALE, 102 * SCALE, 1 * SCALE);
    calc.calculate(&b1).unwrap();
    assert!(calc.get_price_trend(2).is_none());
    calc.calculate(&b2).unwrap();
    // (101.5 - 100.5) / 100.5, scaled.
    assert_eq!(calc.get_price_trend(2), Some(995_024));
    assert!(calc.get_price_trend(1).is_none());
    assert!(calc.get_price_trend(3).is_none());
    // Falling prices give a negative trend: (100.5 - 101.5) / 101.5.
    calc.calculate(&b1).unwrap();
    assert_eq!(calc.get_price_trend(2), Some(-985_221));
}

#[test]
fn test_price_trend_negative_oldest() {
    // The micro-price flow adjustment can push a fair price below zero: a
    // tiny bid at price zero against a deep, far ask. The trend over a
    // window whose oldest value is negative is still defined.
    let mut calc = FairPriceCalculator::new(FairPriceMethod::MicroPrice);
    let skewed = book_one_level_each(0, 1, 100 * SCALE, 100_000_000_000_000_000);
    let res = calc.calculate(&skewed).unwrap();
    assert_eq!(res.fair_price, -999_999_990);
    calc.set_method(FairPriceMethod::MidPrice);
    let normal = book_one_level_each(100 * SCALE, 1 * SCALE, 101 * SCALE, 1 * SCALE);
    calc.calculate(&normal).unwrap();
    // (10.05 - (-10.0)) relative to a negative base of about -10.0.
    assert_eq!(calc.get_price_trend(2), Some(-1_105_000_010));
}

#[test]
fn test_price_trend_zero_oldest_absent() {
    // A best bid at price zero against an ask one unit up mids to zero; the
    // relative change from a zero base is undefined, so the trend is absent.
    let mut calc = FairPriceCalculator::new(FairPriceMethod::MidPrice);
    let zero_mid = book_one_level_each(0, 1 * SCALE, 1, 1 * SCALE);
    let res = calc.calculate(&zero_mid).unwrap();
    assert_eq!(res.fair_price, 0);
    let normal = book_one_level_each(100 * SCALE, 1 * SCALE, 101 * SCALE, 1 * SCALE);
    calc.calculate(&normal).unwrap();
    assert!(calc.get_price_trend(2).is_none());
}

#[test]
fn test_set_and_get_method() {
    let mut calc = FairPriceCalculator::new(FairPriceMethod::MidPrice);
    assert_eq!(*calc.get_method(), FairPriceMethod::MidPrice);
    calc.set_method(FairPriceMethod::MicroPrice);
    assert_eq!(*calc.get_method(), FairPriceMethod::MicroPrice);
}
