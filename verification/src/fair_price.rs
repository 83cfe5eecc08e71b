//! The fair-price engine: three estimators over a valid order book, shared
//! top-of-book metadata, a confidence score in `[0, SCALE]`, and a bounded
//! history of prior fair prices for volatility and trend queries.
//!
//! All formulas are fixed-point integer arithmetic at scale [`SCALE`]; every
//! division is an explicit floor, so each result is exactly the value its
//! spec function names.

use vstd::prelude::*;
use vstd::arithmetic::div_mod::{
    lemma_div_is_ordered, lemma_div_multiples_vanish, lemma_div_pos_is_pos,
};
use crate::{DEPTH_LIMIT, MAX_UNITS, SCALE};
use crate::config::FairPriceMethod;
use crate::order_book::{lemma_take_side_wf, side_wf, OrderBook, OrderBookLevel};

verus! {

/// Largest magnitude a fair price can take: a micro-price is nudged by at
/// most one spread, and prices and spreads stay at or below [`MAX_UNITS`].
pub const FAIR_BOUND: i64 = 200_000_000_000_000_000;

/// Aggregate quantity over a run of levels.
pub open spec fn sum_qty(s: Seq<OrderBookLevel>) -> int
    decreases s.len(),
{
    if s.len() == 0 {
        0
    } else {
        sum_qty(s.drop_last()) + s.last().quantity
    }
}

/// Aggregate price-times-quantity over a run of levels.
pub open spec fn sum_pq(s: Seq<OrderBookLevel>) -> int
    decreases s.len(),
{
    if s.len() == 0 {
        0
    } else {
        sum_pq(s.drop_last()) + s.last().price.0 * s.last().quantity
    }
}

/// The up-to-`n` best levels of a side.
pub open spec fn spec_top(s: Seq<OrderBookLevel>, n: int) -> Seq<OrderBookLevel> {
    if n <= s.len() {
        s.take(n)
    } else {
        s
    }
}

pub open spec fn levels_in_range(s: Seq<OrderBookLevel>) -> bool {
    forall|i: int|
        0 <= i < s.len() ==> (#[trigger] s[i]).price.0 <= MAX_UNITS && s[i].quantity <= MAX_UNITS
}

pub open spec fn abs_diff(a: int, b: int) -> int {
    if a >= b {
        a - b
    } else {
        b - a
    }
}

pub proof fn lemma_sum_bounds(s: Seq<OrderBookLevel>)
    requires
        levels_in_range(s),
    ensures
        0 <= sum_qty(s) <= s.len() * (MAX_UNITS as int),
        0 <= sum_pq(s) <= sum_qty(s) * (MAX_UNITS as int),
    decreases s.len(),
{
    if s.len() > 0 {
        assert forall|i: int| 0 <= i < s.drop_last().len() implies (#[trigger] s.drop_last()[
            i]).price.0 <= MAX_UNITS && s.drop_last()[i].quantity <= MAX_UNITS by {
            assert(s.drop_last()[i] == s[i]);
        }
        lemma_sum_bounds(s.drop_last());
        let q = s.last().quantity as int;
        let p = s.last().price.0 as int;
        assert(s.last() == s[s.len() - 1]);
        assert(p * q <= (MAX_UNITS as int) * q) by (nonlinear_arith)
            requires
                0 <= p <= MAX_UNITS as int,
                q >= 0;
        assert(sum_qty(s) <= s.len() * (MAX_UNITS as int)) by (nonlinear_arith)
            requires
                sum_qty(s) == sum_qty(s.drop_last()) + q,
                sum_qty(s.drop_last()) <= (s.len() - 1) * (MAX_UNITS as int),
                q <= MAX_UNITS as int,
                s.len() >= 1;
        assert(sum_pq(s) <= sum_qty(s) * (MAX_UNITS as int)) by (nonlinear_arith)
            requires
                sum_pq(s) == sum_pq(s.drop_last()) + p * q,
                sum_pq(s.drop_last()) <= sum_qty(s.drop_last()) * (MAX_UNITS as int),
                p * q <= (MAX_UNITS as int) * q,
                sum_qty(s) == sum_qty(s.drop_last()) + q;
        assert(0 <= p * q) by (nonlinear_arith)
            requires
                p >= 0,
                q >= 0;
    }
}

pub proof fn lemma_sum_qty_pos(s: Seq<OrderBookLevel>)
    requires
        forall|i: int| 0 <= i < s.len() ==> (#[trigger] s[i]).quantity >= 1,
    ensures
        sum_qty(s) >= s.len(),
    decreases s.len(),
{
    if s.len() > 0 {
        assert forall|i: int| 0 <= i < s.drop_last().len() implies (#[trigger] s.drop_last()[
            i]).quantity >= 1 by {
            assert(s.drop_last()[i] == s[i]);
        }
        lemma_sum_qty_pos(s.drop_last());
        assert(s.last() == s[s.len() - 1]);
    }
}

/// Division keeps a quotient at or below the cofactor: `x <= b*c` gives
/// `x/c <= b`.
pub proof fn lemma_div_le(x: int, b: int, c: int)
    requires
        0 <= x,
        0 < c,
        x <= b * c,
    ensures
        0 <= x / c <= b,
{
    lemma_div_pos_is_pos(x, c);
    lemma_div_is_ordered(x, b * c, c);
    lemma_div_multiples_vanish(b, c);
    assert(b * c == c * b) by (nonlinear_arith);
    assert((c * b) / c == b);
}

/// A part-over-whole ratio scaled by `SCALE` stays within `[0, SCALE]`.
pub proof fn lemma_ratio_bounds(x: int, d: int)
    requires
        0 <= x <= d,
        0 < d,
    ensures
        0 <= x * (SCALE as int) / d <= SCALE as int,
{
    assert(x * (SCALE as int) <= (SCALE as int) * d) by (nonlinear_arith)
        requires
            0 <= x <= d;
    lemma_div_le(x * (SCALE as int), SCALE as int, d);
}

/// Top-of-book statistics over the five best levels of each side.
#[derive(Debug, Clone, Copy, PartialEq, Eq, Structural)]
pub struct FairPriceMetadata {
    pub bid_volume: u64,
    pub ask_volume: u64,
    pub total_volume: u64,
    pub weighted_bid_price: u64,
    pub weighted_ask_price: u64,
    /// Scaled to `[-SCALE, SCALE]`; negative means sell pressure.
    pub order_flow_imbalance: i64,
    /// Bid volume over ask volume, scaled; `None` when ask volume is zero.
    pub depth_ratio: Option<u128>,
    pub spread: i64,
}

pub open spec fn spec_mid(book: OrderBook) -> int {
    (book.bids@[0].price.0 + book.asks@[0].price.0) / 2
}

pub open spec fn spec_spread(book: OrderBook) -> int {
    book.asks@[0].price.0 - book.bids@[0].price.0
}

pub open spec fn spec_metadata(book: OrderBook, spread: int) -> FairPriceMetadata {
    let tb = spec_top(book.bids@, 5);
    let ta = spec_top(book.asks@, 5);
    let bv = sum_qty(tb);
    let av = sum_qty(ta);
    let tv = bv + av;
    FairPriceMetadata {
        bid_volume: bv as u64,
        ask_volume: av as u64,
        total_volume: tv as u64,
        weighted_bid_price: (if bv > 0 {
            sum_pq(tb) / bv
        } else {
            0
        }) as u64,
        weighted_ask_price: (if av > 0 {
            sum_pq(ta) / av
        } else {
            0
        }) as u64,
        order_flow_imbalance: (if tv > 0 {
            if bv >= av {
                (bv - av) * (SCALE as int) / tv
            } else {
                -((av - bv) * (SCALE as int) / tv)
            }
        } else {
            0
        }) as i64,
        depth_ratio: if av > 0 {
            Some(((bv * (SCALE as int)) / av) as u128)
        } else {
            None
        },
        spread: spread as i64,
    }
}

/// Mid-price confidence: a 0.4/0.3/0.3 blend of volume balance, liquidity
/// magnitude and spread tightness, floored at a tenth.
pub open spec fn spec_mid_confidence(md: FairPriceMetadata) -> int {
    if md.total_volume == 0 {
        0
    } else {
        let vb = SCALE - abs_diff(md.bid_volume as int, md.ask_volume as int) * (SCALE as int)
            / (md.total_volume as int);
        let lf = (md.total_volume as int) * (SCALE as int) / (md.total_volume as int + 100 * (
        SCALE as int));
        let sf = if md.spread > 0 {
            (SCALE as int) * (SCALE as int) / ((SCALE as int) + (md.spread as int) * 1000)
        } else {
            0
        };
        let c = (vb * 4 + lf * 3 + sf * 3) / 10;
        if c >= SCALE as int / 10 {
            c
        } else {
            SCALE as int / 10
        }
    }
}

/// One minus the scaled volume imbalance, floored at a tenth: the
/// confidence of the volume-weighted estimator.
pub open spec fn spec_balance_confidence(bv: int, av: int) -> int {
    let tv = bv + av;
    let c = SCALE - abs_diff(bv, av) * (SCALE as int) / tv;
    if c >= SCALE as int / 10 {
        c
    } else {
        SCALE as int / 10
    }
}

/// Volume-weighted estimator over the top `levels` of each side: the fair
/// price blends the per-side weighted averages by their volumes; confidence
/// is one minus the volume imbalance, floored at a tenth. An empty window or
/// zero volume falls back to the mid price with confidence zero.
pub open spec fn spec_vw(book: OrderBook, levels: int) -> (int, int) {
    let mid = spec_mid(book);
    let tb = spec_top(book.bids@, levels);
    let ta = spec_top(book.asks@, levels);
    if tb.len() == 0 || ta.len() == 0 {
        (mid, 0)
    } else {
        let bv = sum_qty(tb);
        let av = sum_qty(ta);
        if bv == 0 || av == 0 {
            (mid, 0)
        } else {
            let wb = sum_pq(tb) / bv;
            let wa = sum_pq(ta) / av;
            let tv = bv + av;
            let fair = (wb * bv + wa * av) / tv;
            (fair, spec_balance_confidence(bv, av))
        }
    }
}

/// Micro-price estimator: best-level quantities weight the opposite prices,
/// nudged by a tenth of the flow-scaled spread; confidence blends quantity
/// balance (0.7) with spread tightness against the mid (0.3), floored at a
/// tenth.
pub open spec fn spec_micro(book: OrderBook, md: FairPriceMetadata) -> (int, int) {
    let mid = spec_mid(book);
    let spread = spec_spread(book);
    if book.bids@.len() == 0 || book.asks@.len() == 0 {
        (mid, 0)
    } else {
        let bp = book.bids@[0].price.0 as int;
        let ap = book.asks@[0].price.0 as int;
        let bq = book.bids@[0].quantity as int;
        let aq = book.asks@[0].quantity as int;
        if bq + aq == 0 {
            (mid, 0)
        } else {
            let micro = (ap * bq + bp * aq) / (bq + aq);
            let imb = md.order_flow_imbalance as int;
            let adj = if imb >= 0 {
                imb * spread / (10 * (SCALE as int))
            } else {
                -((-imb) * spread / (10 * (SCALE as int)))
            };
            let fair = micro + adj;
            let qb = SCALE - abs_diff(bq, aq) * (SCALE as int) / (bq + aq);
            let st = (SCALE as int) * mid / (mid + spread);
            let c = (qb * 7 + st * 3) / 10;
            (fair, if c >= SCALE as int / 10 {
                c
            } else {
                SCALE as int / 10
            })
        }
    }
}

/// One computed fair price with its confidence, context and metadata.
#[derive(Debug, Clone, Copy, PartialEq, Eq, Structural)]
pub struct FairPriceResult {
    pub fair_price: i64,
    pub calculation_method: FairPriceMethod,
    pub timestamp: u64,
    /// Scaled to `[0, SCALE]`.
    pub confidence: u64,
    pub spread: i64,
    pub mid_price: u64,
    pub metadata: FairPriceMetadata,
}

/// The fair price and confidence one computation yields on a valid book.
pub open spec fn spec_fair(method: FairPriceMethod, book: OrderBook) -> (int, int) {
    match method {
        FairPriceMethod::MidPrice => (
            spec_mid(book),
            spec_mid_confidence(spec_metadata(book, spec_spread(book))),
        ),
        FairPriceMethod::VolumeWeighted { levels } => spec_vw(book, levels as int),
        FairPriceMethod::MicroPrice => spec_micro(
            book,
            spec_metadata(book, spec_spread(book)),
        ),
    }
}

/// The full result one computation yields on a valid book, stamped `ts`.
pub open spec fn spec_result(method: FairPriceMethod, book: OrderBook, ts: u64) -> FairPriceResult {
    FairPriceResult {
        fair_price: spec_fair(method, book).0 as i64,
        calculation_method: method,
        timestamp: ts,
        confidence: spec_fair(method, book).1 as u64,
        spread: spec_spread(book) as i64,
        mid_price: spec_mid(book) as u64,
        metadata: spec_metadata(book, spec_spread(book)),
    }
}

/// The bounded fair-price history after one more value: capacity one
/// thousand, oldest evicted first.
pub open spec fn spec_push_history(h: Seq<i64>, v: i64) -> Seq<i64> {
    if h.len() >= 1000 {
        h.push(v).skip(1)
    } else {
        h.push(v)
    }
}

fn sum_quantities(v: &Vec<OrderBookLevel>) -> (r: u128)
    requires
        v@.len() <= DEPTH_LIMIT,
        levels_in_range(v@),
    ensures
        r as int == sum_qty(v@),
{
    let mut r: u128 = 0;
    let mut i: usize = 0;
    while i < v.len()
        invariant
            i <= v@.len() <= DEPTH_LIMIT,
            levels_in_range(v@),
            r as int == sum_qty(v@.take(i as int)),
            r as int <= (i as int) * (MAX_UNITS as int),
        decreases v@.len() - i,
    {
        proof {
            let t = v@.take(i as int + 1);
            assert(t.drop_last() =~= v@.take(i as int));
            assert(t.last() == v@[i as int]);
            assert((r as int) + (v@[i as int].quantity as int) <= (i as int + 1) * (
            MAX_UNITS as int)) by (nonlinear_arith)
                requires
                    r as int <= (i as int) * (MAX_UNITS as int),
                    v@[i as int].quantity <= MAX_UNITS,
                    i >= 0;
            assert((i as int + 1) * (MAX_UNITS as int) <= 10_000 * (MAX_UNITS as int))
                by (nonlinear_arith)
                requires
                    i as int + 1 <= 10_000;
        }
        r = r + (v[i].quantity as u128);
        i += 1;
    }
    proof {
        assert(v@.take(v@.len() as int) =~= v@);
    }
    r
}

fn sum_price_quantities(v: &Vec<OrderBookLevel>) -> (r: u128)
    requires
        v@.len() <= DEPTH_LIMIT,
        levels_in_range(v@),
    ensures
        r as int == sum_pq(v@),
{
    let mut r: u128 = 0;
    let mut i: usize = 0;
    while i < v.len()
        invariant
            i <= v@.len() <= DEPTH_LIMIT,
            levels_in_range(v@),
            r as int == sum_pq(v@.take(i as int)),
            r as int <= (i as int) * ((MAX_UNITS as int) * (MAX_UNITS as int)),
        decreases v@.len() - i,
    {
        proof {
            let t = v@.take(i as int + 1);
            assert(t.drop_last() =~= v@.take(i as int));
            assert(t.last() == v@[i as int]);
            assert((v@[i as int].price.0 as int) * (v@[i as int].quantity as int) <= (
            MAX_UNITS as int) * (MAX_UNITS as int)) by (nonlinear_arith)
                requires
                    0 <= v@[i as int].price.0 <= MAX_UNITS,
                    0 <= v@[i as int].quantity <= MAX_UNITS;
            assert((r as int) + (MAX_UNITS as int) * (MAX_UNITS as int) <= (i as int + 1) * ((
            MAX_UNITS as int) * (MAX_UNITS as int))) by (nonlinear_arith)
                requires
                    r as int <= (i as int) * ((MAX_UNITS as int) * (MAX_UNITS as int)),
                    i >= 0;
            assert((i as int + 1) * ((MAX_UNITS as int) * (MAX_UNITS as int)) <= 10_000 * ((
            MAX_UNITS as int) * (MAX_UNITS as int))) by (nonlinear_arith)
                requires
                    i as int + 1 <= 10_000;
        }
        r = r + (v[i].price.0 as u128) * (v[i].quantity as u128);
        i += 1;
    }
    proof {
        assert(v@.take(v@.len() as int) =~= v@);
    }
    r
}

/// Classification of one fair-price result by confidence and order flow.
#[derive(Debug, Clone, Copy, PartialEq, Eq, Structural)]
pub enum MarketSignal {
    BuyPressure,
    SellPressure,
    Balanced,
    Neutral,
}

impl MarketSignal {
    /// Short human-readable label of the signal.
    pub fn label(&self) -> (r: String)
        ensures
            self is BuyPressure ==> r@ == "Buy Pressure"@,
            self is SellPressure ==> r@ == "Sell Pressure"@,
            self is Balanced ==> r@ == "Balanced"@,
            self is Neutral ==> r@ == "Neutral"@,
    {
        match self {
            MarketSignal::BuyPressure => "Buy Pressure".to_owned(),
            MarketSignal::SellPressure => "Sell Pressure".to_owned(),
            MarketSignal::Balanced => "Balanced".to_owned(),
            MarketSignal::Neutral => "Neutral".to_owned(),
        }
    }
}

/// Relies on std's `format!`: lays the given signs, numbers and name out as
/// the one-line summary. Nothing is promised of the rendering.
#[verifier::external_body]
fn fmt_summary(
    fair_sign: &str,
    fair_int: u64,
    fair_frac: u64,
    method: &String,
    conf_pct: u64,
    conf_tenth: u64,
    spread_sign: &str,
    spread_int: u64,
    spread_frac: u64,
    flow_sign: &str,
    flow_int: u64,
    flow_frac: u64,
) -> String {
    format!(
        "Fair Price: ${}{}.{:04} | Method: {} | Confidence: {}.{}% | Spread: ${}{}.{:04} | Flow: {}{}.{:02}",
        fair_sign, fair_int, fair_frac, method, conf_pct, conf_tenth, spread_sign, spread_int,
        spread_frac, flow_sign, flow_int, flow_frac,
    )
}

impl FairPriceResult {
    /// Neutral below 0.7 confidence; otherwise buy pressure above 0.3 flow
    /// imbalance, sell pressure below -0.3, and balanced in between.
    pub open spec fn spec_signal(self) -> MarketSignal {
        if (self.confidence as int) < 7 * (SCALE as int) / 10 {
            MarketSignal::Neutral
        } else if (self.metadata.order_flow_imbalance as int) > 3 * (SCALE as int) / 10 {
            MarketSignal::BuyPressure
        } else if (self.metadata.order_flow_imbalance as int) < -(3 * (SCALE as int) / 10) {
            MarketSignal::SellPressure
        } else {
            MarketSignal::Balanced
        }
    }

    /// One-line human-readable summary: fair price, method, confidence,
    /// spread and order flow, the fixed-point values printed with four
    /// decimals.
    pub fn summary(&self) -> String {
        let fair = self.fair_price as i128;
        let fair_abs: u64 = if fair >= 0 {
            fair as u64
        } else {
            (-fair) as u64
        };
        let fair_sign = if fair < 0 {
            "-"
        } else {
            ""
        };
        let spread = self.spread as i128;
        let spread_abs: u64 = if spread >= 0 {
            spread as u64
        } else {
            (-spread) as u64
        };
        let spread_sign = if spread < 0 {
            "-"
        } else {
            ""
        };
        let flow = self.metadata.order_flow_imbalance as i128;
        let flow_abs: u64 = if flow >= 0 {
            flow as u64
        } else {
            (-flow) as u64
        };
        let flow_sign = if flow < 0 {
            "-"
        } else {
            ""
        };
        let conf_tenths = (((self.confidence as u128) * 1000) / (SCALE as u128)) as u64;
        let method = self.calculation_method.method_name();
        fmt_summary(
            fair_sign,
            fair_abs / SCALE,
            (fair_abs % SCALE) / 10_000,
            &method,
            conf_tenths / 10,
            conf_tenths % 10,
            spread_sign,
            spread_abs / SCALE,
            (spread_abs % SCALE) / 10_000,
            flow_sign,
            flow_abs / SCALE,
            (flow_abs % SCALE) / 1_000_000,
        )
    }

    /// Classifies this result by confidence and order-flow imbalance.
    pub fn market_signal(&self) -> (r: MarketSignal)
        ensures
            r == self.spec_signal(),
    {
        if self.confidence < 70_000_000 {
            MarketSignal::Neutral
        } else if self.metadata.order_flow_imbalance > 30_000_000 {
            MarketSignal::BuyPressure
        } else if self.metadata.order_flow_imbalance < -30_000_000 {
            MarketSignal::SellPressure
        } else {
            MarketSignal::Balanced
        }
    }
}

/// Stateful fair-price engine: the configured method and a bounded history
/// of prior results.
pub struct FairPriceCalculator {
    method: FairPriceMethod,
    price_history: Vec<i64>,
    max_history: usize,
}

impl FairPriceCalculator {
    /// History capacity is one thousand and every recorded value is bounded.
    pub closed spec fn wf(self) -> bool {
        &&& self.max_history == 1000
        &&& self.price_history@.len() <= 1000
        &&& forall|i: int|
            0 <= i < self.price_history@.len() ==> -FAIR_BOUND <= #[trigger] self.price_history@[i]
                <= FAIR_BOUND
    }

    pub closed spec fn spec_method(self) -> FairPriceMethod {
        self.method
    }

    pub closed spec fn spec_history(self) -> Seq<i64> {
        self.price_history@
    }

    pub fn new(method: FairPriceMethod) -> (r: Self)
        ensures
            r.wf(),
            r.spec_method() == method,
            r.spec_history() == Seq::<i64>::empty(),
    {
        let price_history: Vec<i64> = Vec::new();
        proof {
            assert(price_history@ =~= Seq::<i64>::empty());
        }
        FairPriceCalculator { method, price_history, max_history: 1000 }
    }

    pub fn set_method(&mut self, method: FairPriceMethod)
        requires
            old(self).wf(),
        ensures
            final(self).wf(),
            final(self).spec_method() == method,
            final(self).spec_history() == old(self).spec_history(),
    {
        self.method = method;
    }

    pub fn get_method(&self) -> (r: &FairPriceMethod)
        ensures
            *r == self.spec_method(),
    {
        &self.method
    }

    /// Records one fair price, evicting the oldest past one thousand.
    fn update_price_history(&mut self, price: i64)
        requires
            old(self).wf(),
            -FAIR_BOUND <= price <= FAIR_BOUND,
        ensures
            final(self).wf(),
            final(self).spec_method() == old(self).spec_method(),
            final(self).spec_history() == spec_push_history(old(self).spec_history(), price),
    {
        let ghost h0 = self.price_history@;
        self.price_history.push(price);
        if self.price_history.len() > self.max_history {
            let _evicted = self.price_history.remove(0);
            proof {
                assert(self.price_history@ =~= h0.push(price).skip(1));
            }
        }
    }
}

/// Shared facts about a top-of-side window: length, ranges and sums.
proof fn lemma_top_facts(s: Seq<OrderBookLevel>, desc: bool, n: int)
    requires
        side_wf(s, desc),
        0 <= n,
    ensures
        spec_top(s, n).len() == if n <= s.len() {
            n
        } else {
            s.len() as int
        },
        levels_in_range(spec_top(s, n)),
        0 <= sum_qty(spec_top(s, n)) <= spec_top(s, n).len() * (MAX_UNITS as int),
        0 <= sum_pq(spec_top(s, n)) <= sum_qty(spec_top(s, n)) * (MAX_UNITS as int),
        s.len() > 0 && n > 0 ==> sum_qty(spec_top(s, n)) >= 1,
{
    let t = spec_top(s, n);
    assert forall|i: int| 0 <= i < t.len() implies (#[trigger] t[i]).price.0 <= MAX_UNITS
        && t[i].quantity <= MAX_UNITS && t[i].quantity >= 1 by {
        assert(t[i] == s[i]);
    }
    lemma_sum_bounds(t);
    if s.len() > 0 && n > 0 {
        lemma_sum_qty_pos(t);
    }
}

impl FairPriceCalculator {
    /// Computes the shared top-of-book statistics over the five best levels
    /// per side.
    fn calculate_metadata(&self, order_book: &OrderBook, spread: u64) -> (md: FairPriceMetadata)
        requires
            order_book.wf(),
            spread <= MAX_UNITS,
        ensures
            md == spec_metadata(*order_book, spread as int),
            md.bid_volume <= 5 * MAX_UNITS,
            md.ask_volume <= 5 * MAX_UNITS,
            md.total_volume as int == md.bid_volume as int + md.ask_volume as int,
            -(SCALE as i64) <= md.order_flow_imbalance <= SCALE as i64,
            md.spread == spread as i64,
            order_book.spec_valid() ==> md.bid_volume >= 1 && md.ask_volume >= 1,
    {
        let (tb, ta) = order_book.get_top_levels(5);
        proof {
            if 5 <= order_book.bids@.len() {
            } else {
                assert(order_book.bids@.take(order_book.bids@.len() as int) =~= order_book.bids@);
            }
            if 5 <= order_book.asks@.len() {
            } else {
                assert(order_book.asks@.take(order_book.asks@.len() as int) =~= order_book.asks@);
            }
            assert(tb@ == spec_top(order_book.bids@, 5));
            assert(ta@ == spec_top(order_book.asks@, 5));
            lemma_top_facts(order_book.bids@, true, 5);
            lemma_top_facts(order_book.asks@, false, 5);
        }
        let bv128 = sum_quantities(&tb);
        let av128 = sum_quantities(&ta);
        let bv = bv128 as u64;
        let av = av128 as u64;
        let tv = bv + av;
        let pqb = sum_price_quantities(&tb);
        let pqa = sum_price_quantities(&ta);
        let wbp: u64 = if bv > 0 {
            proof {
                assert(sum_pq(tb@) <= (MAX_UNITS as int) * (bv as int)) by (nonlinear_arith)
                    requires
                        sum_pq(tb@) <= sum_qty(tb@) * (MAX_UNITS as int),
                        sum_qty(tb@) == bv as int;
                lemma_div_le(sum_pq(tb@), MAX_UNITS as int, bv as int);
            }
            (pqb / (bv as u128)) as u64
        } else {
            0
        };
        let wap: u64 = if av > 0 {
            proof {
                assert(sum_pq(ta@) <= (MAX_UNITS as int) * (av as int)) by (nonlinear_arith)
                    requires
                        sum_pq(ta@) <= sum_qty(ta@) * (MAX_UNITS as int),
                        sum_qty(ta@) == av as int;
                lemma_div_le(sum_pq(ta@), MAX_UNITS as int, av as int);
            }
            (pqa / (av as u128)) as u64
        } else {
            0
        };
        let imb: i64 = if tv > 0 {
            if bv >= av {
                proof {
                    lemma_ratio_bounds((bv - av) as int, tv as int);
                }
                ((((bv - av) as u128) * (SCALE as u128)) / (tv as u128)) as i64
            } else {
                proof {
                    lemma_ratio_bounds((av - bv) as int, tv as int);
                }
                -(((((av - bv) as u128) * (SCALE as u128)) / (tv as u128)) as i64)
            }
        } else {
            0
        };
        let depth_ratio: Option<u128> = if av > 0 {
            proof {
                lemma_div_pos_is_pos((bv as int) * (SCALE as int), av as int);
            }
            Some(((bv as u128) * (SCALE as u128)) / (av as u128))
        } else {
            None
        };
        FairPriceMetadata {
            bid_volume: bv,
            ask_volume: av,
            total_volume: tv,
            weighted_bid_price: wbp,
            weighted_ask_price: wap,
            order_flow_imbalance: imb,
            depth_ratio,
            spread: spread as i64,
        }
    }

    /// Confidence of the mid-price method over the computed metadata.
    fn calculate_mid_price_confidence(&self, md: &FairPriceMetadata) -> (c: u64)
        requires
            md.bid_volume <= 5 * MAX_UNITS,
            md.ask_volume <= 5 * MAX_UNITS,
            md.total_volume as int == md.bid_volume as int + md.ask_volume as int,
            md.spread <= MAX_UNITS as i64,
        ensures
            c as int == spec_mid_confidence(*md),
            c <= SCALE,
    {
        if md.total_volume == 0 {
            return 0;
        }
        let bvi = md.bid_volume as u128;
        let avi = md.ask_volume as u128;
        let tvi = md.total_volume as u128;
        let diff = if bvi >= avi {
            bvi - avi
        } else {
            avi - bvi
        };
        proof {
            assert(diff <= 1_000_000_000_000_000_000u128);
            assert((diff as int) * (SCALE as int) <= 100_000_000_000_000_000_000_000_000int)
                by (nonlinear_arith)
                requires
                    0 <= diff as int <= 1_000_000_000_000_000_000int;
            lemma_ratio_bounds(diff as int, tvi as int);
        }
        let vb = (SCALE as u128) - diff * (SCALE as u128) / tvi;
        proof {
            assert((tvi as int) * (SCALE as int) <= (SCALE as int) * ((tvi as int) + 100 * (
            SCALE as int))) by (nonlinear_arith)
                requires
                    tvi >= 0;
            lemma_div_le(
                (tvi as int) * (SCALE as int),
                SCALE as int,
                (tvi as int) + 100 * (SCALE as int),
            );
        }
        let lf = tvi * (SCALE as u128) / (tvi + 100 * (SCALE as u128));
        let sf: u128 = if md.spread > 0 {
            let sp = md.spread as u64;
            proof {
                assert((SCALE as int) * (SCALE as int) <= (SCALE as int) * ((SCALE as int) + (
                sp as int) * 1000)) by (nonlinear_arith)
                    requires
                        sp >= 0;
                lemma_div_le(
                    (SCALE as int) * (SCALE as int),
                    SCALE as int,
                    (SCALE as int) + (sp as int) * 1000,
                );
            }
            (SCALE as u128) * (SCALE as u128) / ((SCALE as u128) + (sp as u128) * 1000)
        } else {
            0
        };
        let c0 = (vb * 4 + lf * 3 + sf * 3) / 10;
        if c0 >= 10_000_000 {
            c0 as u64
        } else {
            10_000_000
        }
    }

    /// Volume-weighted estimator over the top `levels` of each side.
    fn calculate_volume_weighted(&self, order_book: &OrderBook, levels: usize) -> (r: (i64, u64))
        requires
            order_book.wf(),
            order_book.spec_valid(),
            order_book.bids@.len() <= DEPTH_LIMIT,
            order_book.asks@.len() <= DEPTH_LIMIT,
        ensures
            r.0 as int == spec_vw(*order_book, levels as int).0,
            r.1 as int == spec_vw(*order_book, levels as int).1,
            0 <= r.0 <= FAIR_BOUND,
            r.1 <= SCALE,
    {
        let bid0 = order_book.bids[0].price.0;
        let ask0 = order_book.asks[0].price.0;
        let mid = (((bid0 as u128) + (ask0 as u128)) / 2) as u64;
        let (tb, ta) = order_book.get_top_levels(levels);
        proof {
            if levels as int <= order_book.bids@.len() {
            } else {
                assert(order_book.bids@.take(order_book.bids@.len() as int) =~= order_book.bids@);
            }
            if levels as int <= order_book.asks@.len() {
            } else {
                assert(order_book.asks@.take(order_book.asks@.len() as int) =~= order_book.asks@);
            }
            assert(tb@ == spec_top(order_book.bids@, levels as int));
            assert(ta@ == spec_top(order_book.asks@, levels as int));
            lemma_top_facts(order_book.bids@, true, levels as int);
            lemma_top_facts(order_book.asks@, false, levels as int);
        }
        if tb.len() == 0 || ta.len() == 0 {
            return (mid as i64, 0);
        }
        let bv = sum_quantities(&tb);
        let av = sum_quantities(&ta);
        if bv == 0 || av == 0 {
            return (mid as i64, 0);
        }
        let pqb = sum_price_quantities(&tb);
        let pqa = sum_price_quantities(&ta);
        proof {
            assert(sum_pq(tb@) <= (MAX_UNITS as int) * (bv as int)) by (nonlinear_arith)
                requires
                    sum_pq(tb@) <= sum_qty(tb@) * (MAX_UNITS as int),
                    sum_qty(tb@) == bv as int;
            lemma_div_le(sum_pq(tb@), MAX_UNITS as int, bv as int);
            assert(sum_pq(ta@) <= (MAX_UNITS as int) * (av as int)) by (nonlinear_arith)
                requires
                    sum_pq(ta@) <= sum_qty(ta@) * (MAX_UNITS as int),
                    sum_qty(ta@) == av as int;
            lemma_div_le(sum_pq(ta@), MAX_UNITS as int, av as int);
        }
        let wb = pqb / bv;
        let wa = pqa / av;
        let tv = bv + av;
        proof {
            assert((wb as int) * (bv as int) + (wa as int) * (av as int) <= (MAX_UNITS as int) * (
            tv as int)) by (nonlinear_arith)
                requires
                    0 <= wb as int <= MAX_UNITS as int,
                    0 <= wa as int <= MAX_UNITS as int,
                    bv >= 0,
                    av >= 0,
                    tv as int == bv as int + av as int;
            assert((MAX_UNITS as int) * (tv as int) <= (MAX_UNITS as int) * (
            20_000_000_000_000_000_000_000int)) by (nonlinear_arith)
                requires
                    0 <= tv as int <= 20_000_000_000_000_000_000_000int;
            lemma_div_le((wb as int) * (bv as int) + (wa as int) * (av as int), MAX_UNITS as int,
                tv as int);
        }
        let fair = ((wb * bv + wa * av) / tv) as u64;
        let diff = if bv >= av {
            bv - av
        } else {
            av - bv
        };
        proof {
            lemma_ratio_bounds(diff as int, tv as int);
        }
        let conf0 = (SCALE as u128) - diff * (SCALE as u128) / tv;
        let conf = if conf0 >= 10_000_000 {
            conf0 as u64
        } else {
            10_000_000
        };
        (fair as i64, conf)
    }

    /// Micro-price estimator at the best levels.
    fn calculate_micro_price(&self, order_book: &OrderBook, md: &FairPriceMetadata) -> (r: (
        i64,
        u64,
    ))
        requires
            order_book.wf(),
            order_book.spec_valid(),
            -(SCALE as i64) <= md.order_flow_imbalance <= SCALE as i64,
        ensures
            r.0 as int == spec_micro(*order_book, *md).0,
            r.1 as int == spec_micro(*order_book, *md).1,
            -FAIR_BOUND <= r.0 <= FAIR_BOUND,
            r.1 <= SCALE,
    {
        let bp = order_book.bids[0].price.0;
        let ap = order_book.asks[0].price.0;
        let bq = order_book.bids[0].quantity;
        let aq = order_book.asks[0].quantity;
        let mid = (((bp as u128) + (ap as u128)) / 2) as u64;
        let spread = ap - bp;
        proof {
            assert(order_book.bids@[0].quantity >= 1);
            assert(order_book.asks@[0].quantity >= 1);
            assert((ap as int) * (bq as int) + (bp as int) * (aq as int) <= (MAX_UNITS as int) * ((
            bq as int) + (aq as int))) by (nonlinear_arith)
                requires
                    0 <= ap as int <= MAX_UNITS as int,
                    0 <= bp as int <= MAX_UNITS as int,
                    bq >= 0,
                    aq >= 0;
            lemma_div_le(
                (ap as int) * (bq as int) + (bp as int) * (aq as int),
                MAX_UNITS as int,
                (bq as int) + (aq as int),
            );
        }
        let micro = (((ap as u128) * (bq as u128) + (bp as u128) * (aq as u128)) / ((bq as u128)
            + (aq as u128))) as u64;
        let imb = md.order_flow_imbalance;
        let adj: i64 = if imb >= 0 {
            proof {
                assert((imb as int) * (spread as int) <= (spread as int) * (10 * (SCALE as int)))
                    by (nonlinear_arith)
                    requires
                        0 <= imb as int <= SCALE as int,
                        spread >= 0;
                lemma_div_le((imb as int) * (spread as int), spread as int, 10 * (SCALE as int));
            }
            (((imb as u64 as u128) * (spread as u128)) / (10 * (SCALE as u128))) as i64
        } else {
            let pos = (-imb) as u64;
            proof {
                assert((pos as int) * (spread as int) <= (spread as int) * (10 * (SCALE as int)))
                    by (nonlinear_arith)
                    requires
                        0 <= pos as int <= SCALE as int,
                        spread >= 0;
                lemma_div_le((pos as int) * (spread as int), spread as int, 10 * (SCALE as int));
            }
            -((((pos as u128) * (spread as u128)) / (10 * (SCALE as u128))) as i64)
        };
        let fair = (micro as i64) + adj;
        let qdiff = if bq >= aq {
            bq - aq
        } else {
            aq - bq
        };
        proof {
            lemma_ratio_bounds(qdiff as int, (bq as int) + (aq as int));
        }
        let qb = (SCALE as u128) - (qdiff as u128) * (SCALE as u128) / ((bq as u128) + (
        aq as u128));
        let st_num = (SCALE as u128) * (mid as u128);
        let st_den = (mid as u128) + (spread as u128);
        proof {
            assert((SCALE as int) * (mid as int) <= (SCALE as int) * (st_den as int))
                by (nonlinear_arith)
                requires
                    st_den as int >= mid as int,
                    mid >= 0;
            lemma_div_le((SCALE as int) * (mid as int), SCALE as int, st_den as int);
        }
        let st = st_num / st_den;
        let c0 = (qb * 7 + st * 3) / 10;
        let conf = if c0 >= 10_000_000 {
            c0 as u64
        } else {
            10_000_000
        };
        (fair, conf)
    }

    /// One fair-price computation over a consistent book copy. Yields a
    /// result exactly when the book is valid for pricing; the result is the
    /// configured method's formula, its confidence stays within `[0, SCALE]`,
    /// and the fair price is recorded in the bounded history.
    pub fn calculate(&mut self, order_book: &OrderBook) -> (r: Option<FairPriceResult>)
        requires
            old(self).wf(),
            order_book.wf(),
            order_book.bids@.len() <= DEPTH_LIMIT,
            order_book.asks@.len() <= DEPTH_LIMIT,
        ensures
            final(self).wf(),
            final(self).spec_method() == old(self).spec_method(),
            r is Some <==> order_book.spec_valid(),
            r matches Some(res) ==> res == spec_result(
                old(self).spec_method(),
                *order_book,
                res.timestamp,
            ),
            r matches Some(res) ==> res.confidence <= SCALE && -FAIR_BOUND <= res.fair_price
                <= FAIR_BOUND,
            r matches Some(res) ==> final(self).spec_history() == spec_push_history(
                old(self).spec_history(),
                res.fair_price,
            ),
            r is None ==> *final(self) == *old(self),
    {
        if !order_book.is_valid() {
            return None;
        }
        let timestamp = crate::now_micros();
        let bid0 = order_book.bids[0].price.0;
        let ask0 = order_book.asks[0].price.0;
        let mid = (((bid0 as u128) + (ask0 as u128)) / 2) as u64;
        let spread = ask0 - bid0;
        let md = self.calculate_metadata(order_book, spread);
        let fc: (i64, u64) = match self.method {
            FairPriceMethod::MidPrice => {
                let c = self.calculate_mid_price_confidence(&md);
                (mid as i64, c)
            },
            FairPriceMethod::VolumeWeighted { levels } => self.calculate_volume_weighted(
                order_book,
                levels,
            ),
            FairPriceMethod::MicroPrice => self.calculate_micro_price(order_book, &md),
        };
        self.update_price_history(fc.0);
        Some(
            FairPriceResult {
                fair_price: fc.0,
                calculation_method: self.method,
                timestamp,
                confidence: fc.1,
                spread: spread as i64,
                mid_price: mid,
                metadata: md,
            },
        )
    }
}

/// Law: with total volume fixed, the volume-weighted confidence never rises
/// as the volume imbalance grows.
pub proof fn lemma_vw_confidence_monotone(bv1: int, av1: int, bv2: int, av2: int)
    requires
        0 <= bv1,
        0 <= av1,
        0 <= bv2,
        0 <= av2,
        bv1 + av1 == bv2 + av2,
        bv1 + av1 > 0,
        abs_diff(bv1, av1) <= abs_diff(bv2, av2),
    ensures
        spec_balance_confidence(bv1, av1) >= spec_balance_confidence(bv2, av2),
{
    let tv = bv1 + av1;
    let d1 = abs_diff(bv1, av1);
    let d2 = abs_diff(bv2, av2);
    assert(d1 * (SCALE as int) <= d2 * (SCALE as int)) by (nonlinear_arith)
        requires
            0 <= d1 <= d2;
    lemma_div_is_ordered(d1 * (SCALE as int), d2 * (SCALE as int), tv);
}

/// Law: with total volume and spread fixed, the mid-price confidence never
/// rises as the volume imbalance grows.
pub proof fn lemma_mid_confidence_monotone(md1: FairPriceMetadata, md2: FairPriceMetadata)
    requires
        md1.total_volume == md2.total_volume,
        md1.total_volume > 0,
        md1.spread == md2.spread,
        md1.total_volume as int == md1.bid_volume as int + md1.ask_volume as int,
        md2.total_volume as int == md2.bid_volume as int + md2.ask_volume as int,
        abs_diff(md1.bid_volume as int, md1.ask_volume as int) <= abs_diff(
            md2.bid_volume as int,
            md2.ask_volume as int,
        ),
    ensures
        spec_mid_confidence(md1) >= spec_mid_confidence(md2),
{
    let tv = md1.total_volume as int;
    let d1 = abs_diff(md1.bid_volume as int, md1.ask_volume as int);
    let d2 = abs_diff(md2.bid_volume as int, md2.ask_volume as int);
    assert(d1 * (SCALE as int) <= d2 * (SCALE as int)) by (nonlinear_arith)
        requires
            0 <= d1 <= d2;
    lemma_div_is_ordered(d1 * (SCALE as int), d2 * (SCALE as int), tv);
    let vb1 = SCALE - d1 * (SCALE as int) / tv;
    let vb2 = SCALE - d2 * (SCALE as int) / tv;
    let lf = tv * (SCALE as int) / (tv + 100 * (SCALE as int));
    let sf = if md1.spread > 0 {
        (SCALE as int) * (SCALE as int) / ((SCALE as int) + (md1.spread as int) * 1000)
    } else {
        0
    };
    lemma_div_is_ordered(vb2 * 4 + lf * 3 + sf * 3, vb1 * 4 + lf * 3 + sf * 3, 10);
}

/// Sum of a run of recorded fair prices.
pub open spec fn sum_i64(s: Seq<i64>) -> int
    decreases s.len(),
{
    if s.len() == 0 {
        0
    } else {
        sum_i64(s.drop_last()) + s.last()
    }
}

/// The mean of a run, rounded toward zero.
pub open spec fn spec_mean(s: Seq<i64>) -> int {
    if s.len() == 0 {
        0
    } else if sum_i64(s) >= 0 {
        sum_i64(s) / (s.len() as int)
    } else {
        -((-sum_i64(s)) / (s.len() as int))
    }
}

/// Sum of squared deviations from `mean`.
pub open spec fn spec_sq_dev_sum(s: Seq<i64>, mean: int) -> int
    decreases s.len(),
{
    if s.len() == 0 {
        0
    } else {
        spec_sq_dev_sum(s.drop_last(), mean) + (s.last() - mean) * (s.last() - mean)
    }
}

proof fn lemma_sum_i64_bounds(s: Seq<i64>)
    requires
        forall|i: int| 0 <= i < s.len() ==> -FAIR_BOUND <= #[trigger] s[i] <= FAIR_BOUND,
    ensures
        -(s.len() * (FAIR_BOUND as int)) <= sum_i64(s) <= s.len() * (FAIR_BOUND as int),
    decreases s.len(),
{
    if s.len() > 0 {
        assert forall|i: int| 0 <= i < s.drop_last().len() implies -FAIR_BOUND <= #[trigger] s.drop_last()[i] <= FAIR_BOUND by {
            assert(s.drop_last()[i] == s[i]);
        }
        lemma_sum_i64_bounds(s.drop_last());
        assert(s.last() == s[s.len() - 1]);
        assert(sum_i64(s) <= s.len() * (FAIR_BOUND as int) && -(s.len() * (FAIR_BOUND as int))
            <= sum_i64(s)) by (nonlinear_arith)
            requires
                sum_i64(s) == sum_i64(s.drop_last()) + s.last(),
                -((s.len() - 1) * (FAIR_BOUND as int)) <= sum_i64(s.drop_last()) <= (s.len() - 1)
                    * (FAIR_BOUND as int),
                -FAIR_BOUND <= s.last() <= FAIR_BOUND,
                s.len() >= 1;
    }
}

proof fn lemma_sq_dev_bounds(s: Seq<i64>, mean: int)
    requires
        forall|i: int| 0 <= i < s.len() ==> -FAIR_BOUND <= #[trigger] s[i] <= FAIR_BOUND,
        -FAIR_BOUND <= mean <= FAIR_BOUND,
    ensures
        0 <= spec_sq_dev_sum(s, mean) <= s.len() * (4 * (FAIR_BOUND as int) * (FAIR_BOUND as int)),
    decreases s.len(),
{
    if s.len() > 0 {
        assert forall|i: int| 0 <= i < s.drop_last().len() implies -FAIR_BOUND <= #[trigger] s.drop_last()[i] <= FAIR_BOUND by {
            assert(s.drop_last()[i] == s[i]);
        }
        lemma_sq_dev_bounds(s.drop_last(), mean);
        assert(s.last() == s[s.len() - 1]);
        let d = s.last() - mean;
        assert(0 <= d * d <= 4 * (FAIR_BOUND as int) * (FAIR_BOUND as int)) by (nonlinear_arith)
            requires
                -2 * (FAIR_BOUND as int) <= d <= 2 * (FAIR_BOUND as int);
        assert(spec_sq_dev_sum(s, mean) <= s.len() * (4 * (FAIR_BOUND as int) * (
        FAIR_BOUND as int))) by (nonlinear_arith)
            requires
                spec_sq_dev_sum(s, mean) == spec_sq_dev_sum(s.drop_last(), mean) + d * d,
                0 <= spec_sq_dev_sum(s.drop_last(), mean) <= (s.len() - 1) * (4 * (
                FAIR_BOUND as int) * (FAIR_BOUND as int)),
                0 <= d * d <= 4 * (FAIR_BOUND as int) * (FAIR_BOUND as int),
                s.len() >= 1;
    }
}

/// Integer square root by binary search.
fn isqrt_u128(v: u128) -> (r: u64)
    ensures
        (r as int) * (r as int) <= v as int,
        (v as int) < ((r as int) + 1) * ((r as int) + 1),
{
    let mut lo: u64 = 0;
    let mut hi: u64 = u64::MAX;
    proof {
        assert((0x10000000000000000int) * (0x10000000000000000int)
            > 0xffffffffffffffffffffffffffffffffint) by (nonlinear_arith);
    }
    while lo < hi
        invariant
            lo <= hi,
            (lo as int) * (lo as int) <= v as int,
            (v as int) < ((hi as int) + 1) * ((hi as int) + 1),
        decreases hi - lo,
    {
        let mid = hi - (hi - lo) / 2;
        proof {
            assert((mid as int) * (mid as int) <= 0xffffffffffffffffint
                * 0xffffffffffffffffint) by (nonlinear_arith)
                requires
                    0 <= mid as int <= 0xffffffffffffffffint;
        }
        let m2 = (mid as u128) * (mid as u128);
        if m2 <= v {
            lo = mid;
        } else {
            hi = mid - 1;
        }
    }
    lo
}

impl FairPriceCalculator {
    /// Population standard deviation (rounded down) of the most recent
    /// `window` recorded fair prices; absent when fewer are recorded, and
    /// for an empty window.
    pub fn get_price_volatility(&self, window: usize) -> (r: Option<u64>)
        requires
            self.wf(),
        ensures
            r is Some <==> 1 <= window <= self.spec_history().len(),
            r matches Some(v) ==> ({
                let recent = self.spec_history().skip(self.spec_history().len() - window);
                let var = spec_sq_dev_sum(recent, spec_mean(recent)) / (window as int);
                (v as int) * (v as int) <= var && var < ((v as int) + 1) * ((v as int) + 1)
            }),
    {
        let n = self.price_history.len();
        if window == 0 || n < window {
            return None;
        }
        let start = n - window;
        let ghost recent = self.price_history@.skip(start as int);
        proof {
            assert forall|i: int| 0 <= i < recent.len() implies -FAIR_BOUND <= #[trigger] recent[i] <= FAIR_BOUND by {
                assert(recent[i] == self.price_history@[start + i]);
            }
            lemma_sum_i64_bounds(recent);
        }

        // Sum of the window.
        let mut sum: i128 = 0;
        let mut i: usize = start;
        while i < n
            invariant
                start <= i <= n,
                n == self.price_history@.len(),
                window == n - start,
                self.wf(),
                recent == self.price_history@.skip(start as int),
                sum as int == sum_i64(self.price_history@.skip(start as int).take(
                    i - start as int)),
                -((i - start) as int) * (FAIR_BOUND as int) <= sum as int <= ((i - start) as int)
                    * (FAIR_BOUND as int),
            decreases n - i,
        {
            proof {
                let t = recent.take(i - start + 1);
                assert(t.drop_last() =~= recent.take(i - start as int));
                assert(t.last() == recent[i - start as int]);
                assert(recent[i - start as int] == self.price_history@[i as int]);
                assert(-FAIR_BOUND <= self.price_history@[i as int] <= FAIR_BOUND);
                assert(((i - start) as int + 1) * (FAIR_BOUND as int) <= 1000 * (FAIR_BOUND as int)
                    && -(1000 * (FAIR_BOUND as int)) <= -(((i - start) as int + 1) * (
                FAIR_BOUND as int))) by (nonlinear_arith)
                    requires
                        (i - start) as int + 1 <= 1000;
            }
            sum = sum + (self.price_history[i] as i128);
            i += 1;
        }
        proof {
            assert(recent.take(window as int) =~= recent);
        }

        // Mean, rounded toward zero.
        let w = window as u128;
        let mean: i128 = if sum >= 0 {
            proof {
                lemma_div_le(sum as int, FAIR_BOUND as int, w as int);
            }
            ((sum as u128) / w) as i128
        } else {
            proof {
                lemma_div_le(-(sum as int), FAIR_BOUND as int, w as int);
            }
            -((((-sum) as u128) / w) as i128)
        };
        proof {
            assert(mean as int == spec_mean(recent));
            lemma_sq_dev_bounds(recent, mean as int);
        }

        // Sum of squared deviations.
        let mut sq: u128 = 0;
        let mut j: usize = start;
        while j < n
            invariant
                start <= j <= n,
                n == self.price_history@.len(),
                window == n - start,
                self.wf(),
                recent == self.price_history@.skip(start as int),
                -FAIR_BOUND <= mean <= FAIR_BOUND,
                sq as int == spec_sq_dev_sum(recent.take(j - start as int), mean as int),
                sq as int <= ((j - start) as int) * (4 * (FAIR_BOUND as int) * (FAIR_BOUND as int)),
            decreases n - j,
        {
            proof {
                let t = recent.take(j - start + 1);
                assert(t.drop_last() =~= recent.take(j - start as int));
                assert(t.last() == recent[j - start as int]);
                assert(recent[j - start as int] == self.price_history@[j as int]);
                assert(-FAIR_BOUND <= self.price_history@[j as int] <= FAIR_BOUND);
            }
            let v = self.price_history[j] as i128;
            let d: u128 = if v >= mean {
                (v - mean) as u128
            } else {
                (mean - v) as u128
            };
            proof {
                let dv = (recent[j - start as int] as int) - (mean as int);
                assert(d as int == if dv >= 0 { dv } else { -dv });
                assert((d as int) * (d as int) == dv * dv) by (nonlinear_arith)
                    requires
                        d as int == if dv >= 0 { dv } else { -dv };
                assert((d as int) * (d as int) <= 4 * (FAIR_BOUND as int) * (FAIR_BOUND as int))
                    by (nonlinear_arith)
                    requires
                        0 <= d as int <= 2 * (FAIR_BOUND as int);
                assert((sq as int) + 4 * (FAIR_BOUND as int) * (FAIR_BOUND as int) <= ((j
                    - start) as int + 1) * (4 * (FAIR_BOUND as int) * (FAIR_BOUND as int)))
                    by (nonlinear_arith)
                    requires
                        sq as int <= ((j - start) as int) * (4 * (FAIR_BOUND as int) * (
                        FAIR_BOUND as int)),
                        (j - start) as int >= 0;
                assert(((j - start) as int + 1) * (4 * (FAIR_BOUND as int) * (FAIR_BOUND as int))
                    <= 1000 * (4 * (FAIR_BOUND as int) * (FAIR_BOUND as int)))
                    by (nonlinear_arith)
                    requires
                        (j - start) as int + 1 <= 1000;
            }
            sq = sq + d * d;
            j += 1;
        }
        proof {
            assert(recent.take(window as int) =~= recent);
        }
        let var = sq / w;
        Some(isqrt_u128(var))
    }

    /// Relative change, scaled by `SCALE` and rounded toward zero, from the
    /// oldest to the newest of the most recent `window` recorded fair
    /// prices; its sign follows the change relative to the oldest value's
    /// sign, and it is zero when the two are equal. Absent when fewer than
    /// `window` values are recorded, when the window holds fewer than two,
    /// or when the oldest value is zero — the relative change is undefined
    /// there.
    pub fn get_price_trend(&self, window: usize) -> (r: Option<i128>)
        requires
            self.wf(),
        ensures
            r is Some <==> 2 <= window <= self.spec_history().len() && self.spec_history()[
                self.spec_history().len() - window] != 0,
            r matches Some(t) ==> ({
                let h = self.spec_history();
                let first = h[h.len() - window] as int;
                let last = h[h.len() - 1] as int;
                let mag = (if last >= first {
                    last - first
                } else {
                    first - last
                }) * (SCALE as int) / (if first > 0 {
                    first
                } else {
                    -first
                });
                t as int == if (last >= first) == (first > 0) {
                    mag
                } else {
                    -mag
                }
            }),
    {
        let n = self.price_history.len();
        if window < 2 || n < window {
            return None;
        }
        let first = self.price_history[n - window];
        let last = self.price_history[n - 1];
        if first == 0 {
            return None;
        }
        proof {
            assert(-FAIR_BOUND <= self.price_history@[n - window] <= FAIR_BOUND);
            assert(-FAIR_BOUND <= self.price_history@[n - 1] <= FAIR_BOUND);
        }
        let fu: u128 = if first > 0 {
            first as u64 as u128
        } else {
            (-(first as i128)) as u128
        };
        let dmag: u128 = if last >= first {
            (last - first) as u64 as u128
        } else {
            (first - last) as u64 as u128
        };
        proof {
            assert((dmag as int) * (SCALE as int) <= 40_000_000_000_000_000_000_000_000int)
                by (nonlinear_arith)
                requires
                    0 <= dmag as int <= 400_000_000_000_000_000int;
            assert(40_000_000_000_000_000_000_000_000int <= 40_000_000_000_000_000_000_000_000int
                * (fu as int)) by (nonlinear_arith)
                requires
                    fu as int >= 1;
            lemma_div_le(
                (dmag as int) * (SCALE as int),
                40_000_000_000_000_000_000_000_000int,
                fu as int,
            );
        }
        let mag = ((dmag * (SCALE as u128)) / fu) as i128;
        if (last >= first) == (first > 0) {
            Some(mag)
        } else {
            Some(-mag)
        }
    }
}

} // verus!
