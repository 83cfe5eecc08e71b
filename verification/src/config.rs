//! Configuration: the symbol, the pricing method, and the transport and
//! book settings the synchronizer runs with.

use vstd::prelude::*;

verus! {

/// The closed set of fair-price estimators.
#[derive(Debug, Clone, Copy, PartialEq, Eq, Structural)]
pub enum FairPriceMethod {
    /// Arithmetic mean of the best bid and ask.
    MidPrice,
    /// Volume-weighted blend of the per-side averages over the top levels.
    VolumeWeighted { levels: usize },
    /// Best-level quantities weight the opposite prices, nudged by flow.
    MicroPrice,
}

impl FairPriceMethod {
    /// Short human-readable name of the method.
    pub fn method_name(&self) -> (r: String)
        ensures
            self is MidPrice ==> r@ == "Mid-Price"@,
            self is VolumeWeighted ==> r@ == "Volume-Weighted"@,
            self is MicroPrice ==> r@ == "Micro-Price"@,
    {
        match self {
            FairPriceMethod::MidPrice => "Mid-Price".to_owned(),
            FairPriceMethod::VolumeWeighted { .. } => "Volume-Weighted".to_owned(),
            FairPriceMethod::MicroPrice => "Micro-Price".to_owned(),
        }
    }
}

/// ASCII lowercasing of one character.
pub open spec fn lower_char(c: char) -> char {
    if 65 <= c as int && c as int <= 90 {
        ((c as u8) + 32) as char
    } else {
        c
    }
}

pub open spec fn lower_seq(s: Seq<char>) -> Seq<char> {
    s.map_values(|c: char| lower_char(c))
}

/// How a method string is read: matched case-insensitively against the three
/// method names, anything unrecognized falling back to mid-price.
pub open spec fn spec_parse_method(s: Seq<char>) -> FairPriceMethod {
    if lower_seq(s) == "mid-price"@ {
        FairPriceMethod::MidPrice
    } else if lower_seq(s) == "volume-weighted"@ {
        FairPriceMethod::VolumeWeighted { levels: 5 }
    } else if lower_seq(s) == "micro-price"@ {
        FairPriceMethod::MicroPrice
    } else {
        FairPriceMethod::MidPrice
    }
}

/// Compares `s`, ASCII-lowercased, against `t` as given.
fn eq_lowered(s: &str, t: &str) -> (r: bool)
    ensures
        r == (lower_seq(s@) == t@),
{
    let ns = s.unicode_len();
    let nt = t.unicode_len();
    if ns != nt {
        proof {
            assert(lower_seq(s@).len() == s@.len());
        }
        return false;
    }
    let mut i: usize = 0;
    while i < ns
        invariant
            i <= ns,
            ns == s@.len(),
            ns == t@.len(),
            forall|k: int| 0 <= k < i ==> lower_char(#[trigger] s@[k]) == t@[k],
        decreases ns - i,
    {
        let a = s.get_char(i);
        let b = t.get_char(i);
        let av = a as u32;
        let bv = b as u32;
        let la: u32 = if av >= 65 && av <= 90 {
            av + 32
        } else {
            av
        };
        proof {
            assert(la as int == lower_char(s@[i as int]) as int);
        }
        if la != bv {
            proof {
                assert(lower_seq(s@)[i as int] == lower_char(s@[i as int]));
                assert(lower_seq(s@)[i as int] != t@[i as int]);
            }
            return false;
        }
        i += 1;
    }
    proof {
        assert(lower_seq(s@) =~= t@);
    }
    true
}

/// Reads a method string: `mid-price`, `volume-weighted` (top five levels)
/// or `micro-price`, case-insensitively; anything else means mid-price.
pub fn parse_method(s: &str) -> (r: FairPriceMethod)
    ensures
        r == spec_parse_method(s@),
{
    if eq_lowered(s, "mid-price") {
        FairPriceMethod::MidPrice
    } else if eq_lowered(s, "volume-weighted") {
        FairPriceMethod::VolumeWeighted { levels: 5 }
    } else if eq_lowered(s, "micro-price") {
        FairPriceMethod::MicroPrice
    } else {
        FairPriceMethod::MidPrice
    }
}

/// Transport settings: endpoint, retry policy and liveness interval.
pub struct WebSocketConfig {
    pub base_url: String,
    pub reconnect_attempts: u32,
    pub reconnect_delay_ms: u64,
    pub ping_interval_ms: u64,
}

/// Book settings: depth bound and update-frequency threshold.
pub struct OrderBookConfig {
    pub max_depth: usize,
    pub update_threshold_us: u64,
}

/// Application configuration for one symbol.
pub struct Config {
    pub symbol: String,
    pub calculation_method: FairPriceMethod,
    pub websocket: WebSocketConfig,
    pub order_book: OrderBookConfig,
}

impl Config {
    /// The configuration the program runs with by default: five reconnect
    /// attempts a second apart, a thirty-second ping interval, and a book
    /// depth of one hundred.
    pub fn new(symbol: String, method_str: String) -> (r: Config)
        ensures
            r.symbol == symbol,
            r.calculation_method == spec_parse_method(method_str@),
            r.websocket.base_url@ == "wss://stream.binance.com:9443/ws/"@,
            r.websocket.reconnect_attempts == 5,
            r.websocket.reconnect_delay_ms == 1000,
            r.websocket.ping_interval_ms == 30000,
            r.order_book.max_depth == 100,
            r.order_book.update_threshold_us == 1000,
    {
        let calculation_method = parse_method(method_str.as_str());
        Config {
            symbol,
            calculation_method,
            websocket: WebSocketConfig {
                base_url: "wss://stream.binance.com:9443/ws/".to_owned(),
                reconnect_attempts: 5,
                reconnect_delay_ms: 1000,
                ping_interval_ms: 30000,
            },
            order_book: OrderBookConfig { max_depth: 100, update_threshold_us: 1000 },
        }
    }
}

impl Default for Config {
    /// `BTCUSDT` with the mid-price method and the default settings.
    fn default() -> (r: Config)
        ensures
            r.symbol@ == "BTCUSDT"@,
            r.calculation_method == spec_parse_method("mid-price"@),
            r.websocket.reconnect_attempts == 5,
            r.order_book.max_depth == 100,
    {
        Config::new("BTCUSDT".to_owned(), "mid-price".to_owned())
    }
}

} // verus!
