//! Real-time limit order book reconstruction and fair-price computation.
//!
//! The library keeps a locally consistent order book, merged from a
//! point-in-time snapshot and a stream of incremental diffs, and derives a
//! fair-price signal from it with several competing pricing models. All
//! prices and quantities are held as fixed-point integers scaled by
//! [`SCALE`], so every formula is exact integer arithmetic.

use vstd::prelude::*;

pub mod binance;
pub mod config;
pub mod fair_price;
pub mod order_book;
pub mod parse;
pub mod websocket;

verus! {

/// Fixed-point scale: one unit of price or quantity is `1 / SCALE`.
pub const SCALE: u64 = 100_000_000;

/// Largest per-side depth a store may be configured with; keeps every sum
/// over a side's levels inside `u128`.
pub const DEPTH_LIMIT: usize = 10_000;

/// Relies on std's `SystemTime::now`: microseconds since the Unix epoch, or
/// zero if the system clock reads before it. Nothing is promised of the
/// result; callers treat it as an arbitrary stamp.
#[verifier::external_body]
pub(crate) fn now_micros() -> u64 {
    std::time::SystemTime::now()
        .duration_since(std::time::UNIX_EPOCH)
        .map(|d| d.as_micros() as u64)
        .unwrap_or(0)
}

/// Largest scaled price or quantity the library accepts.
///
/// Keeping every value at or below this bound lets sums and products over
/// book levels stay inside `u128`, and differences inside `i64`.
pub const MAX_UNITS: u64 = 100_000_000_000_000_000;

/// Name and version of the library.
pub fn library_info() -> (r: String)
    ensures
        r@ == "orderflow-rs v0.1.0"@,
{
    "orderflow-rs v0.1.0".to_owned()
}

/// Default decimal precision reported for a symbol when the exchange
/// metadata does not carry one.
pub fn default_precision() -> (r: u32)
    ensures
        r == 8,
{
    8
}

} // verus!
