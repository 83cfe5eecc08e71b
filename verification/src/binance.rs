//! Exchange metadata as plain values: what the REST collaborator hands the
//! core about a symbol and a stream subscription.

use vstd::prelude::*;

verus! {

/// One filter attached to a symbol's exchange rules.
pub struct SymbolFilter {
    pub filter_type: String,
}

/// Symbol metadata from the exchange: assets, status and precisions.
pub struct SymbolInfo {
    pub symbol: String,
    pub base_asset: String,
    pub quote_asset: String,
    pub status: String,
    pub price_precision: u32,
    pub base_asset_precision: u32,
    pub quote_precision: u32,
    pub quantity_precision: u32,
    pub filters: Vec<SymbolFilter>,
}

/// A stream subscription request: method, parameters and request id.
pub struct StreamConfig {
    pub method: String,
    pub params: Vec<String>,
    pub id: u64,
}

} // verus!
