//! Plain data models of the swap service's API responses. The HTTP client
//! that fills them lives outside this library.

use vstd::prelude::*;

verus! {

/// An API key, optionally carrying a scheme prefix.
#[derive(Debug, Clone)]
pub struct ApiKey {
    pub prefix: Option<String>,
    pub key: String,
}

/// Error body returned when a price query names a duplicated symbol.
#[derive(Clone, Debug, PartialEq, Eq, Default)]
pub struct PriceGet409Response {
    pub data: Option<PriceGet409ResponseData>,
}

/// The conflict detail: the duplicated symbol's candidate addresses.
#[derive(Clone, Debug, PartialEq, Eq, Default)]
pub struct PriceGet409ResponseData {
    pub error: Option<String>,
    pub addresses: Option<Vec<String>>,
}

/// Response to a swap request: the serialized transaction, base64-encoded.
#[derive(Clone, Debug, PartialEq, Eq, Default)]
pub struct SwapPost200Response {
    pub swap_transaction: String,
}

/// One step of a route: which market, and what share of the amount.
#[derive(Default, Debug, Clone, PartialEq)]
pub struct RoutePlan {
    pub swap_info: SwapInfo,
    pub percent: i64,
}

/// One market hop of a route.
#[derive(Default, Debug, Clone, PartialEq)]
pub struct SwapInfo {
    pub amm_key: String,
    pub label: String,
    pub input_mint: String,
    pub output_mint: String,
    pub in_amount: String,
    pub out_amount: String,
    pub fee_amount: String,
    pub fee_mint: String,
}

/// Which side of a swap the amount fixes.
#[derive(Clone, Copy, Debug, Eq, PartialEq, Ord, PartialOrd, Hash, Structural)]
pub enum SwapMode {
    ExactIn,
    ExactOut,
}

impl Default for SwapMode {
    /// The default swap mode fixes the input amount.
    fn default() -> (r: SwapMode)
        ensures
            r == SwapMode::ExactIn,
    {
        SwapMode::ExactIn
    }
}

} // verus!
