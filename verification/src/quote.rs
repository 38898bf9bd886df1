//! Quote fetching: the verified half.
//!
//! The network call itself lives outside this library; what is verified here
//! is everything between a response body and a usable price: the JSON field
//! lookup (through `serde_json`, behind one trusted wrapper) and the exact
//! fixed-point normalization of the number found there.

use vstd::prelude::*;
use vstd::string::StringExecFns;

use crate::decimal::dec_units;
use crate::decimal::dec_value;
use crate::decimal::parse_decimal;
use crate::decimal::wf_decimal;

verus! {

/// A single fetched quote: the price in fixed-point units of `1/SCALE`.
#[derive(Clone, Copy, Debug, PartialEq, Eq, Structural)]
pub struct Quote {
    pub price: u64,
}

/// Why a fetch failed: transport trouble before a response body was obtained,
/// or a body without the expected numeric field. The network side constructs
/// `NetworkError` with the transport's own message; this library's parsing
/// only ever produces `ParseError`.
#[derive(Clone, Debug, PartialEq, Eq)]
pub enum FetchError {
    NetworkError(String),
    ParseError,
}

impl FetchError {
    /// The line a failed fetch is reported with.
    pub fn message(&self) -> (r: String)
        ensures
            r@ == match self {
                FetchError::NetworkError(m) => "Request error: "@ + m@,
                FetchError::ParseError => "Failed to parse price"@,
            },
    {
        match self {
            FetchError::NetworkError(m) => {
                let mut s = String::from_str("Request error: ");
                s.append(m.as_str());
                s
            },
            FetchError::ParseError => String::from_str("Failed to parse price"),
        }
    }
}

/// The decimal rendering of the number at `body[asset]["usd"]` when `body` is
/// a JSON document carrying a number there, and `None` otherwise. The result
/// depends on `body` and `asset` alone.
pub uninterp spec fn usd_quote_text(body: Seq<char>, asset: Seq<char>) -> Option<Seq<char>>;

/// Relies on `serde_json::from_str`, `serde_json::Value::get`,
/// `serde_json::Value::as_number`, and `ToString` through the `Display` of
/// `serde_json::Number`: parsing a document, looking up the `asset` and
/// `"usd"` keys, and rendering the number found there (itoa digits for an
/// integer, the shortest finite decimal form for a float) are each
/// deterministic in `body` and `asset` alone.
#[verifier::external_body]
fn lookup_usd_text(body: &str, asset: &str) -> (r: Option<String>)
    ensures
        r is Some <==> usd_quote_text(body@, asset@) is Some,
        r is Some ==> r->0@ == usd_quote_text(body@, asset@)->0,
{
    let parsed: serde_json::Value = match serde_json::from_str(body) {
        Ok(value) => value,
        Err(_) => return None,
    };
    let number = match parsed.get(asset).and_then(|entry| entry.get("usd")).and_then(
        |price| price.as_number(),
    ) {
        Some(number) => number,
        None => return None,
    };
    Some(number.to_string())
}

/// Extract and normalize the quoted price for `asset` from a response `body`.
///
/// Succeeds exactly when the body is a JSON document with a numeric field at
/// `body[asset]["usd"]` whose rendering is a plain non-negative decimal
/// numeral that fits the fixed-point range; every other body is a
/// `ParseError`. In particular a negative or exponent-form number is
/// rejected: a price is non-negative, and this utility does not quote assets
/// outside the plain-decimal range.
pub fn parse_price_response(body: &str, asset: &str) -> (r: Result<Quote, FetchError>)
    ensures
        match r {
            Ok(q) => {
                &&& usd_quote_text(body@, asset@) is Some
                &&& dec_value(usd_quote_text(body@, asset@)->0) == Some(q.price as int)
            },
            Err(e) => {
                &&& e == FetchError::ParseError
                &&& (usd_quote_text(body@, asset@) matches Some(t) ==> (wf_decimal(t)
                    ==> dec_units(t) > u64::MAX))
            },
        },
{
    match lookup_usd_text(body, asset) {
        None => Err(FetchError::ParseError),
        Some(text) => match parse_decimal(text.as_str()) {
            Some(units) => Ok(Quote { price: units }),
            None => Err(FetchError::ParseError),
        },
    }
}

/// The quote API request for `asset`: one GET of this URL yields the JSON
/// body that `parse_price_response` reads.
pub fn price_url(asset: &str) -> (r: String)
    ensures
        r@ == "https://api.coingecko.com/api/v3/simple/price?ids="@ + asset@
            + "&vs_currencies=usd"@,
{
    let mut url = String::from_str("https://api.coingecko.com/api/v3/simple/price?ids=");
    url.append(asset);
    url.append("&vs_currencies=usd");
    url
}

} // verus!
