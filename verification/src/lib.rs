//! Price alerting for a polled quote feed.
//!
//! A session captures a baseline price once, then repeatedly fetches the
//! current price and asks `evaluate` whether the move from the baseline has
//! reached a configured threshold, in absolute or percent terms.
//!
//! Prices and thresholds are fixed-point values: a `u64` counts units of
//! `1/SCALE` (one hundred-millionth) of the quote currency, so every
//! comparison the alert logic makes, including the percent one, is exact
//! integer arithmetic.

pub mod alert;
pub mod decimal;
pub mod quote;
pub mod ticker;

pub use alert::AlertConfig;
pub use alert::AlertMessage;
pub use alert::AlertMode;
pub use alert::evaluate;
pub use alert::parse_mode_selector;
pub use decimal::SCALE;
pub use decimal::format_fixed2;
pub use decimal::parse_decimal;
pub use quote::FetchError;
pub use quote::Quote;
pub use quote::parse_price_response;
pub use quote::price_url;
pub use ticker::resolve_ticker;
