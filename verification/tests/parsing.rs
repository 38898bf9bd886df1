use price_alert::format_fixed2;
use price_alert::parse_decimal;
use price_alert::parse_price_response;
use price_alert::price_url;
use price_alert::resolve_ticker;
use price_alert::FetchError;
use price_alert::Quote;

#[test]
fn parse_decimal_exact_values() {
    assert_eq!(parse_decimal("67000.5"), Some(6_700_050_000_000));
    assert_eq!(parse_decimal("0"), Some(0));
    assert_eq!(parse_decimal("123"), Some(12_300_000_000));
    assert_eq!(parse_decimal("0.00000001"), Some(1));
    assert_eq!(parse_decimal("00.5"), Some(50_000_000));
}

#[test]
fn parse_decimal_truncates_past_eight_fraction_digits() {
    assert_eq!(parse_decimal("1.234567891"), Some(123_456_789));
    assert_eq!(parse_decimal("0.000000009"), Some(0));
}

#[test]
fn parse_decimal_rejects_malformed_input() {
    assert_eq!(parse_decimal(""), None);
    assert_eq!(parse_decimal("."), None);
    assert_eq!(parse_decimal("1."), None);
    assert_eq!(parse_decimal(".5"), None);
    assert_eq!(parse_decimal("1.2.3"), None);
    assert_eq!(parse_decimal("-1"), None);
    assert_eq!(parse_decimal("+1"), None);
    assert_eq!(parse_decimal("1e5"), None);
    assert_eq!(parse_decimal(" 1"), None);
    assert_eq!(parse_decimal("abc"), None);
}

#[test]
fn parse_decimal_range_edges() {
    // u64::MAX is 184467440737.09551615 in fixed-point units
    assert_eq!(parse_decimal("184467440737.09551615"), Some(u64::MAX));
    assert_eq!(parse_decimal("184467440737.09551616"), None);
    assert_eq!(parse_decimal("184467440738"), None);
    assert_eq!(parse_decimal("99999999999999999999999"), None);
}

#[test]
fn fetch_parses_quoted_price() {
    let body = "{\"bitcoin\": {\"usd\": 67000.5}}";
    let quote = parse_price_response(body, "bitcoin").expect("the field is present and numeric");
    assert_eq!(quote, Quote { price: 6_700_050_000_000 });
}

#[test]
fn fetch_parses_integer_price() {
    let body = "{\"ethereum\": {\"usd\": 123}}";
    let quote = parse_price_response(body, "ethereum").expect("an integer price is numeric");
    assert_eq!(quote, Quote { price: 12_300_000_000 });
}

#[test]
fn fetch_fails_on_missing_field() {
    let body = "{\"bitcoin\": {}}";
    assert_eq!(parse_price_response(body, "bitcoin"), Err(FetchError::ParseError));
}

#[test]
fn fetch_fails_on_wrong_asset() {
    let body = "{\"ethereum\": {\"usd\": 123}}";
    assert_eq!(parse_price_response(body, "bitcoin"), Err(FetchError::ParseError));
}

#[test]
fn fetch_fails_on_non_numeric_or_invalid_body() {
    assert_eq!(
        parse_price_response("{\"bitcoin\": {\"usd\": \"67000.5\"}}", "bitcoin"),
        Err(FetchError::ParseError)
    );
    assert_eq!(
        parse_price_response("{\"bitcoin\": {\"usd\": -5}}", "bitcoin"),
        Err(FetchError::ParseError)
    );
    assert_eq!(parse_price_response("not json at all", "bitcoin"), Err(FetchError::ParseError));
    assert_eq!(parse_price_response("", "bitcoin"), Err(FetchError::ParseError));
}

#[test]
fn ticker_validation_normalizes_and_rejects() {
    assert_eq!(resolve_ticker("BTC").as_deref(), Some("bitcoin"));
    assert_eq!(resolve_ticker("btc").as_deref(), Some("bitcoin"));
    assert_eq!(resolve_ticker("Bitcoin").as_deref(), Some("bitcoin"));
    assert_eq!(resolve_ticker("ETH").as_deref(), Some("ethereum"));
    assert_eq!(resolve_ticker("ethereum").as_deref(), Some("ethereum"));
    assert_eq!(resolve_ticker("AdA").as_deref(), Some("cardano"));
    assert_eq!(resolve_ticker("cardano").as_deref(), Some("cardano"));
    assert_eq!(resolve_ticker("doge"), None);
    assert_eq!(resolve_ticker(""), None);
    assert_eq!(resolve_ticker("btc "), None);
}

#[test]
fn fetch_errors_report_their_cause() {
    let network = FetchError::NetworkError("connection refused".to_string());
    assert_eq!(network.message(), "Request error: connection refused");
    assert_eq!(FetchError::ParseError.message(), "Failed to parse price");
}

#[test]
fn url_is_built_from_the_asset_id() {
    assert_eq!(
        price_url("bitcoin"),
        "https://api.coingecko.com/api/v3/simple/price?ids=bitcoin&vs_currencies=usd"
    );
}

#[test]
fn prices_render_with_two_decimals() {
    assert_eq!(format_fixed2(9_400_000_000), "94.00");
    assert_eq!(format_fixed2(0), "0.00");
    assert_eq!(format_fixed2(6_700_050_000_000), "67000.50");
    // digits below a hundredth are truncated
    assert_eq!(format_fixed2(123_456_789), "1.23");
}
