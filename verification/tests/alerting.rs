use price_alert::evaluate;
use price_alert::parse_mode_selector;
use price_alert::AlertConfig;
use price_alert::AlertMessage;
use price_alert::AlertMode;
use price_alert::SCALE;

#[test]
fn absolute_mode_triggers_on_large_move() {
    // baseline 100.00, current 103.50, threshold 2.00
    let r = evaluate(100 * SCALE, 10_350_000_000, AlertMode::AbsoluteDelta, 2 * SCALE);
    let msg = r.expect("a 3.50 move past a 2.00 threshold must alert");
    assert_eq!(msg.mode, AlertMode::AbsoluteDelta);
    assert!(!msg.change_negative);
    assert_eq!(msg.change_hundredths, 350);
    assert_eq!(msg.current_price, 10_350_000_000);
    assert_eq!(msg.change_text(), "3.50");
}

#[test]
fn absolute_mode_stays_quiet_below_threshold() {
    // baseline 100.00, current 101.99, threshold 2.00
    let r = evaluate(100 * SCALE, 10_199_000_000, AlertMode::AbsoluteDelta, 2 * SCALE);
    assert_eq!(r, None);
}

#[test]
fn absolute_threshold_boundary_is_inclusive() {
    // delta of exactly 2.00 against a threshold of 2.00
    let r = evaluate(100 * SCALE, 102 * SCALE, AlertMode::AbsoluteDelta, 2 * SCALE);
    assert!(r.is_some());
    let down = evaluate(100 * SCALE, 98 * SCALE, AlertMode::AbsoluteDelta, 2 * SCALE);
    assert!(down.is_some());
}

#[test]
fn percent_threshold_boundary_is_inclusive() {
    // baseline 200.00, current 210.00: exactly +5%, threshold 5%
    let r = evaluate(200 * SCALE, 210 * SCALE, AlertMode::PercentDelta, 5 * SCALE);
    let msg = r.expect("a move of exactly the threshold must alert");
    assert_eq!(msg.change_hundredths, 500);
    assert!(!msg.change_negative);
    // one cent short of 5%: 209.99 is +4.995%
    let below = evaluate(200 * SCALE, 20_999_000_000, AlertMode::PercentDelta, 5 * SCALE);
    assert_eq!(below, None);
}

#[test]
fn percent_drop_scenario_end_to_end() {
    // baseline 100.0, threshold 5.0%, current 94.0: -6.00%, alert fires
    let r = evaluate(100 * SCALE, 94 * SCALE, AlertMode::PercentDelta, 5 * SCALE);
    let msg = r.expect("a -6% move past a 5% threshold must alert");
    assert_eq!(msg.mode, AlertMode::PercentDelta);
    assert!(msg.change_negative);
    assert_eq!(msg.change_hundredths, 600);
    assert_eq!(msg.change_text(), "-6.00");
    assert_eq!(msg.current_price_text(), "94.00");
}

#[test]
fn percent_mode_with_zero_baseline_never_alerts() {
    // a percent change from a zero baseline is undefined; the library
    // resolves it as never reaching the threshold
    let r = evaluate(0, 94 * SCALE, AlertMode::PercentDelta, 1);
    assert_eq!(r, None);
}

#[test]
fn evaluate_is_idempotent() {
    let first = evaluate(100 * SCALE, 94 * SCALE, AlertMode::PercentDelta, 5 * SCALE);
    let second = evaluate(100 * SCALE, 94 * SCALE, AlertMode::PercentDelta, 5 * SCALE);
    assert_eq!(first, second);
    let quiet_first = evaluate(100 * SCALE, 99 * SCALE, AlertMode::AbsoluteDelta, 2 * SCALE);
    let quiet_second = evaluate(100 * SCALE, 99 * SCALE, AlertMode::AbsoluteDelta, 2 * SCALE);
    assert_eq!(quiet_first, quiet_second);
}

#[test]
fn mode_selector_recognizes_one_and_two() {
    assert_eq!(parse_mode_selector("1"), Some(AlertMode::AbsoluteDelta));
    assert_eq!(parse_mode_selector("2"), Some(AlertMode::PercentDelta));
    assert_eq!(parse_mode_selector("3"), None);
    assert_eq!(parse_mode_selector(""), None);
    assert_eq!(parse_mode_selector("12"), None);
}

#[test]
fn config_requires_positive_threshold_and_interval() {
    let ok = AlertConfig::new("bitcoin".to_string(), AlertMode::PercentDelta, 5 * SCALE, 30);
    let cfg = ok.expect("a positive threshold and interval are accepted");
    assert_eq!(cfg.asset_id, "bitcoin");
    assert_eq!(cfg.mode, AlertMode::PercentDelta);
    assert_eq!(cfg.threshold, 5 * SCALE);
    assert_eq!(cfg.poll_interval_secs, 30);
    assert!(AlertConfig::new("bitcoin".to_string(), AlertMode::PercentDelta, 0, 30).is_none());
    assert!(AlertConfig::new("bitcoin".to_string(), AlertMode::AbsoluteDelta, 1, 0).is_none());
}

#[test]
fn change_text_keeps_two_decimals() {
    let msg = AlertMessage {
        mode: AlertMode::AbsoluteDelta,
        change_negative: false,
        change_hundredths: 7,
        current_price: 0,
    };
    assert_eq!(msg.change_text(), "0.07");
    let falling = AlertMessage {
        mode: AlertMode::PercentDelta,
        change_negative: true,
        change_hundredths: 1234,
        current_price: 5_000_000,
    };
    assert_eq!(falling.change_text(), "-12.34");
    assert_eq!(falling.current_price_text(), "0.05");
}
