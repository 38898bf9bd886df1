//! The alert decision.
//!
//! `evaluate` compares a current price against the session baseline, in
//! absolute or percent terms, and decides whether an alert is due. All three
//! numeric inputs are fixed-point values in units of `1/SCALE` (see
//! `decimal`), so the percent comparison can be carried out exactly: the real
//! condition `|current - baseline| / baseline * 100 >= threshold` is
//! multiplied through by the positive `baseline * SCALE`.

use vstd::prelude::*;
use vstd::string::StrSliceExecFns;
use vstd::string::StringExecFns;

use crate::decimal::SCALE;
use crate::decimal::format_fixed2;
use crate::decimal::format_hundredths;
use crate::decimal::hundredths_str;

verus! {

/// What kind of change the threshold is measured against.
#[derive(Clone, Copy, Debug, PartialEq, Eq, Structural)]
pub enum AlertMode {
    /// The threshold is a price difference in quote-currency units.
    AbsoluteDelta,
    /// The threshold is a percentage of the baseline price.
    PercentDelta,
}

/// A triggered alert: how far the price moved and where it stands now.
///
/// `change_hundredths` is the magnitude of the movement in hundredths — of a
/// currency unit in absolute mode, of a percent in percent mode — truncated
/// toward zero; `change_negative` tells whether the price fell.
#[derive(Clone, Copy, Debug, PartialEq, Eq, Structural)]
pub struct AlertMessage {
    pub mode: AlertMode,
    pub change_negative: bool,
    pub change_hundredths: u128,
    pub current_price: u64,
}

/// The configuration a monitoring session runs under.
#[derive(Clone, Debug)]
pub struct AlertConfig {
    pub asset_id: String,
    pub mode: AlertMode,
    pub threshold: u64,
    pub poll_interval_secs: u64,
}

pub open spec fn abs_int(x: int) -> int {
    if x < 0 {
        -x
    } else {
        x
    }
}

/// Whether an alert is due. In percent mode a baseline of zero never alerts:
/// a percentage change from zero is undefined, and this library resolves the
/// ambiguity by treating it as never reaching the threshold.
pub open spec fn spec_triggers(baseline: u64, current: u64, mode: AlertMode, threshold: u64) -> bool {
    match mode {
        AlertMode::AbsoluteDelta => abs_int(current - baseline) >= threshold,
        AlertMode::PercentDelta => baseline > 0 && 100 * (SCALE as int) * abs_int(
            current - baseline,
        ) >= (threshold as int) * (baseline as int),
    }
}

/// Magnitude of the reported change in hundredths, truncated toward zero:
/// hundredths of a currency unit in absolute mode, hundredths of a percent in
/// percent mode.
pub open spec fn spec_change_hundredths(baseline: u64, current: u64, mode: AlertMode) -> int {
    match mode {
        AlertMode::AbsoluteDelta => abs_int(current - baseline) / 1_000_000,
        AlertMode::PercentDelta => abs_int(current - baseline) * 10_000 / (baseline as int),
    }
}

/// The full alert decision as a function of the four inputs.
pub open spec fn spec_evaluate(baseline: u64, current: u64, mode: AlertMode, threshold: u64) -> Option<AlertMessage> {
    if spec_triggers(baseline, current, mode, threshold) {
        Some(
            (AlertMessage {
                mode: mode,
                change_negative: current < baseline,
                change_hundredths: spec_change_hundredths(baseline, current, mode) as u128,
                current_price: current,
            }),
        )
    } else {
        None
    }
}

/// Decide whether the move from `baseline` to `current` crosses `threshold`.
///
/// The comparison is inclusive: a change exactly equal to the threshold
/// triggers. The result is a pure function of the four arguments.
pub fn evaluate(baseline: u64, current: u64, mode: AlertMode, threshold: u64) -> (r: Option<
    AlertMessage,
>)
    ensures
        r == spec_evaluate(baseline, current, mode, threshold),
{
    let mag: u64 = if current >= baseline {
        current - baseline
    } else {
        baseline - current
    };
    match mode {
        AlertMode::AbsoluteDelta => {
            if mag >= threshold {
                Some(
                    AlertMessage {
                        mode,
                        change_negative: current < baseline,
                        change_hundredths: (mag / 1_000_000) as u128,
                        current_price: current,
                    },
                )
            } else {
                None
            }
        },
        AlertMode::PercentDelta => {
            if baseline == 0 {
                return None;
            }
            proof {
                assert((threshold as int) * (baseline as int) <= (u64::MAX as int) * (
                u64::MAX as int)) by (nonlinear_arith)
                    requires
                        threshold <= u64::MAX,
                        baseline <= u64::MAX,
                ;
            }
            let lhs: u128 = (mag as u128) * 10_000_000_000;
            let rhs: u128 = (threshold as u128) * (baseline as u128);
            if lhs >= rhs {
                let ch: u128 = (mag as u128) * 10_000 / (baseline as u128);
                Some(
                    AlertMessage {
                        mode,
                        change_negative: current < baseline,
                        change_hundredths: ch,
                        current_price: current,
                    },
                )
            } else {
                None
            }
        },
    }
}

/// Which mode a selector answer stands for: `"1"` is absolute, `"2"` is
/// percent, anything else is unrecognized.
pub open spec fn spec_mode_of_selector(s: Seq<char>) -> Option<AlertMode> {
    if s == "1"@ {
        Some(AlertMode::AbsoluteDelta)
    } else if s == "2"@ {
        Some(AlertMode::PercentDelta)
    } else {
        None
    }
}

/// Interpret the mode selector typed at configuration time. An unrecognized
/// answer yields `None`, for the caller to surface and retry; evaluation
/// itself only ever sees one of the two recognized modes.
pub fn parse_mode_selector(s: &str) -> (r: Option<AlertMode>)
    ensures
        r == spec_mode_of_selector(s@),
{
    proof {
        reveal_strlit("1");
        reveal_strlit("2");
    }
    let n = s.unicode_len();
    if n != 1 {
        return None;
    }
    let c = s.get_char(0);
    if c == '1' {
        proof {
            assert(s@ =~= "1"@);
        }
        Some(AlertMode::AbsoluteDelta)
    } else if c == '2' {
        proof {
            assert(s@ =~= "2"@);
        }
        Some(AlertMode::PercentDelta)
    } else {
        None
    }
}

impl AlertConfig {
    /// The invariant every constructed configuration satisfies.
    pub open spec fn wf(&self) -> bool {
        self.threshold > 0 && self.poll_interval_secs > 0
    }

    /// Build a configuration, rejecting a non-positive threshold or interval.
    pub fn new(asset_id: String, mode: AlertMode, threshold: u64, poll_interval_secs: u64) -> (r:
        Option<AlertConfig>)
        ensures
            r is Some <==> threshold > 0 && poll_interval_secs > 0,
            r is Some ==> r->0.wf(),
            r is Some ==> r->0.asset_id@ == asset_id@ && r->0.mode == mode && r->0.threshold
                == threshold && r->0.poll_interval_secs == poll_interval_secs,
    {
        if threshold > 0 && poll_interval_secs > 0 {
            Some(AlertConfig { asset_id, mode, threshold, poll_interval_secs })
        } else {
            None
        }
    }
}

impl AlertMessage {
    /// The reported change, rendered with two decimal places and a leading
    /// minus sign when the price fell: `"-6.00"` for a six-percent drop in
    /// percent mode, `"2.50"` for a rise of two and a half currency units in
    /// absolute mode.
    pub fn change_text(&self) -> (r: String)
        ensures
            r@ == if self.change_negative {
                seq!['-'] + hundredths_str(self.change_hundredths as int)
            } else {
                hundredths_str(self.change_hundredths as int)
            },
    {
        proof {
            reveal_strlit("-");
        }
        let digits = format_hundredths(self.change_hundredths);
        if self.change_negative {
            let mut s = String::from_str("-");
            s.append(digits.as_str());
            s
        } else {
            digits
        }
    }

    /// The current price, rendered with two decimal places as the status
    /// lines print it.
    pub fn current_price_text(&self) -> (r: String)
        ensures
            r@ == hundredths_str(self.current_price as int / 1_000_000),
    {
        format_fixed2(self.current_price)
    }
}

/// For every positive baseline, absolute mode alerts exactly when the
/// magnitude of the price change reaches the threshold (inclusive).
pub proof fn lemma_absolute_trigger(baseline: u64, current: u64, threshold: u64)
    requires
        baseline > 0,
    ensures
        spec_evaluate(baseline, current, AlertMode::AbsoluteDelta, threshold) is Some <==> abs_int(
            current - baseline,
        ) >= threshold,
{
}

/// For every positive baseline, percent mode alerts exactly when
/// `|current - baseline| / baseline * 100 >= threshold` holds of the real
/// quantities; the statement clears the positive denominator
/// `baseline * SCALE`, under which the comparison is exact.
pub proof fn lemma_percent_trigger(baseline: u64, current: u64, threshold: u64)
    requires
        baseline > 0,
    ensures
        spec_evaluate(baseline, current, AlertMode::PercentDelta, threshold) is Some <==> 100 * (
        SCALE as int) * abs_int(current - baseline) >= (threshold as int) * (baseline as int),
{
}

/// Boundary of the inclusive comparison: a change whose magnitude equals the
/// threshold exactly does trigger, in absolute mode.
pub proof fn lemma_threshold_boundary(baseline: u64, current: u64, threshold: u64)
    requires
        abs_int(current - baseline) == threshold,
    ensures
        spec_evaluate(baseline, current, AlertMode::AbsoluteDelta, threshold) is Some,
{
}

/// Boundary of the inclusive comparison in percent mode: a percent change
/// exactly equal to the threshold triggers.
pub proof fn lemma_percent_threshold_boundary(baseline: u64, current: u64, threshold: u64)
    requires
        baseline > 0,
        100 * (SCALE as int) * abs_int(current - baseline) == (threshold as int) * (
        baseline as int),
    ensures
        spec_evaluate(baseline, current, AlertMode::PercentDelta, threshold) is Some,
{
}

/// Evaluation keeps no hidden state: any two results that satisfy
/// `evaluate`'s postcondition for the same four inputs are identical.
pub proof fn lemma_evaluate_idempotent(
    r1: Option<AlertMessage>,
    r2: Option<AlertMessage>,
    baseline: u64,
    current: u64,
    mode: AlertMode,
    threshold: u64,
)
    requires
        r1 == spec_evaluate(baseline, current, mode, threshold),
        r2 == spec_evaluate(baseline, current, mode, threshold),
    ensures
        r1 == r2,
{
}

} // verus!
