//! The canonical normalized funding-rate record and the normalization math.
//!
//! A raw rate arrives as a signed fixed-point mantissa `m` in units of
//! `1 / RATE_SCALE` (so the real rate is `m / 10^9`). Normalization projects
//! it linearly to four horizons and expresses each as a percentage in units
//! of `1 / PCT_UNITS_PER_PERCENT` of a percent. With those scales the
//! conversion `pct_1h = (rate / hours) * 100` becomes the exact integer
//! `units_1h = m * 200 / hours`, and `200 / hours` is itself an integer for
//! every supported interval.

use vstd::prelude::*;

verus! {

/// A raw rate mantissa is a multiple of `1 / RATE_SCALE`.
pub const RATE_SCALE: i64 = 1_000_000_000;

/// A percentage field counts units of `1 / PCT_UNITS_PER_PERCENT` percent.
pub const PCT_UNITS_PER_PERCENT: i64 = 2_000_000_000;

/// Largest raw-rate mantissa the normalization accepts; keeps every
/// normalized field within `i64` (the 8h field is at most `1600 * m`).
pub const RATE_UNITS_MAX: i64 = 1_000_000_000_000_000;

/// Largest magnitude a normalized percentage field can take:
/// `8 * 200 * RATE_UNITS_MAX`.
pub const PCT_UNITS_ABS_MAX: i64 = 1_600_000_000_000_000_000;

/// One asset's comparable funding rate, for one exchange, at one point in
/// time. The four fields are percentages at fixed horizons, each in units
/// of `1 / PCT_UNITS_PER_PERCENT` percent.
#[derive(Debug, PartialEq, Eq)]
pub struct FundingRate {
    pub exchange: String,
    pub asset: String,
    pub funding_rate_pct_one_hour: i64,
    pub funding_rate_pct_two_hours: i64,
    pub funding_rate_pct_four_hours: i64,
    pub funding_rate_pct_eight_hours: i64,
}

/// Mathematical image of a `FundingRate`: strings as character sequences,
/// percentage fields as unbounded integers.
#[verifier::ext_equal]
pub ghost struct FundingRateView {
    pub exchange: Seq<char>,
    pub asset: Seq<char>,
    pub one_hour: int,
    pub two_hours: int,
    pub four_hours: int,
    pub eight_hours: int,
}

impl View for FundingRate {
    type V = FundingRateView;

    open spec fn view(&self) -> FundingRateView {
        FundingRateView {
            exchange: self.exchange@,
            asset: self.asset@,
            one_hour: self.funding_rate_pct_one_hour as int,
            two_hours: self.funding_rate_pct_two_hours as int,
            four_hours: self.funding_rate_pct_four_hours as int,
            eight_hours: self.funding_rate_pct_eight_hours as int,
        }
    }
}

impl FundingRateView {
    /// Funding accrues linearly with time in this model: the longer
    /// horizons are exact multiples of the 1-hour projection.
    pub open spec fn wf(self) -> bool {
        &&& self.two_hours == 2 * self.one_hour
        &&& self.four_hours == 4 * self.one_hour
        &&& self.eight_hours == 8 * self.one_hour
    }

    /// Every field a normalized record can carry fits the rendering range.
    pub open spec fn in_range(self) -> bool {
        &&& -PCT_UNITS_ABS_MAX <= self.one_hour <= PCT_UNITS_ABS_MAX
        &&& -PCT_UNITS_ABS_MAX <= self.two_hours <= PCT_UNITS_ABS_MAX
        &&& -PCT_UNITS_ABS_MAX <= self.four_hours <= PCT_UNITS_ABS_MAX
        &&& -PCT_UNITS_ABS_MAX <= self.eight_hours <= PCT_UNITS_ABS_MAX
    }
}

impl Clone for FundingRate {
    fn clone(&self) -> (r: Self)
        ensures
            r == *self,
    {
        FundingRate {
            exchange: self.exchange.clone(),
            asset: self.asset.clone(),
            funding_rate_pct_one_hour: self.funding_rate_pct_one_hour,
            funding_rate_pct_two_hours: self.funding_rate_pct_two_hours,
            funding_rate_pct_four_hours: self.funding_rate_pct_four_hours,
            funding_rate_pct_eight_hours: self.funding_rate_pct_eight_hours,
        }
    }
}

/// Why one raw record was left out of an adapter's output. Skips are
/// per-record filtering decisions, never errors: the rest of the batch
/// still normalizes.
#[derive(Clone, Copy, Debug, PartialEq, Eq, Structural)]
pub enum SkipReason {
    /// The rate feed names an asset the interval feed does not carry.
    JoinMiss,
    /// The rate field is not a decimal numeral.
    ParseFailure,
    /// The native interval is outside {1, 2, 4, 8} hours.
    UnsupportedInterval,
}

/// The native settlement intervals, in hours, that normalization supports.
pub open spec fn supported_interval(hours: u64) -> bool {
    hours == 1 || hours == 2 || hours == 4 || hours == 8
}

/// Units of 1-hour percentage per unit of raw mantissa: `200 / hours`,
/// exact for every supported interval.
pub open spec fn hour_scale(hours: u64) -> int
    recommends
        supported_interval(hours),
{
    if hours == 1 {
        200
    } else if hours == 2 {
        100
    } else if hours == 4 {
        50
    } else {
        25
    }
}

/// Projects a raw rate over a native interval to the four horizons.
///
/// `rate` is the fractional funding paid over exactly `hours` hours, as a
/// mantissa in units of `1 / RATE_SCALE`. The result holds the equivalent
/// 1h/2h/4h/8h percentages in units of `1 / PCT_UNITS_PER_PERCENT` percent:
/// the 1-hour percentage is `(rate / hours) * 100`, which in these units is
/// the exact integer `rate * (200 / hours)`, and the other horizons scale it
/// by 2, 4 and 8. An interval outside {1, 2, 4, 8} is unsupported and
/// yields `None` whatever the rate.
pub fn calculate_funding_rate_pcts(rate: i64, hours: u64) -> (r: Option<(i64, i64, i64, i64)>)
    requires
        -RATE_UNITS_MAX <= rate <= RATE_UNITS_MAX,
    ensures
        r is Some <==> supported_interval(hours),
        r matches Some(p) ==> {
            &&& p.0 == hour_scale(hours) * rate
            &&& p.1 == 2 * p.0
            &&& p.2 == 4 * p.0
            &&& p.3 == 8 * p.0
            &&& -PCT_UNITS_ABS_MAX <= p.0 <= PCT_UNITS_ABS_MAX
            &&& -PCT_UNITS_ABS_MAX <= p.1 <= PCT_UNITS_ABS_MAX
            &&& -PCT_UNITS_ABS_MAX <= p.2 <= PCT_UNITS_ABS_MAX
            &&& -PCT_UNITS_ABS_MAX <= p.3 <= PCT_UNITS_ABS_MAX
        },
{
    let scale: i64 = if hours == 1 {
        200
    } else if hours == 2 {
        100
    } else if hours == 4 {
        50
    } else if hours == 8 {
        25
    } else {
        return None;
    };
    let one_hr: i64 = rate * scale;
    Some((one_hr, one_hr * 2, one_hr * 4, one_hr * 8))
}

} // verus!
