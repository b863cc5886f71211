//! Funding-rate normalization and ranking for perpetual-futures exchanges.
//!
//! Exchanges quote funding at different native cadences (every 1, 2, 4 or
//! 8 hours) and in heterogeneous response shapes. This library turns each
//! exchange's raw records into one comparable form: a fixed-point funding
//! rate projected to the 1h/2h/4h/8h horizons, ranks all records by the
//! 8-hour rate, and renders the top and bottom slices as a text report.
//!
//! Rates are exact fixed-point integers throughout: a raw rate is a signed
//! mantissa in units of 1e-9 (`rates::RATE_SCALE`), and each percentage
//! field is a signed count of half-billionths of a percent
//! (`rates::PCT_UNITS_PER_PERCENT`), so normalization, comparison and
//! rendering are exact.

pub mod aster;
pub mod cycle;
pub mod decimal;
pub mod hyperliquid;
pub mod rank;
pub mod rates;
pub mod report;
