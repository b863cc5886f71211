use funding_rates::aster::AsterFundingInfo;
use funding_rates::aster::AsterFundingRate;
use funding_rates::aster::normalize_aster_rates;
use funding_rates::aster::normalize_aster_record;
use funding_rates::decimal::parse_rate;
use funding_rates::hyperliquid::HlAssetRates;
use funding_rates::hyperliquid::HlFundingInfo;
use funding_rates::hyperliquid::HlVenueRate;
use funding_rates::hyperliquid::normalize_hl_rates;
use funding_rates::hyperliquid::normalize_hl_record;
use funding_rates::rates::SkipReason;
use funding_rates::rates::calculate_funding_rate_pcts;
use funding_rates::report::render_pct;

fn aster_raw(symbol: &str, rate: &str) -> AsterFundingRate {
    AsterFundingRate {
        symbol: symbol.to_string(),
        mark_price: "100.0".to_string(),
        index_price: "100.0".to_string(),
        last_funding_rate: rate.to_string(),
        next_funding_time: 0,
        time: 0,
    }
}

fn aster_info(symbol: &str, hours: u64) -> AsterFundingInfo {
    AsterFundingInfo {
        symbol: symbol.to_string(),
        funding_interval_hours: hours,
    }
}

#[test]
fn parses_plain_decimals() {
    assert_eq!(parse_rate("0.0008"), Some(800_000));
    assert_eq!(parse_rate("1"), Some(1_000_000_000));
    assert_eq!(parse_rate("-0.5"), Some(-500_000_000));
    assert_eq!(parse_rate("+2.25"), Some(2_250_000_000));
    assert_eq!(parse_rate("999999"), Some(999_999_000_000_000));
    assert_eq!(parse_rate("0."), Some(0));
    assert_eq!(parse_rate(".5"), Some(500_000_000));
}

#[test]
fn truncates_fraction_digits_beyond_the_ninth() {
    assert_eq!(parse_rate("0.0000000001"), Some(0));
    assert_eq!(parse_rate("0.1234567891"), Some(123_456_789));
}

#[test]
fn rejects_non_numeric_rates() {
    assert_eq!(parse_rate(""), None);
    assert_eq!(parse_rate("-"), None);
    assert_eq!(parse_rate("."), None);
    assert_eq!(parse_rate("abc"), None);
    assert_eq!(parse_rate("1.2.3"), None);
    assert_eq!(parse_rate("--1"), None);
    assert_eq!(parse_rate("0.00a8"), None);
    assert_eq!(parse_rate("1000000"), None);
}

#[test]
fn normalizes_supported_intervals_linearly() {
    // For every supported interval the longer horizons are 2x, 4x and 8x
    // the 1-hour projection, and the 1-hour projection is (r / h) * 100.
    for &h in &[1u64, 2, 4, 8] {
        let rate = 800_000i64; // 0.0008
        let (p1, p2, p4, p8) = calculate_funding_rate_pcts(rate, h).unwrap();
        assert_eq!(p2, 2 * p1);
        assert_eq!(p4, 4 * p1);
        assert_eq!(p8, 8 * p1);
        assert_eq!(p1, rate * 200 / h as i64);
    }
}

#[test]
fn rejects_unsupported_intervals() {
    for &h in &[0u64, 3, 5, 6, 7, 9, 12, 16, 24] {
        assert_eq!(calculate_funding_rate_pcts(800_000, h), None);
        assert_eq!(calculate_funding_rate_pcts(0, h), None);
        assert_eq!(calculate_funding_rate_pcts(-123_456, h), None);
    }
}

#[test]
fn scenario_btc_eight_hour_interval() {
    // rate "0.0008" over 8h: 0.01% / 0.02% / 0.04% / 0.08%.
    let m = parse_rate("0.0008").unwrap();
    let (p1, p2, p4, p8) = calculate_funding_rate_pcts(m, 8).unwrap();
    assert_eq!(render_pct(p1), "0.0100");
    assert_eq!(render_pct(p2), "0.0200");
    assert_eq!(render_pct(p4), "0.0400");
    assert_eq!(render_pct(p8), "0.0800");
}

#[test]
fn scenario_eth_one_hour_interval() {
    // rate "0.0002" over 1h: 0.02% / 0.04% / 0.08% / 0.16%.
    let m = parse_rate("0.0002").unwrap();
    let (p1, p2, p4, p8) = calculate_funding_rate_pcts(m, 1).unwrap();
    assert_eq!(render_pct(p1), "0.0200");
    assert_eq!(render_pct(p2), "0.0400");
    assert_eq!(render_pct(p4), "0.0800");
    assert_eq!(render_pct(p8), "0.1600");
}

#[test]
fn renders_signs_and_rounding() {
    assert_eq!(render_pct(0), "0.0000");
    assert_eq!(render_pct(-160_000_000), "-0.0800");
    // 100_000 units is exactly half of one printed step: rounds away.
    assert_eq!(render_pct(100_000), "0.0001");
    assert_eq!(render_pct(99_999), "0.0000");
    assert_eq!(render_pct(-1), "-0.0000");
    assert_eq!(render_pct(2_000_000_000), "1.0000");
}

#[test]
fn join_miss_is_skipped() {
    let infos = vec![aster_info("ETHUSDT", 8)];
    let (rec, skip) = normalize_aster_record(&aster_raw("BTCUSDT", "0.0008"), &infos);
    assert!(rec.is_none());
    assert_eq!(skip, Some(SkipReason::JoinMiss));
}

#[test]
fn non_numeric_rate_is_skipped() {
    let infos = vec![aster_info("BTCUSDT", 8)];
    let (rec, skip) = normalize_aster_record(&aster_raw("BTCUSDT", "n/a"), &infos);
    assert!(rec.is_none());
    assert_eq!(skip, Some(SkipReason::ParseFailure));
}

#[test]
fn unsupported_interval_is_skipped() {
    let infos = vec![aster_info("BTCUSDT", 3)];
    let (rec, skip) = normalize_aster_record(&aster_raw("BTCUSDT", "0.0008"), &infos);
    assert!(rec.is_none());
    assert_eq!(skip, Some(SkipReason::UnsupportedInterval));
}

#[test]
fn aster_batch_keeps_only_clean_records() {
    let rates = vec![
        aster_raw("BTCUSDT", "0.0008"),
        aster_raw("NOJOIN", "0.0001"),
        aster_raw("BADRATE", "x"),
        aster_raw("BADHOURS", "0.0001"),
    ];
    let infos = vec![
        aster_info("BTCUSDT", 8),
        aster_info("BADRATE", 8),
        aster_info("BADHOURS", 5),
    ];
    let out = normalize_aster_rates(&rates, &infos);
    assert_eq!(out.len(), 1);
    assert_eq!(out[0].exchange, "AsterPerp");
    assert_eq!(out[0].asset, "BTCUSDT");
    assert_eq!(out[0].funding_rate_pct_one_hour, 20_000_000);
    assert_eq!(out[0].funding_rate_pct_eight_hours, 160_000_000);
}

#[test]
fn aster_duplicate_interval_entry_last_wins() {
    let rates = vec![aster_raw("BTCUSDT", "0.0008")];
    let infos = vec![aster_info("BTCUSDT", 3), aster_info("BTCUSDT", 8)];
    let out = normalize_aster_rates(&rates, &infos);
    assert_eq!(out.len(), 1);
    assert_eq!(out[0].funding_rate_pct_eight_hours, 160_000_000);
}

fn hl_venue(venue: &str, info: Option<HlFundingInfo>) -> HlVenueRate {
    HlVenueRate {
        venue: venue.to_string(),
        info,
    }
}

fn hl_info(rate: &str, hours: Option<u64>) -> HlFundingInfo {
    HlFundingInfo {
        funding_rate: rate.to_string(),
        next_funding_time: 0,
        funding_interval_hours: hours,
    }
}

#[test]
fn hyperliquid_skip_reasons_are_named() {
    let asset = "ETH".to_string();
    let (rec, skip) = normalize_hl_record(&asset, &hl_venue("V", None));
    assert!(rec.is_none());
    assert_eq!(skip, Some(SkipReason::JoinMiss));
    let (rec, skip) = normalize_hl_record(&asset, &hl_venue("V", Some(hl_info("0.1", None))));
    assert!(rec.is_none());
    assert_eq!(skip, Some(SkipReason::JoinMiss));
    let (rec, skip) = normalize_hl_record(&asset, &hl_venue("V", Some(hl_info("NaNish", Some(1)))));
    assert!(rec.is_none());
    assert_eq!(skip, Some(SkipReason::ParseFailure));
    let (rec, skip) = normalize_hl_record(&asset, &hl_venue("V", Some(hl_info("0.1", Some(6)))));
    assert!(rec.is_none());
    assert_eq!(skip, Some(SkipReason::UnsupportedInterval));
    let (rec, skip) = normalize_hl_record(&asset, &hl_venue("V", Some(hl_info("0.1", Some(2)))));
    assert!(skip.is_none());
    let rec = rec.unwrap();
    assert_eq!(rec.exchange, "V");
    // 0.1 over 2h is 5% per hour: 10^10 units of half-billionths.
    assert_eq!(rec.funding_rate_pct_one_hour, 10_000_000_000);
    assert_eq!(rec.funding_rate_pct_two_hours, 20_000_000_000);
}

#[test]
fn hyperliquid_batch_filters_per_venue() {
    let entries = vec![
        HlAssetRates {
            asset: "ETH".to_string(),
            venues: vec![
                hl_venue("HlPerp", Some(hl_info("0.0002", Some(1)))),
                hl_venue("NoInfo", None),
                hl_venue("NoHours", Some(hl_info("0.0002", None))),
                hl_venue("BadRate", Some(hl_info("?", Some(1)))),
                hl_venue("BadHours", Some(hl_info("0.0002", Some(6)))),
            ],
        },
        HlAssetRates {
            asset: "BTC".to_string(),
            venues: vec![hl_venue("OtherPerp", Some(hl_info("-0.0004", Some(8))))],
        },
    ];
    let out = normalize_hl_rates(&entries);
    assert_eq!(out.len(), 2);
    assert_eq!(out[0].exchange, "HlPerp");
    assert_eq!(out[0].asset, "ETH");
    assert_eq!(out[0].funding_rate_pct_one_hour, 40_000_000);
    assert_eq!(out[0].funding_rate_pct_eight_hours, 320_000_000);
    assert_eq!(out[1].exchange, "OtherPerp");
    assert_eq!(out[1].asset, "BTC");
    assert_eq!(out[1].funding_rate_pct_eight_hours, -80_000_000);
}
