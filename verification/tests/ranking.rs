use funding_rates::aster::AsterFundingInfo;
use funding_rates::aster::AsterFundingRate;
use funding_rates::cycle::cycle_report;
use funding_rates::rank::rank;
use funding_rates::rank::sort_rates;
use funding_rates::rates::FundingRate;
use funding_rates::report::build_message;
use funding_rates::report::format_rates;

fn record(exchange: &str, asset: &str, one_hour: i64) -> FundingRate {
    FundingRate {
        exchange: exchange.to_string(),
        asset: asset.to_string(),
        funding_rate_pct_one_hour: one_hour,
        funding_rate_pct_two_hours: 2 * one_hour,
        funding_rate_pct_four_hours: 4 * one_hour,
        funding_rate_pct_eight_hours: 8 * one_hour,
    }
}

#[test]
fn sorts_ascending_by_eight_hour_rate() {
    let rates = vec![
        record("B", "ETH", 30),
        record("A", "BTC", -10),
        record("C", "SOL", 20),
    ];
    let sorted = sort_rates(&rates);
    let eights: Vec<i64> = sorted.iter().map(|r| r.funding_rate_pct_eight_hours).collect();
    assert_eq!(eights, vec![-80, 160, 240]);
}

#[test]
fn equal_rates_break_ties_by_asset_then_exchange() {
    let rates = vec![
        record("Zed", "BBB", 5),
        record("Alp", "BBB", 5),
        record("Mid", "AAA", 5),
    ];
    let sorted = sort_rates(&rates);
    assert_eq!(sorted[0].asset, "AAA");
    assert_eq!(sorted[1].exchange, "Alp");
    assert_eq!(sorted[2].exchange, "Zed");
}

#[test]
fn rank_is_invariant_under_input_permutation() {
    let a = record("A", "BTC", 1);
    let b = record("B", "ETH", 2);
    let c = record("C", "SOL", 3);
    let d = record("D", "DOGE", 2); // ties with b on every rate field
    let one = vec![clone_of(&a), clone_of(&b), clone_of(&c), clone_of(&d)];
    let two = vec![clone_of(&d), clone_of(&c), clone_of(&a), clone_of(&b)];
    let (l1, s1) = rank(&one, 3);
    let (l2, s2) = rank(&two, 3);
    assert_eq!(l1, l2);
    assert_eq!(s1, s2);
}

fn clone_of(r: &FundingRate) -> FundingRate {
    record(&r.exchange, &r.asset, r.funding_rate_pct_one_hour)
}

#[test]
fn twenty_records_ranked_fifteen_overlap() {
    let mut rates: Vec<FundingRate> = Vec::new();
    for i in 0..20i64 {
        rates.push(record("Ex", &format!("ASSET{:02}", i), 100 + 7 * i));
    }
    let (largest, smallest) = rank(&rates, 15);
    assert_eq!(largest.len(), 15);
    assert_eq!(smallest.len(), 15);
    for w in largest.windows(2) {
        assert!(w[0].funding_rate_pct_eight_hours > w[1].funding_rate_pct_eight_hours);
    }
    for w in smallest.windows(2) {
        assert!(w[0].funding_rate_pct_eight_hours < w[1].funding_rate_pct_eight_hours);
    }
    // 15 + 15 > 20: the two slices overlap in the middle of the sort.
    assert!(smallest.iter().any(|r| largest.contains(r)));
}

#[test]
fn rank_with_fewer_records_than_n() {
    let rates = vec![record("A", "BTC", 1), record("B", "ETH", 2)];
    let (largest, smallest) = rank(&rates, 15);
    assert_eq!(largest.len(), 2);
    assert_eq!(smallest.len(), 2);
    assert_eq!(largest[0].asset, "ETH");
    assert_eq!(smallest[0].asset, "BTC");
}

#[test]
fn rank_with_zero_n_is_empty() {
    let rates = vec![record("A", "BTC", 1)];
    let (largest, smallest) = rank(&rates, 0);
    assert!(largest.is_empty());
    assert!(smallest.is_empty());
}

#[test]
fn one_sided_report_has_no_divider() {
    let l = vec![record("A", "BTC", 2)];
    let none: Vec<FundingRate> = Vec::new();
    let text = build_message(&l, &none, "now");
    assert!(text.contains("Highest Funding Rates"));
    assert!(!text.contains("Lowest Funding Rates"));
    // The only dividers are the header's and the footer's.
    assert_eq!(text.matches("━━━━━━━━━━━━━━━━━━━━━━━━━━━").count(), 2);
}

#[test]
fn formats_one_entry_exactly() {
    // 0.0008 over 8h: 0.01% / 0.02% / 0.04% / 0.08%.
    let rates = vec![record("AsterPerp", "BTC", 20_000_000)];
    let text = format_rates(&rates, "Highest Funding Rates 📊");
    assert_eq!(
        text,
        "🔸 *Highest Funding Rates 📊*\n\n\
         📈 *BTC* on *AsterPerp*\n\
         ├ 1h: 0.0100%\n\
         ├ 2h: 0.0200%\n\
         ├ 4h: 0.0400%\n\
         └ 8h: 0.0800%\n\n"
    );
}

#[test]
fn empty_report_is_header_and_footer_only() {
    let none: Vec<FundingRate> = Vec::new();
    let text = build_message(&none, &none, "2024-01-01 00:00 UTC");
    assert_eq!(
        text,
        "🚀 *Funding Rate Report*\n\
         ━━━━━━━━━━━━━━━━━━━━━━━━━━━\n\n\
         ━━━━━━━━━━━━━━━━━━━━━━━━━━━\n\
         📅 Generated at: 2024-01-01 00:00 UTC"
    );
}

#[test]
fn report_with_both_slices_has_divider() {
    let l = vec![record("A", "BTC", 2)];
    let s = vec![record("A", "ETH", 1)];
    let text = build_message(&l, &s, "now");
    assert!(text.contains("Highest Funding Rates"));
    assert!(text.contains("Lowest Funding Rates"));
    assert!(text.starts_with("🚀 *Funding Rate Report*\n"));
    assert!(text.ends_with("📅 Generated at: now"));
}

fn aster_fetch() -> (Vec<AsterFundingRate>, Vec<AsterFundingInfo>) {
    let rates = vec![AsterFundingRate {
        symbol: "BTCUSDT".to_string(),
        mark_price: "50000".to_string(),
        index_price: "50000".to_string(),
        last_funding_rate: "0.0008".to_string(),
        next_funding_time: 0,
        time: 0,
    }];
    let infos = vec![AsterFundingInfo {
        symbol: "BTCUSDT".to_string(),
        funding_interval_hours: 8,
    }];
    (rates, infos)
}

#[test]
fn cycle_survives_one_failed_fetch() {
    // The nested-feed fetch timed out; the report holds only the other
    // exchange's records, and the call returns normally.
    let (msg, largest, smallest) = cycle_report(Some(aster_fetch()), None, 15, "now");
    assert_eq!(largest.len(), 1);
    assert_eq!(smallest.len(), 1);
    assert_eq!(largest[0].asset, "BTCUSDT");
    assert_eq!(largest[0].exchange, "AsterPerp");
    assert!(msg.contains("BTCUSDT"));
    assert!(msg.contains("0.0800"));
}

#[test]
fn cycle_with_all_fetches_failed_reports_empty() {
    let (msg, largest, smallest) = cycle_report(None, None, 15, "now");
    assert!(largest.is_empty());
    assert!(smallest.is_empty());
    assert_eq!(
        msg,
        "🚀 *Funding Rate Report*\n\
         ━━━━━━━━━━━━━━━━━━━━━━━━━━━\n\n\
         ━━━━━━━━━━━━━━━━━━━━━━━━━━━\n\
         📅 Generated at: now"
    );
}
