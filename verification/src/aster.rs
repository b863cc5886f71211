//! Adapter logic for an exchange that serves funding data on two flat
//! endpoints: one lists per-asset premium/rate records, the other lists
//! per-asset funding intervals. The two are joined by symbol; a record
//! whose symbol has no interval metadata, whose rate string is not
//! numeric, or whose interval is unsupported is skipped, never an error.
//! When the same symbol occurs more than once in the interval feed, the
//! last entry wins, as it would when the feed is loaded into a map.

use vstd::prelude::*;

use crate::decimal::parse_rate;
use crate::decimal::spec_parse_rate;
use crate::rank::views;
use crate::rates::FundingRate;
use crate::rates::FundingRateView;
use crate::rates::SkipReason;
use crate::rates::calculate_funding_rate_pcts;
use crate::rates::hour_scale;
use crate::rates::supported_interval;

verus! {

/// One raw premium-index record as the rate endpoint serves it: the rate
/// is a decimal string over the exchange's native settlement interval.
pub struct AsterFundingRate {
    pub symbol: String,
    pub mark_price: String,
    pub index_price: String,
    pub last_funding_rate: String,
    pub next_funding_time: i64,
    pub time: i64,
}

/// One entry of the funding-interval endpoint.
pub struct AsterFundingInfo {
    pub symbol: String,
    pub funding_interval_hours: u64,
}

/// The exchange name every record of this adapter carries.
pub open spec fn aster_exchange_name() -> Seq<char> {
    "AsterPerp"@
}

/// Interval hours for `sym` in the interval feed; the last entry for a
/// symbol wins, and a symbol absent from the feed has none.
pub open spec fn lookup_hours(infos: Seq<AsterFundingInfo>, sym: Seq<char>) -> Option<u64>
    decreases infos.len(),
{
    if infos.len() == 0 {
        None
    } else if infos.last().symbol@ == sym {
        Some(infos.last().funding_interval_hours)
    } else {
        lookup_hours(infos.drop_last(), sym)
    }
}

/// The normalized image of one raw record, or `None` when the record is
/// skipped (join miss, unparseable rate, or unsupported interval).
pub open spec fn normalize_aster_one(
    rate: AsterFundingRate,
    infos: Seq<AsterFundingInfo>,
) -> Option<FundingRateView> {
    match lookup_hours(infos, rate.symbol@) {
        None => None,
        Some(h) => match spec_parse_rate(rate.last_funding_rate@) {
            None => None,
            Some(m) => if supported_interval(h) {
                let u = hour_scale(h) * m;
                Some(
                    FundingRateView {
                        exchange: aster_exchange_name(),
                        asset: rate.symbol@,
                        one_hour: u,
                        two_hours: 2 * u,
                        four_hours: 4 * u,
                        eight_hours: 8 * u,
                    },
                )
            } else {
                None
            },
        },
    }
}

/// The normalized image of a whole fetch: each raw record in order,
/// skipped records contributing nothing.
pub open spec fn normalize_aster(
    rates: Seq<AsterFundingRate>,
    infos: Seq<AsterFundingInfo>,
) -> Seq<FundingRateView>
    decreases rates.len(),
{
    if rates.len() == 0 {
        Seq::empty()
    } else {
        normalize_aster(rates.drop_last(), infos) + match normalize_aster_one(
            rates.last(),
            infos,
        ) {
            Some(v) => seq![v],
            None => Seq::empty(),
        }
    }
}

/// Finds the interval hours recorded for `sym`, later entries winning.
fn lookup_info_hours(infos: &Vec<AsterFundingInfo>, sym: &String) -> (r: Option<u64>)
    ensures
        r == lookup_hours(infos@, sym@),
{
    let mut i: usize = infos.len();
    proof {
        assert(infos@.take(infos@.len() as int) =~= infos@);
    }
    while i > 0
        invariant
            0 <= i <= infos@.len(),
            lookup_hours(infos@, sym@) == lookup_hours(infos@.take(i as int), sym@),
        decreases i,
    {
        i = i - 1;
        proof {
            assert(infos@.take(i + 1).last() == infos@[i as int]);
            assert(infos@.take(i + 1).drop_last() =~= infos@.take(i as int));
        }
        if infos[i].symbol == *sym {
            return Some(infos[i].funding_interval_hours);
        }
    }
    None
}

/// Normalizes one raw record against the interval feed, or reports why
/// it is skipped. Exactly one of the two results is present: `r.0` is the
/// normalized record, `r.1` the skip reason.
pub fn normalize_aster_record(
    rate: &AsterFundingRate,
    infos: &Vec<AsterFundingInfo>,
) -> (r: (Option<FundingRate>, Option<SkipReason>))
    ensures
        r.0 is Some <==> normalize_aster_one(*rate, infos@) is Some,
        r.0 matches Some(fr) ==> {
            &&& normalize_aster_one(*rate, infos@) == Some(fr@)
            &&& fr@.wf()
            &&& fr@.in_range()
        },
        r.1 is None <==> normalize_aster_one(*rate, infos@) is Some,
        r.1 == Some(SkipReason::JoinMiss) <==> lookup_hours(infos@, rate.symbol@) is None,
        r.1 == Some(SkipReason::ParseFailure) <==> (lookup_hours(infos@, rate.symbol@) is Some
            && spec_parse_rate(rate.last_funding_rate@) is None),
        r.1 == Some(SkipReason::UnsupportedInterval) <==> (lookup_hours(infos@, rate.symbol@)
            matches Some(h) && spec_parse_rate(rate.last_funding_rate@) is Some
            && !supported_interval(h)),
{
    let hours = match lookup_info_hours(infos, &rate.symbol) {
        Some(h) => h,
        None => {
            return (None, Some(SkipReason::JoinMiss));
        },
    };
    let mantissa = match parse_rate(rate.last_funding_rate.as_str()) {
        Some(m) => m,
        None => {
            return (None, Some(SkipReason::ParseFailure));
        },
    };
    match calculate_funding_rate_pcts(mantissa, hours) {
        Some(p) => {
            let fr = FundingRate {
                exchange: "AsterPerp".to_owned(),
                asset: rate.symbol.clone(),
                funding_rate_pct_one_hour: p.0,
                funding_rate_pct_two_hours: p.1,
                funding_rate_pct_four_hours: p.2,
                funding_rate_pct_eight_hours: p.3,
            };
            (Some(fr), None)
        },
        None => (None, Some(SkipReason::UnsupportedInterval)),
    }
}

/// Joins a fetched batch of raw records with the interval feed and
/// normalizes every record that survives the join and the filters.
pub fn normalize_aster_rates(
    rates: &Vec<AsterFundingRate>,
    infos: &Vec<AsterFundingInfo>,
) -> (r: Vec<FundingRate>)
    ensures
        views(r@) == normalize_aster(rates@, infos@),
        forall|p: int| 0 <= p < r@.len() ==> (#[trigger] r@[p]@).wf() && r@[p]@.in_range(),
{
    let mut out: Vec<FundingRate> = Vec::new();
    proof {
        assert(views(out@) =~= normalize_aster(rates@.take(0), infos@));
    }
    let mut i: usize = 0;
    #[verifier::loop_isolation(false)]
    while i < rates.len()
        invariant
            0 <= i <= rates@.len(),
            views(out@) == normalize_aster(rates@.take(i as int), infos@),
            forall|p: int| 0 <= p < out@.len() ==> (#[trigger] out@[p]@).wf() && out@[p]@.in_range(),
        decreases rates@.len() - i,
    {
        proof {
            assert(rates@.take(i + 1).last() == rates@[i as int]);
            assert(rates@.take(i + 1).drop_last() =~= rates@.take(i as int));
        }
        let (nr, _skip) = normalize_aster_record(&rates[i], infos);
        match nr {
            Some(fr) => {
                let ghost old_out = out@;
                out.push(fr);
                proof {
                    assert(views(out@) =~= views(old_out).push(fr@));
                    assert(views(out@) =~= normalize_aster(rates@.take(i + 1), infos@));
                }
            },
            None => {
                proof {
                    assert(views(out@) + Seq::<FundingRateView>::empty() =~= views(out@));
                }
            },
        }
        i = i + 1;
    }
    proof {
        assert(rates@.take(rates@.len() as int) =~= rates@);
    }
    out
}

} // verus!
