//! Adapter logic for an exchange whose funding endpoint serves a nested
//! structure: a list of assets, each holding a list of venues, each venue
//! optionally holding a rate record. The venue name becomes the record's
//! exchange. A venue with no record, a record with no interval, an
//! unparseable rate, or an unsupported interval is skipped per record.

use vstd::prelude::*;

use crate::decimal::parse_rate;
use crate::decimal::spec_parse_rate;
use crate::rank::views;
use crate::rates::FundingRate;
use crate::rates::FundingRateView;
use crate::rates::SkipReason;
use crate::rates::calculate_funding_rate_pcts;
use crate::rates::hour_scale;
use crate::rates::supported_interval;

verus! {

/// One venue's funding record: the rate is a decimal string over the
/// venue's native settlement interval, which some venues omit.
pub struct HlFundingInfo {
    pub funding_rate: String,
    pub next_funding_time: u64,
    pub funding_interval_hours: Option<u64>,
}

/// One venue's entry under an asset; a venue may carry no record at all.
pub struct HlVenueRate {
    pub venue: String,
    pub info: Option<HlFundingInfo>,
}

/// One asset's entry: its venues' predicted funding records.
pub struct HlAssetRates {
    pub asset: String,
    pub venues: Vec<HlVenueRate>,
}

/// The normalized image of one venue's entry for `asset`, or `None` when
/// the entry is skipped (no record, no interval, unparseable rate, or
/// unsupported interval).
pub open spec fn normalize_hl_one(asset: Seq<char>, v: HlVenueRate) -> Option<FundingRateView> {
    match v.info {
        None => None,
        Some(info) => match info.funding_interval_hours {
            None => None,
            Some(h) => match spec_parse_rate(info.funding_rate@) {
                None => None,
                Some(m) => if supported_interval(h) {
                    let u = hour_scale(h) * m;
                    Some(
                        FundingRateView {
                            exchange: v.venue@,
                            asset: asset,
                            one_hour: u,
                            two_hours: 2 * u,
                            four_hours: 4 * u,
                            eight_hours: 8 * u,
                        },
                    )
                } else {
                    None
                },
            },
        },
    }
}

/// The normalized image of one asset's venue list.
pub open spec fn normalize_hl_venues(asset: Seq<char>, venues: Seq<HlVenueRate>) -> Seq<
    FundingRateView,
>
    decreases venues.len(),
{
    if venues.len() == 0 {
        Seq::empty()
    } else {
        normalize_hl_venues(asset, venues.drop_last()) + match normalize_hl_one(
            asset,
            venues.last(),
        ) {
            Some(v) => seq![v],
            None => Seq::empty(),
        }
    }
}

/// The normalized image of a whole fetch, asset by asset, venue by venue.
pub open spec fn normalize_hl(entries: Seq<HlAssetRates>) -> Seq<FundingRateView>
    decreases entries.len(),
{
    if entries.len() == 0 {
        Seq::empty()
    } else {
        normalize_hl(entries.drop_last()) + normalize_hl_venues(
            entries.last().asset@,
            entries.last().venues@,
        )
    }
}

/// Normalizes one venue's entry for `asset`, or reports why it is
/// skipped. Exactly one of the two results is present: `r.0` is the
/// normalized record, `r.1` the skip reason. A venue with no record, or a
/// record with no interval, counts as a join miss: the rate feed lacks
/// the metadata the join needs.
pub fn normalize_hl_record(asset: &String, v: &HlVenueRate) -> (r: (
    Option<FundingRate>,
    Option<SkipReason>,
))
    ensures
        r.0 is Some <==> normalize_hl_one(asset@, *v) is Some,
        r.0 matches Some(fr) ==> {
            &&& normalize_hl_one(asset@, *v) == Some(fr@)
            &&& fr@.wf()
            &&& fr@.in_range()
        },
        r.1 is None <==> normalize_hl_one(asset@, *v) is Some,
        r.1 == Some(SkipReason::JoinMiss) <==> (v.info is None || (v.info matches Some(info)
            && info.funding_interval_hours is None)),
        r.1 == Some(SkipReason::ParseFailure) <==> (v.info matches Some(info)
            && info.funding_interval_hours is Some && spec_parse_rate(info.funding_rate@) is None),
        r.1 == Some(SkipReason::UnsupportedInterval) <==> (v.info matches Some(info)
            && info.funding_interval_hours matches Some(h) && spec_parse_rate(info.funding_rate@)
            is Some && !supported_interval(h)),
{
    let info = match &v.info {
        Some(info) => info,
        None => {
            return (None, Some(SkipReason::JoinMiss));
        },
    };
    let hours = match info.funding_interval_hours {
        Some(h) => h,
        None => {
            return (None, Some(SkipReason::JoinMiss));
        },
    };
    let mantissa = match parse_rate(info.funding_rate.as_str()) {
        Some(m) => m,
        None => {
            return (None, Some(SkipReason::ParseFailure));
        },
    };
    match calculate_funding_rate_pcts(mantissa, hours) {
        Some(p) => (
            Some(
                FundingRate {
                    exchange: v.venue.clone(),
                    asset: asset.clone(),
                    funding_rate_pct_one_hour: p.0,
                    funding_rate_pct_two_hours: p.1,
                    funding_rate_pct_four_hours: p.2,
                    funding_rate_pct_eight_hours: p.3,
                },
            ),
            None,
        ),
        None => (None, Some(SkipReason::UnsupportedInterval)),
    }
}

/// Normalizes a whole fetched batch: every asset's venues in order,
/// skipped entries contributing nothing.
pub fn normalize_hl_rates(entries: &Vec<HlAssetRates>) -> (r: Vec<FundingRate>)
    ensures
        views(r@) == normalize_hl(entries@),
        forall|p: int| 0 <= p < r@.len() ==> (#[trigger] r@[p]@).wf() && r@[p]@.in_range(),
{
    let mut out: Vec<FundingRate> = Vec::new();
    proof {
        assert(views(out@) =~= normalize_hl(entries@.take(0)));
    }
    let mut i: usize = 0;
    #[verifier::loop_isolation(false)]
    while i < entries.len()
        invariant
            0 <= i <= entries@.len(),
            views(out@) == normalize_hl(entries@.take(i as int)),
            forall|p: int| 0 <= p < out@.len() ==> (#[trigger] out@[p]@).wf() && out@[p]@.in_range(),
        decreases entries@.len() - i,
    {
        let entry = &entries[i];
        let mut j: usize = 0;
        proof {
            assert(entry.venues@.take(0) =~= Seq::<HlVenueRate>::empty());
            assert(views(out@) + normalize_hl_venues(entry.asset@, entry.venues@.take(0)) =~= views(
                out@,
            ));
        }
        while j < entry.venues.len()
            invariant
                0 <= j <= entry.venues@.len(),
                views(out@) == normalize_hl(entries@.take(i as int)) + normalize_hl_venues(
                    entry.asset@,
                    entry.venues@.take(j as int),
                ),
                forall|p: int| 0 <= p < out@.len() ==> (#[trigger] out@[p]@).wf() && out@[p]@.in_range(),
            decreases entry.venues@.len() - j,
        {
            proof {
                assert(entry.venues@.take(j + 1).last() == entry.venues@[j as int]);
                assert(entry.venues@.take(j + 1).drop_last() =~= entry.venues@.take(j as int));
            }
            let (nr, _skip) = normalize_hl_record(&entry.asset, &entry.venues[j]);
            match nr {
                Some(fr) => {
                    let ghost old_out = out@;
                    out.push(fr);
                    proof {
                        assert(views(out@) =~= views(old_out).push(fr@));
                        assert(views(out@) =~= normalize_hl(entries@.take(i as int))
                            + normalize_hl_venues(entry.asset@, entry.venues@.take(j + 1)));
                    }
                },
                None => {
                    proof {
                        assert(views(out@) =~= normalize_hl(entries@.take(i as int))
                            + normalize_hl_venues(entry.asset@, entry.venues@.take(j + 1)));
                    }
                },
            }
            j = j + 1;
        }
        proof {
            assert(entry.venues@.take(entry.venues@.len() as int) =~= entry.venues@);
            assert(entries@.take(i + 1).last() == entries@[i as int]);
            assert(entries@.take(i + 1).drop_last() =~= entries@.take(i as int));
        }
        i = i + 1;
    }
    proof {
        assert(entries@.take(entries@.len() as int) =~= entries@);
    }
    out
}

} // verus!
