//! One polling cycle's decisions, as a pure function of what the fetches
//! returned.
//!
//! Each adapter's fetch either fails — it then contributes nothing to the
//! cycle, and the cycle goes on — or yields a batch of raw records. The
//! surviving batches are normalized, merged, ranked, and rendered. A
//! cycle in which every fetch failed still produces a deterministic,
//! empty report.

use vstd::prelude::*;

use crate::aster::AsterFundingInfo;
use crate::aster::AsterFundingRate;
use crate::aster::normalize_aster;
use crate::aster::normalize_aster_rates;
use crate::hyperliquid::HlAssetRates;
use crate::hyperliquid::normalize_hl;
use crate::hyperliquid::normalize_hl_rates;
use crate::rank::rank;
use crate::rank::sorted_of;
use crate::rank::views;
use crate::rates::FundingRate;
use crate::rates::FundingRateView;
use crate::report::build_message;
use crate::report::message_spec;

verus! {

/// All records one cycle ranks: the normalized image of each fetch that
/// succeeded, a failed fetch contributing nothing.
pub open spec fn cycle_records(
    aster: Option<(Vec<AsterFundingRate>, Vec<AsterFundingInfo>)>,
    hyper: Option<Vec<HlAssetRates>>,
) -> Seq<FundingRateView> {
    (match aster {
        Some(a) => normalize_aster(a.0@, a.1@),
        None => Seq::empty(),
    }) + (match hyper {
        Some(h) => normalize_hl(h@),
        None => Seq::empty(),
    })
}

/// Runs the computational part of one cycle over what the fetches
/// returned: normalizes each surviving batch, merges, ranks, and renders
/// the report around the two slices. `r.0` is the report text, `r.1` the
/// `n` largest rates (descending), `r.2` the `n` smallest (ascending).
pub fn cycle_report(
    aster: Option<(Vec<AsterFundingRate>, Vec<AsterFundingInfo>)>,
    hyper: Option<Vec<HlAssetRates>>,
    n: usize,
    generated_at: &str,
) -> (r: (String, Vec<FundingRate>, Vec<FundingRate>))
    ensures
        ({
            let sorted = sorted_of(cycle_records(aster, hyper));
            let k = if n <= sorted.len() {
                n as int
            } else {
                sorted.len() as int
            };
            &&& views(r.1@) == sorted.subrange(sorted.len() - k, sorted.len() as int).reverse()
            &&& views(r.2@) == sorted.take(k)
            &&& r.0@ == message_spec(views(r.1@), views(r.2@), generated_at@)
        }),
{
    broadcast use vstd::seq_lib::group_to_multiset_ensures;

    let mut all: Vec<FundingRate> = Vec::new();
    match &aster {
        Some(a) => {
            let mut batch = normalize_aster_rates(&a.0, &a.1);
            let ghost pre = all@;
            let ghost bv = batch@;
            all.append(&mut batch);
            proof {
                assert(pre =~= Seq::<FundingRate>::empty());
                assert(all@ =~= bv);
            }
        },
        None => {},
    }
    let ghost after_aster = all@;
    match &hyper {
        Some(h) => {
            let mut batch = normalize_hl_rates(h);
            let ghost bv = batch@;
            all.append(&mut batch);
            proof {
                assert forall|p: int| 0 <= p < all@.len() implies (#[trigger] all@[p]@).in_range()
                    && all@[p]@.wf() by {
                    if p < after_aster.len() {
                        assert(all@[p] == after_aster[p]);
                    } else {
                        assert(all@[p] == bv[p - after_aster.len()]);
                    }
                }
            }
        },
        None => {},
    }
    proof {
        assert(views(all@) =~= cycle_records(aster, hyper));
        assert(forall|p: int| 0 <= p < all@.len() ==> (#[trigger] all@[p]@).in_range());
    }
    let (largest, smallest) = rank(&all, n);
    proof {
        crate::rank::lemma_rate_order_total();
        views(all@).lemma_sort_by_ensures(crate::rank::rate_order());
        let sorted = sorted_of(views(all@));
        let len = sorted.len() as int;
        let k = if n <= all@.len() {
            n as int
        } else {
            all@.len() as int
        };
        assert(sorted.to_multiset() =~= views(all@).to_multiset());
        assert(sorted.len() == sorted.to_multiset().len());
        assert(views(all@).len() == views(all@).to_multiset().len());
        assert forall|p: int| 0 <= p < sorted.len() implies (#[trigger] sorted[p]).in_range() by {
            assert(sorted.contains(sorted[p]));
            assert(views(all@).contains(sorted[p]));
            let q = choose|q: int| 0 <= q < views(all@).len() && views(all@)[q] == sorted[p];
            assert(views(all@)[q] == all@[q]@);
        }
        assert forall|p: int|
            0 <= p < largest@.len() implies (#[trigger] largest@[p]@).in_range() by {
            assert(views(largest@)[p] == largest@[p]@);
            let sub = sorted.subrange(len - k, len);
            assert(views(largest@)[p] == sub.reverse()[p]);
            assert(sub.reverse()[p] == sub[sub.len() - 1 - p]);
            assert(sub[sub.len() - 1 - p] == sorted[len - 1 - p]);
        }
        assert forall|p: int|
            0 <= p < smallest@.len() implies (#[trigger] smallest@[p]@).in_range() by {
            assert(views(smallest@)[p] == smallest@[p]@);
            assert(views(smallest@)[p] == sorted.take(k)[p]);
            assert(sorted.take(k)[p] == sorted[p]);
        }
    }
    let msg = build_message(&largest, &smallest, generated_at);
    (msg, largest, smallest)
}

} // verus!
