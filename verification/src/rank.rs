//! Merging and ranking of normalized funding rates.
//!
//! All adapters' outputs are merged into one collection and sorted
//! ascending by the 8-hour-equivalent percentage. Equal 8-hour rates are
//! ordered by asset, then exchange, then the remaining fields, so the
//! order is total and the ranking is a function of the input's contents
//! alone, independent of the order the adapters delivered them in.
//! `rank` slices the sorted view into the `n` smallest rates (ascending)
//! and the `n` largest (descending).

use vstd::prelude::*;
use vstd::relations::sorted_by;
use vstd::relations::total_ordering;
use vstd::seq_lib::lemma_sorted_unique;

use crate::rates::FundingRate;
use crate::rates::FundingRateView;

verus! {

/// Order on characters by code point.
pub open spec fn char_lt(c1: char, c2: char) -> bool {
    (c1 as u32) < (c2 as u32)
}

/// Two characters always compare, and compare equal only when equal.
proof fn lemma_char_total(c1: char, c2: char)
    ensures
        char_lt(c1, c2) || char_lt(c2, c1) || c1 == c2,
        !(char_lt(c1, c2) && char_lt(c2, c1)),
{
}

/// Strict lexicographic order on character sequences, by code point.
pub open spec fn lex_lt(a: Seq<char>, b: Seq<char>) -> bool
    decreases a.len(),
{
    if b.len() == 0 {
        false
    } else if a.len() == 0 {
        true
    } else if char_lt(a[0], b[0]) {
        true
    } else if a[0] == b[0] {
        lex_lt(a.drop_first(), b.drop_first())
    } else {
        false
    }
}

/// The ranking order: ascending by the 8-hour rate, with asset, exchange
/// and the remaining percentage fields as deterministic tie-breaks.
pub open spec fn rate_le(x: FundingRateView, y: FundingRateView) -> bool {
    if x.eight_hours != y.eight_hours {
        x.eight_hours < y.eight_hours
    } else if x.asset != y.asset {
        lex_lt(x.asset, y.asset)
    } else if x.exchange != y.exchange {
        lex_lt(x.exchange, y.exchange)
    } else if x.one_hour != y.one_hour {
        x.one_hour < y.one_hour
    } else if x.two_hours != y.two_hours {
        x.two_hours < y.two_hours
    } else {
        x.four_hours <= y.four_hours
    }
}

/// The ranking order as a first-class relation.
pub open spec fn rate_order() -> spec_fn(FundingRateView, FundingRateView) -> bool {
    |x: FundingRateView, y: FundingRateView| rate_le(x, y)
}

/// The mathematical images of a sequence of records.
pub open spec fn views(s: Seq<FundingRate>) -> Seq<FundingRateView> {
    s.map_values(|r: FundingRate| r@)
}

/// Ascending arrangement, stated directly over `rate_le`.
pub open spec fn rates_sorted(s: Seq<FundingRateView>) -> bool {
    forall|p: int, q: int|
        0 <= p < q < s.len() ==> rate_le(#[trigger] s[p], #[trigger] s[q])
}

/// The unique ascending arrangement of a collection of records.
pub open spec fn sorted_of(s: Seq<FundingRateView>) -> Seq<FundingRateView> {
    s.sort_by(rate_order())
}

proof fn lemma_views_push(s: Seq<FundingRate>, x: FundingRate)
    ensures
        views(s.push(x)) == views(s).push(x@),
{
    assert(views(s.push(x)) =~= views(s).push(x@));
}

proof fn lemma_views_insert(s: Seq<FundingRate>, i: int, x: FundingRate)
    requires
        0 <= i <= s.len(),
    ensures
        views(s.insert(i, x)) == views(s).insert(i, x@),
{
    assert(views(s.insert(i, x)) =~= views(s).insert(i, x@));
}

proof fn lemma_lex_lt_irreflexive(a: Seq<char>)
    ensures
        !lex_lt(a, a),
    decreases a.len(),
{
    if a.len() > 0 {
        lemma_lex_lt_irreflexive(a.drop_first());
    }
}

proof fn lemma_lex_lt_trichotomy(a: Seq<char>, b: Seq<char>)
    ensures
        lex_lt(a, b) || lex_lt(b, a) || a == b,
    decreases a.len(),
{
    if a.len() > 0 && b.len() > 0 && !lex_lt(a, b) && !lex_lt(b, a) {
        lemma_char_total(a[0], b[0]);
        assert(a[0] == b[0]);
        lemma_lex_lt_trichotomy(a.drop_first(), b.drop_first());
        assert(a =~= seq![a[0]] + a.drop_first());
        assert(b =~= seq![b[0]] + b.drop_first());
    }
}

proof fn lemma_lex_lt_transitive(a: Seq<char>, b: Seq<char>, c: Seq<char>)
    requires
        lex_lt(a, b),
        lex_lt(b, c),
    ensures
        lex_lt(a, c),
    decreases a.len(),
{
    if a.len() > 0 && b.len() > 0 && c.len() > 0 {
        if a[0] == b[0] && b[0] == c[0] {
            lemma_lex_lt_transitive(a.drop_first(), b.drop_first(), c.drop_first());
        }
    }
}

/// `lex_lt` is asymmetric: two sequences cannot each precede the other.
proof fn lemma_lex_lt_asymmetric(a: Seq<char>, b: Seq<char>)
    requires
        lex_lt(a, b),
    ensures
        !lex_lt(b, a),
{
    if lex_lt(b, a) {
        lemma_lex_lt_transitive(a, b, a);
        lemma_lex_lt_irreflexive(a);
    }
}

proof fn lemma_rate_le_transitive(x: FundingRateView, y: FundingRateView, z: FundingRateView)
    requires
        rate_le(x, y),
        rate_le(y, z),
    ensures
        rate_le(x, z),
{
    if x.eight_hours == y.eight_hours && y.eight_hours == z.eight_hours {
        lemma_lex_lt_trichotomy(x.asset, y.asset);
        lemma_lex_lt_trichotomy(y.asset, z.asset);
        lemma_lex_lt_trichotomy(x.asset, z.asset);
        if x.asset != y.asset && y.asset != z.asset {
            lemma_lex_lt_transitive(x.asset, y.asset, z.asset);
            if x.asset == z.asset {
                lemma_lex_lt_irreflexive(x.asset);
            }
        }
        if x.asset != y.asset && y.asset == z.asset {
            lemma_lex_lt_asymmetric(x.asset, y.asset);
        }
        if x.asset == y.asset && y.asset != z.asset {
            lemma_lex_lt_asymmetric(y.asset, z.asset);
        }
        if x.asset == y.asset && y.asset == z.asset {
            if x.exchange != y.exchange && y.exchange != z.exchange {
                lemma_lex_lt_transitive(x.exchange, y.exchange, z.exchange);
                if x.exchange == z.exchange {
                    lemma_lex_lt_irreflexive(x.exchange);
                }
            }
            if x.exchange != y.exchange && y.exchange == z.exchange {
                lemma_lex_lt_asymmetric(x.exchange, y.exchange);
            }
            if x.exchange == y.exchange && y.exchange != z.exchange {
                lemma_lex_lt_asymmetric(y.exchange, z.exchange);
            }
        }
    }
}

proof fn lemma_rate_le_antisymmetric(x: FundingRateView, y: FundingRateView)
    requires
        rate_le(x, y),
        rate_le(y, x),
    ensures
        x == y,
{
    if x.asset != y.asset {
        lemma_lex_lt_asymmetric(x.asset, y.asset);
    }
    if x.exchange != y.exchange {
        lemma_lex_lt_asymmetric(x.exchange, y.exchange);
    }
}

/// Any two record views compare one way or the other.
proof fn lemma_rate_le_connected(x: FundingRateView, y: FundingRateView)
    ensures
        rate_le(x, y) || rate_le(y, x),
{
    lemma_lex_lt_trichotomy(x.asset, y.asset);
    lemma_lex_lt_trichotomy(x.exchange, y.exchange);
}

/// The ranking order is a total order on record views: reflexive,
/// transitive, antisymmetric and strongly connected.
pub proof fn lemma_rate_order_total()
    ensures
        total_ordering(rate_order()),
{
    let r = rate_order();
    assert forall|x: FundingRateView| #[trigger] r(x, x) by {
        assert(rate_le(x, x));
    }
    assert forall|x: FundingRateView, y: FundingRateView|
        #[trigger] r(x, y) && #[trigger] r(y, x) implies x == y by {
        lemma_rate_le_antisymmetric(x, y);
    }
    assert forall|x: FundingRateView, y: FundingRateView, z: FundingRateView|
        #[trigger] r(x, y) && #[trigger] r(y, z) implies r(x, z) by {
        lemma_rate_le_transitive(x, y, z);
        assert(rate_le(x, z));
    }
    assert forall|x: FundingRateView, y: FundingRateView| #[trigger] r(x, y) || #[trigger] r(
        y,
        x,
    ) by {
        lemma_rate_le_connected(x, y);
    }
}

/// Bridges the direct form of sortedness to the relational one.
proof fn lemma_rates_sorted_is_sorted_by(s: Seq<FundingRateView>)
    requires
        rates_sorted(s),
    ensures
        sorted_by(s, rate_order()),
{
    let r = rate_order();
    assert forall|p: int, q: int| 0 <= p < q < s.len() implies #[trigger] r(s[p], s[q]) by {
        assert(rate_le(s[p], s[q]));
    }
}

/// What `sorted_of` names really is the ascending arrangement: it is
/// sorted in the ranking order — in particular its 8-hour rates ascend —
/// and holds exactly the input's records.
pub proof fn lemma_sorted_of_sorted(s: Seq<FundingRateView>)
    ensures
        rates_sorted(sorted_of(s)),
        sorted_of(s).to_multiset() == s.to_multiset(),
        forall|p: int, q: int|
            0 <= p < q < sorted_of(s).len() ==> (#[trigger] sorted_of(s)[p]).eight_hours <= (
            #[trigger] sorted_of(s)[q]).eight_hours,
{
    lemma_rate_order_total();
    s.lemma_sort_by_ensures(rate_order());
    let r = rate_order();
    assert forall|p: int, q: int| 0 <= p < q < sorted_of(s).len() implies rate_le(
        #[trigger] sorted_of(s)[p],
        #[trigger] sorted_of(s)[q],
    ) by {
        assert(r(sorted_of(s)[p], sorted_of(s)[q]));
    }
    assert(sorted_of(s).to_multiset() =~= s.to_multiset());
}

/// Ranking is stable under reordering of the input: two record
/// collections with the same contents (as a multiset) sort to the same
/// sequence, so `rank` yields the same `largest` and `smallest` slices on
/// any permutation of one collection.
pub proof fn lemma_rank_permutation_invariant(a: Seq<FundingRateView>, b: Seq<FundingRateView>)
    requires
        a.to_multiset() == b.to_multiset(),
    ensures
        sorted_of(a) == sorted_of(b),
{
    lemma_rate_order_total();
    a.lemma_sort_by_ensures(rate_order());
    b.lemma_sort_by_ensures(rate_order());
    assert(sorted_of(a).to_multiset() =~= sorted_of(b).to_multiset());
    lemma_sorted_unique(sorted_of(a), sorted_of(b), rate_order());
}

/// Strict lexicographic comparison of two strings, by code point.
fn str_lex_lt(a: &str, b: &str) -> (r: bool)
    ensures
        r == lex_lt(a@, b@),
{
    let an = a.unicode_len();
    let bn = b.unicode_len();
    proof {
        assert(a@.skip(0) =~= a@);
        assert(b@.skip(0) =~= b@);
    }
    let mut i: usize = 0;
    while i < an && i < bn
        invariant
            0 <= i <= an == a@.len(),
            i <= bn == b@.len(),
            lex_lt(a@, b@) == lex_lt(a@.skip(i as int), b@.skip(i as int)),
        decreases an - i,
    {
        let ca = a.get_char(i);
        let cb = b.get_char(i);
        proof {
            assert(a@.skip(i as int)[0] == ca);
            assert(b@.skip(i as int)[0] == cb);
            assert(a@.skip(i as int).drop_first() =~= a@.skip(i + 1));
            assert(b@.skip(i as int).drop_first() =~= b@.skip(i + 1));
        }
        if (ca as u32) < (cb as u32) {
            return true;
        }
        if (cb as u32) < (ca as u32) {
            return false;
        }
        i = i + 1;
    }
    proof {
        if i == an {
            assert(a@.skip(i as int).len() == 0);
        } else {
            assert(b@.skip(i as int).len() == 0);
        }
        assert(lex_lt(a@.skip(i as int), b@.skip(i as int)) == (i < bn));
    }
    i < bn
}

/// Executable form of the ranking order.
fn rate_le_exec(x: &FundingRate, y: &FundingRate) -> (r: bool)
    ensures
        r == rate_le(x@, y@),
{
    if x.funding_rate_pct_eight_hours != y.funding_rate_pct_eight_hours {
        return x.funding_rate_pct_eight_hours < y.funding_rate_pct_eight_hours;
    }
    if !(x.asset == y.asset) {
        return str_lex_lt(x.asset.as_str(), y.asset.as_str());
    }
    if !(x.exchange == y.exchange) {
        return str_lex_lt(x.exchange.as_str(), y.exchange.as_str());
    }
    if x.funding_rate_pct_one_hour != y.funding_rate_pct_one_hour {
        return x.funding_rate_pct_one_hour < y.funding_rate_pct_one_hour;
    }
    if x.funding_rate_pct_two_hours != y.funding_rate_pct_two_hours {
        return x.funding_rate_pct_two_hours < y.funding_rate_pct_two_hours;
    }
    x.funding_rate_pct_four_hours <= y.funding_rate_pct_four_hours
}

/// Sorts records ascending in the ranking order. The result is the one
/// arrangement `sorted_of` names: sorted, and a permutation of the input.
#[verifier::loop_isolation(false)]
pub fn sort_rates(rates: &Vec<FundingRate>) -> (r: Vec<FundingRate>)
    ensures
        views(r@) == sorted_of(views(rates@)),
        rates_sorted(views(r@)),
        views(r@).to_multiset() == views(rates@).to_multiset(),
        r@.len() == rates@.len(),
{
    broadcast use vstd::seq_lib::group_to_multiset_ensures;

    let mut out: Vec<FundingRate> = Vec::new();
    let mut i: usize = 0;
    proof {
        assert(views(rates@.take(0)) =~= Seq::<FundingRateView>::empty());
        assert(views(out@) =~= Seq::<FundingRateView>::empty());
        assert(views(out@).to_multiset() =~= views(rates@.take(0)).to_multiset());
    }
    while i < rates.len()
        invariant
            0 <= i <= rates@.len(),
            out@.len() == i,
            rates_sorted(views(out@)),
            views(out@).to_multiset() == views(rates@.take(i as int)).to_multiset(),
        decreases rates@.len() - i,
    {
        let x = rates[i].clone();
        let ghost xv = x@;
        // Find the first position whose element does not precede x.
        let mut j: usize = 0;
        while j < out.len() && rate_le_exec(&out[j], &x)
            invariant
                0 <= j <= out@.len(),
                forall|k: int| 0 <= k < j ==> rate_le(#[trigger] out@[k]@, xv),
            decreases out@.len() - j,
        {
            j = j + 1;
        }
        proof {
            if j < out@.len() {
                lemma_rate_le_connected(out@[j as int]@, xv);
            }
        }
        let ghost old_out = out@;
        out.insert(j, x);
        proof {
            lemma_views_insert(old_out, j as int, x);
            assert(forall|k: int|
                0 <= k < j ==> #[trigger] views(old_out)[k] == old_out[k]@);
            assert(j < old_out.len() ==> rate_le(xv, views(old_out)[j as int]));
            let nv = views(out@);
            let ov = views(old_out);
            // Sortedness around the insertion point.
            assert forall|p: int, q: int| 0 <= p < q < nv.len() implies rate_le(
                #[trigger] nv[p],
                #[trigger] nv[q],
            ) by {
                if p < j && q == j {
                    assert(nv[p] == ov[p]);
                    assert(nv[q] == xv);
                } else if p == j && q > j {
                    assert(nv[p] == xv);
                    assert(nv[q] == ov[q - 1]);
                    assert(rate_le(xv, ov[j as int]));
                    if q - 1 > j {
                        assert(rate_le(ov[j as int], ov[q - 1]));
                        lemma_rate_le_transitive(xv, ov[j as int], ov[q - 1]);
                    }
                } else if p < j && q > j {
                    assert(nv[p] == ov[p] && nv[q] == ov[q - 1]);
                    if q - 1 == j {
                        assert(rate_le(ov[p], xv));
                        assert(rate_le(xv, ov[j as int]));
                        lemma_rate_le_transitive(ov[p], xv, ov[j as int]);
                    }
                } else if p > j && q > j {
                    assert(nv[p] == ov[p - 1] && nv[q] == ov[q - 1]);
                } else {
                    assert(p < j && q < j);
                    assert(nv[p] == ov[p] && nv[q] == ov[q]);
                }
            }
            // The multiset grows by exactly x.
            assert(views(old_out).insert(j as int, xv).to_multiset() == views(
                old_out,
            ).to_multiset().insert(xv));
            assert(rates@.take(i + 1) =~= rates@.take(i as int).push(rates@[i as int]));
            lemma_views_push(rates@.take(i as int), rates@[i as int]);
            assert(views(rates@.take(i as int)).push(xv).to_multiset() == views(
                rates@.take(i as int),
            ).to_multiset().insert(xv));
        }
        i = i + 1;
    }
    proof {
        assert(rates@.take(rates@.len() as int) =~= rates@);
        lemma_rate_order_total();
        lemma_rates_sorted_is_sorted_by(views(out@));
        views(rates@).lemma_sort_by_ensures(rate_order());
        assert(sorted_of(views(rates@)).to_multiset() =~= views(rates@).to_multiset());
        lemma_sorted_unique(views(out@), sorted_of(views(rates@)), rate_order());
        broadcast use vstd::seq_lib::to_multiset_len;
    }
    out
}

/// Merges and ranks one cycle's records: `r.0` holds the `n` largest
/// 8-hour rates in descending order, `r.1` the `n` smallest in ascending
/// order (fewer when the input is shorter than `n`; the slices overlap
/// when `2 * n` exceeds the input). Both slices are read-only windows of
/// the one sorted arrangement of the input's contents.
pub fn rank(rates: &Vec<FundingRate>, n: usize) -> (r: (Vec<FundingRate>, Vec<FundingRate>))
    ensures
        ({
            let sorted = sorted_of(views(rates@));
            let k = if n <= rates@.len() {
                n as int
            } else {
                rates@.len() as int
            };
            &&& views(r.0@) == sorted.subrange(sorted.len() - k, sorted.len() as int).reverse()
            &&& views(r.1@) == sorted.take(k)
            &&& r.0@.len() == k
            &&& r.1@.len() == k
        }),
{
    let sorted = sort_rates(rates);
    let len = sorted.len();
    let k = if n <= len {
        n
    } else {
        len
    };
    let ghost sv = sorted_of(views(rates@));
    proof {
        assert(sv.len() == rates@.len());
    }

    let mut smallest: Vec<FundingRate> = Vec::new();
    let mut i: usize = 0;
    while i < k
        invariant
            0 <= i <= k <= len == sorted@.len(),
            views(sorted@) == sv,
            smallest@.len() == i,
            forall|p: int| 0 <= p < i ==> #[trigger] views(smallest@)[p] == sv[p],
        decreases k - i,
    {
        let e = sorted[i].clone();
        let ghost old_small = smallest@;
        smallest.push(e);
        proof {
            lemma_views_push(old_small, e);
            assert(views(sorted@)[i as int] == sorted@[i as int]@);
        }
        i = i + 1;
    }

    let mut largest: Vec<FundingRate> = Vec::new();
    let mut j: usize = 0;
    while j < k
        invariant
            0 <= j <= k <= len == sorted@.len(),
            views(sorted@) == sv,
            largest@.len() == j,
            forall|p: int| 0 <= p < j ==> #[trigger] views(largest@)[p] == sv[sv.len() - 1 - p],
        decreases k - j,
    {
        let e = sorted[len - 1 - j].clone();
        let ghost old_large = largest@;
        largest.push(e);
        proof {
            lemma_views_push(old_large, e);
            assert(views(sorted@)[len - 1 - j] == sorted@[len - 1 - j]@);
        }
        j = j + 1;
    }

    proof {
        assert(views(largest@) =~= sv.subrange(sv.len() - k, sv.len() as int).reverse());
        assert(views(smallest@) =~= sv.take(k as int));
    }
    (largest, smallest)
}

} // verus!
