//! Rendering of ranked funding rates as a text report.
//!
//! Each percentage is printed with four decimal places. A percentage
//! field counts units of `1 / PCT_UNITS_PER_PERCENT` percent, so the
//! printed value is the field divided by 200 000 and rounded to the
//! nearest whole number of ten-thousandths of a percent, halves away
//! from zero.

use vstd::prelude::*;
use vstd::string::StrSliceExecFns;
use vstd::string::StringExecFns;

use crate::rank::views;
use crate::rates::FundingRate;
use crate::rates::FundingRateView;
use crate::rates::PCT_UNITS_ABS_MAX;

verus! {

pub open spec fn digit_char(d: nat) -> char
    recommends
        d < 10,
{
    if d == 0 {
        '0'
    } else if d == 1 {
        '1'
    } else if d == 2 {
        '2'
    } else if d == 3 {
        '3'
    } else if d == 4 {
        '4'
    } else if d == 5 {
        '5'
    } else if d == 6 {
        '6'
    } else if d == 7 {
        '7'
    } else if d == 8 {
        '8'
    } else {
        '9'
    }
}

/// Decimal numeral of `n`, most significant digit first, no leading zeros.
pub open spec fn dec_str(n: nat) -> Seq<char>
    decreases n,
{
    if n < 10 {
        seq![digit_char(n)]
    } else {
        dec_str(n / 10).push(digit_char(n % 10))
    }
}

/// Exactly four digits, zero-padded on the left.
pub open spec fn pad4(f: int) -> Seq<char>
    recommends
        0 <= f < 10000,
{
    seq![
        digit_char(((f / 1000) % 10) as nat),
        digit_char(((f / 100) % 10) as nat),
        digit_char(((f / 10) % 10) as nat),
        digit_char((f % 10) as nat),
    ]
}

/// The printed value: percentage units scaled to ten-thousandths of a
/// percent, rounded half away from zero.
pub open spec fn pct_scaled(units: int) -> int {
    if units >= 0 {
        (units + 100_000) / 200_000
    } else {
        -((-units + 100_000) / 200_000)
    }
}

/// The four-decimal rendering of a percentage field, sign first.
pub open spec fn pct_string(units: int) -> Seq<char> {
    let a = if pct_scaled(units) >= 0 {
        pct_scaled(units)
    } else {
        -pct_scaled(units)
    };
    let digits = dec_str((a / 10000) as nat) + seq!['.'] + pad4(a % 10000);
    if units < 0 {
        seq!['-'] + digits
    } else {
        digits
    }
}

fn digit_str(d: u64) -> (r: String)
    requires
        d < 10,
    ensures
        r@ == seq![digit_char(d as nat)],
{
    let r = if d == 0 {
        "0"
    } else if d == 1 {
        "1"
    } else if d == 2 {
        "2"
    } else if d == 3 {
        "3"
    } else if d == 4 {
        "4"
    } else if d == 5 {
        "5"
    } else if d == 6 {
        "6"
    } else if d == 7 {
        "7"
    } else if d == 8 {
        "8"
    } else {
        "9"
    };
    proof {
        reveal_strlit("0");
        reveal_strlit("1");
        reveal_strlit("2");
        reveal_strlit("3");
        reveal_strlit("4");
        reveal_strlit("5");
        reveal_strlit("6");
        reveal_strlit("7");
        reveal_strlit("8");
        reveal_strlit("9");
        assert(r@ =~= seq![digit_char(d as nat)]);
    }
    r.to_owned()
}

/// Renders a natural number in decimal.
fn render_nat(n: u64) -> (r: String)
    ensures
        r@ == dec_str(n as nat),
    decreases n,
{
    if n < 10 {
        digit_str(n)
    } else {
        let mut s = render_nat(n / 10);
        let d = digit_str(n % 10);
        s.append(d.as_str());
        proof {
            assert(s@ =~= dec_str((n / 10) as nat).push(digit_char((n % 10) as nat)));
        }
        s
    }
}

/// Renders four fraction digits, zero-padded.
fn render_frac4(f: u64) -> (r: String)
    requires
        f < 10000,
    ensures
        r@ == pad4(f as int),
{
    let mut s = digit_str(f / 1000);
    let d2 = digit_str((f / 100) % 10);
    let d3 = digit_str((f / 10) % 10);
    let d4 = digit_str(f % 10);
    s.append(d2.as_str());
    s.append(d3.as_str());
    s.append(d4.as_str());
    proof {
        assert(s@ =~= pad4(f as int));
    }
    s
}

/// Renders a percentage field with four decimal places, as `pct_string`
/// spells it.
pub fn render_pct(units: i64) -> (r: String)
    requires
        -PCT_UNITS_ABS_MAX <= units <= PCT_UNITS_ABS_MAX,
    ensures
        r@ == pct_string(units as int),
{
    let neg = units < 0;
    let mag: i64 = if neg {
        -units
    } else {
        units
    };
    let t: i64 = (mag + 100_000) / 200_000;
    proof {
        assert(t == if units >= 0 { pct_scaled(units as int) } else { -pct_scaled(units as int) });
        assert(t >= 0);
    }
    let ip = (t / 10_000) as u64;
    let fr = (t % 10_000) as u64;
    let mut s = if neg {
        let m = "-";
        proof {
            reveal_strlit("-");
            assert(m@ =~= seq!['-']);
        }
        m.to_owned()
    } else {
        let m = "";
        proof {
            reveal_strlit("");
            assert(m@ =~= Seq::<char>::empty());
        }
        m.to_owned()
    };
    let ips = render_nat(ip);
    s.append(ips.as_str());
    let dot = ".";
    proof {
        reveal_strlit(".");
        assert(dot@ =~= seq!['.']);
    }
    s.append(dot);
    let frs = render_frac4(fr);
    s.append(frs.as_str());
    proof {
        assert(s@ =~= pct_string(units as int));
    }
    s
}

/// One record's lines of the report.
pub open spec fn entry_string(r: FundingRateView) -> Seq<char> {
    "📈 *"@ + r.asset + "* on *"@ + r.exchange + "*\n├ 1h: "@ + pct_string(r.one_hour)
        + "%\n├ 2h: "@ + pct_string(r.two_hours) + "%\n├ 4h: "@ + pct_string(r.four_hours)
        + "%\n└ 8h: "@ + pct_string(r.eight_hours) + "%\n\n"@
}

/// The records' lines, in order.
pub open spec fn entries_string(rates: Seq<FundingRateView>) -> Seq<char>
    decreases rates.len(),
{
    if rates.len() == 0 {
        Seq::empty()
    } else {
        entries_string(rates.drop_last()) + entry_string(rates.last())
    }
}

/// A titled section of the report.
pub open spec fn format_rates_spec(rates: Seq<FundingRateView>, title: Seq<char>) -> Seq<char> {
    "🔸 *"@ + title + "*\n\n"@ + entries_string(rates)
}

/// Renders one record's lines.
fn format_rate_entry(rate: &FundingRate) -> (r: String)
    requires
        rate@.in_range(),
    ensures
        r@ == entry_string(rate@),
{
    let mut s = "📈 *".to_owned();
    s.append(rate.asset.as_str());
    s.append("* on *");
    s.append(rate.exchange.as_str());
    s.append("*\n├ 1h: ");
    let p1 = render_pct(rate.funding_rate_pct_one_hour);
    s.append(p1.as_str());
    s.append("%\n├ 2h: ");
    let p2 = render_pct(rate.funding_rate_pct_two_hours);
    s.append(p2.as_str());
    s.append("%\n├ 4h: ");
    let p4 = render_pct(rate.funding_rate_pct_four_hours);
    s.append(p4.as_str());
    s.append("%\n└ 8h: ");
    let p8 = render_pct(rate.funding_rate_pct_eight_hours);
    s.append(p8.as_str());
    s.append("%\n\n");
    proof {
        assert(s@ =~= entry_string(rate@));
    }
    s
}

/// Renders a titled section: the title line, then each record in order.
pub fn format_rates(rates: &Vec<FundingRate>, title: &str) -> (r: String)
    requires
        forall|p: int| 0 <= p < rates@.len() ==> (#[trigger] rates@[p]@).in_range(),
    ensures
        r@ == format_rates_spec(views(rates@), title@),
{
    let mut s = "🔸 *".to_owned();
    s.append(title);
    s.append("*\n\n");
    let ghost prefix = s@;
    proof {
        assert(entries_string(views(rates@.take(0))) =~= Seq::<char>::empty());
        assert(s@ =~= prefix + entries_string(views(rates@.take(0))));
    }
    let mut i: usize = 0;
    #[verifier::loop_isolation(false)]
    while i < rates.len()
        invariant
            0 <= i <= rates@.len(),
            s@ == prefix + entries_string(views(rates@.take(i as int))),
        decreases rates@.len() - i,
    {
        let e = format_rate_entry(&rates[i]);
        s.append(e.as_str());
        proof {
            let vs = views(rates@.take(i + 1));
            assert(vs.drop_last() =~= views(rates@.take(i as int)));
            assert(vs.last() == rates@[i as int]@);
            assert(s@ =~= prefix + entries_string(vs));
        }
        i = i + 1;
    }
    proof {
        assert(rates@.take(rates@.len() as int) =~= rates@);
        assert(s@ =~= format_rates_spec(views(rates@), title@));
    }
    s
}

/// The full report around the two ranked slices: a header, the largest
/// rates (when any), a divider (when both slices are non-empty), the
/// smallest rates (when any), and a footer with the generation time the
/// caller supplies.
pub open spec fn message_spec(
    largest: Seq<FundingRateView>,
    smallest: Seq<FundingRateView>,
    generated_at: Seq<char>,
) -> Seq<char> {
    "🚀 *Funding Rate Report*\n"@ + "━━━━━━━━━━━━━━━━━━━━━━━━━━━\n\n"@ + (if largest.len() > 0 {
        format_rates_spec(largest, "Highest Funding Rates 📊"@)
    } else {
        Seq::empty()
    }) + (if largest.len() > 0 && smallest.len() > 0 {
        "━━━━━━━━━━━━━━━━━━━━━━━━━━━\n\n"@
    } else {
        Seq::empty()
    }) + (if smallest.len() > 0 {
        format_rates_spec(smallest, "Lowest Funding Rates 📉"@)
    } else {
        Seq::empty()
    }) + "━━━━━━━━━━━━━━━━━━━━━━━━━━━\n"@ + "📅 Generated at: "@ + generated_at
}

/// Builds the report text for two ranked slices. The caller supplies the
/// generation timestamp, already rendered.
pub fn build_message(
    largest: &Vec<FundingRate>,
    smallest: &Vec<FundingRate>,
    generated_at: &str,
) -> (r: String)
    requires
        forall|p: int| 0 <= p < largest@.len() ==> (#[trigger] largest@[p]@).in_range(),
        forall|p: int| 0 <= p < smallest@.len() ==> (#[trigger] smallest@[p]@).in_range(),
    ensures
        r@ == message_spec(views(largest@), views(smallest@), generated_at@),
{
    let mut s = "🚀 *Funding Rate Report*\n".to_owned();
    s.append("━━━━━━━━━━━━━━━━━━━━━━━━━━━\n\n");
    if largest.len() > 0 {
        let part = format_rates(largest, "Highest Funding Rates 📊");
        s.append(part.as_str());
    }
    if largest.len() > 0 && smallest.len() > 0 {
        s.append("━━━━━━━━━━━━━━━━━━━━━━━━━━━\n\n");
    }
    if smallest.len() > 0 {
        let part = format_rates(smallest, "Lowest Funding Rates 📉");
        s.append(part.as_str());
    }
    s.append("━━━━━━━━━━━━━━━━━━━━━━━━━━━\n");
    s.append("📅 Generated at: ");
    s.append(generated_at);
    proof {
        assert(s@ =~= message_spec(views(largest@), views(smallest@), generated_at@));
    }
    s
}

} // verus!
