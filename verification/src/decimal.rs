//! Exact parsing of provider-supplied decimal rate strings.
//!
//! Exchanges send funding rates as decimal strings such as `"0.0008"` or
//! `"-0.0125"`. `parse_rate` turns such a string into a signed fixed-point
//! mantissa in units of `1 / RATE_SCALE` (billionths), or `None` when the
//! string is not a plain decimal numeral. The accepted grammar is an
//! optional sign, then digits with at most one decimal point and at least
//! one digit; fraction digits beyond the ninth are truncated (they are
//! below the resolution of the mantissa), and an integer part above
//! 999 999 is rejected so that every accepted mantissa stays within
//! `RATE_UNITS_MAX`.

use vstd::prelude::*;
use vstd::arithmetic::mul::lemma_mul_strict_inequality;

use crate::rates::RATE_SCALE;
use crate::rates::RATE_UNITS_MAX;

verus! {

/// Largest integer part a rate numeral may carry.
pub const INT_PART_MAX: i64 = 999_999;

pub open spec fn is_dec_digit(c: char) -> bool {
    48 <= c as u32 <= 57
}

pub open spec fn digit_val(c: char) -> int
    recommends
        is_dec_digit(c),
{
    c as u32 - 48
}

pub open spec fn all_digits(s: Seq<char>) -> bool {
    forall|i: int| 0 <= i < s.len() ==> is_dec_digit(#[trigger] s[i])
}

/// Value of a digit string read in base 10.
pub open spec fn digits_val(s: Seq<char>) -> int
    decreases s.len(),
{
    if s.len() == 0 {
        0
    } else {
        10 * digits_val(s.drop_last()) + digit_val(s.last())
    }
}

pub open spec fn pow10(n: nat) -> int
    decreases n,
{
    if n == 0 {
        1
    } else {
        10 * pow10((n - 1) as nat)
    }
}

/// Index of the first `'.'` in `s`, or `-1` if there is none.
pub open spec fn first_dot(s: Seq<char>) -> int
    decreases s.len(),
{
    if s.len() == 0 {
        -1
    } else if s[0] == '.' {
        0
    } else if first_dot(s.drop_first()) == -1 {
        -1
    } else {
        1 + first_dot(s.drop_first())
    }
}

/// Mantissa contributed by the fraction digits `fp`: the first nine digits,
/// padded on the right to exactly nine places.
pub open spec fn frac_units(fp: Seq<char>) -> int {
    if fp.len() <= 9 {
        digits_val(fp) * pow10((9 - fp.len()) as nat)
    } else {
        digits_val(fp.take(9))
    }
}

/// Meaning of an unsigned decimal numeral: `None` unless the characters
/// are digits around at most one point, at least one digit is present, and
/// the integer part is at most `INT_PART_MAX`.
pub open spec fn spec_parse_unsigned(u: Seq<char>) -> Option<int> {
    let d = first_dot(u);
    if d == -1 {
        if u.len() > 0 && all_digits(u) && digits_val(u) <= INT_PART_MAX {
            Some(digits_val(u) * RATE_SCALE)
        } else {
            None
        }
    } else {
        let ip = u.take(d);
        let fp = u.skip(d + 1);
        if ip.len() + fp.len() > 0 && all_digits(ip) && all_digits(fp) && digits_val(ip)
            <= INT_PART_MAX {
            Some(digits_val(ip) * RATE_SCALE + frac_units(fp))
        } else {
            None
        }
    }
}

/// Meaning of a signed decimal numeral.
pub open spec fn spec_parse_rate(s: Seq<char>) -> Option<int> {
    if s.len() == 0 {
        None
    } else if s[0] == '-' {
        match spec_parse_unsigned(s.drop_first()) {
            Some(v) => Some(-v),
            None => None,
        }
    } else if s[0] == '+' {
        spec_parse_unsigned(s.drop_first())
    } else {
        spec_parse_unsigned(s)
    }
}

/// A digit string's value is non-negative and below `10^len`.
proof fn lemma_digits_val_bounds(s: Seq<char>)
    requires
        all_digits(s),
    ensures
        0 <= digits_val(s) < pow10(s.len()),
    decreases s.len(),
{
    if s.len() > 0 {
        assert(all_digits(s.drop_last())) by {
            assert(forall|i: int| 0 <= i < s.len() - 1 ==> s.drop_last()[i] == #[trigger] s[i]);
        }
        lemma_digits_val_bounds(s.drop_last());
        assert(is_dec_digit(s.last()));
    }
}

/// Extending a digit string with more digits never lowers its value.
proof fn lemma_digits_val_prefix(s: Seq<char>, i: int)
    requires
        all_digits(s),
        0 <= i <= s.len(),
    ensures
        digits_val(s.take(i)) <= digits_val(s),
    decreases s.len(),
{
    if i < s.len() {
        assert(all_digits(s.drop_last())) by {
            assert(forall|j: int| 0 <= j < s.len() - 1 ==> s.drop_last()[j] == #[trigger] s[j]);
        }
        assert(s.take(i) =~= s.drop_last().take(i));
        lemma_digits_val_prefix(s.drop_last(), i);
        lemma_digits_val_bounds(s.drop_last());
        assert(is_dec_digit(s.last()));
    } else {
        assert(s.take(i) =~= s);
    }
}

/// `pow10` is positive.
proof fn lemma_pow10_pos(n: nat)
    ensures
        pow10(n) >= 1,
    decreases n,
{
    if n > 0 {
        lemma_pow10_pos((n - 1) as nat);
    }
}

/// `pow10` grows with the exponent.
proof fn lemma_pow10_mono(m: nat, n: nat)
    requires
        m <= n,
    ensures
        pow10(m) <= pow10(n),
    decreases n,
{
    if m < n {
        lemma_pow10_mono(m, (n - 1) as nat);
        lemma_pow10_pos((n - 1) as nat);
    }
}

/// `pow10` up to nine is at most one billion.
proof fn lemma_pow10_le_billion(n: nat)
    requires
        n <= 9,
    ensures
        0 < pow10(n) <= 1_000_000_000,
{
    lemma_pow10_pos(n);
    lemma_pow10_mono(n, 9);
    assert(pow10(9) == 1_000_000_000) by {
        reveal_with_fuel(pow10, 11);
    }
}

/// `10^a * 10^b == 10^(a+b)`.
proof fn lemma_pow10_split(a: nat, b: nat)
    ensures
        pow10(a) * pow10(b) == pow10(a + b),
    decreases a,
{
    if a > 0 {
        lemma_pow10_split((a - 1) as nat, b);
        assert(pow10(a) * pow10(b) == 10 * (pow10((a - 1) as nat) * pow10(b)))
            by (nonlinear_arith)
            requires
                pow10(a) == 10 * pow10((a - 1) as nat),
        ;
    }
}

/// Characterizes `first_dot` when a first occurrence is known.
proof fn lemma_first_dot_at(u: Seq<char>, i: int)
    requires
        0 <= i < u.len(),
        u[i] == '.',
        forall|j: int| 0 <= j < i ==> u[j] != '.',
    ensures
        first_dot(u) == i,
    decreases i,
{
    if i > 0 {
        assert(forall|j: int| 0 <= j < i - 1 ==> u.drop_first()[j] == #[trigger] u[j + 1]);
        lemma_first_dot_at(u.drop_first(), i - 1);
    }
}

/// Characterizes `first_dot` when no dot occurs at all.
proof fn lemma_first_dot_none(u: Seq<char>)
    requires
        forall|j: int| 0 <= j < u.len() ==> u[j] != '.',
    ensures
        first_dot(u) == -1,
    decreases u.len(),
{
    if u.len() > 0 {
        assert(forall|j: int| 0 <= j < u.len() - 1 ==> u.drop_first()[j] == #[trigger] u[j + 1]);
        lemma_first_dot_none(u.drop_first());
    }
}

/// Ten to a small exponent, as an executable value.
fn pow10_exec(e: usize) -> (r: i64)
    requires
        e <= 9,
    ensures
        r == pow10(e as nat),
{
    let mut r: i64 = 1;
    let mut k: usize = 0;
    while k < e
        invariant
            k <= e <= 9,
            r == pow10(k as nat),
        decreases e - k,
    {
        proof {
            lemma_pow10_le_billion(k as nat);
        }
        r = r * 10;
        k = k + 1;
    }
    r
}

/// Reads the digit string `s[from..to]` (by character position) in base
/// 10. Returns its value when every character is a digit and the value
/// stays within `INT_PART_MAX`.
fn read_digits(s: &str, from: usize, to: usize) -> (r: Option<i64>)
    requires
        from <= to <= s@.len(),
    ensures
        r is Some <==> (all_digits(s@.subrange(from as int, to as int)) && digits_val(
            s@.subrange(from as int, to as int),
        ) <= INT_PART_MAX),
        r matches Some(v) ==> v == digits_val(s@.subrange(from as int, to as int)),
{
    let ghost part = s@.subrange(from as int, to as int);
    let mut acc: i64 = 0;
    let mut i: usize = from;
    while i < to
        invariant
            from <= i <= to <= s@.len(),
            part == s@.subrange(from as int, to as int),
            all_digits(part.take(i - from)),
            acc == digits_val(part.take(i - from)),
            0 <= acc <= INT_PART_MAX,
        decreases to - i,
    {
        let c = s.get_char(i);
        proof {
            assert(part[i - from] == c);
            assert(part.take(i - from + 1).drop_last() =~= part.take(i - from));
            assert(part.take(i - from + 1).last() == c);
        }
        let cv = c as u32;
        if cv < 48 || cv > 57 {
            proof {
                assert(!is_dec_digit(part[i - from]));
            }
            return None;
        }
        let d = (cv - 48) as i64;
        if acc > 99_999 {
            // The next accumulated value would exceed INT_PART_MAX, and
            // appending further digits can only grow it.
            proof {
                assert(all_digits(part.take(i - from + 1)));
                assert(digits_val(part.take(i - from + 1)) == 10 * acc + d > INT_PART_MAX);
                if all_digits(part) {
                    lemma_digits_val_prefix(part, i - from + 1);
                }
            }
            return None;
        }
        acc = acc * 10 + d;
        i = i + 1;
    }
    proof {
        assert(part.take(to - from) =~= part);
    }
    Some(acc)
}

/// Reads the fraction digits `s[from..to]` (by character position).
/// Returns their mantissa contribution when every character is a digit.
#[verifier::rlimit(30)]
fn read_frac(s: &str, from: usize, to: usize) -> (r: Option<i64>)
    requires
        from <= to <= s@.len(),
    ensures
        r is Some <==> all_digits(s@.subrange(from as int, to as int)),
        r matches Some(v) ==> v == frac_units(s@.subrange(from as int, to as int)),
        r matches Some(v) ==> 0 <= v < 1_000_000_000,
{
    let ghost fp = s@.subrange(from as int, to as int);
    let fp_len = to - from;
    let keep: usize = if fp_len <= 9 {
        fp_len
    } else {
        9
    };
    let mut facc: i64 = 0;
    let mut k: usize = from;
    while k < to
        invariant
            from <= k <= to <= s@.len(),
            fp == s@.subrange(from as int, to as int),
            fp_len == to - from,
            keep == if fp_len <= 9 { fp_len as int } else { 9int },
            all_digits(fp.take(k - from)),
            facc == digits_val(fp.take(if k - from <= keep { k - from } else { keep as int })),
            0 <= facc < 1_000_000_000,
        decreases to - k,
    {
        let c = s.get_char(k);
        proof {
            assert(fp[k - from] == c);
            assert(fp.take(k - from + 1).drop_last() =~= fp.take(k - from));
            assert(fp.take(k - from + 1).last() == c);
        }
        let cv = c as u32;
        if cv < 48 || cv > 57 {
            proof {
                assert(!is_dec_digit(fp[k - from]));
            }
            return None;
        }
        if k - from < keep {
            proof {
                assert(all_digits(fp.take(k - from + 1)));
                lemma_digits_val_bounds(fp.take(k - from + 1));
                lemma_pow10_le_billion((k - from + 1) as nat);
            }
            facc = facc * 10 + (cv - 48) as i64;
        }
        k = k + 1;
    }
    proof {
        assert(fp.take(fp.len() as int) =~= fp);
        assert(all_digits(fp));
    }
    if fp_len < 9 {
        let mult = pow10_exec(9 - fp_len);
        proof {
            assert(fp.len() == fp_len);
            assert(facc == digits_val(fp));
            lemma_digits_val_bounds(fp);
            lemma_pow10_le_billion((9 - fp_len) as nat);
            lemma_mul_strict_inequality(
                digits_val(fp),
                pow10(fp_len as nat),
                pow10((9 - fp_len) as nat),
            );
            lemma_pow10_split(fp_len as nat, (9 - fp_len) as nat);
            assert(digits_val(fp) * pow10((9 - fp_len) as nat) < pow10(9));
            assert(pow10(9) == 1_000_000_000) by {
                reveal_with_fuel(pow10, 11);
            }
            vstd::arithmetic::mul::lemma_mul_nonnegative(
                digits_val(fp),
                pow10((9 - fp_len) as nat),
            );
        }
        let v = facc * mult;
        proof {
            assert(v == frac_units(fp));
        }
        Some(v)
    } else {
        proof {
            lemma_digits_val_bounds(fp.take(9));
            lemma_pow10_le_billion(9);
            if fp_len == 9 {
                assert(fp.take(9) =~= fp);
                assert(pow10(0) == 1);
                assert(frac_units(fp) == digits_val(fp) * pow10(0));
            }
            assert(facc == frac_units(fp));
        }
        Some(facc)
    }
}

/// Parses a decimal rate numeral into a mantissa in units of
/// `1 / RATE_SCALE`, exactly as `spec_parse_rate` reads it. Any accepted
/// mantissa lies within `RATE_UNITS_MAX`, so it can be normalized without
/// overflow.
pub fn parse_rate(s: &str) -> (r: Option<i64>)
    ensures
        r is Some <==> spec_parse_rate(s@) is Some,
        r matches Some(v) ==> {
            &&& spec_parse_rate(s@) == Some(v as int)
            &&& -RATE_UNITS_MAX <= v <= RATE_UNITS_MAX
        },
{
    let n = s.unicode_len();
    if n == 0 {
        return None;
    }
    let c0 = s.get_char(0);
    let neg = c0 == '-';
    let st: usize = if c0 == '-' || c0 == '+' {
        1
    } else {
        0
    };
    let ghost u = s@.skip(st as int);
    proof {
        if st == 1 {
            assert(u =~= s@.drop_first());
        } else {
            assert(u =~= s@);
        }
    }

    // Find the first decimal point in the unsigned body.
    let mut i: usize = st;
    let mut dot: usize = n;
    let mut found = false;
    while i < n && !found
        invariant
            st <= i <= n == s@.len(),
            !found ==> (dot == n && forall|j: int| st <= j < i ==> s@[j] != '.'),
            found ==> (st <= dot < n && s@[dot as int] == '.' && forall|j: int|
                st <= j < dot ==> s@[j] != '.'),
        decreases n - i, (if found { 0int } else { 1int }),
    {
        if s.get_char(i) == '.' {
            dot = i;
            found = true;
        } else {
            i = i + 1;
        }
    }
    proof {
        assert(forall|j: int| 0 <= j < u.len() ==> u[j] == #[trigger] s@[j + st]);
        if found {
            assert(u[dot - st] == '.');
            lemma_first_dot_at(u, dot - st);
        } else {
            lemma_first_dot_none(u);
        }
    }

    // Integer part: the characters before the point (or all of the body).
    let ghost ip = if found { u.take(dot - st) } else { u };
    proof {
        assert(ip =~= s@.subrange(st as int, dot as int));
    }
    let ip_val = match read_digits(s, st, dot) {
        Some(v) => v,
        None => {
            return None;
        },
    };
    proof {
        lemma_digits_val_bounds(ip);
    }

    if !found {
        // No fraction: the body must be non-empty.
        if dot == st {
            return None;
        }
        let m = ip_val * RATE_SCALE;
        if neg {
            return Some(-m);
        }
        return Some(m);
    }

    // Fraction part: every character must be a digit; only the first nine
    // carry into the mantissa.
    let ghost fp = u.skip(dot - st + 1);
    proof {
        assert(fp =~= s@.subrange(dot + 1, n as int));
    }
    if dot == st && dot + 1 == n {
        // A lone point carries no digits at all.
        return None;
    }
    let funits: i64 = match read_frac(s, dot + 1, n) {
        Some(v) => v,
        None => {
            return None;
        },
    };

    let m = ip_val * RATE_SCALE + funits;
    if neg {
        Some(-m)
    } else {
        Some(m)
    }
}

} // verus!
