//! Exact decimal reading of numeric strings. A numeric string is an
//! optional sign, digits, an optional fraction, and an optional
//! exponent; its exact value is rounded half-away-from-zero to an
//! integer and clamped to the `i64` range, as integer coercion asks.
//! The infinity and not-a-number words are deliberately not numeric
//! here: every accepted string has an exact decimal value.
use vstd::prelude::*;

use crate::strutil::{all_digits, digit_of, digits_val, is_digit_char};

verus! {

/// First index at or after `i` that does not hold a digit.
pub open spec fn digit_span_end(s: Seq<char>, i: int) -> int
    decreases s.len() - i,
    when 0 <= i <= s.len()
{
    if i >= s.len() {
        i
    } else if is_digit_char(s[i]) {
        digit_span_end(s, i + 1)
    } else {
        i
    }
}

/// The shape of a numeric string: its sign, its digits with the decimal
/// point removed, and the position of the point among those digits once
/// the exponent has shifted it. `None` when the string is not numeric.
pub open spec fn num_shape(s: Seq<char>) -> Option<(bool, Seq<char>, int)> {
    let has_sign = s.len() > 0 && (s[0] == '+' || s[0] == '-');
    let neg = s.len() > 0 && s[0] == '-';
    let i1: int = if has_sign {
        1
    } else {
        0
    };
    let d1 = digit_span_end(s, i1);
    let has_dot = d1 < s.len() && s[d1] == '.';
    let d2 = if has_dot {
        digit_span_end(s, d1 + 1)
    } else {
        d1
    };
    let digits = s.subrange(i1, d1) + (if has_dot {
        s.subrange(d1 + 1, d2)
    } else {
        Seq::<char>::empty()
    });
    let point = d1 - i1;
    let has_e = d2 < s.len() && (s[d2] == 'e' || s[d2] == 'E');
    if has_e {
        let es: int = d2 + 1;
        let eneg = es < s.len() && s[es] == '-';
        let e1: int = if es < s.len() && (s[es] == '-' || s[es] == '+') {
            es + 1
        } else {
            es
        };
        let e2 = digit_span_end(s, e1);
        if e2 == s.len() && e2 > e1 && digits.len() >= 1 {
            let exp = if eneg {
                -digits_val(s.subrange(e1, e2))
            } else {
                digits_val(s.subrange(e1, e2))
            };
            Some((neg, digits, point + exp))
        } else {
            None
        }
    } else {
        if d2 == s.len() && digits.len() >= 1 {
            Some((neg, digits, point))
        } else {
            None
        }
    }
}

/// Value of the digit positions `[0, j)`, positions past the end counting
/// as zeros.
pub open spec fn ext_val(ds: Seq<char>, j: int) -> int
    decreases j,
{
    if j <= 0 {
        0
    } else {
        ext_val(ds, j - 1) * 10 + (if j - 1 < ds.len() {
            digit_of(ds[j - 1])
        } else {
            0
        })
    }
}

/// Magnitude of a digit string with the point after position `q`, rounded
/// half-away-from-zero to an integer.
pub open spec fn round_mag(ds: Seq<char>, q: int) -> int {
    ext_val(ds, q) + (if 0 <= q < ds.len() && digit_of(ds[q]) >= 5 {
        1int
    } else {
        0int
    })
}

/// The rounded integer a numeric string stands for; `None` when the
/// string is not numeric.
pub open spec fn str_rounded(s: Seq<char>) -> Option<int> {
    match num_shape(s) {
        Some((neg, ds, q)) => Some(
            if neg {
                -round_mag(ds, q)
            } else {
                round_mag(ds, q)
            },
        ),
        None => None,
    }
}

/// Saturation to the `i64` range.
pub open spec fn clamp_i64(n: int) -> int {
    if n > i64::MAX {
        i64::MAX as int
    } else if n < i64::MIN {
        i64::MIN as int
    } else {
        n
    }
}

pub open spec fn pow10(n: int) -> int
    decreases n,
    when n >= 0
{
    if n <= 0 {
        1
    } else {
        10 * pow10(n - 1)
    }
}

pub proof fn lemma_pow10_19()
    ensures
        pow10(19) == 10000000000000000000,
{
    reveal_with_fuel(pow10, 21);
}

pub proof fn lemma_pow10_mono(m: int, n: int)
    requires
        0 <= m <= n,
    ensures
        1 <= pow10(m) <= pow10(n),
    decreases n,
{
    if n > 0 {
        if m == n {
            lemma_pow10_mono(m - 1, n - 1);
        } else {
            lemma_pow10_mono(m, n - 1);
        }
    }
}

/// Positions before the first significant digit contribute nothing.
pub proof fn lemma_ext_val_zero_prefix(ds: Seq<char>, j: int)
    requires
        forall|k: int| 0 <= k < j && k < ds.len() ==> ds[k] == '0',
    ensures
        ext_val(ds, j) == 0,
    decreases j,
{
    if j > 0 {
        lemma_ext_val_zero_prefix(ds, j - 1);
    }
}

/// Once a significant digit has been passed, the value has at least one
/// power of ten per following position.
pub proof fn lemma_ext_val_lower(ds: Seq<char>, f: int, j: int)
    requires
        all_digits(ds),
        0 <= f < ds.len(),
        ds[f] != '0',
        forall|k: int| 0 <= k < f ==> ds[k] == '0',
        f < j,
    ensures
        ext_val(ds, j) >= pow10(j - f - 1),
    decreases j,
{
    if j == f + 1 {
        lemma_ext_val_zero_prefix(ds, f);
        assert(is_digit_char(ds[f]));
        assert(digit_of(ds[f]) >= 1);
    } else {
        lemma_ext_val_lower(ds, f, j - 1);
        lemma_pow10_mono(0, j - 1 - f - 1);
        let prev = ext_val(ds, j - 1);
        let p = pow10(j - 1 - f - 1);
        assert(prev * 10 >= p * 10) by (nonlinear_arith)
            requires
                prev >= p,
                p >= 0,
        ;
        assert(pow10(j - f - 1) == 10 * pow10(j - f - 2));
        if j - 1 < ds.len() {
            assert(is_digit_char(ds[j - 1]));
        }
    }
}

/// Upper bound: `j - f` positions cannot reach `pow10(j - f)`.
pub proof fn lemma_ext_val_upper(ds: Seq<char>, f: int, j: int)
    requires
        all_digits(ds),
        0 <= f,
        forall|k: int| 0 <= k < f && k < ds.len() ==> ds[k] == '0',
        f <= j,
    ensures
        ext_val(ds, j) <= pow10(j - f) - 1,
    decreases j,
{
    if j == f {
        lemma_ext_val_zero_prefix(ds, j);
    } else {
        lemma_ext_val_upper(ds, f, j - 1);
        let prev = ext_val(ds, j - 1);
        let p = pow10(j - 1 - f);
        assert(prev * 10 <= (p - 1) * 10) by (nonlinear_arith)
            requires
                prev <= p - 1,
        ;
        if j - 1 < ds.len() {
            assert(is_digit_char(ds[j - 1]));
            assert(digit_of(ds[j - 1]) <= 9);
        }
        assert(pow10(j - f) == 10 * pow10(j - f - 1));
    }
}

/// Reading all digit positions gives the plain base-ten value.
pub proof fn lemma_ext_val_is_digits_val(ds: Seq<char>, j: int)
    requires
        0 <= j <= ds.len(),
    ensures
        ext_val(ds, j) == digits_val(ds.subrange(0, j)),
    decreases j,
{
    if j == 0 {
        assert(ds.subrange(0, 0) =~= Seq::<char>::empty());
    } else {
        lemma_ext_val_is_digits_val(ds, j - 1);
        let cur = ds.subrange(0, j);
        assert(cur.drop_last() =~= ds.subrange(0, j - 1));
        assert(cur.last() == ds[j - 1]);
    }
}

/// A digit string's value is never negative.
pub proof fn lemma_digits_val_nonneg(s: Seq<char>)
    requires
        all_digits(s),
    ensures
        digits_val(s) >= 0,
    decreases s.len(),
{
    if s.len() > 0 {
        assert forall|i: int|
            0 <= i < s.drop_last().len() implies is_digit_char(#[trigger] s.drop_last()[i]) by {
            assert(s.drop_last()[i] == s[i]);
        }
        lemma_digits_val_nonneg(s.drop_last());
        assert(is_digit_char(s.last()));
        assert(digits_val(s.drop_last()) * 10 >= 0) by (nonlinear_arith)
            requires
                digits_val(s.drop_last()) >= 0,
        ;
    }
}

/// A run of digits reaches the end of the string.
pub proof fn lemma_digit_span_all(s: Seq<char>, j: int)
    requires
        0 <= j <= s.len(),
        forall|k: int| j <= k < s.len() ==> is_digit_char(#[trigger] s[k]),
    ensures
        digit_span_end(s, j) == s.len(),
    decreases s.len() - j,
{
    if j < s.len() {
        lemma_digit_span_all(s, j + 1);
    }
}

/// The decimal text of an integer reads back as exactly that integer.
pub proof fn lemma_int_text_roundtrip(i: i64)
    ensures
        str_rounded(crate::strutil::int_chars(i as int)) == Some(i as int),
{
    let s = crate::strutil::int_chars(i as int);
    if i >= 0 {
        crate::strutil::lemma_dec_chars_val(i as int);
        assert(s == crate::strutil::dec_chars(i as int));
        assert(is_digit_char(s[0]));
        assert(s[0] != '+' && s[0] != '-');
        lemma_digit_span_all(s, 0);
        let ds = s.subrange(0, s.len() as int) + Seq::<char>::empty();
        assert(ds =~= s);
        assert(num_shape(s) == Some((false, s, s.len() as int)));
        lemma_ext_val_is_digits_val(s, s.len() as int);
        assert(s.subrange(0, s.len() as int) =~= s);
        assert(round_mag(s, s.len() as int) == i as int);
    } else {
        let mag = crate::strutil::dec_chars(-(i as int));
        crate::strutil::lemma_dec_chars_val(-(i as int));
        assert(s == seq!['-'] + mag);
        assert(s[0] == '-');
        assert(s.len() == mag.len() + 1);
        assert forall|k: int| 1 <= k < s.len() implies is_digit_char(#[trigger] s[k]) by {
            assert(s[k] == mag[k - 1]);
        }
        lemma_digit_span_all(s, 1);
        let ds = s.subrange(1, s.len() as int) + Seq::<char>::empty();
        assert(s.subrange(1, s.len() as int) =~= mag);
        assert(ds =~= mag);
        assert(num_shape(s) == Some((true, mag, mag.len() as int)));
        lemma_ext_val_is_digits_val(mag, mag.len() as int);
        assert(mag.subrange(0, mag.len() as int) =~= mag);
        assert(round_mag(mag, mag.len() as int) == -(i as int));
    }
}

pub fn is_digit(c: char) -> (r: bool)
    ensures
        r == is_digit_char(c),
{
    '0' <= c && c <= '9'
}

/// Scan a digit run; mirrors `digit_span_end`.
fn scan_digits(v: &Vec<char>, i: usize) -> (r: usize)
    requires
        i <= v@.len(),
    ensures
        i <= r <= v@.len(),
        r == digit_span_end(v@, i as int),
        forall|k: int| i <= k < r ==> is_digit_char(v@[k]),
        r < v@.len() ==> !is_digit_char(v@[r as int]),
{
    let n = v.len();
    let mut j: usize = i;
    loop
        invariant
            i <= j <= n,
            n == v@.len(),
            digit_span_end(v@, i as int) == digit_span_end(v@, j as int),
            forall|k: int| i <= k < j ==> is_digit_char(v@[k]),
        ensures
            i <= j <= n,
            digit_span_end(v@, i as int) == digit_span_end(v@, j as int),
            forall|k: int| i <= k < j ==> is_digit_char(v@[k]),
            j == n || !is_digit_char(v@[j as int]),
        decreases n - j,
    {
        if j >= n {
            break ;
        }
        if !is_digit(v[j]) {
            break ;
        }
        j = j + 1;
    }
    assert(digit_span_end(v@, j as int) == j);
    j
}

/// The exponent saturation bound: larger than any digit position a
/// string in memory can have.
pub const EXP_CAP: i128 = 100000000000000000000000000000000;

/// Collect the digits of a numeric string, decimal point removed.
fn collect_digits(v: &Vec<char>, i1: usize, d1: usize, has_dot: bool, d2: usize) -> (ds: Vec<
    char,
>)
    requires
        i1 <= d1 <= v@.len(),
        has_dot ==> d1 + 1 <= d2 <= v@.len(),
    ensures
        ds@ == v@.subrange(i1 as int, d1 as int) + (if has_dot {
            v@.subrange(d1 + 1, d2 as int)
        } else {
            Seq::<char>::empty()
        }),
{
    let mut ds: Vec<char> = Vec::new();
    let mut j: usize = i1;
    assert(ds@ =~= v@.subrange(i1 as int, i1 as int));
    while j < d1
        invariant
            i1 <= j <= d1 <= v@.len(),
            ds@ == v@.subrange(i1 as int, j as int),
        decreases d1 - j,
    {
        ds.push(v[j]);
        j = j + 1;
        assert(ds@ =~= v@.subrange(i1 as int, j as int));
    }
    if has_dot {
        let mut k: usize = d1 + 1;
        while k < d2
            invariant
                d1 + 1 <= k <= d2 <= v@.len(),
                ds@ == v@.subrange(i1 as int, d1 as int) + v@.subrange(d1 + 1, k as int),
            decreases d2 - k,
        {
            ds.push(v[k]);
            k = k + 1;
            assert(ds@ =~= v@.subrange(i1 as int, d1 as int) + v@.subrange(d1 + 1, k as int));
        }
    } else {
        proof {
            assert(ds@ =~= v@.subrange(i1 as int, d1 as int) + Seq::<char>::empty());
        }
    }
    ds
}

/// Read an exponent's digits, saturated just past `EXP_CAP`: the result
/// equals the exact value when that fits, and otherwise still exceeds
/// the cap.
fn read_exponent_sat(v: &Vec<char>, e1: usize, e2: usize) -> (esat: i128)
    requires
        e1 <= e2 <= v@.len(),
        forall|k: int| e1 <= k < e2 ==> is_digit_char(#[trigger] v@[k]),
    ensures
        ({
            let exact = digits_val(v@.subrange(e1 as int, e2 as int));
            &&& exact <= EXP_CAP ==> esat == exact
            &&& exact > EXP_CAP ==> esat > EXP_CAP
            &&& 0 <= esat <= EXP_CAP * 10 + 9
        }),
{
    let mut esat: i128 = 0;
    let mut jj: usize = e1;
    proof {
        assert(v@.subrange(e1 as int, e1 as int) =~= Seq::<char>::empty());
    }
    while jj < e2
        invariant
            e1 <= jj <= e2 <= v@.len(),
            forall|k: int| e1 <= k < e2 ==> is_digit_char(#[trigger] v@[k]),
            ({
                let part = digits_val(v@.subrange(e1 as int, jj as int));
                &&& part <= EXP_CAP ==> esat == part
                &&& part > EXP_CAP ==> esat > EXP_CAP
                &&& 0 <= esat <= EXP_CAP * 10 + 9
            }),
        decreases e2 - jj,
    {
        let ghost prev_part = digits_val(v@.subrange(e1 as int, jj as int));
        let c = v[jj];
        assert(is_digit_char(c));
        let dig: i128 = ((c as u32) - ('0' as u32)) as i128;
        proof {
            let cur = v@.subrange(e1 as int, jj + 1);
            assert(cur.drop_last() =~= v@.subrange(e1 as int, jj as int));
            assert(cur.last() == v@[jj as int]);
            assert forall|t: int|
                0 <= t < v@.subrange(e1 as int, jj as int).len() implies is_digit_char(
                #[trigger] v@.subrange(e1 as int, jj as int)[t]) by {
                assert(v@.subrange(e1 as int, jj as int)[t] == v@[e1 + t]);
            }
            lemma_digits_val_nonneg(v@.subrange(e1 as int, jj as int));
            assert(prev_part * 10 >= prev_part) by (nonlinear_arith)
                requires
                    prev_part >= 0,
            ;
        }
        if esat <= EXP_CAP {
            esat = esat * 10 + dig;
        }
        jj = jj + 1;
    }
    proof {
        assert(v@.subrange(e1 as int, e2 as int) == v@.subrange(e1 as int, jj as int));
    }
    esat
}

/// Parse a numeric string and return its exact value rounded
/// half-away-from-zero to an integer, clamped to the `i64` range;
/// `None` when the string is not numeric. The exponent is read with
/// saturation: one too large to matter still lands in the right extreme.
#[verifier::loop_isolation(false)]
#[verifier::rlimit(100)]
pub fn parse_rounded_clamped(v: &Vec<char>) -> (r: Option<i64>)
    ensures
        match str_rounded(v@) {
            Some(n) => r matches Some(x) && x == clamp_i64(n),
            None => r is None,
        },
{
    let n = v.len();
    let mut neg: bool = false;
    let mut i1: usize = 0;
    if n > 0 && v[0] == '-' {
        neg = true;
        i1 = 1;
    } else if n > 0 && v[0] == '+' {
        i1 = 1;
    }
    let d1 = scan_digits(v, i1);
    let mut has_dot: bool = false;
    let mut d2: usize = d1;
    if d1 < n && v[d1] == '.' {
        has_dot = true;
        d2 = scan_digits(v, d1 + 1);
    }
    let has_e = d2 < n && (v[d2] == 'e' || v[d2] == 'E');
    if !has_e && d2 != n {
        assert(num_shape(v@) is None);
        return None;
    }
    let ds = collect_digits(v, i1, d1, has_dot, d2);
    if ds.len() == 0 {
        assert(num_shape(v@) is None);
        return None;
    }
    let point: usize = d1 - i1;
    let m = ds.len();
    // Read the exponent: the exact value in ghost, a value saturated just
    // past every possible digit position in the executable.
    let mut eneg: bool = false;
    let mut esat: i128 = 0;
    let ghost mut exact_e: int = 0int;
    if has_e {
        let es = d2 + 1;
        let mut e1 = es;
        if es < n && v[es] == '-' {
            eneg = true;
            e1 = es + 1;
        } else if es < n && v[es] == '+' {
            e1 = es + 1;
        }
        let e2 = scan_digits(v, e1);
        if e2 != n || e2 == e1 {
            assert(num_shape(v@) is None);
            return None;
        }
        esat = read_exponent_sat(v, e1, e2);
        proof {
            exact_e = digits_val(v@.subrange(e1 as int, e2 as int));
            assert forall|t: int|
                0 <= t < v@.subrange(e1 as int, e2 as int).len() implies is_digit_char(
                #[trigger] v@.subrange(e1 as int, e2 as int)[t]) by {
                assert(v@.subrange(e1 as int, e2 as int)[t] == v@[e1 + t]);
            }
            lemma_digits_val_nonneg(v@.subrange(e1 as int, e2 as int));
        }
    }
    let ghost exact_q: int = if has_e {
        if eneg {
            point - exact_e
        } else {
            point + exact_e
        }
    } else {
        point as int
    };
    let q_sat: i128 = if has_e {
        if eneg {
            point as i128 - esat
        } else {
            point as i128 + esat
        }
    } else {
        point as i128
    };
    let ghost shape = num_shape(v@);
    proof {
        assert(shape == Some((neg, ds@, exact_q)));
        assert(all_digits(ds@));
    }
    // Find the first significant digit.
    let mut f: usize = 0;
    while f < m && ds[f] == '0'
        invariant
            f <= m,
            forall|k: int| 0 <= k < f ==> ds@[k] == '0',
        decreases m - f,
    {
        f = f + 1;
    }
    if f == m {
        // Every digit is zero: the value is zero whatever the exponent.
        proof {
            lemma_ext_val_zero_prefix(ds@, exact_q);
            assert(round_mag(ds@, exact_q) == 0);
        }
        return Some(0i64);
    }
    // The saturated point position falls in the same region as the exact
    // one: equal when the exponent fit, and in the same extreme when not.
    proof {
        assert(n as int <= u64::MAX as int);
        if has_e && exact_e > EXP_CAP {
            assert(esat > EXP_CAP);
            if eneg {
                assert(exact_q < 0 && q_sat < 0);
            } else {
                assert(exact_q > f + 19 && q_sat > f as i128 + 19);
            }
        } else {
            assert(q_sat == exact_q);
        }
    }
    if q_sat > f as i128 + 19 {
        // At least twenty significant integer digits: past the i64 range.
        proof {
            lemma_ext_val_lower(ds@, f as int, exact_q);
            lemma_pow10_mono(19, exact_q - f - 1);
            lemma_pow10_19();
            assert(ext_val(ds@, exact_q) >= 10000000000000000000);
            assert(round_mag(ds@, exact_q) >= 10000000000000000000);
        }
        if neg {
            return Some(i64::MIN);
        } else {
            return Some(i64::MAX);
        }
    }
    // Accumulate the integer part, from the first significant digit on;
    // positions past the digits count as zeros.
    let mut mag: u64 = 0;
    proof {
        lemma_ext_val_zero_prefix(ds@, f as int);
        if 0 <= exact_q && exact_q <= f {
            lemma_ext_val_zero_prefix(ds@, exact_q);
        }
        lemma_pow10_19();
    }
    if q_sat > f as i128 {
        let mut jj: i128 = f as i128;
        while jj < q_sat
            invariant
                f as i128 <= jj <= q_sat,
                q_sat - f as i128 <= 19,
                q_sat == exact_q,
                mag == ext_val(ds@, jj as int),
                mag <= pow10(jj as int - f) - 1,
            decreases q_sat - jj,
        {
            let dig: u64 = if jj < m as i128 {
                let c = ds[jj as usize];
                assert(is_digit_char(c));
                ((c as u32) - ('0' as u32)) as u64
            } else {
                0u64
            };
            proof {
                lemma_pow10_mono(jj as int - f, 18);
                lemma_pow10_mono(18, 19);
                let prev = mag as int;
                let p = pow10(jj as int - f);
                assert(prev * 10 <= (p - 1) * 10) by (nonlinear_arith)
                    requires
                        prev <= p - 1,
                ;
                assert(pow10(jj as int - f + 1) == 10 * pow10(jj as int - f));
            }
            mag = mag * 10 + dig;
            jj = jj + 1;
        }
    }
    assert(mag == ext_val(ds@, exact_q));
    // The first digit after the point decides the rounding.
    let mut roundup: bool = false;
    if 0 <= q_sat && q_sat < m as i128 {
        roundup = ds[q_sat as usize] >= '5';
        proof {
            assert(is_digit_char(ds@[q_sat as int]));
            assert((ds@[q_sat as int] >= '5') == (digit_of(ds@[q_sat as int]) >= 5));
        }
    }
    proof {
        if q_sat > f as i128 {
            lemma_ext_val_upper(ds@, f as int, exact_q);
            lemma_pow10_mono(exact_q - f, 19);
        }
    }
    if roundup {
        mag = mag + 1;
    }
    assert(mag == round_mag(ds@, exact_q));
    if neg {
        if mag >= 9223372036854775808u64 {
            Some(i64::MIN)
        } else {
            Some(-(mag as i64))
        }
    } else {
        if mag > 9223372036854775807u64 {
            Some(i64::MAX)
        } else {
            Some(mag as i64)
        }
    }
}

} // verus!
