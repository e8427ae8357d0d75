//! Fixed-point decimal numbers.
//!
//! The catalog stores every physical quantity as an integer count of a
//! small unit: meters become millimeters, degrees become microdegrees.
//! This module parses decimal text (as found in the dataset's JSON
//! numbers) into milli-units, and renders fixed-point values back to
//! decimal text.

use vstd::prelude::*;
use vstd::arithmetic::power::{
    pow, lemma_pow_adds, lemma_pow_positive, lemma_pow_strictly_increases,
};
use vstd::arithmetic::div_mod::lemma_div_denominator;
use vstd::arithmetic::mul::{
    lemma_mul_is_associative, lemma_mul_is_commutative, lemma_mul_inequality,
};

verus! {

/// Largest magnitude, in milli-units, that the fixed-point model admits.
/// One quadrillion milli-units is a trillion whole units, far beyond any
/// coordinate, length or elevation the catalog can meet.
pub const MAX_MILLI: i64 = 1_000_000_000_000_000;

/// Largest decimal-exponent magnitude the number grammar admits.
pub const MAX_EXP: u64 = 40;

pub open spec fn is_digit(c: char) -> bool {
    '0' <= c && c <= '9'
}

pub open spec fn digit_val(c: char) -> int {
    c as int - '0' as int
}

/// Numeric value of a run of decimal digits.
pub open spec fn digits_val(s: Seq<char>) -> int
    decreases s.len(),
{
    if s.len() == 0 {
        0
    } else {
        digits_val(s.drop_last()) * 10 + digit_val(s.last())
    }
}

pub open spec fn all_digits(s: Seq<char>) -> bool {
    forall|i: int| 0 <= i < s.len() ==> is_digit(#[trigger] s[i])
}

/// Length of the longest digit prefix of `s`.
pub open spec fn digit_prefix_len(s: Seq<char>) -> int
    decreases s.len(),
{
    if s.len() == 0 || !is_digit(s[0]) {
        0
    } else {
        1 + digit_prefix_len(s.skip(1))
    }
}

pub open spec fn pow10(e: nat) -> int {
    pow(10, e)
}

proof fn lemma_pow10_pos(e: nat)
    ensures
        pow10(e) >= 1,
{
    lemma_pow_positive(10, e);
}

proof fn lemma_pow10_step(e: nat)
    ensures
        pow10(e + 1) == pow10(e) * 10,
{
    lemma_pow_adds(10, e, 1);
    assert(pow(10, 1) == 10) by {
        reveal_with_fuel(pow, 2);
    }
}

/// A run of `n` digits is worth less than `10^n`.
proof fn lemma_digits_val_bound(s: Seq<char>)
    requires
        all_digits(s),
    ensures
        0 <= digits_val(s) < pow10(s.len()),
    decreases s.len(),
{
    if s.len() == 0 {
        assert(pow10(0) == 1) by {
            reveal_with_fuel(pow, 1);
        }
    } else {
        lemma_digits_val_bound(s.drop_last());
        lemma_pow10_step((s.len() - 1) as nat);
        assert(is_digit(s[s.len() - 1]));
    }
}

/// The digit prefix length is the unique cut with all digits before it
/// and a non-digit (or the end) at it.
proof fn lemma_digit_prefix_len_unique(s: Seq<char>, p: int)
    requires
        0 <= p <= s.len(),
        all_digits(s.take(p)),
        p < s.len() ==> !is_digit(s[p]),
    ensures
        digit_prefix_len(s) == p,
    decreases s.len(),
{
    if p == 0 {
        if s.len() > 0 && is_digit(s[0]) {
            assert(false);
        }
    } else {
        assert(is_digit(s[0])) by {
            assert(s.take(p)[0] == s[0]);
        }
        assert(all_digits(s.skip(1).take(p - 1))) by {
            assert forall|i: int| 0 <= i < p - 1 implies is_digit(
                #[trigger] s.skip(1).take(p - 1)[i],
            ) by {
                assert(s.skip(1).take(p - 1)[i] == s.take(p)[i + 1]);
            }
        }
        lemma_digit_prefix_len_unique(s.skip(1), p - 1);
    }
}

/// Fraction part: nothing, or a point followed by at least one digit.
/// Yields the fraction digits and the remaining text.
pub open spec fn split_frac(s: Seq<char>) -> Option<(Seq<char>, Seq<char>)> {
    if s.len() == 0 || s[0] != '.' {
        Some((Seq::<char>::empty(), s))
    } else {
        let nf = digit_prefix_len(s.skip(1));
        if nf == 0 {
            None
        } else {
            Some((s.skip(1).take(nf), s.skip(1 + nf)))
        }
    }
}

/// Exponent part: nothing, or `e`/`E`, an optional sign, and at least one
/// digit. Yields the signed exponent and the remaining text.
pub open spec fn split_exp(s: Seq<char>) -> Option<(int, Seq<char>)> {
    if s.len() == 0 || (s[0] != 'e' && s[0] != 'E') {
        Some((0, s))
    } else {
        let t = s.skip(1);
        let neg = t.len() > 0 && t[0] == '-';
        let signed = t.len() > 0 && (t[0] == '-' || t[0] == '+');
        let u = if signed { t.skip(1) } else { t };
        let ne = digit_prefix_len(u);
        if ne == 0 {
            None
        } else {
            let e = digits_val(u.take(ne));
            Some((if neg { -e } else { e }, u.skip(ne)))
        }
    }
}

/// Magnitude, in milli-units, of digits `d` shifted by `10^k` (truncated
/// toward zero), already including the milli scaling.
pub open spec fn shifted_milli(d: int, k: int) -> int {
    if k >= 0 {
        d * pow10(k as nat)
    } else {
        d / pow10((-k) as nat)
    }
}

/// Magnitude, in milli-units, of an unsigned decimal literal: one or more
/// integer digits, an optional fraction, an optional exponent, nothing
/// else. Literals with more than 30 digits, an exponent beyond `MAX_EXP`,
/// or a value above `MAX_MILLI` are out of the model's range.
pub open spec fn parse_abs_milli(s: Seq<char>) -> Option<int> {
    let ni = digit_prefix_len(s);
    if ni == 0 {
        None
    } else {
        match split_frac(s.skip(ni)) {
            None => None,
            Some((fd, r2)) => match split_exp(r2) {
                None => None,
                Some((e, r3)) => {
                    if r3.len() != 0 || ni + fd.len() > 30 || e > MAX_EXP as int || e < -(MAX_EXP as int) {
                        None
                    } else {
                        let m = shifted_milli(
                            digits_val(s.take(ni) + fd),
                            3 + e - fd.len(),
                        );
                        if m > MAX_MILLI {
                            None
                        } else {
                            Some(m)
                        }
                    }
                },
            },
        }
    }
}

/// Value, in milli-units, of a decimal literal with an optional leading
/// minus sign.
pub open spec fn parse_milli(s: Seq<char>) -> Option<int> {
    if s.len() > 0 && s[0] == '-' {
        match parse_abs_milli(s.skip(1)) {
            None => None,
            Some(m) => Some(-m),
        }
    } else {
        parse_abs_milli(s)
    }
}

/// End of the digit run that starts at `i`.
fn digit_run_end(s: &str, n: usize, i: usize) -> (j: usize)
    requires
        s@.len() == n,
        i <= n,
    ensures
        i <= j <= n,
        j - i == digit_prefix_len(s@.skip(i as int)),
        forall|t: int| i <= t < j ==> is_digit(#[trigger] s@[t]),
{
    let mut j: usize = i;
    loop
        invariant
            i <= j <= n,
            s@.len() == n,
            forall|t: int| i <= t < j ==> is_digit(#[trigger] s@[t]),
        ensures
            i <= j <= n,
            forall|t: int| i <= t < j ==> is_digit(#[trigger] s@[t]),
            j == n || !is_digit(s@[j as int]),
        decreases n - j,
    {
        if j == n {
            break;
        }
        let c = s.get_char(j);
        let u = c as u32;
        if !(48 <= u && u <= 57) {
            proof {
                assert(!is_digit(s@[j as int]));
            }
            break;
        }
        j = j + 1;
    }
    proof {
        assert(s@.skip(i as int).take(j - i) =~= s@.subrange(i as int, j as int));
        assert(all_digits(s@.skip(i as int).take(j - i))) by {
            assert forall|t: int| 0 <= t < j - i implies is_digit(
                #[trigger] s@.skip(i as int).take(j - i)[t],
            ) by {
                assert(s@.skip(i as int).take(j - i)[t] == s@[i + t]);
            }
        }
        if j < n {
            assert(s@.skip(i as int)[j - i] == s@[j as int]);
        }
        lemma_digit_prefix_len_unique(s@.skip(i as int), j - i);
    }
    j
}

proof fn lemma_pow10_30()
    ensures
        pow10(30) == 0x0c9f2c9cd04674edea40000000,
{
    reveal_with_fuel(pow, 31);
}

/// Fold the digits `s[a..b]` onto an accumulator that already holds the
/// value of the digits `pre`.
fn accum_digits(s: &str, a: usize, b: usize, acc0: u128, Ghost(pre): Ghost<Seq<char>>) -> (acc:
    u128)
    requires
        a <= b <= s@.len(),
        forall|t: int| a <= t < b ==> is_digit(#[trigger] s@[t]),
        all_digits(pre),
        acc0 == digits_val(pre),
        pre.len() + (b - a) <= 30,
    ensures
        acc == digits_val(pre + s@.subrange(a as int, b as int)),
{
    proof {
        lemma_digits_val_bound(pre);
        assert(pre + s@.subrange(a as int, a as int) =~= pre);
    }
    let mut acc: u128 = acc0;
    let mut t: usize = a;
    while t < b
        invariant
            a <= t <= b <= s@.len(),
            forall|i: int| a <= i < b ==> is_digit(#[trigger] s@[i]),
            all_digits(pre),
            pre.len() + (b - a) <= 30,
            acc == digits_val(pre + s@.subrange(a as int, t as int)),
        decreases b - t,
    {
        let ghost seen = pre + s@.subrange(a as int, t as int);
        proof {
            assert(all_digits(seen)) by {
                assert forall|i: int| 0 <= i < seen.len() implies is_digit(
                    #[trigger] seen[i],
                ) by {
                    if i >= pre.len() {
                        assert(seen[i] == s@[a + (i - pre.len())]);
                    }
                }
            }
            lemma_digits_val_bound(seen);
            lemma_pow10_30();
            assert(pow10(seen.len()) <= pow10(30)) by {
                if seen.len() < 30 {
                    lemma_pow_strictly_increases(10, seen.len(), 30);
                }
            }
        }
        let c = s.get_char(t);
        let d = (c as u32 - 48) as u128;
        proof {
            let next = pre + s@.subrange(a as int, t + 1 as int);
            assert(next.drop_last() =~= seen);
            assert(next.last() == s@[t as int]);
        }
        acc = acc * 10 + d;
        t = t + 1;
    }
    acc
}

/// `d * 10^k`, capped at `MAX_MILLI`.
fn scale_up(d: u128, k: u64) -> (r: Option<i64>)
    ensures
        match r {
            Some(m) => m as int == d * pow10(k as nat) && 0 <= m <= MAX_MILLI,
            None => d * pow10(k as nat) > MAX_MILLI,
        },
{
    let mut acc: u128 = d;
    let mut t: u64 = 0;
    proof {
        lemma_pow10_pos(0);
        reveal_with_fuel(pow, 1);
    }
    while t < k
        invariant
            t <= k,
            acc * pow10((k - t) as nat) == d * pow10(k as nat),
            acc <= u128::MAX,
        decreases k - t,
    {
        if acc > MAX_MILLI as u128 {
            proof {
                lemma_pow10_pos((k - t) as nat);
                lemma_mul_inequality(1, pow10((k - t) as nat), acc as int);
                lemma_mul_is_commutative(acc as int, pow10((k - t) as nat));
            }
            return None;
        }
        proof {
            lemma_pow10_step((k - t - 1) as nat);
            lemma_mul_is_associative(acc as int * 10, 1, pow10((k - t - 1) as nat));
            assert((acc * 10) as int * pow10((k - t - 1) as nat) == acc as int * (10 * pow10(
                (k - t - 1) as nat,
            ))) by {
                lemma_mul_is_associative(acc as int, 10, pow10((k - t - 1) as nat));
            }
            lemma_mul_is_commutative(10, pow10((k - t - 1) as nat));
        }
        acc = acc * 10;
        t = t + 1;
    }
    proof {
        assert(pow10(0) == 1) by {
            reveal_with_fuel(pow, 1);
        }
        assert(t == k);
        assert(acc * pow10(0) == d * pow10(k as nat));
        assert(acc as int * 1 == d * pow10(k as nat));
    }
    if acc > MAX_MILLI as u128 {
        proof {
            lemma_pow10_pos(k as nat);
        }
        None
    } else {
        Some(acc as i64)
    }
}

/// Parse a decimal literal (optional minus sign, digits, optional
/// fraction, optional exponent) into milli-units, truncating toward zero.
/// Returns `None` exactly when the text is not such a literal or its
/// value falls outside the fixed-point range.
/// Parse a decimal literal (optional minus sign, digits, optional
/// fraction, optional exponent) into milli-units, truncating toward zero.
/// Returns `None` exactly when the text is not such a literal or its
/// value falls outside the fixed-point range.
pub fn parse_decimal_milli(s: &str) -> (r: Option<i64>)
    ensures
        match r {
            Some(v) => parse_milli(s@) == Some(v as int) && -MAX_MILLI <= v <= MAX_MILLI,
            None => parse_milli(s@) is None,
        },
{
    let n = s.unicode_len();
    let mut neg = false;
    let mut start: usize = 0;
    if n > 0 {
        let c0 = s.get_char(0);
        if c0 == '-' {
            neg = true;
            start = 1;
        }
    }
    proof {
        if !neg {
            assert(s@.skip(0) =~= s@);
        }
    }
    match parse_abs_from(s, n, start) {
        Some(m) => {
            if neg {
                Some(-m)
            } else {
                Some(m)
            }
        },
        None => None,
    }
}

/// Fraction part starting at `i`: start and end of the fraction digits,
/// and the position of what follows.
fn parse_frac_part(s: &str, n: usize, i: usize) -> (r: Option<(usize, usize, usize)>)
    requires
        s@.len() == n,
        i <= n,
    ensures
        match r {
            Some(x) => {
                let (a, b, j) = x;
                &&& i <= a <= b <= j <= n
                &&& split_frac(s@.skip(i as int)) == Some::<(Seq<char>, Seq<char>)>(
                    (s@.subrange(a as int, b as int), s@.skip(j as int)),
                )
                &&& forall|t: int| a <= t < b ==> is_digit(#[trigger] s@[t])
            },
            None => split_frac(s@.skip(i as int)) is None,
        },
{
    if i < n && s.get_char(i) == '.' {
        proof {
            assert(s@.skip(i as int)[0] == s@[i as int]);
            assert(s@.skip(i as int).skip(1) =~= s@.skip(i + 1));
        }
        let j2 = digit_run_end(s, n, i + 1);
        if j2 == i + 1 {
            return None;
        }
        proof {
            assert(s@.skip(i + 1).take(j2 - (i + 1)) =~= s@.subrange(i + 1, j2 as int));
            assert(s@.skip(i + 1).skip(j2 - (i + 1)) =~= s@.skip(j2 as int));
        }
        Some((i + 1, j2, j2))
    } else {
        proof {
            if i < n {
                assert(s@.skip(i as int)[0] == s@[i as int]);
            }
            assert(s@.subrange(i as int, i as int) =~= Seq::<char>::empty());
        }
        Some((i, i, i))
    }
}

/// Exponent part starting at `i`: its sign, its digits' value clamped at
/// 41, and the position of what follows.
fn parse_exp_part(s: &str, n: usize, i: usize) -> (r: Option<(bool, u64, usize)>)
    requires
        s@.len() == n,
        i <= n,
    ensures
        match r {
            Some(x) => {
                let (eneg, ev, j) = x;
                &&& i <= j <= n
                &&& ev <= 41
                &&& split_exp(s@.skip(i as int)) matches Some(y) && y.1 == s@.skip(j as int) && (
                ev <= 40 ==> y.0 == if eneg {
                    -(ev as int)
                } else {
                    ev as int
                }) && (ev == 41 ==> (y.0 > 40 || y.0 < -40))
            },
            None => split_exp(s@.skip(i as int)) is None,
        },
{
    if !(i < n && { let c = s.get_char(i); c == 'e' || c == 'E' }) {
        proof {
            if i < n {
                assert(s@.skip(i as int)[0] == s@[i as int]);
            }
        }
        return Some((false, 0, i));
    }
    proof {
        assert(s@.skip(i as int)[0] == s@[i as int]);
        assert(s@.skip(i as int).skip(1) =~= s@.skip(i + 1));
    }
    let mut e_neg = false;
    let mut p = i + 1;
    if p < n {
        let cs = s.get_char(p);
        proof {
            assert(s@.skip(i + 1)[0] == s@[i + 1]);
            assert(s@.skip(i + 1).skip(1) =~= s@.skip(i + 2));
        }
        if cs == '-' {
            e_neg = true;
            p = p + 1;
        } else if cs == '+' {
            p = p + 1;
        }
    }
    let j3 = digit_run_end(s, n, p);
    if j3 == p {
        return None;
    }
    let mut e_val: u64 = 0;
    let mut t = p;
    while t < j3
        invariant
            p <= t <= j3 <= n,
            n == s@.len(),
            forall|q: int| p <= q < j3 ==> is_digit(#[trigger] s@[q]),
            e_val <= 41,
            e_val <= 40 ==> e_val == digits_val(s@.subrange(p as int, t as int)),
            e_val == 41 ==> digits_val(s@.subrange(p as int, t as int)) > 40,
        decreases j3 - t,
    {
        let ghost seen = s@.subrange(p as int, t as int);
        proof {
            assert(all_digits(seen));
            lemma_digits_val_bound(seen);
            let next = s@.subrange(p as int, t + 1 as int);
            assert(next.drop_last() =~= seen);
            assert(next.last() == s@[t as int]);
        }
        let c = s.get_char(t);
        let d = (c as u32 - 48) as u64;
        let grown = e_val * 10 + d;
        e_val = if grown > 40 {
            41
        } else {
            grown
        };
        t = t + 1;
    }
    proof {
        assert(s@.skip(p as int).take(j3 - p) =~= s@.subrange(p as int, j3 as int));
        assert(s@.skip(p as int).skip(j3 - p) =~= s@.skip(j3 as int));
        lemma_digits_val_bound(s@.subrange(p as int, j3 as int));
    }
    Some((e_neg, e_val, j3))
}

/// Parse the unsigned decimal literal that starts at `start`.
#[verifier::rlimit(60)]
#[verifier::spinoff_prover]
fn parse_abs_from(s: &str, n: usize, start: usize) -> (r: Option<i64>)
    requires
        s@.len() == n,
        start <= n,
    ensures
        match r {
            Some(v) => parse_abs_milli(s@.skip(start as int)) == Some(v as int) && 0 <= v
                <= MAX_MILLI,
            None => parse_abs_milli(s@.skip(start as int)) is None,
        },
{
    let ghost body = s@.skip(start as int);
    // integer digits
    let j1 = digit_run_end(s, n, start);
    if j1 == start {
        return None;
    }
    let ni = j1 - start;
    proof {
        assert(body.skip(ni as int) =~= s@.skip(j1 as int));
        assert(body.take(ni as int) =~= s@.subrange(start as int, j1 as int));
    }
    // fraction
    let fr = parse_frac_part(s, n, j1);
    let (fr_start, fr_end, i2) = match fr {
        Some(x) => x,
        None => {
            return None;
        },
    };
    let ghost fd = s@.subrange(fr_start as int, fr_end as int);
    // exponent
    let ex = parse_exp_part(s, n, i2);
    let (e_neg, e_val, i3) = match ex {
        Some(x) => x,
        None => {
            return None;
        },
    };
    let ghost e_spec = split_exp(s@.skip(i2 as int))->Some_0.0;
    // nothing may follow
    if i3 != n {
        proof {
            assert(s@.skip(i3 as int).len() != 0);
        }
        return None;
    }
    proof {
        assert(s@.skip(i3 as int).len() == 0);
    }
    // range limits of the fixed-point model
    let nf = fr_end - fr_start;
    if ni + nf > 30 {
        return None;
    }
    if e_val > 40 {
        return None;
    }
    // digit value
    let d_int = accum_digits(s, start, j1, 0, Ghost(Seq::<char>::empty()));
    proof {
        assert(Seq::<char>::empty() + s@.subrange(start as int, j1 as int) =~= s@.subrange(
            start as int,
            j1 as int,
        ));
    }
    let d_all = accum_digits(
        s,
        fr_start,
        fr_end,
        d_int,
        Ghost(s@.subrange(start as int, j1 as int)),
    );
    proof {
        assert(body.take(ni as int) + fd =~= s@.subrange(start as int, j1 as int) + fd);
    }
    // scale by 10^(3 + e - nf)
    let e_signed: i64 = if e_neg {
        -(e_val as i64)
    } else {
        e_val as i64
    };
    let k: i64 = 3 + e_signed - (nf as i64);
    proof {
        assert(e_spec == e_signed as int);
        assert(k as int == 3 + e_spec - fd.len());
    }
    let m: i64;
    if k >= 0 {
        match scale_up(d_all, k as u64) {
            Some(v) => {
                m = v;
            },
            None => {
                return None;
            },
        }
    } else {
        let q = scale_down(d_all, (-k) as u64);
        if q > MAX_MILLI as u128 {
            return None;
        }
        m = q as i64;
    }
    Some(m)
}

/// `d / 10^k`, by repeated division.
fn scale_down(d: u128, k: u64) -> (r: u128)
    ensures
        r == d as int / pow10(k as nat),
        r <= d,
{
    let mut acc: u128 = d;
    let mut t: u64 = 0;
    proof {
        assert(pow10(0) == 1) by {
            reveal_with_fuel(pow, 1);
        }
    }
    while t < k
        invariant
            t <= k,
            acc == d as int / pow10(t as nat),
            acc <= d,
        decreases k - t,
    {
        proof {
            lemma_pow10_pos(t as nat);
            lemma_div_denominator(d as int, pow10(t as nat), 10);
            lemma_pow10_step(t as nat);
        }
        acc = acc / 10;
        t = t + 1;
    }
    acc
}

pub open spec fn digit_char(d: int) -> char {
    if d == 0 {
        '0'
    } else if d == 1 {
        '1'
    } else if d == 2 {
        '2'
    } else if d == 3 {
        '3'
    } else if d == 4 {
        '4'
    } else if d == 5 {
        '5'
    } else if d == 6 {
        '6'
    } else if d == 7 {
        '7'
    } else if d == 8 {
        '8'
    } else {
        '9'
    }
}

/// Decimal digits of `n`, most significant first.
pub open spec fn dec_str(n: nat) -> Seq<char>
    decreases n,
{
    if n < 10 {
        seq![digit_char(n as int)]
    } else {
        dec_str(n / 10) + seq![digit_char((n % 10) as int)]
    }
}

/// The last `w` decimal digits of `n`, zero-padded to exactly `w` digits.
pub open spec fn dec_str_pad(n: nat, w: nat) -> Seq<char>
    decreases w,
{
    if w == 0 {
        Seq::<char>::empty()
    } else {
        dec_str_pad(n / 10, (w - 1) as nat) + seq![digit_char((n % 10) as int)]
    }
}

/// Text of a micro-unit value as a plain decimal with six fraction
/// digits, the way the elevation queries and exports write coordinates.
pub open spec fn micro_str(v: int) -> Seq<char> {
    let sign = if v < 0 {
        seq!['-']
    } else {
        Seq::<char>::empty()
    };
    let a = if v < 0 {
        -v
    } else {
        v
    };
    sign + dec_str((a / 1000000) as nat) + seq!['.'] + dec_str_pad((a % 1000000) as nat, 6)
}

/// Text of a milli-unit value as a plain decimal with one fraction digit,
/// truncated toward zero.
pub open spec fn milli_str_1(v: int) -> Seq<char> {
    let sign = if v < 0 {
        seq!['-']
    } else {
        Seq::<char>::empty()
    };
    let a = if v < 0 {
        -v
    } else {
        v
    };
    sign + dec_str((a / 1000) as nat) + seq!['.'] + dec_str_pad(((a / 100) % 10) as nat, 1)
}

fn digit_str(d: u64) -> (r: &'static str)
    requires
        d < 10,
    ensures
        r@ == seq![digit_char(d as int)],
{
    let r = match d {
        0 => "0",
        1 => "1",
        2 => "2",
        3 => "3",
        4 => "4",
        5 => "5",
        6 => "6",
        7 => "7",
        8 => "8",
        _ => "9",
    };
    proof {
        reveal_strlit("0");
        reveal_strlit("1");
        reveal_strlit("2");
        reveal_strlit("3");
        reveal_strlit("4");
        reveal_strlit("5");
        reveal_strlit("6");
        reveal_strlit("7");
        reveal_strlit("8");
        reveal_strlit("9");
        assert(r@ =~= seq![digit_char(d as int)]);
    }
    r
}

/// Decimal text of `v`.
pub fn u64_dec(v: u64) -> (r: String)
    ensures
        r@ == dec_str(v as nat),
    decreases v,
{
    if v < 10 {
        String::from_str(digit_str(v))
    } else {
        let mut s = u64_dec(v / 10);
        s.append(digit_str(v % 10));
        s
    }
}

/// The last `w` decimal digits of `v`, zero-padded to exactly `w` digits.
pub fn u64_dec_pad(v: u64, w: u64) -> (r: String)
    ensures
        r@ == dec_str_pad(v as nat, w as nat),
    decreases w,
{
    if w == 0 {
        let r = String::new();
        proof {
            assert(r@ =~= dec_str_pad(v as nat, 0));
        }
        r
    } else {
        let mut s = u64_dec_pad(v / 10, w - 1);
        s.append(digit_str(v % 10));
        s
    }
}

/// Render a micro-unit value with six fraction digits.
pub fn micro_text(v: i64) -> (r: String)
    ensures
        r@ == micro_str(v as int),
{
    let neg = v < 0;
    let a: u64 = if v < 0 {
        if v == i64::MIN {
            9223372036854775808u64
        } else {
            (-v) as u64
        }
    } else {
        v as u64
    };
    let mut s = if neg {
        String::from_str("-")
    } else {
        String::new()
    };
    proof {
        reveal_strlit("-");
        if neg {
            assert(s@ =~= seq!['-']);
        } else {
            assert(s@ =~= Seq::<char>::empty());
        }
    }
    let whole = u64_dec(a / 1000000);
    s.append(whole.as_str());
    s.append(".");
    proof {
        reveal_strlit(".");
        assert("."@ =~= seq!['.']);
    }
    let frac = u64_dec_pad(a % 1000000, 6);
    s.append(frac.as_str());
    proof {
        assert(s@ =~= micro_str(v as int));
    }
    s
}

/// Render a milli-unit value with one fraction digit, truncated toward
/// zero.
pub fn milli_text_1(v: i64) -> (r: String)
    ensures
        r@ == milli_str_1(v as int),
{
    let neg = v < 0;
    let a: u64 = if v < 0 {
        if v == i64::MIN {
            9223372036854775808u64
        } else {
            (-v) as u64
        }
    } else {
        v as u64
    };
    let mut s = if neg {
        String::from_str("-")
    } else {
        String::new()
    };
    proof {
        reveal_strlit("-");
        if neg {
            assert(s@ =~= seq!['-']);
        } else {
            assert(s@ =~= Seq::<char>::empty());
        }
    }
    let whole = u64_dec(a / 1000);
    s.append(whole.as_str());
    s.append(".");
    proof {
        reveal_strlit(".");
        assert("."@ =~= seq!['.']);
    }
    let frac = u64_dec_pad((a / 100) % 10, 1);
    s.append(frac.as_str());
    proof {
        assert(s@ =~= milli_str_1(v as int));
    }
    s
}

} // verus!
