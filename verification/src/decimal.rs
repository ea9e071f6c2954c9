//! Decimal numbers of seconds, in the syntax of `f64::from_str`, turned into
//! whole milliseconds.
//!
//! The value is taken exactly, from its decimal digits. Magnitudes from
//! 2^1024 - 2^970 up, which `f64::from_str` reads as infinities, are
//! refused, and so are negative numbers above 2^-1075 in magnitude, which it
//! reads as negative; smaller ones it reads as zero, and so they count here.
//! The milliseconds are the exact value times 1000, rounded half up. Where
//! the text lies within `f64`'s rounding error of a half millisecond, this
//! can differ by one from parsing into an `f64`, multiplying by 1000 and
//! rounding (`"0.0004999999999999999999"` is 0 here, 1 there).
use vstd::prelude::*;

use crate::text::{
    all_digits, str_chars, char_digit_value, digit_value, digits_value, find_char, find_char_range,
    is_digit, is_digit_char, lemma_digits_value_step, pow10,
};

verus! {

pub open spec fn is_sign(c: char) -> bool {
    c == '+' || c == '-'
}

pub open spec fn is_exp_marker(c: char) -> bool {
    c == 'e' || c == 'E'
}

/// The index of the first `e` or `E` in `s`.
pub open spec fn find_exp_marker(s: Seq<char>) -> Option<int>
    decreases s.len(),
{
    if s.len() == 0 {
        None
    } else if is_exp_marker(s[0]) {
        Some(0)
    } else {
        match find_exp_marker(s.drop_first()) {
            Some(i) => Some(i + 1),
            None => None,
        }
    }
}

/// A decimal number: its sign, all its mantissa digits (integer digits
/// then fraction digits), how many of them are integer digits, and the
/// power of ten it is scaled by.
pub struct DecimalParts {
    pub negative: bool,
    pub digits: Seq<char>,
    pub int_len: int,
    pub exp: int,
}

pub open spec fn sign_len(s: Seq<char>) -> int {
    if s.len() > 0 && is_sign(s[0]) {
        1
    } else {
        0
    }
}

/// The value of an exponent: an optional sign and one or more digits.
pub open spec fn parse_exponent(e: Seq<char>) -> Option<int> {
    let d = e.skip(sign_len(e));
    if d.len() >= 1 && all_digits(d) {
        if sign_len(e) == 1 && e[0] == '-' {
            Some(-(digits_value(d) as int))
        } else {
            Some(digits_value(d) as int)
        }
    } else {
        None
    }
}

/// `s` split into sign, mantissa and exponent, where `s` is a finite number
/// as `f64::from_str` reads it: `[+-]? (D+ | D+ '.' D* | D* '.' D+) ([eE] [+-]? D+)?`.
pub open spec fn parse_decimal(s: Seq<char>) -> Option<DecimalParts> {
    let body = s.skip(sign_len(s));
    let m_end = match find_exp_marker(body) {
        Some(i) => i,
        None => body.len() as int,
    };
    let mant = body.take(m_end);
    let int_end = match find_char(mant, '.') {
        Some(i) => i,
        None => mant.len() as int,
    };
    let int_part = mant.take(int_end);
    let frac = if int_end < mant.len() {
        mant.skip(int_end + 1)
    } else {
        Seq::<char>::empty()
    };
    let exp = if m_end < body.len() {
        parse_exponent(body.skip(m_end + 1))
    } else {
        Some(0)
    };
    if all_digits(int_part) && all_digits(frac) && int_part.len() + frac.len() >= 1 && exp is Some {
        Some(
            DecimalParts {
                negative: sign_len(s) == 1 && s[0] == '-',
                digits: int_part + frac,
                int_len: int_part.len() as int,
                exp: exp->0,
            },
        )
    } else {
        None
    }
}

pub open spec fn all_zero_digits(d: Seq<char>) -> bool {
    forall|i: int| 0 <= i < d.len() ==> #[trigger] d[i] == '0'
}

/// `floor(0.d × 10^q)`: the digits of `d` before position `q`.
pub open spec fn scaled_floor(d: Seq<char>, q: int) -> nat {
    if q <= 0 {
        0
    } else if q <= d.len() {
        digits_value(d.take(q))
    } else {
        digits_value(d) * pow10((q - d.len()) as nat)
    }
}

/// The first digit after position `q`, which decides half-up rounding.
pub open spec fn rounding_digit(d: Seq<char>, q: int) -> nat {
    if 0 <= q < d.len() {
        digit_value(d[q])
    } else {
        0
    }
}

/// `0.d × 10^q` rounded half up to a whole number.
pub open spec fn scaled_rounded(d: Seq<char>, q: int) -> nat {
    scaled_floor(d, q) + if rounding_digit(d, q) >= 5 {
        1nat
    } else {
        0nat
    }
}

/// The digits of 2^1024 - 2^970, the least value that `f64::from_str`
/// reads as infinity: halfway between `f64::MAX` and 2^1024, where rounding
/// to nearest, ties to even, goes up.
pub open spec fn f64_overflow_digits() -> Seq<char> {
    "179769313486231580793728971405303415079934132710037826936173778980444968292764750946649017977587207096330286416692887910946555547851940402630657488671505820681908902000708383676273854845817711531764475730270069855571366959622842914819860834936475292719074168444365510704342711559699508093042880177904174497792"@
}

/// How many `'0'` characters `d` starts with.
pub open spec fn leading_zeros(d: Seq<char>) -> nat
    decreases d.len(),
{
    if d.len() > 0 && d[0] == '0' {
        1 + leading_zeros(d.drop_first())
    } else {
        0
    }
}

/// `0.a >= 0.b`, for digit strings: compared digit by digit, the shorter
/// one padded with zeros.
pub open spec fn digits_at_least(a: Seq<char>, b: Seq<char>) -> bool
    decreases a.len(),
{
    if b.len() == 0 {
        true
    } else if a.len() == 0 {
        all_zero_digits(b)
    } else if a[0] != b[0] {
        (a[0] as u32) > (b[0] as u32)
    } else {
        digits_at_least(a.drop_first(), b.drop_first())
    }
}

/// The digits of 2^-1075 = 5^1075 / 10^1075, half the least positive
/// `f64`: `f64::from_str` reads a magnitude up to this as zero (a tie goes to
/// the even zero).
pub open spec fn f64_underflow_digits() -> Seq<char> {
    "24703282292062327208828439643411068618252990130716238221279284125033775363510437593264991818081799618989828234772285886546332835517796989819938739800539093906315035659515570226392290858392449105184435931802849936536152500319370457678249219365623669863658480757001585769269903706311928279558551332927834338409351978015531246597263579574622766465272827220056374006485499977096599470454020828166226237857393450736339007967761930577506740176324673600968951340535537458516661134223766678604162159680461914467291840300530057530849048765391711386591646239524912623653881879636239373280423891018672348497668235089863388587925628302755995657524455507255189313690836254779186948667994968324049705821028513185451396213837722826145437693412532098591327667236328125"@
}

/// The number's magnitude is above 2^-1075, so that `f64::from_str` reads
/// it as a nonzero value. With its leading zeros taken off, the digits are
/// `0.r × 10^e`; 2^-1075 is `0.u × 10^-323` with `u` as above.
pub open spec fn nonzero_in_f64(p: DecimalParts) -> bool {
    let z = leading_zeros(p.digits);
    let r = p.digits.skip(z as int);
    let e = p.int_len + p.exp - z;
    r.len() > 0 && (e > -323 || (e == -323 && !digits_at_least(f64_underflow_digits(), r)))
}

/// The number's magnitude is at least 2^1024 - 2^970, so that `f64::from_str`
/// reads it as an infinity. With its leading zeros taken off, the digits are
/// `0.r × 10^e`; 2^1024 - 2^970 is `0.t × 10^309` with `t` as above.
pub open spec fn beyond_f64(p: DecimalParts) -> bool {
    let z = leading_zeros(p.digits);
    let r = p.digits.skip(z as int);
    let e = p.int_len + p.exp - z;
    r.len() > 0 && (e > 309 || (e == 309 && digits_at_least(r, f64_overflow_digits())))
}

/// The whole milliseconds of a text of seconds, or `None` where the text is
/// no number, a negative one that an `f64` does not read as zero, or one too
/// large for an `f64`.
pub open spec fn seconds_text_millis(s: Seq<char>) -> Option<nat> {
    match parse_decimal(s) {
        None => None,
        Some(p) => if p.negative && nonzero_in_f64(p) {
            None
        } else if beyond_f64(p) {
            None
        } else {
            Some(scaled_rounded(p.digits, p.int_len + p.exp + 3))
        },
    }
}

pub open spec fn capped(n: nat, cap: nat) -> nat {
    if n <= cap {
        n
    } else {
        cap
    }
}

// ---------------------------------------------------------------- lemmas

pub proof fn lemma_pow10_positive(n: nat)
    ensures
        pow10(n) >= 1,
    decreases n,
{
    if n > 0 {
        lemma_pow10_positive((n - 1) as nat);
    }
}

pub proof fn lemma_pow10_large(n: nat)
    ensures
        pow10(n) >= 1,
        n >= 20 ==> pow10(n) > u64::MAX,
{
    lemma_pow10_positive(n);
    if n >= 20 {
        lemma_pow10_ge(n, 20);
        reveal_with_fuel(pow10, 21);
        assert(pow10(20) == 100000000000000000000);
    }
}

pub proof fn lemma_pow10_ge(n: nat, m: nat)
    requires
        m <= n,
    ensures
        pow10(n) >= pow10(m),
    decreases n,
{
    if n > m {
        lemma_pow10_ge((n - 1) as nat, m);
        lemma_pow10_positive((n - 1) as nat);
    }
}

/// A number below `10^k` has at most `k` decimal digits.
pub proof fn lemma_decimal_len(n: nat, k: nat)
    requires
        k >= 1,
        n < pow10(k),
    ensures
        crate::text::decimal(n).len() <= k,
    decreases n,
{
    if n >= 10 {
        if k == 1 {
            assert(pow10(1) == 10) by {
                reveal_with_fuel(pow10, 2);
            }
        }
        assert(n / 10 < pow10((k - 1) as nat));
        lemma_decimal_len(n / 10, (k - 1) as nat);
    }
}

pub proof fn lemma_digits_value_zero(d: Seq<char>)
    requires
        all_digits(d),
    ensures
        all_zero_digits(d) <==> digits_value(d) == 0,
    decreases d.len(),
{
    if d.len() > 0 {
        lemma_digits_value_zero(d.drop_last());
        if all_zero_digits(d) {
            assert(all_zero_digits(d.drop_last()));
        }
        if digits_value(d) == 0 {
            assert(all_zero_digits(d.drop_last()));
            assert(is_digit(d[d.len() - 1]));
            assert forall|i: int| 0 <= i < d.len() implies #[trigger] d[i] == '0' by {
                if i < d.len() - 1 {
                    assert(d.drop_last()[i] == d[i]);
                } else {
                    assert(digit_value(d.last()) == 0);
                }
            }
        }
    }
}

/// Far enough right of the digits, every position gives the same capped value.
pub proof fn lemma_scaled_far_right(d: Seq<char>, q1: int, q2: int, cap: nat)
    requires
        all_digits(d),
        q1 >= d.len() + 20,
        q2 >= d.len() + 20,
        cap <= u64::MAX,
    ensures
        capped(scaled_rounded(d, q1), cap) == capped(scaled_rounded(d, q2), cap),
{
    lemma_pow10_large((q1 - d.len()) as nat);
    lemma_pow10_large((q2 - d.len()) as nat);
    assert(rounding_digit(d, q1) == 0 && rounding_digit(d, q2) == 0);
    assert(scaled_floor(d, q1) == digits_value(d) * pow10((q1 - d.len()) as nat));
    assert(scaled_floor(d, q2) == digits_value(d) * pow10((q2 - d.len()) as nat));
    if digits_value(d) == 0 {
        assert(scaled_floor(d, q1) == 0 && scaled_floor(d, q2) == 0);
    } else {
        assert(digits_value(d) * pow10((q1 - d.len()) as nat) >= pow10((q1 - d.len()) as nat))
            by (nonlinear_arith)
            requires
                digits_value(d) >= 1,
        ;
        assert(digits_value(d) * pow10((q2 - d.len()) as nat) >= pow10((q2 - d.len()) as nat))
            by (nonlinear_arith)
            requires
                digits_value(d) >= 1,
        ;
    }
}

// ---------------------------------------------------------------- exec

pub fn is_exp_marker_char(c: char) -> (b: bool)
    ensures
        b == is_exp_marker(c),
{
    c == 'e' || c == 'E'
}

pub proof fn lemma_find_exp_at(s: Seq<char>, lo: int, hi: int, i: int)
    requires
        0 <= lo <= i < hi <= s.len(),
        is_exp_marker(s[i]),
        forall|k: int| lo <= k < i ==> !is_exp_marker(s[k]),
    ensures
        find_exp_marker(s.subrange(lo, hi)) == Some(i - lo),
    decreases i - lo,
{
    if lo < i {
        lemma_find_exp_at(s, lo + 1, hi, i);
        assert(s.subrange(lo, hi).drop_first() =~= s.subrange(lo + 1, hi));
    }
}

pub proof fn lemma_find_exp_none(s: Seq<char>, lo: int, hi: int)
    requires
        0 <= lo <= hi <= s.len(),
        forall|k: int| lo <= k < hi ==> !is_exp_marker(s[k]),
    ensures
        find_exp_marker(s.subrange(lo, hi)) is None,
    decreases hi - lo,
{
    if lo < hi {
        lemma_find_exp_none(s, lo + 1, hi);
        assert(s.subrange(lo, hi).drop_first() =~= s.subrange(lo + 1, hi));
    }
}

/// The index of the first exponent marker in `v[lo..hi]`, or `hi`.
fn find_exp_marker_range(v: &Vec<char>, lo: usize, hi: usize) -> (r: usize)
    requires
        lo <= hi <= v@.len(),
    ensures
        lo <= r <= hi,
        r < hi ==> find_exp_marker(v@.subrange(lo as int, hi as int)) == Some(r - lo),
        r == hi ==> find_exp_marker(v@.subrange(lo as int, hi as int)) is None,
{
    let mut i = lo;
    while i < hi
        invariant
            lo <= i <= hi <= v@.len(),
            forall|k: int| lo <= k < i ==> !is_exp_marker(v@[k]),
        decreases hi - i,
    {
        if is_exp_marker_char(v[i]) {
            proof {
                lemma_find_exp_at(v@, lo as int, hi as int, i as int);
            }
            return i;
        }
        i += 1;
    }
    proof {
        lemma_find_exp_none(v@, lo as int, hi as int);
    }
    hi
}

/// Whether every character of `v[lo..hi]` is a digit.
fn all_digits_range(v: &Vec<char>, lo: usize, hi: usize) -> (b: bool)
    requires
        lo <= hi <= v@.len(),
    ensures
        b == all_digits(v@.subrange(lo as int, hi as int)),
{
    let mut i = lo;
    while i < hi
        invariant
            lo <= i <= hi <= v@.len(),
            forall|k: int| lo <= k < i ==> is_digit(v@[k]),
        decreases hi - i,
    {
        if !is_digit_char(v[i]) {
            assert(v@.subrange(lo as int, hi as int)[i - lo] == v@[i as int]);
            return false;
        }
        i += 1;
    }
    assert forall|k: int| 0 <= k < hi - lo implies is_digit(
        #[trigger] v@.subrange(lo as int, hi as int)[k],
    ) by {
        assert(v@.subrange(lo as int, hi as int)[k] == v@[lo + k]);
    }
    true
}

/// `min(digits_value(v[lo..hi]), bound)`, for a digit string.
fn bounded_digits_value(v: &Vec<char>, lo: usize, hi: usize, bound: u128) -> (r: u128)
    requires
        lo <= hi <= v@.len(),
        all_digits(v@.subrange(lo as int, hi as int)),
        10 <= bound <= u64::MAX as u128 + 1000,
    ensures
        r == capped(digits_value(v@.subrange(lo as int, hi as int)), bound as nat),
{
    let ghost s = v@.subrange(lo as int, hi as int);
    let mut acc: u128 = 0;
    let mut i = lo;
    while i < hi
        invariant
            lo <= i <= hi <= v@.len(),
            s == v@.subrange(lo as int, hi as int),
            all_digits(s),
            10 <= bound <= u64::MAX as u128 + 1000,
            acc <= bound,
            acc == capped(digits_value(s.take(i - lo)), bound as nat),
        decreases hi - i,
    {
        assert(s[i - lo] == v@[i as int]);
        let d = char_digit_value(v[i]) as u128;
        proof {
            lemma_digits_value_step(s, i - lo);
            let p = digits_value(s.take(i - lo));
            if p > bound {
                assert(p * 10 + d > bound) by (nonlinear_arith)
                    requires
                        p > bound,
                ;
            }
        }
        let next = acc * 10 + d;
        acc = if next > bound {
            bound
        } else {
            next
        };
        i += 1;
    }
    assert(s.take(i - lo) =~= s);
    acc
}

/// Saturating `acc * 10 + d` at `cap`, where `acc` is already capped.
fn capped_step(acc: u64, d: u64, cap: u64) -> (r: u64)
    requires
        d < 10,
        acc <= cap,
        cap >= 10,
    ensures
        forall|p: nat| acc == #[trigger] capped(p, cap as nat) ==> r == capped((p * 10 + d) as nat, cap as nat),
{
    if acc > (cap - d) / 10 {
        assert(acc * 10 + d > cap) by (nonlinear_arith)
            requires
                acc > (cap - d) / 10,
                d < 10,
                cap >= 10,
        ;
        assert forall|p: nat| acc == #[trigger] capped(p, cap as nat) implies cap == capped(
            (p * 10 + d) as nat,
            cap as nat,
        ) by {
            if p > cap {
                assert(p * 10 + d > cap) by (nonlinear_arith)
                    requires
                        p > cap,
                ;
            }
        }
        cap
    } else {
        assert(acc * 10 + d <= cap) by (nonlinear_arith)
            requires
                acc <= (cap - d) / 10,
                d < 10,
                cap >= 10,
        ;
        assert forall|p: nat| acc == #[trigger] capped(p, cap as nat) implies acc * 10 + d == capped(
            (p * 10 + d) as nat,
            cap as nat,
        ) by {
            if p > cap {
                assert(false) by (nonlinear_arith)
                    requires
                        p > cap,
                        acc == cap,
                        acc * 10 + d <= cap,
                        cap >= 10,
                ;
            }
        }
        acc * 10 + d
    }
}

/// `min(scaled_rounded(d, q), cap)` where `d` is the digit string `digits`.
fn capped_scaled_rounded(digits: &Vec<char>, q: i128, cap: u64) -> (r: u64)
    requires
        all_digits(digits@),
        cap >= 10,
        q <= digits@.len() + 64,
    ensures
        r == capped(scaled_rounded(digits@, q as int), cap as nat),
{
    let ghost d = digits@;
    let n = digits.len();
    if q <= 0 {
        let rd: u64 = if q == 0 && n > 0 {
            char_digit_value(digits[0])
        } else {
            0
        };
        return if rd >= 5 {
            1
        } else {
            0
        };
    }
    let qn: usize = if q <= n as i128 {
        q as usize
    } else {
        n
    };
    let mut acc: u64 = 0;
    let mut i: usize = 0;
    while i < qn
        invariant
            0 <= i <= qn <= n == d.len(),
            d == digits@,
            all_digits(d),
            cap >= 10,
            acc <= cap,
            acc == capped(digits_value(d.take(i as int)), cap as nat),
        decreases qn - i,
    {
        let dv = char_digit_value(digits[i]);
        proof {
            lemma_digits_value_step(d, i as int);
        }
        acc = capped_step(acc, dv, cap);
        i += 1;
    }
    let ghost base = digits_value(d.take(qn as int));
    let extra: i128 = q - (qn as i128);
    let mut k: i128 = 0;
    assert(pow10(0) == 1);
    assert(base * pow10(0) == base);
    while k < extra
        invariant
            0 <= k <= extra,
            cap >= 10,
            acc <= cap,
            acc == capped(base * pow10(k as nat), cap as nat),
        decreases extra - k,
    {
        let ghost before = base * pow10(k as nat);
        acc = capped_step(acc, 0, cap);
        k += 1;
        assert(base * pow10(k as nat) == before * 10) by (nonlinear_arith)
            requires
                before == base * pow10((k - 1) as nat),
                pow10(k as nat) == 10 * pow10((k - 1) as nat),
        ;
    }
    proof {
        if extra > 0 {
            assert(qn == n);
            assert(d.take(n as int) =~= d);
        }
        assert(scaled_floor(d, q as int) == base * pow10(extra as nat));
    }
    let rd: u64 = if q < n as i128 {
        let qi = q as usize;
        char_digit_value(digits[qi])
    } else {
        0
    };
    assert(rd == rounding_digit(d, q as int));
    if rd >= 5 && acc < cap {
        acc + 1
    } else {
        acc
    }
}

/// Where the parts of the number `v[lo..hi]` lie: the integer digits are
/// `v[b0..dot]`, the fraction digits `v[frac_lo..m_end]`; the exponent's sign
/// and its magnitude capped at `bound`.
pub struct DecimalLayout {
    pub b0: usize,
    pub dot: usize,
    pub frac_lo: usize,
    pub m_end: usize,
    pub exp_negative: bool,
    pub exp_mag: u128,
    pub bound: u128,
}

#[verifier::rlimit(100)]
#[verifier::spinoff_prover]
fn decimal_layout(v: &Vec<char>, lo: usize, hi: usize) -> (r: Option<DecimalLayout>)
    requires
        lo <= hi <= v@.len(),
    ensures
        r is None <==> parse_decimal(v@.subrange(lo as int, hi as int)) is None,
        r matches Some(l) ==> {
            let p = parse_decimal(v@.subrange(lo as int, hi as int))->0;
            &&& lo <= l.b0 <= l.dot <= l.m_end <= hi
            &&& l.dot <= l.frac_lo <= l.m_end
            &&& p.digits == v@.subrange(l.b0 as int, l.dot as int) + v@.subrange(
                l.frac_lo as int,
                l.m_end as int,
            )
            &&& p.int_len == l.dot - l.b0
            &&& all_digits(v@.subrange(l.b0 as int, l.dot as int))
            &&& all_digits(v@.subrange(l.frac_lo as int, l.m_end as int))
            &&& p.negative == (lo < hi && v@[lo as int] == '-')
            &&& l.bound == (l.m_end - l.b0) + 400
            &&& l.exp_mag <= l.bound
            &&& l.exp_mag < l.bound ==> p.exp == if l.exp_negative {
                -(l.exp_mag as int)
            } else {
                l.exp_mag as int
            }
            &&& l.exp_mag == l.bound ==> (l.exp_negative ==> p.exp <= -(l.bound as int)) && (
            !l.exp_negative ==> p.exp >= l.bound)
        },
{
    let ghost s = v@.subrange(lo as int, hi as int);
    let b0: usize = if lo < hi && (v[lo] == '+' || v[lo] == '-') {
        lo + 1
    } else {
        lo
    };
    let ghost body = s.skip(sign_len(s));
    assert(body =~= v@.subrange(b0 as int, hi as int));
    let m_end = find_exp_marker_range(v, b0, hi);
    let ghost mant = body.take(m_end - b0);
    assert(mant =~= v@.subrange(b0 as int, m_end as int));
    let dot = match find_char_range(v, b0, m_end, '.') {
        Some(i) => i,
        None => m_end,
    };
    let ghost int_part = mant.take(dot - b0);
    assert(int_part =~= v@.subrange(b0 as int, dot as int));
    let frac_lo: usize = if dot < m_end {
        dot + 1
    } else {
        m_end
    };
    let ghost frac = if dot < m_end {
        mant.skip(dot - b0 + 1)
    } else {
        Seq::<char>::empty()
    };
    assert(frac =~= v@.subrange(frac_lo as int, m_end as int));
    if !all_digits_range(v, b0, dot) || !all_digits_range(v, frac_lo, m_end) {
        return None;
    }
    if (dot - b0) + (m_end - frac_lo) == 0 {
        return None;
    }
    let bound: u128 = (m_end - b0) as u128 + 400;
    let mut exp_negative = false;
    let mut exp_mag: u128 = 0;
    if m_end < hi {
        let e_lo = m_end + 1;
        let ghost e = body.skip(m_end - b0 + 1);
        assert(e =~= v@.subrange(e_lo as int, hi as int));
        let ed: usize = if e_lo < hi && (v[e_lo] == '+' || v[e_lo] == '-') {
            e_lo + 1
        } else {
            e_lo
        };
        exp_negative = e_lo < hi && v[e_lo] == '-';
        assert(e.skip(sign_len(e)) =~= v@.subrange(ed as int, hi as int));
        if ed == hi || !all_digits_range(v, ed, hi) {
            return None;
        }
        exp_mag = bounded_digits_value(v, ed, hi, bound);
    }
    Some(DecimalLayout { b0, dot, frac_lo, m_end, exp_negative, exp_mag, bound })
}

/// The number of `'0'` characters `d` starts with.
fn leading_zero_count(d: &Vec<char>) -> (z: usize)
    ensures
        z == leading_zeros(d@),
        z <= d@.len(),
{
    let mut z: usize = 0;
    assert(d@.skip(0) =~= d@);
    while z < d.len() && d[z] == '0'
        invariant
            0 <= z <= d@.len(),
            leading_zeros(d@) == z + leading_zeros(d@.skip(z as int)),
        decreases d.len() - z,
    {
        assert(d@.skip(z as int).drop_first() =~= d@.skip(z + 1));
        z += 1;
    }
    z
}

/// Whether `0.a >= 0.b`.
fn digits_at_least_exec(a: &Vec<char>, b: &Vec<char>) -> (r: bool)
    ensures
        r == digits_at_least(a@, b@),
{
    let mut i: usize = 0;
    assert(a@.skip(0) =~= a@ && b@.skip(0) =~= b@);
    while i < a.len() && i < b.len() && a[i] == b[i]
        invariant
            i <= a@.len(),
            i <= b@.len(),
            digits_at_least(a@, b@) == digits_at_least(a@.skip(i as int), b@.skip(i as int)),
        decreases a.len() - i,
    {
        assert(a@.skip(i as int).drop_first() =~= a@.skip(i + 1));
        assert(b@.skip(i as int).drop_first() =~= b@.skip(i + 1));
        i += 1;
    }
    let ghost x = a@.skip(i as int);
    let ghost y = b@.skip(i as int);
    if i == b.len() {
        assert(y.len() == 0);
        true
    } else if i == a.len() {
        assert(x.len() == 0);
        let mut k: usize = i;
        while k < b.len()
            invariant
                i <= k <= b@.len(),
                y == b@.skip(i as int),
                y.len() > 0,
                x.len() == 0,
                digits_at_least(a@, b@) == digits_at_least(x, y),
                forall|t: int| 0 <= t < k - i ==> y[t] == '0',
            decreases b.len() - k,
        {
            if b[k] != '0' {
                assert(y[k - i] != '0');
                return false;
            }
            k += 1;
        }
        assert(all_zero_digits(y));
        true
    } else {
        assert(x[0] == a@[i as int] && y[0] == b@[i as int]);
        proof {
            vstd::utf8::char_is_scalar(a@[i as int]);
            vstd::utf8::char_is_scalar(b@[i as int]);
        }
        (a[i] as u32) > (b[i] as u32)
    }
}

/// `d[start..]`.
fn digits_from(d: &Vec<char>, start: usize) -> (r: Vec<char>)
    requires
        start <= d@.len(),
    ensures
        r@ == d@.skip(start as int),
{
    let mut r: Vec<char> = Vec::new();
    let mut i: usize = start;
    while i < d.len()
        invariant
            start <= i <= d@.len(),
            r@ == d@.subrange(start as int, i as int),
        decreases d.len() - i,
    {
        r.push(d[i]);
        i += 1;
        assert(r@ =~= d@.subrange(start as int, i as int));
    }
    assert(r@ =~= d@.skip(start as int));
    r
}

/// `seconds_text_millis(v[lo..hi])`, capped at `cap`.
pub fn seconds_millis_range(v: &Vec<char>, lo: usize, hi: usize, cap: u64) -> (r: Option<u64>)
    requires
        lo <= hi <= v@.len(),
        cap >= 10,
    ensures
        match seconds_text_millis(v@.subrange(lo as int, hi as int)) {
            Some(m) => r == Some(capped(m, cap as nat) as u64),
            None => r is None,
        },
{
    let ghost s = v@.subrange(lo as int, hi as int);
    let layout = match decimal_layout(v, lo, hi) {
        Some(l) => l,
        None => {
            return None;
        },
    };
    let ghost parts = parse_decimal(s)->0;
    let b0 = layout.b0;
    let dot = layout.dot;
    let frac_lo = layout.frac_lo;
    let m_end = layout.m_end;
    let mut digits: Vec<char> = Vec::new();
    let mut i = b0;
    while i < dot
        invariant
            b0 <= i <= dot <= v@.len(),
            digits@ == v@.subrange(b0 as int, i as int),
        decreases dot - i,
    {
        digits.push(v[i]);
        i += 1;
        assert(digits@ =~= v@.subrange(b0 as int, i as int));
    }
    let mut j = frac_lo;
    while j < m_end
        invariant
            frac_lo <= j <= m_end <= v@.len(),
            digits@ == v@.subrange(b0 as int, dot as int) + v@.subrange(frac_lo as int, j as int),
        decreases m_end - j,
    {
        digits.push(v[j]);
        j += 1;
        assert(digits@ =~= v@.subrange(b0 as int, dot as int) + v@.subrange(
            frac_lo as int,
            j as int,
        ));
    }
    assert(digits@ == parts.digits);
    proof {
        let d = parts.digits;
        assert forall|t: int| 0 <= t < d.len() implies is_digit(#[trigger] d[t]) by {
            assert(all_digits(v@.subrange(b0 as int, dot as int)));
            assert(all_digits(v@.subrange(frac_lo as int, m_end as int)));
            if t < dot - b0 {
                assert(d[t] == v@.subrange(b0 as int, dot as int)[t]);
            } else {
                assert(d[t] == v@.subrange(frac_lo as int, m_end as int)[t - (dot - b0)]);
            }
        }
    }
    let n = digits.len();
    let int_len = dot - b0;
    let exp_mag = layout.exp_mag;
    let z = leading_zero_count(&digits);
    let e_raw: i128 = if layout.exp_negative {
        int_len as i128 - z as i128 - exp_mag as i128
    } else {
        int_len as i128 - z as i128 + exp_mag as i128
    };
    proof {
        assert(n <= m_end - b0);
    }
    // Refuse a negative value that an `f64` does not read as zero.
    if lo < hi && v[lo] == '-' && z < n && (e_raw > -323 || (e_raw == -323 && !digits_at_least_exec(
        &str_chars("24703282292062327208828439643411068618252990130716238221279284125033775363510437593264991818081799618989828234772285886546332835517796989819938739800539093906315035659515570226392290858392449105184435931802849936536152500319370457678249219365623669863658480757001585769269903706311928279558551332927834338409351978015531246597263579574622766465272827220056374006485499977096599470454020828166226237857393450736339007967761930577506740176324673600968951340535537458516661134223766678604162159680461914467291840300530057530849048765391711386591646239524912623653881879636239373280423891018672348497668235089863388587925628302755995657524455507255189313690836254779186948667994968324049705821028513185451396213837722826145437693412532098591327667236328125"),
        &digits_from(&digits, z),
    ))) {
        assert(parts.negative && nonzero_in_f64(parts));
        return None;
    }
    assert(!(parts.negative && nonzero_in_f64(parts)));
    // Refuse a value too large for an `f64`.
    if z < n && (e_raw > 309 || (e_raw == 309 && digits_at_least_exec(
        &digits_from(&digits, z),
        &str_chars("179769313486231580793728971405303415079934132710037826936173778980444968292764750946649017977587207096330286416692887910946555547851940402630657488671505820681908902000708383676273854845817711531764475730270069855571366959622842914819860834936475292719074168444365510704342711559699508093042880177904174497792"),
    ))) {
        assert(beyond_f64(parts));
        return None;
    }
    assert(!beyond_f64(parts));
    let ghost q_true = parts.int_len + parts.exp + 3;
    let q_raw: i128 = if layout.exp_negative {
        int_len as i128 + 3 - exp_mag as i128
    } else {
        int_len as i128 + 3 + exp_mag as i128
    };
    let q: i128 = if q_raw > n as i128 + 20 {
        n as i128 + 20
    } else {
        q_raw
    };
    proof {
        let d = digits@;
        assert(n <= m_end - b0);
        if exp_mag < layout.bound {
            assert(q_raw == q_true);
            if q_raw > n + 20 {
                lemma_scaled_far_right(d, q_true, q as int, cap as nat);
            }
        } else {
            if layout.exp_negative {
                assert(q_true < 0 && q < 0);
            } else {
                assert(q_true >= n + 20);
                lemma_scaled_far_right(d, q_true, q as int, cap as nat);
            }
        }
    }
    let r = capped_scaled_rounded(&digits, q, cap);
    Some(r)
}

} // verus!
