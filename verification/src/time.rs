//! Millisecond time values and their text forms.
use vstd::prelude::*;

use crate::decimal::{capped, seconds_millis_range, seconds_text_millis};
use crate::error::{CutlineError, Result};
use crate::text::{
    decimal, find_char, find_char_range, padded_decimal_chars, parse_u64_range, parse_u64_spec,
    push_chars, split_char, split_ranges, str_chars, string_from_chars, trim, trim_range,
    utf8_bytes_len, utf8_len, utf8_len_char, zero_padded, range_texts,
};

verus! {

/// A point or span of time, in whole milliseconds.
#[derive(Debug, Clone, Copy, PartialEq, Eq, PartialOrd, Ord, Hash)]
pub struct TimeValue {
    millis: u64,
}

impl View for TimeValue {
    type V = nat;

    closed spec fn view(&self) -> nat {
        self.millis as nat
    }
}

/// How a text reads as a number: its value, the text that is refused, or a
/// text on which reading it would abort (an arithmetic overflow, or a cut
/// through a character).
pub enum TextValue {
    Value(nat),
    Invalid(Seq<char>),
    Aborts,
}

/// `u64::from_str`, refusing the text itself.
pub open spec fn integer_text(s: Seq<char>) -> TextValue {
    match parse_u64_spec(s) {
        Some(n) => TextValue::Value(n as nat),
        None => TextValue::Invalid(s),
    }
}

/// The characters of `f` that `String::truncate(budget)` keeps, or `None`
/// where that cut falls inside a character.
pub open spec fn truncate_utf8(f: Seq<char>, budget: nat) -> Option<Seq<char>>
    decreases f.len(),
{
    if f.len() == 0 || budget == 0 {
        Some(Seq::empty())
    } else if utf8_len(f[0]) > budget {
        None
    } else {
        match truncate_utf8(f.drop_first(), (budget - utf8_len(f[0])) as nat) {
            Some(p) => Some(seq![f[0]] + p),
            None => None,
        }
    }
}

/// `s` followed by `'0'`s up to three bytes.
pub open spec fn pad_to_three_bytes(s: Seq<char>) -> Seq<char> {
    if utf8_bytes_len(s) >= 3 {
        s
    } else {
        s + Seq::new((3 - utf8_bytes_len(s)) as nat, |i: int| '0')
    }
}

/// The seconds field of a colon time, `SS` or `SS.fff`, in milliseconds;
/// fraction digits past the third are dropped.
pub open spec fn seconds_field(sec: Seq<char>) -> TextValue {
    match find_char(sec, '.') {
        Some(i) => {
            let whole = sec.take(i);
            match truncate_utf8(sec.skip(i + 1), 3) {
                None => TextValue::Aborts,
                Some(t) => {
                    let padded = pad_to_three_bytes(t);
                    match integer_text(whole) {
                        TextValue::Value(s) => match integer_text(padded) {
                            TextValue::Value(m) => if s * 1000 + m > u64::MAX {
                                TextValue::Aborts
                            } else {
                                TextValue::Value(s * 1000 + m)
                            },
                            other => other,
                        },
                        other => other,
                    }
                },
            }
        },
        None => match integer_text(sec) {
            TextValue::Value(s) => if s * 1000 > u64::MAX {
                TextValue::Aborts
            } else {
                TextValue::Value(s * 1000)
            },
            other => other,
        },
    }
}

/// `mm:ss[.fff]` or `hh:mm:ss[.fff]`, minutes and seconds below sixty.
pub open spec fn colon_time_text(t: Seq<char>) -> TextValue {
    let parts = split_char(t, ':');
    if parts.len() == 2 {
        match integer_text(parts[0]) {
            TextValue::Value(m) => match seconds_field(parts[1]) {
                TextValue::Value(s) => if m >= 60 || s >= 60000 {
                    TextValue::Invalid(t)
                } else {
                    TextValue::Value(m * 60000 + s)
                },
                other => other,
            },
            other => other,
        }
    } else if parts.len() == 3 {
        match integer_text(parts[0]) {
            TextValue::Value(h) => match integer_text(parts[1]) {
                TextValue::Value(m) => match seconds_field(parts[2]) {
                    TextValue::Value(s) => if m >= 60 || s >= 60000 {
                        TextValue::Invalid(t)
                    } else if h * 3600000 + m * 60000 + s > u64::MAX {
                        TextValue::Aborts
                    } else {
                        TextValue::Value(h * 3600000 + m * 60000 + s)
                    },
                    other => other,
                },
                other => other,
            },
            other => other,
        }
    } else {
        TextValue::Invalid(t)
    }
}

/// How `TimeValue::parse` reads a text: `"754.2s"` as seconds, a text with
/// `:` as a colon time, anything else as whole milliseconds; surrounding
/// whitespace ignored. Seconds are read exactly and rounded half up to
/// milliseconds (see `crate::decimal`), capped at `u64::MAX`; a number of
/// seconds too large for an `f64` is refused.
pub open spec fn time_text(s: Seq<char>) -> TextValue {
    let t = trim(s);
    if t.len() > 0 && t.last() == 's' {
        match seconds_text_millis(t.drop_last()) {
            Some(m) => TextValue::Value(capped(m, u64::MAX as nat)),
            None => TextValue::Invalid(t),
        }
    } else if find_char(t, ':') is Some {
        colon_time_text(t)
    } else {
        integer_text(t)
    }
}

/// `HH:MM:SS.mmm`, hours growing past two digits when needed.
pub open spec fn display_text(millis: nat) -> Seq<char> {
    let total_seconds = millis / 1000;
    let total_minutes = total_seconds / 60;
    zero_padded(decimal(total_minutes / 60), 2) + seq![':'] + zero_padded(
        decimal(total_minutes % 60),
        2,
    ) + seq![':'] + zero_padded(decimal(total_seconds % 60), 2) + seq!['.'] + zero_padded(
        decimal(millis % 1000),
        3,
    )
}

/// Seconds with three decimals, as ffmpeg takes them: `4354.567`.
pub open spec fn ffmpeg_seconds_text(millis: nat) -> Seq<char> {
    decimal(millis / 1000) + seq!['.'] + zero_padded(decimal(millis % 1000), 3)
}

impl TimeValue {
    pub fn from_millis(millis: u64) -> (t: Self)
        ensures
            t@ == millis,
    {
        TimeValue { millis }
    }

    pub fn millis(self) -> (m: u64)
        ensures
            m == self@,
    {
        self.millis
    }

    pub proof fn lemma_view_bound(self)
        ensures
            self@ <= u64::MAX,
    {
    }

    /// Two time values with the same milliseconds are the same value.
    pub proof fn lemma_view_injective(self, other: TimeValue)
        requires
            self@ == other@,
        ensures
            self == other,
    {
    }

    /// Whether `parse` reads `input` without aborting.
    pub fn parse_is_defined(input: &str) -> (b: bool)
        ensures
            b == !(time_text(input@) is Aborts),
    {
        let v = str_chars(input);
        match read_time_chars(&v) {
            ReadTime::Aborts => false,
            _ => true,
        }
    }

    /// Reads `"12:34"`, `"01:12:34"`, `"01:12:34.567"`, `"754.2s"` or `"754200"`.
    /// Seconds are rounded half up from their exact decimal value, which
    /// near a half millisecond can differ by one from rounding an `f64`.
    pub fn parse(input: &str) -> (r: Result<Self>)
        requires
            !(time_text(input@) is Aborts),
        ensures
            match time_text(input@) {
                TextValue::Value(m) => r matches Ok(t) && t@ == m,
                TextValue::Invalid(x) => r matches Err(CutlineError::InvalidTime(e)) && e@ == x,
                TextValue::Aborts => false,
            },
    {
        let v = str_chars(input);
        match read_time_chars(&v) {
            ReadTime::Value(m) => Ok(TimeValue { millis: m }),
            ReadTime::Invalid(lo, hi) => Err(CutlineError::InvalidTime(text_of_range(&v, lo, hi))),
            ReadTime::Padded(lo, hi) => {
                let mut out: Vec<char> = Vec::new();
                let mut i = lo;
                while i < hi
                    invariant
                        lo <= i <= hi <= v@.len(),
                        out@ == v@.subrange(lo as int, i as int),
                    decreases hi - i,
                {
                    out.push(v[i]);
                    i += 1;
                    assert(out@ =~= v@.subrange(lo as int, i as int));
                }
                let ghost t = out@;
                while utf8_chars_len(&out) < 3
                    invariant
                        utf8_bytes_len(out@) <= 3,
                        pad_to_three_bytes(out@) == pad_to_three_bytes(t),
                    decreases 3 - utf8_bytes_len(out@),
                {
                    let ghost before = out@;
                    out.push('0');
                    proof {
                        assert(out@.drop_last() =~= before);
                        lemma_pad_step(before);
                    }
                }
                Err(CutlineError::InvalidTime(string_from_chars(&out)))
            },
            ReadTime::Aborts => {
                proof {
                    assert(false);
                }
                Err(CutlineError::InvalidTime(String::new()))
            },
        }
    }

    /// `HH:MM:SS.mmm`.
    pub fn display(self) -> (s: String)
        ensures
            s@ == display_text(self@),
    {
        let total_seconds = self.millis / 1000;
        let millis = self.millis % 1000;
        let seconds = total_seconds % 60;
        let total_minutes = total_seconds / 60;
        let minutes = total_minutes % 60;
        let hours = total_minutes / 60;
        let mut out = padded_decimal_chars(hours, 2);
        out.push(':');
        let m = padded_decimal_chars(minutes, 2);
        push_chars(&mut out, &m);
        out.push(':');
        let sec = padded_decimal_chars(seconds, 2);
        push_chars(&mut out, &sec);
        out.push('.');
        let ms = padded_decimal_chars(millis, 3);
        push_chars(&mut out, &ms);
        assert(out@ =~= display_text(self@));
        string_from_chars(&out)
    }

    /// Seconds with three decimals: `4354.567`.
    pub fn as_ffmpeg_seconds(self) -> (s: String)
        ensures
            s@ == ffmpeg_seconds_text(self@),
    {
        let mut out = crate::text::decimal_chars(self.millis / 1000);
        out.push('.');
        let ms = padded_decimal_chars(self.millis % 1000, 3);
        push_chars(&mut out, &ms);
        assert(out@ =~= ffmpeg_seconds_text(self@));
        string_from_chars(&out)
    }
}

pub proof fn lemma_pad_step(s: Seq<char>)
    requires
        utf8_bytes_len(s) < 3,
    ensures
        utf8_bytes_len(s.push('0')) == utf8_bytes_len(s) + 1,
        pad_to_three_bytes(s.push('0')) == pad_to_three_bytes(s),
{
    let z = s.push('0');
    assert(z.drop_last() =~= s);
    let k = (3 - utf8_bytes_len(s)) as nat;
    assert(s + Seq::new(k, |i: int| '0') =~= z + Seq::new((k - 1) as nat, |i: int| '0'));
}

fn utf8_chars_len(v: &Vec<char>) -> (n: usize)
    requires
        utf8_bytes_len(v@) <= 3,
    ensures
        n == utf8_bytes_len(v@),
{
    let mut n: usize = 0;
    let mut i: usize = 0;
    while i < v.len()
        invariant
            0 <= i <= v@.len(),
            utf8_bytes_len(v@) <= 3,
            n == utf8_bytes_len(v@.take(i as int)),
        decreases v.len() - i,
    {
        proof {
            assert(v@.take(i + 1).drop_last() =~= v@.take(i as int));
            lemma_utf8_prefix_le(v@, i + 1);
        }
        n = n + utf8_len_char(v[i]);
        i += 1;
    }
    assert(v@.take(i as int) =~= v@);
    n
}

pub proof fn lemma_utf8_prefix_le(s: Seq<char>, k: int)
    requires
        0 <= k <= s.len(),
    ensures
        utf8_bytes_len(s.take(k)) <= utf8_bytes_len(s),
    decreases s.len(),
{
    if k < s.len() {
        lemma_utf8_prefix_le(s.drop_last(), k);
        assert(s.drop_last().take(k) =~= s.take(k));
    } else {
        assert(s.take(k) =~= s);
    }
}

fn text_of_range(v: &Vec<char>, lo: usize, hi: usize) -> (s: String)
    requires
        lo <= hi <= v@.len(),
    ensures
        s@ == v@.subrange(lo as int, hi as int),
{
    let mut out: Vec<char> = Vec::new();
    let mut i = lo;
    while i < hi
        invariant
            lo <= i <= hi <= v@.len(),
            out@ == v@.subrange(lo as int, i as int),
        decreases hi - i,
    {
        out.push(v[i]);
        i += 1;
        assert(out@ =~= v@.subrange(lo as int, i as int));
    }
    string_from_chars(&out)
}

/// What reading a time from characters gave: a value, the refused text as a
/// range, a refused fraction (a range then padded), or an abort.
enum ReadTime {
    Value(u64),
    Invalid(usize, usize),
    Padded(usize, usize),
    Aborts,
}

spec fn read_time_matches(v: Seq<char>, r: ReadTime, t: TextValue) -> bool {
    match r {
        ReadTime::Value(m) => t == TextValue::Value(m as nat),
        ReadTime::Invalid(lo, hi) => lo <= hi <= v.len() && t == TextValue::Invalid(
            v.subrange(lo as int, hi as int),
        ),
        ReadTime::Padded(lo, hi) => lo <= hi <= v.len() && utf8_bytes_len(
            v.subrange(lo as int, hi as int),
        ) <= 3 && t == TextValue::Invalid(pad_to_three_bytes(v.subrange(lo as int, hi as int))),
        ReadTime::Aborts => t is Aborts,
    }
}

fn read_integer(v: &Vec<char>, lo: usize, hi: usize) -> (r: ReadTime)
    requires
        lo <= hi <= v@.len(),
    ensures
        read_time_matches(v@, r, integer_text(v@.subrange(lo as int, hi as int))),
{
    match parse_u64_range(v, lo, hi) {
        Some(n) => ReadTime::Value(n),
        None => ReadTime::Invalid(lo, hi),
    }
}

/// Where `String::truncate(3)` cuts `v[lo..hi]`, or `None` inside a character.
fn truncate_three(v: &Vec<char>, lo: usize, hi: usize) -> (r: Option<usize>)
    requires
        lo <= hi <= v@.len(),
    ensures
        match truncate_utf8(v@.subrange(lo as int, hi as int), 3) {
            Some(t) => r matches Some(e) && lo <= e <= hi && t == v@.subrange(lo as int, e as int)
                && utf8_bytes_len(t) <= 3,
            None => r is None,
        },
{
    let mut i = lo;
    let mut budget: usize = 3;
    while i < hi && budget > 0
        invariant
            lo <= i <= hi <= v@.len(),
            budget <= 3,
            utf8_bytes_len(v@.subrange(lo as int, i as int)) + budget == 3,
            truncate_utf8(v@.subrange(lo as int, hi as int), 3) == match truncate_utf8(
                v@.subrange(i as int, hi as int),
                budget as nat,
            ) {
                Some(p) => Some(v@.subrange(lo as int, i as int) + p),
                None => None,
            },
        decreases hi - i,
    {
        let w = utf8_len_char(v[i]);
        proof {
            assert(v@.subrange(i as int, hi as int).drop_first() =~= v@.subrange(i + 1, hi as int));
            assert(v@.subrange(i as int, hi as int)[0] == v@[i as int]);
        }
        if w > budget {
            return None;
        }
        proof {
            assert(v@.subrange(lo as int, i + 1).drop_last() =~= v@.subrange(lo as int, i as int));
            assert(v@.subrange(lo as int, i as int) + seq![v@[i as int]] =~= v@.subrange(
                lo as int,
                i + 1,
            ));
            assert forall|p: Seq<char>| true implies v@.subrange(lo as int, i as int) + (seq![
                v@[i as int],
            ] + p) =~= v@.subrange(lo as int, i + 1) + p by {}
        }
        budget = budget - w;
        i += 1;
    }
    proof {
        if i == hi {
            assert(v@.subrange(i as int, hi as int) =~= Seq::<char>::empty());
        }
        assert(v@.subrange(lo as int, i as int) + Seq::<char>::empty() =~= v@.subrange(
            lo as int,
            i as int,
        ));
    }
    Some(i)
}

fn read_seconds_field(v: &Vec<char>, lo: usize, hi: usize) -> (r: ReadTime)
    requires
        lo <= hi <= v@.len(),
    ensures
        read_time_matches(v@, r, seconds_field(v@.subrange(lo as int, hi as int))),
{
    let ghost sec = v@.subrange(lo as int, hi as int);
    match find_char_range(v, lo, hi, '.') {
        Some(d) => {
            assert(sec.take(d - lo) =~= v@.subrange(lo as int, d as int));
            assert(sec.skip(d - lo + 1) =~= v@.subrange(d + 1, hi as int));
            let cut = match truncate_three(v, d + 1, hi) {
                Some(e) => e,
                None => {
                    return ReadTime::Aborts;
                },
            };
            let ghost t = v@.subrange(d + 1, cut as int);
            let whole = match parse_u64_range(v, lo, d) {
                Some(n) => n,
                None => {
                    return ReadTime::Invalid(lo, d);
                },
            };
            let frac = match parse_padded_fraction(v, d + 1, cut) {
                Some(n) => n,
                None => {
                    return ReadTime::Padded(d + 1, cut);
                },
            };
            if whole > (u64::MAX - frac) / 1000 {
                assert(whole * 1000 + frac > u64::MAX) by (nonlinear_arith)
                    requires
                        whole > (u64::MAX - frac) / 1000,
                        frac <= u64::MAX,
                ;
                return ReadTime::Aborts;
            }
            assert(whole * 1000 + frac <= u64::MAX) by (nonlinear_arith)
                requires
                    whole <= (u64::MAX - frac) / 1000,
                    frac <= u64::MAX,
            ;
            ReadTime::Value(whole * 1000 + frac)
        },
        None => {
            let whole = match parse_u64_range(v, lo, hi) {
                Some(n) => n,
                None => {
                    return ReadTime::Invalid(lo, hi);
                },
            };
            if whole > u64::MAX / 1000 {
                return ReadTime::Aborts;
            }
            ReadTime::Value(whole * 1000)
        },
    }
}

/// `u64::from_str` of `v[lo..hi]` padded with `'0'`s to three bytes.
fn parse_padded_fraction(v: &Vec<char>, lo: usize, hi: usize) -> (r: Option<u64>)
    requires
        lo <= hi <= v@.len(),
        utf8_bytes_len(v@.subrange(lo as int, hi as int)) <= 3,
    ensures
        r == parse_u64_spec(pad_to_three_bytes(v@.subrange(lo as int, hi as int))),
{
    let mut out: Vec<char> = Vec::new();
    let mut i = lo;
    while i < hi
        invariant
            lo <= i <= hi <= v@.len(),
            out@ == v@.subrange(lo as int, i as int),
        decreases hi - i,
    {
        out.push(v[i]);
        i += 1;
        assert(out@ =~= v@.subrange(lo as int, i as int));
    }
    let ghost t = out@;
    while utf8_chars_len(&out) < 3
        invariant
            utf8_bytes_len(out@) <= 3,
            pad_to_three_bytes(out@) == pad_to_three_bytes(t),
        decreases 3 - utf8_bytes_len(out@),
    {
        let ghost before = out@;
        out.push('0');
        proof {
            lemma_pad_step(before);
        }
    }
    let n = out.len();
    assert(out@.subrange(0, n as int) =~= out@);
    parse_u64_range(&out, 0, n)
}

fn read_colon_time(v: &Vec<char>, lo: usize, hi: usize) -> (r: ReadTime)
    requires
        lo <= hi <= v@.len(),
    ensures
        read_time_matches(v@, r, colon_time_text(v@.subrange(lo as int, hi as int))),
{
    let parts = split_ranges(v, lo, hi, ':');
    proof {
        assert(range_texts(v@, parts@).len() == parts@.len());
    }
    if parts.len() == 2 {
        let (a0, a1) = parts[0];
        let (b0, b1) = parts[1];
        let m = match read_integer(v, a0, a1) {
            ReadTime::Value(m) => m,
            other => {
                return other;
            },
        };
        let s = match read_seconds_field(v, b0, b1) {
            ReadTime::Value(s) => s,
            other => {
                return other;
            },
        };
        if m >= 60 || s >= 60000 {
            return ReadTime::Invalid(lo, hi);
        }
        ReadTime::Value(m * 60000 + s)
    } else if parts.len() == 3 {
        let (a0, a1) = parts[0];
        let (b0, b1) = parts[1];
        let (c0, c1) = parts[2];
        let h = match read_integer(v, a0, a1) {
            ReadTime::Value(h) => h,
            other => {
                return other;
            },
        };
        let m = match read_integer(v, b0, b1) {
            ReadTime::Value(m) => m,
            other => {
                return other;
            },
        };
        let s = match read_seconds_field(v, c0, c1) {
            ReadTime::Value(s) => s,
            other => {
                return other;
            },
        };
        if m >= 60 || s >= 60000 {
            return ReadTime::Invalid(lo, hi);
        }
        let rest = m * 60000 + s;
        if h > (u64::MAX - rest) / 3600000 {
            assert(h * 3600000 + rest > u64::MAX) by (nonlinear_arith)
                requires
                    h > (u64::MAX - rest) / 3600000,
                    rest <= u64::MAX,
            ;
            return ReadTime::Aborts;
        }
        assert(h * 3600000 + rest <= u64::MAX) by (nonlinear_arith)
            requires
                h <= (u64::MAX - rest) / 3600000,
                rest <= u64::MAX,
        ;
        ReadTime::Value(h * 3600000 + rest)
    } else {
        ReadTime::Invalid(lo, hi)
    }
}

fn read_time_chars(v: &Vec<char>) -> (r: ReadTime)
    ensures
        read_time_matches(v@, r, time_text(v@)),
{
    let n = v.len();
    assert(v@.subrange(0, n as int) =~= v@);
    let (lo, hi) = trim_range(v, 0, n);
    let ghost t = v@.subrange(lo as int, hi as int);
    if lo < hi && v[hi - 1] == 's' {
        assert(t.last() == v@[hi - 1]);
        assert(t.drop_last() =~= v@.subrange(lo as int, hi - 1));
        return match seconds_millis_range(v, lo, hi - 1, u64::MAX) {
            Some(m) => ReadTime::Value(m),
            None => ReadTime::Invalid(lo, hi),
        };
    }
    match find_char_range(v, lo, hi, ':') {
        Some(_) => read_colon_time(v, lo, hi),
        None => read_integer(v, lo, hi),
    }
}

} // verus!

verus! {

proof fn lemma_three_ascii_digits(ms: nat)
    requires
        ms < 1000,
    ensures
        truncate_utf8(zero_padded(decimal(ms), 3), 3) == Some(zero_padded(decimal(ms), 3)),
        pad_to_three_bytes(zero_padded(decimal(ms), 3)) == zero_padded(decimal(ms), 3),
        zero_padded(decimal(ms), 3).len() == 3,
{
    crate::text::lemma_zero_padded(ms, 3);
    crate::text::lemma_decimal(ms);
    let f = zero_padded(decimal(ms), 3);
    assert(f.len() == 3);
    assert(crate::text::is_digit(f[0]) && crate::text::is_digit(f[1]) && crate::text::is_digit(f[2]));
    assert(utf8_len(f[0]) == 1 && utf8_len(f[1]) == 1 && utf8_len(f[2]) == 1);
    let f1 = f.drop_first();
    let f2 = f1.drop_first();
    let f3 = f2.drop_first();
    assert(f3.len() == 0);
    assert(truncate_utf8(f3, 0) == Some(Seq::<char>::empty()));
    assert(truncate_utf8(f2, 1) == Some(seq![f2[0]] + Seq::<char>::empty()));
    assert(seq![f2[0]] + Seq::<char>::empty() =~= f2);
    assert(truncate_utf8(f1, 2) == Some(seq![f1[0]] + f2));
    assert(seq![f1[0]] + f2 =~= f1);
    assert(truncate_utf8(f, 3) == Some(seq![f[0]] + f1));
    assert(seq![f[0]] + f1 =~= f);
    let g1 = f.drop_last();
    let g2 = g1.drop_last();
    let g3 = g2.drop_last();
    assert(g3 =~= Seq::<char>::empty());
    assert(g2.last() == f[0]);
    assert(g1.last() == f[1]);
    assert(f.last() == f[2]);
    assert(utf8_bytes_len(g3) == 0);
    assert(utf8_bytes_len(g2) == 1);
    assert(utf8_bytes_len(g1) == 2);
    assert(utf8_bytes_len(f) == 3);
}

/// A time shown as `HH:MM:SS.mmm` reads back as the same time.
pub proof fn law_display_parse_roundtrip(t: TimeValue)
    ensures
        time_text(display_text(t@)) == TextValue::Value(t@),
{
    let millis = t@;
    t.lemma_view_bound();
    let total_seconds = millis / 1000;
    let total_minutes = total_seconds / 60;
    let h = total_minutes / 60;
    let m = total_minutes % 60;
    let s = total_seconds % 60;
    let ms = millis % 1000;
    let hh = zero_padded(decimal(h), 2);
    let mm = zero_padded(decimal(m), 2);
    let ss = zero_padded(decimal(s), 2);
    let fff = zero_padded(decimal(ms), 3);
    crate::text::lemma_zero_padded(h, 2);
    crate::text::lemma_zero_padded(m, 2);
    crate::text::lemma_zero_padded(s, 2);
    lemma_three_ascii_digits(ms);
    crate::text::lemma_zero_padded(ms, 3);
    let text = display_text(millis);
    let sec_field = ss + seq!['.'] + fff;
    let tail = mm + seq![':'] + sec_field;
    assert(text =~= hh + seq![':'] + tail);
    // No whitespace to trim, and no trailing `s`.
    assert(crate::text::is_digit(text[0]));
    assert(text.last() == fff.last());
    assert(crate::text::is_digit(text.last()));
    crate::text::lemma_trim_unchanged(text);
    // Split at the colons.
    crate::text::lemma_digits_no_char(hh, ':');
    crate::text::lemma_digits_no_char(mm, ':');
    crate::text::lemma_digits_no_char(ss, ':');
    crate::text::lemma_digits_no_char(fff, ':');
    crate::text::lemma_digits_no_char(ss, '.');
    crate::text::lemma_find_char_after(hh, ':', tail);
    crate::text::lemma_split_after(hh, ':', tail);
    crate::text::lemma_split_after(mm, ':', sec_field);
    assert forall|k: int| 0 <= k < sec_field.len() implies sec_field[k] != ':' by {
        if k < ss.len() {
            assert(sec_field[k] == ss[k]);
        } else if k > ss.len() {
            assert(sec_field[k] == fff[k - ss.len() - 1]);
        }
    }
    crate::text::lemma_split_none(sec_field, ':');
    let parts = split_char(text, ':');
    assert(parts =~= seq![hh, mm, sec_field]);
    crate::text::lemma_parse_padded_decimal(h, 2);
    crate::text::lemma_parse_padded_decimal(m, 2);
    crate::text::lemma_parse_padded_decimal(s, 2);
    crate::text::lemma_parse_padded_decimal(ms, 3);
    // The seconds field.
    crate::text::lemma_find_char_after(ss, '.', fff);
    assert(sec_field.take(ss.len() as int) =~= ss);
    assert(sec_field.skip(ss.len() as int + 1) =~= fff);
    assert(seconds_field(sec_field) == TextValue::Value(s * 1000 + ms));
    assert(h * 3600000 + m * 60000 + (s * 1000 + ms) == millis) by (nonlinear_arith)
        requires
            total_seconds == millis / 1000,
            total_minutes == total_seconds / 60,
            h == total_minutes / 60,
            m == total_minutes % 60,
            s == total_seconds % 60,
            ms == millis % 1000,
    ;
}

/// A time written as ffmpeg seconds with an `s` after it reads back as the same time.
pub proof fn law_ffmpeg_seconds_parse_roundtrip(t: TimeValue)
    ensures
        time_text(ffmpeg_seconds_text(t@) + seq!['s']) == TextValue::Value(t@),
{
    let millis = t@;
    t.lemma_view_bound();
    let secs = millis / 1000;
    let ms = millis % 1000;
    let whole = decimal(secs);
    let fff = zero_padded(decimal(ms), 3);
    crate::text::lemma_decimal(secs);
    lemma_three_ascii_digits(ms);
    crate::text::lemma_zero_padded(ms, 3);
    let x = ffmpeg_seconds_text(millis);
    let text = x + seq!['s'];
    assert(x =~= whole + seq!['.'] + fff);
    assert(crate::text::is_digit(text[0]));
    assert(text.last() == 's');
    crate::text::lemma_trim_unchanged(text);
    assert(text.drop_last() =~= x);
    // `x` is a plain decimal number with three fraction digits.
    assert(crate::decimal::sign_len(x) == 0);
    assert(x.skip(0) =~= x);
    assert forall|k: int| 0 <= k < x.len() implies !crate::decimal::is_exp_marker(x[k]) by {
        if k < whole.len() {
            assert(crate::text::is_digit(x[k]));
        } else if k > whole.len() {
            assert(x[k] == fff[k - whole.len() - 1]);
            assert(crate::text::is_digit(fff[k - whole.len() - 1]));
        }
    }
    crate::decimal::lemma_find_exp_none(x, 0, x.len() as int);
    assert(x.subrange(0, x.len() as int) =~= x);
    assert(x.take(x.len() as int) =~= x);
    crate::text::lemma_digits_no_char(whole, '.');
    crate::text::lemma_find_char_after(whole, '.', fff);
    assert(x.take(whole.len() as int) =~= whole);
    assert(x.skip(whole.len() as int + 1) =~= fff);
    let d = whole + fff;
    crate::text::lemma_digits_value_concat(whole, fff);
    assert(crate::text::pow10(3) == 1000) by {
        reveal_with_fuel(crate::text::pow10, 4);
    }
    assert(crate::text::digits_value(d) == secs * 1000 + ms);
    assert(d.take(d.len() as int) =~= d);
    assert(crate::decimal::scaled_rounded(d, whole.len() as int + 0 + 3) == secs * 1000 + ms);
    // Far below the range where `f64` overflows.
    crate::decimal::lemma_pow10_large(20);
    crate::decimal::lemma_decimal_len(secs, 20);
    let parts = crate::decimal::parse_decimal(x)->0;
    assert(parts.int_len == whole.len() && parts.exp == 0);
    assert(!crate::decimal::beyond_f64(parts));
    assert(secs * 1000 + ms == millis);
}

} // verus!
