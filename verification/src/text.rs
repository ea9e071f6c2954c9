//! Character-level text helpers: decimal digits, unsigned integer text,
//! Unicode whitespace trimming and line splitting, all over `Seq<char>`.
use vstd::prelude::*;
use vstd::utf8::{encode_scalar, encode_utf8};

verus! {

/// `'0'..='9'`.
pub open spec fn is_digit(c: char) -> bool {
    '0' <= c && c <= '9'
}

/// The numeric value of a decimal digit character.
pub open spec fn digit_value(c: char) -> nat {
    (c as int - '0' as int) as nat
}

/// The character of a digit value below ten.
pub open spec fn digit_char(d: nat) -> char {
    (d + '0' as nat) as char
}

pub open spec fn all_digits(s: Seq<char>) -> bool {
    forall|i: int| 0 <= i < s.len() ==> is_digit(#[trigger] s[i])
}

/// The value of a string of decimal digits read most significant first.
pub open spec fn digits_value(s: Seq<char>) -> nat
    decreases s.len(),
{
    if s.len() == 0 {
        0
    } else {
        digits_value(s.drop_last()) * 10 + digit_value(s.last())
    }
}

pub open spec fn pow10(n: nat) -> nat
    decreases n,
{
    if n == 0 {
        1
    } else {
        10 * pow10((n - 1) as nat)
    }
}

/// The shortest decimal representation of `n`.
pub open spec fn decimal(n: nat) -> Seq<char>
    decreases n,
{
    if n < 10 {
        seq![digit_char(n)]
    } else {
        decimal(n / 10).push(digit_char(n % 10))
    }
}

/// `s` with `'0'`s in front until it is `width` characters long.
pub open spec fn zero_padded(s: Seq<char>, width: nat) -> Seq<char> {
    if s.len() >= width {
        s
    } else {
        Seq::new((width - s.len()) as nat, |i: int| '0') + s
    }
}

/// What `u64::from_str` accepts: an optional `+`, then one or more
/// digits whose value fits in a `u64`.
pub open spec fn u64_text_body(s: Seq<char>) -> Seq<char> {
    if s.len() > 0 && s[0] == '+' {
        s.drop_first()
    } else {
        s
    }
}

pub open spec fn parse_u64_spec(s: Seq<char>) -> Option<u64> {
    let b = u64_text_body(s);
    if b.len() > 0 && all_digits(b) && digits_value(b) <= u64::MAX {
        Some(digits_value(b) as u64)
    } else {
        None
    }
}

/// Unicode `White_Space`, as `char::is_whitespace` decides it.
pub open spec fn is_whitespace(c: char) -> bool {
    let u = c as u32;
    ||| 0x09 <= u && u <= 0x0d
    ||| u == 0x20
    ||| u == 0x85
    ||| u == 0xa0
    ||| u == 0x1680
    ||| 0x2000 <= u && u <= 0x200a
    ||| u == 0x2028
    ||| u == 0x2029
    ||| u == 0x202f
    ||| u == 0x205f
    ||| u == 0x3000
}

pub open spec fn trim_start(s: Seq<char>) -> Seq<char>
    decreases s.len(),
{
    if s.len() > 0 && is_whitespace(s[0]) {
        trim_start(s.drop_first())
    } else {
        s
    }
}

pub open spec fn trim_end(s: Seq<char>) -> Seq<char>
    decreases s.len(),
{
    if s.len() > 0 && is_whitespace(s.last()) {
        trim_end(s.drop_last())
    } else {
        s
    }
}

/// `str::trim`: leading and trailing whitespace removed.
pub open spec fn trim(s: Seq<char>) -> Seq<char> {
    trim_end(trim_start(s))
}

/// The index of the first `c` in `s`.
pub open spec fn find_char(s: Seq<char>, c: char) -> Option<int>
    decreases s.len(),
{
    if s.len() == 0 {
        None
    } else if s[0] == c {
        Some(0)
    } else {
        match find_char(s.drop_first(), c) {
            Some(i) => Some(i + 1),
            None => None,
        }
    }
}

/// A line without the `'\r'` of a `"\r\n"` ending.
pub open spec fn strip_cr(s: Seq<char>) -> Seq<char> {
    if s.len() > 0 && s.last() == '\r' {
        s.drop_last()
    } else {
        s
    }
}

/// `str::lines`: the text split at `'\n'`, each line without its `"\n"`
/// or `"\r\n"` ending, and no empty line after a final `'\n'`.
pub open spec fn lines(s: Seq<char>) -> Seq<Seq<char>>
    decreases s.len(),
{
    if s.len() == 0 {
        seq![]
    } else {
        match find_char(s, '\n') {
            Some(i) => if 0 <= i < s.len() {
                seq![strip_cr(s.take(i))] + lines(s.skip(i + 1))
            } else {
                seq![]
            },
            None => seq![s],
        }
    }
}

// ---------------------------------------------------------------- lemmas

pub proof fn lemma_digit_char(d: nat)
    requires
        d < 10,
    ensures
        is_digit(digit_char(d)),
        digit_value(digit_char(d)) == d,
{
}

pub proof fn lemma_decimal(n: nat)
    ensures
        all_digits(decimal(n)),
        digits_value(decimal(n)) == n,
        decimal(n).len() >= 1,
        n < 10 ==> decimal(n).len() == 1,
        n >= 10 ==> decimal(n).len() >= 2,
        n < 100 ==> decimal(n).len() <= 2,
        n < 1000 ==> decimal(n).len() <= 3,
    decreases n,
{
    lemma_digit_char(n % 10);
    if n >= 10 {
        lemma_decimal(n / 10);
        let s = decimal(n);
        assert(s.drop_last() =~= decimal(n / 10));
        assert(s.last() == digit_char(n % 10));
        assert(digits_value(s) == digits_value(decimal(n / 10)) * 10 + n % 10);
        assert((n / 10) * 10 + n % 10 == n);
        assert forall|i: int| 0 <= i < s.len() implies is_digit(#[trigger] s[i]) by {
            if i < s.len() - 1 {
                assert(s[i] == decimal(n / 10)[i]);
            }
        }
    } else {
        let s = decimal(n);
        assert(s.drop_last() =~= Seq::<char>::empty());
        assert(s.last() == digit_char(n));
        assert(digits_value(s) == digits_value(s.drop_last()) * 10 + digit_value(s.last()));
    }
}

pub proof fn lemma_digits_value_zeros(k: nat, s: Seq<char>)
    ensures
        digits_value(Seq::new(k, |i: int| '0') + s) == digits_value(s),
        all_digits(s) ==> all_digits(Seq::new(k, |i: int| '0') + s),
    decreases s.len(), k,
{
    let z = Seq::new(k, |i: int| '0');
    if s.len() == 0 {
        assert(z + s =~= z);
        if k > 0 {
            assert(z.drop_last() =~= Seq::new((k - 1) as nat, |i: int| '0'));
            lemma_digits_value_zeros((k - 1) as nat, s);
            assert(Seq::new((k - 1) as nat, |i: int| '0') + s =~= Seq::new(
                (k - 1) as nat,
                |i: int| '0',
            ));
        }
    } else {
        assert((z + s).drop_last() =~= z + s.drop_last());
        lemma_digits_value_zeros(k, s.drop_last());
    }
}

pub proof fn lemma_zero_padded(n: nat, width: nat)
    ensures
        all_digits(zero_padded(decimal(n), width)),
        digits_value(zero_padded(decimal(n), width)) == n,
        zero_padded(decimal(n), width).len() >= width,
        zero_padded(decimal(n), width).len() >= decimal(n).len(),
{
    lemma_decimal(n);
    let s = decimal(n);
    if s.len() < width {
        lemma_digits_value_zeros((width - s.len()) as nat, s);
    }
}

/// Leading digits never have a larger value than the whole string.
pub proof fn lemma_digits_value_prefix(s: Seq<char>, k: int)
    requires
        0 <= k <= s.len(),
    ensures
        digits_value(s.take(k)) <= digits_value(s),
    decreases s.len(),
{
    if k < s.len() {
        lemma_digits_value_prefix(s.drop_last(), k);
        assert(s.drop_last().take(k) =~= s.take(k));
    } else {
        assert(s.take(k) =~= s);
    }
}

pub proof fn lemma_digits_value_step(s: Seq<char>, i: int)
    requires
        0 <= i < s.len(),
    ensures
        digits_value(s.take(i + 1)) == digits_value(s.take(i)) * 10 + digit_value(s[i]),
{
    assert(s.take(i + 1).drop_last() =~= s.take(i));
}

// ---------------------------------------------------------------- exec

/// The characters of `s`, in order.
pub fn str_chars(s: &str) -> (v: Vec<char>)
    ensures
        v@ == s@,
{
    let mut v: Vec<char> = Vec::new();
    for c in it: s.chars()
        invariant
            v@ == it.seq().take(it.index() as int),
    {
        v.push(c);
    }
    v
}

/// Calls `Iterator::collect` into a `String` over `v`'s characters; the
/// contract claims that the string holds exactly those characters, in order,
/// as std documents for `String: FromIterator<&char>`.
#[verifier::external_body]
pub(crate) fn string_from_chars(v: &Vec<char>) -> (s: String)
    ensures
        s@ == v@,
{
    v.iter().collect::<String>()
}

/// The texts of a sequence of strings.
pub open spec fn string_views(v: Seq<String>) -> Seq<Seq<char>> {
    Seq::new(v.len(), |i: int| v[i]@)
}

/// Appends a copy of `s` to `v`.
pub fn push_string(v: &mut Vec<String>, s: &str)
    ensures
        string_views(final(v)@) == string_views(old(v)@).push(s@),
{
    let ghost before = string_views(v@);
    v.push(string_of(s));
    assert(string_views(v@) =~= before.push(s@));
}

/// Appends copies of `more` to `v`.
pub fn push_strings(v: &mut Vec<String>, more: &Vec<String>)
    ensures
        string_views(final(v)@) == string_views(old(v)@) + string_views(more@),
{
    let ghost before = string_views(v@);
    let mut i: usize = 0;
    while i < more.len()
        invariant
            0 <= i <= more@.len(),
            string_views(v@) == before + string_views(more@).take(i as int),
        decreases more.len() - i,
    {
        let ghost mid = string_views(v@);
        v.push(more[i].clone());
        assert(string_views(v@) =~= mid.push(more@[i as int]@));
        assert(string_views(more@).take(i + 1) =~= string_views(more@).take(i as int).push(
            more@[i as int]@,
        ));
        i += 1;
    }
    assert(string_views(more@).take(i as int) =~= string_views(more@));
}

/// The characters `v[lo..hi]` as a string.
pub fn range_string(v: &Vec<char>, lo: usize, hi: usize) -> (s: String)
    requires
        lo <= hi <= v@.len(),
    ensures
        s@ == v@.subrange(lo as int, hi as int),
{
    let mut out: Vec<char> = Vec::new();
    let mut i: usize = lo;
    while i < hi
        invariant
            lo <= i <= hi <= v@.len(),
            out@ == v@.subrange(lo as int, i as int),
        decreases hi - i,
    {
        out.push(v[i]);
        proof {
            assert(v@.subrange(lo as int, i + 1) =~= v@.subrange(lo as int, i as int).push(v@[i as int]));
        }
        i += 1;
    }
    string_from_chars(&out)
}

/// Appends the characters of `s` to `out`.
pub fn push_str(out: &mut Vec<char>, s: &str)
    ensures
        final(out)@ == old(out)@ + s@,
{
    let cs = str_chars(s);
    push_chars(out, &cs);
}

/// Appends `cs` to `out`.
pub fn push_chars(out: &mut Vec<char>, cs: &Vec<char>)
    ensures
        final(out)@ == old(out)@ + cs@,
{
    let ghost start = out@;
    let mut i: usize = 0;
    while i < cs.len()
        invariant
            0 <= i <= cs.len(),
            out@ == start + cs@.take(i as int),
        decreases cs.len() - i,
    {
        out.push(cs[i]);
        i += 1;
        assert(cs@.take(i as int) =~= cs@.take(i - 1).push(cs@[i - 1]));
    }
    assert(cs@.take(i as int) =~= cs@);
}

pub fn digit_to_char(d: u64) -> (c: char)
    requires
        d < 10,
    ensures
        c == digit_char(d as nat),
{
    let b: u8 = (d as u8) + 48u8;
    b as char
}

/// The decimal digits of a `u128`.
pub fn decimal_chars_wide(n: u128) -> (v: Vec<char>)
    ensures
        v@ == decimal(n as nat),
    decreases n,
{
    if n < 10 {
        let mut v: Vec<char> = Vec::new();
        v.push(digit_to_char(n as u64));
        assert(v@ =~= seq![digit_char(n as nat)]);
        v
    } else {
        let mut v = decimal_chars_wide(n / 10);
        v.push(digit_to_char((n % 10) as u64));
        v
    }
}

/// An `i128` as `to_string` writes it: a minus sign, then the digits.
pub open spec fn signed_decimal(n: int) -> Seq<char> {
    if n < 0 {
        seq!['-'] + decimal((-n) as nat)
    } else {
        decimal(n as nat)
    }
}

pub fn push_signed_decimal(out: &mut Vec<char>, n: i128)
    ensures
        final(out)@ == old(out)@ + signed_decimal(n as int),
{
    if n < 0 {
        out.push('-');
        let magnitude: u128 = if n == i128::MIN {
            (i128::MAX as u128) + 1
        } else {
            (-n) as u128
        };
        let d = decimal_chars_wide(magnitude);
        push_chars(out, &d);
        assert(old(out)@.push('-') + d@ =~= old(out)@ + (seq!['-'] + d@));
    } else {
        let d = decimal_chars_wide(n as u128);
        push_chars(out, &d);
    }
}

/// The decimal digits of `n`.
pub fn decimal_chars(n: u64) -> (v: Vec<char>)
    ensures
        v@ == decimal(n as nat),
    decreases n,
{
    if n < 10 {
        let mut v: Vec<char> = Vec::new();
        v.push(digit_to_char(n));
        assert(v@ =~= seq![digit_char(n as nat)]);
        v
    } else {
        let mut v = decimal_chars(n / 10);
        v.push(digit_to_char(n % 10));
        v
    }
}

/// The decimal digits of `n`, with leading zeros up to `width` characters.
pub fn padded_decimal_chars(n: u64, width: usize) -> (v: Vec<char>)
    ensures
        v@ == zero_padded(decimal(n as nat), width as nat),
{
    let digits = decimal_chars(n);
    if digits.len() >= width {
        digits
    } else {
        let mut v: Vec<char> = Vec::new();
        let k = width - digits.len();
        let mut i: usize = 0;
        while i < k
            invariant
                0 <= i <= k,
                v@ =~= Seq::new(i as nat, |j: int| '0'),
            decreases k - i,
        {
            v.push('0');
            i += 1;
        }
        push_chars(&mut v, &digits);
        v
    }
}

pub fn is_digit_char(c: char) -> (b: bool)
    ensures
        b == is_digit(c),
{
    '0' <= c && c <= '9'
}

pub fn char_digit_value(c: char) -> (d: u64)
    requires
        is_digit(c),
    ensures
        d == digit_value(c),
        d < 10,
{
    let u = c as u32;
    (u - 48) as u64
}

/// `u64::from_str` on `v[lo..hi]`.
pub fn parse_u64_range(v: &Vec<char>, lo: usize, hi: usize) -> (r: Option<u64>)
    requires
        lo <= hi <= v@.len(),
    ensures
        r == parse_u64_spec(v@.subrange(lo as int, hi as int)),
{
    let ghost s = v@.subrange(lo as int, hi as int);
    let mut start = lo;
    if lo < hi && v[lo] == '+' {
        start = lo + 1;
    }
    let ghost b = v@.subrange(start as int, hi as int);
    assert(u64_text_body(s) =~= b);
    if start == hi {
        return None;
    }
    let mut acc: u64 = 0;
    let mut i = start;
    while i < hi
        invariant
            lo <= start <= i <= hi <= v@.len(),
            b == v@.subrange(start as int, hi as int),
            u64_text_body(v@.subrange(lo as int, hi as int)) == b,
            b.len() > 0,
            all_digits(b.take(i - start)),
            acc == digits_value(b.take(i - start)),
        decreases hi - i,
    {
        let c = v[i];
        if !is_digit_char(c) {
            assert(b[(i - start) as int] == c);
            assert(!is_digit(b[(i - start) as int]));
            assert(!all_digits(b));
            return None;
        }
        let d = char_digit_value(c);
        proof {
            lemma_digits_value_step(b, i - start);
        }
        if acc > (u64::MAX - d) / 10 {
            proof {
                lemma_digits_value_prefix(b, i - start + 1);
                assert(acc * 10 + d > u64::MAX) by (nonlinear_arith)
                    requires
                        acc > (u64::MAX - d) / 10,
                        d < 10,
                ;
            }
            assert(digits_value(b) > u64::MAX);
            return None;
        }
        acc = acc * 10 + d;
        i += 1;
        assert(b.take(i - start) =~= b.take(i - 1 - start).push(c));
    }
    assert(b.take(i - start) =~= b);
    Some(acc)
}

pub fn is_whitespace_char(c: char) -> (b: bool)
    ensures
        b == is_whitespace(c),
{
    let u = c as u32;
    (0x09 <= u && u <= 0x0d) || u == 0x20 || u == 0x85 || u == 0xa0 || u == 0x1680 || (0x2000
        <= u && u <= 0x200a) || u == 0x2028 || u == 0x2029 || u == 0x202f || u == 0x205f || u
        == 0x3000
}

pub proof fn lemma_trim_start_step(s: Seq<char>, lo: int, hi: int)
    requires
        0 <= lo < hi <= s.len(),
        is_whitespace(s[lo]),
    ensures
        trim_start(s.subrange(lo, hi)) == trim_start(s.subrange(lo + 1, hi)),
{
    assert(s.subrange(lo, hi).drop_first() =~= s.subrange(lo + 1, hi));
}

pub proof fn lemma_trim_end_step(s: Seq<char>, lo: int, hi: int)
    requires
        0 <= lo < hi <= s.len(),
        is_whitespace(s[hi - 1]),
    ensures
        trim_end(s.subrange(lo, hi)) == trim_end(s.subrange(lo, hi - 1)),
{
    assert(s.subrange(lo, hi).drop_last() =~= s.subrange(lo, hi - 1));
}

/// The end of `trim_end(v[lo..hi])` inside `v`.
pub fn trim_end_range(v: &Vec<char>, lo: usize, hi: usize) -> (b: usize)
    requires
        lo <= hi <= v@.len(),
    ensures
        lo <= b <= hi,
        v@.subrange(lo as int, b as int) == trim_end(v@.subrange(lo as int, hi as int)),
{
    let mut b = hi;
    while b > lo && is_whitespace_char(v[b - 1])
        invariant
            lo <= b <= hi <= v@.len(),
            trim_end(v@.subrange(lo as int, hi as int)) == trim_end(v@.subrange(lo as int, b as int)),
        decreases b - lo,
    {
        proof {
            lemma_trim_end_step(v@, lo as int, b as int);
        }
        b -= 1;
    }
    b
}

/// The bounds of `trim(v[lo..hi])` inside `v`.
pub fn trim_range(v: &Vec<char>, lo: usize, hi: usize) -> (r: (usize, usize))
    requires
        lo <= hi <= v@.len(),
    ensures
        lo <= r.0 <= r.1 <= hi,
        v@.subrange(r.0 as int, r.1 as int) == trim(v@.subrange(lo as int, hi as int)),
        hi - r.0 == trim_start(v@.subrange(lo as int, hi as int)).len(),
{
    let mut a = lo;
    while a < hi && is_whitespace_char(v[a])
        invariant
            lo <= a <= hi <= v@.len(),
            trim_start(v@.subrange(lo as int, hi as int)) == trim_start(
                v@.subrange(a as int, hi as int),
            ),
        decreases hi - a,
    {
        proof {
            lemma_trim_start_step(v@, a as int, hi as int);
        }
        a += 1;
    }
    assert(trim_start(v@.subrange(a as int, hi as int)) == v@.subrange(a as int, hi as int));
    let mut b = hi;
    while b > a && is_whitespace_char(v[b - 1])
        invariant
            lo <= a <= b <= hi <= v@.len(),
            trim_end(v@.subrange(a as int, hi as int)) == trim_end(
                v@.subrange(a as int, b as int),
            ),
        decreases b - a,
    {
        proof {
            lemma_trim_end_step(v@, a as int, b as int);
        }
        b -= 1;
    }
    assert(v@.subrange(a as int, hi as int).len() == hi - a);
    (a, b)
}

/// The index of the first `c` in `v[lo..hi]`, counted from `lo`.
pub fn find_char_range(v: &Vec<char>, lo: usize, hi: usize, c: char) -> (r: Option<usize>)
    requires
        lo <= hi <= v@.len(),
    ensures
        match r {
            Some(i) => lo <= i < hi && find_char(v@.subrange(lo as int, hi as int), c) == Some(
                i - lo,
            ),
            None => find_char(v@.subrange(lo as int, hi as int), c) is None,
        },
{
    let mut i = lo;
    while i < hi
        invariant
            lo <= i <= hi <= v@.len(),
            forall|k: int| lo <= k < i ==> v@[k] != c,
        decreases hi - i,
    {
        if v[i] == c {
            proof {
                lemma_find_char_at(v@, lo as int, hi as int, i as int, c);
            }
            return Some(i);
        }
        i += 1;
    }
    proof {
        lemma_find_char_none(v@, lo as int, hi as int, c);
    }
    None
}

pub proof fn lemma_find_char_at(s: Seq<char>, lo: int, hi: int, i: int, c: char)
    requires
        0 <= lo <= i < hi <= s.len(),
        s[i] == c,
        forall|k: int| lo <= k < i ==> s[k] != c,
    ensures
        find_char(s.subrange(lo, hi), c) == Some(i - lo),
    decreases i - lo,
{
    if lo < i {
        lemma_find_char_at(s, lo + 1, hi, i, c);
        assert(s.subrange(lo, hi).drop_first() =~= s.subrange(lo + 1, hi));
    }
}

pub proof fn lemma_find_char_none(s: Seq<char>, lo: int, hi: int, c: char)
    requires
        0 <= lo <= hi <= s.len(),
        forall|k: int| lo <= k < hi ==> s[k] != c,
    ensures
        find_char(s.subrange(lo, hi), c) is None,
    decreases hi - lo,
{
    if lo < hi {
        lemma_find_char_none(s, lo + 1, hi, c);
        assert(s.subrange(lo, hi).drop_first() =~= s.subrange(lo + 1, hi));
    }
}

pub proof fn lemma_find_char_bounds(s: Seq<char>, c: char)
    ensures
        find_char(s, c) matches Some(i) ==> 0 <= i < s.len() && s[i] == c && forall|k: int|
            0 <= k < i ==> s[k] != c,
        find_char(s, c) is None ==> forall|k: int| 0 <= k < s.len() ==> s[k] != c,
    decreases s.len(),
{
    if s.len() > 0 && s[0] != c {
        let t = s.drop_first();
        lemma_find_char_bounds(t, c);
        match find_char(t, c) {
            Some(j) => {
                assert(find_char(s, c) == Some(j + 1));
                assert forall|k: int| 0 <= k < j + 1 implies s[k] != c by {
                    if k > 0 {
                        assert(s[k] == t[k - 1]);
                    }
                }
            },
            None => {
                assert(find_char(s, c) is None);
                assert forall|k: int| 0 <= k < s.len() implies s[k] != c by {
                    if k > 0 {
                        assert(s[k] == t[k - 1]);
                    }
                }
            },
        }
    }
}

} // verus!

verus! {

/// The texts of `ranges` inside `s`.
pub open spec fn range_texts(s: Seq<char>, ranges: Seq<(usize, usize)>) -> Seq<Seq<char>> {
    Seq::new(ranges.len(), |i: int| s.subrange(ranges[i].0 as int, ranges[i].1 as int))
}

pub open spec fn ranges_within(ranges: Seq<(usize, usize)>, len: int) -> bool {
    forall|i: int| 0 <= i < ranges.len() ==> #[trigger] ranges[i].0 <= ranges[i].1 && ranges[i].1 <= len
}

/// `str::lines` on `v`, as the character ranges of the lines.
pub fn line_ranges(v: &Vec<char>) -> (r: Vec<(usize, usize)>)
    ensures
        ranges_within(r@, v@.len() as int),
        range_texts(v@, r@) == lines(v@),
{
    let mut r: Vec<(usize, usize)> = Vec::new();
    let n = v.len();
    let mut p: usize = 0;
    assert(v@.subrange(0, n as int) =~= v@);
    while p < n
        invariant
            0 <= p <= n == v@.len(),
            ranges_within(r@, n as int),
            lines(v@) == range_texts(v@, r@) + lines(v@.subrange(p as int, n as int)),
        decreases n - p,
    {
        let ghost sub = v@.subrange(p as int, n as int);
        let ghost old_r = r@;
        match find_char_range(v, p, n, '\n') {
            Some(j) => {
                let end = if j > p && v[j - 1] == '\r' {
                    j - 1
                } else {
                    j
                };
                r.push((p, end));
                proof {
                    assert(sub.take(j - p) =~= v@.subrange(p as int, j as int));
                    assert(sub.skip(j - p + 1) =~= v@.subrange(j + 1, n as int));
                    assert(strip_cr(sub.take(j - p)) =~= v@.subrange(p as int, end as int));
                    assert(lines(sub) == seq![v@.subrange(p as int, end as int)] + lines(
                        v@.subrange(j + 1, n as int),
                    ));
                    assert(range_texts(v@, r@) =~= range_texts(v@, old_r).push(
                        v@.subrange(p as int, end as int),
                    ));
                }
                p = j + 1;
            },
            None => {
                r.push((p, n));
                proof {
                    assert(lines(sub) == seq![sub]);
                    assert(range_texts(v@, r@) =~= range_texts(v@, old_r).push(sub));
                    assert(v@.subrange(n as int, n as int) =~= Seq::<char>::empty());
                }
                p = n;
            },
        }
    }
    assert(lines(v@.subrange(p as int, n as int)) =~= Seq::<Seq<char>>::empty());
    assert(lines(v@) =~= range_texts(v@, r@));
    r
}

} // verus!

verus! {

/// `str::split` at every `c`.
pub open spec fn split_char(s: Seq<char>, c: char) -> Seq<Seq<char>>
    decreases s.len(),
{
    match find_char(s, c) {
        Some(i) => if 0 <= i < s.len() {
            seq![s.take(i)] + split_char(s.skip(i + 1), c)
        } else {
            seq![s]
        },
        None => seq![s],
    }
}

/// The number of bytes of `c` in UTF-8.
pub open spec fn utf8_len(c: char) -> nat {
    let u = c as u32;
    if u < 0x80 {
        1
    } else if u < 0x800 {
        2
    } else if u < 0x10000 {
        3
    } else {
        4
    }
}

/// The number of bytes of `s` in UTF-8.
pub open spec fn utf8_bytes_len(s: Seq<char>) -> nat
    decreases s.len(),
{
    if s.len() == 0 {
        0
    } else {
        utf8_bytes_len(s.drop_last()) + utf8_len(s.last())
    }
}

pub fn utf8_len_char(c: char) -> (n: usize)
    ensures
        n == utf8_len(c),
{
    let u = c as u32;
    if u < 0x80 {
        1
    } else if u < 0x800 {
        2
    } else if u < 0x10000 {
        3
    } else {
        4
    }
}

/// The ranges of `v[lo..hi]` between the `c`s, as `str::split` yields them.
pub fn split_ranges(v: &Vec<char>, lo: usize, hi: usize, c: char) -> (r: Vec<(usize, usize)>)
    requires
        lo <= hi <= v@.len(),
    ensures
        ranges_within(r@, hi as int),
        forall|i: int| 0 <= i < r@.len() ==> lo <= #[trigger] r@[i].0,
        range_texts(v@, r@) == split_char(v@.subrange(lo as int, hi as int), c),
{
    let mut r: Vec<(usize, usize)> = Vec::new();
    let mut p = lo;
    loop
        invariant
            lo <= p <= hi <= v@.len(),
            ranges_within(r@, hi as int),
            forall|i: int| 0 <= i < r@.len() ==> lo <= #[trigger] r@[i].0,
            split_char(v@.subrange(lo as int, hi as int), c) == range_texts(v@, r@)
                + split_char(v@.subrange(p as int, hi as int), c),
        decreases hi - p,
    {
        let ghost sub = v@.subrange(p as int, hi as int);
        let ghost old_r = r@;
        match find_char_range(v, p, hi, c) {
            Some(j) => {
                r.push((p, j));
                proof {
                    assert forall|i: int| 0 <= i < r@.len() implies #[trigger] r@[i].0 <= r@[i].1
                        && r@[i].1 <= hi && lo <= r@[i].0 by {
                        if i < old_r.len() {
                            assert(r@[i] == old_r[i]);
                        }
                    }
                    assert(sub.take(j - p) =~= v@.subrange(p as int, j as int));
                    assert(sub.skip(j - p + 1) =~= v@.subrange(j + 1, hi as int));
                    assert(range_texts(v@, r@) =~= range_texts(v@, old_r).push(
                        v@.subrange(p as int, j as int),
                    ));
                    assert(split_char(sub, c) == seq![v@.subrange(p as int, j as int)]
                        + split_char(v@.subrange(j + 1, hi as int), c));
                    assert(range_texts(v@, old_r) + split_char(sub, c) =~= range_texts(v@, r@)
                        + split_char(v@.subrange(j + 1, hi as int), c));
                }
                p = j + 1;
            },
            None => {
                r.push((p, hi));
                proof {
                    assert(range_texts(v@, r@) =~= range_texts(v@, old_r).push(sub));
                    assert(split_char(sub, c) == seq![sub]);
                    assert(range_texts(v@, old_r) + split_char(sub, c) =~= range_texts(v@, r@));
                }
                return r;
            },
        }
    }
}

} // verus!

verus! {

pub proof fn lemma_find_char_absent(s: Seq<char>, c: char)
    requires
        forall|k: int| 0 <= k < s.len() ==> s[k] != c,
    ensures
        find_char(s, c) is None,
{
    lemma_find_char_none(s, 0, s.len() as int, c);
    assert(s.subrange(0, s.len() as int) =~= s);
}

/// The first `c` of `a + [c] + b`, where `a` has none, is right after `a`.
pub proof fn lemma_find_char_after(a: Seq<char>, c: char, b: Seq<char>)
    requires
        forall|k: int| 0 <= k < a.len() ==> a[k] != c,
    ensures
        find_char(a + seq![c] + b, c) == Some(a.len() as int),
{
    let s = a + seq![c] + b;
    lemma_find_char_at(s, 0, s.len() as int, a.len() as int, c);
    assert(s.subrange(0, s.len() as int) =~= s);
}

pub proof fn lemma_split_after(a: Seq<char>, c: char, b: Seq<char>)
    requires
        forall|k: int| 0 <= k < a.len() ==> a[k] != c,
    ensures
        split_char(a + seq![c] + b, c) == seq![a] + split_char(b, c),
{
    let s = a + seq![c] + b;
    lemma_find_char_after(a, c, b);
    assert(s.take(a.len() as int) =~= a);
    assert(s.skip(a.len() as int + 1) =~= b);
}

pub proof fn lemma_split_none(a: Seq<char>, c: char)
    requires
        forall|k: int| 0 <= k < a.len() ==> a[k] != c,
    ensures
        split_char(a, c) == seq![a],
{
    lemma_find_char_absent(a, c);
}

/// The decimal text of a number, however padded, reads back as it.
pub proof fn lemma_parse_padded_decimal(n: nat, width: nat)
    requires
        n <= u64::MAX,
    ensures
        parse_u64_spec(zero_padded(decimal(n), width)) == Some(n as u64),
{
    lemma_zero_padded(n, width);
    let s = zero_padded(decimal(n), width);
    assert(is_digit(s[0]));
    assert(u64_text_body(s) == s);
}

pub proof fn lemma_trim_unchanged(s: Seq<char>)
    requires
        s.len() > 0,
        !is_whitespace(s[0]),
        !is_whitespace(s.last()),
    ensures
        trim(s) == s,
{
}

pub proof fn lemma_digits_no_char(s: Seq<char>, c: char)
    requires
        all_digits(s),
        !is_digit(c),
    ensures
        forall|k: int| 0 <= k < s.len() ==> s[k] != c,
{
    assert forall|k: int| 0 <= k < s.len() implies s[k] != c by {
        assert(is_digit(s[k]));
    }
}

pub proof fn lemma_digits_value_concat(a: Seq<char>, b: Seq<char>)
    ensures
        digits_value(a + b) == digits_value(a) * pow10(b.len()) + digits_value(b),
    decreases b.len(),
{
    if b.len() == 0 {
        assert(a + b =~= a);
        assert(pow10(0) == 1);
        assert(digits_value(b) == 0);
        assert(digits_value(a) * 1 == digits_value(a));
    } else {
        lemma_digits_value_concat(a, b.drop_last());
        assert((a + b).drop_last() =~= a + b.drop_last());
        let x = digits_value(a);
        let p = pow10((b.len() - 1) as nat);
        let y = digits_value(b.drop_last());
        let dd = digit_value(b.last());
        assert((a + b).last() == b.last());
        assert(digits_value(a + b) == digits_value(a + b.drop_last()) * 10 + dd);
        assert(digits_value(b) == y * 10 + dd);
        assert(pow10(b.len()) == 10 * p);
        assert((x * p + y) * 10 + dd == x * (10 * p) + (y * 10 + dd)) by (nonlinear_arith);
    }
}

/// `format!("{:?}", s)`: `s` quoted and escaped as `Debug` shows a `str`.
pub uninterp spec fn debug_str(s: Seq<char>) -> Seq<char>;

/// Calls `<str as Debug>::fmt` through `format!`; the text is named
/// `debug_str` of the argument and nothing more is claimed of it.
#[verifier::external_body]
pub(crate) fn debug_quoted(s: &str) -> (r: String)
    ensures
        r@ == debug_str(s@),
{
    format!("{s:?}")
}

/// Whether two texts hold the same characters.
pub fn str_equal(a: &str, b: &str) -> (r: bool)
    ensures
        r == (a@ == b@),
{
    let x = str_chars(a);
    let y = str_chars(b);
    if x.len() != y.len() {
        return false;
    }
    let mut i: usize = 0;
    while i < x.len()
        invariant
            0 <= i <= x@.len() == y@.len(),
            x@ == a@,
            y@ == b@,
            forall|k: int| 0 <= k < i ==> x@[k] == y@[k],
        decreases x.len() - i,
    {
        if x[i] != y[i] {
            assert(a@[i as int] != b@[i as int]);
            return false;
        }
        i += 1;
    }
    assert(x@ =~= y@);
    true
}

/// A `String` holding the characters of `s`.
pub fn string_of(s: &str) -> (r: String)
    ensures
        r@ == s@,
{
    let v = str_chars(s);
    string_from_chars(&v)
}

/// Appends the decimal digits of `n` to `out`.
pub fn push_decimal(out: &mut Vec<char>, n: u64)
    ensures
        final(out)@ == old(out)@ + decimal(n as nat),
{
    let d = decimal_chars(n);
    push_chars(out, &d);
}

} // verus!

verus! {

/// Whether `key` occurs in `s` at index `k`.
pub open spec fn occurs_at(s: Seq<char>, k: int, key: Seq<char>) -> bool {
    s.subrange(k, k + key.len()) == key
}

/// The index of the first occurrence of `key` in `s`.
pub open spec fn find_sub(s: Seq<char>, key: Seq<char>) -> Option<int>
    decreases s.len(),
{
    if s.len() < key.len() {
        None
    } else if s.take(key.len() as int) == key {
        Some(0)
    } else if s.len() == 0 {
        None
    } else {
        match find_sub(s.drop_first(), key) {
            Some(i) => Some(i + 1),
            None => None,
        }
    }
}

pub proof fn lemma_find_sub_at(s: Seq<char>, lo: int, hi: int, i: int, key: Seq<char>)
    requires
        0 <= lo <= i,
        i + key.len() <= hi <= s.len(),
        s.subrange(i, i + key.len()) == key,
        forall|k: int| lo <= k < i ==> !#[trigger] occurs_at(s, k, key),
    ensures
        find_sub(s.subrange(lo, hi), key) == Some(i - lo),
    decreases i - lo,
{
    let t = s.subrange(lo, hi);
    if lo < i {
        assert(!occurs_at(s, lo, key));
        lemma_find_sub_at(s, lo + 1, hi, i, key);
        assert(t.drop_first() =~= s.subrange(lo + 1, hi));
        assert(t.take(key.len() as int) =~= s.subrange(lo, lo + key.len()));
    } else {
        assert(t.take(key.len() as int) =~= s.subrange(lo, lo + key.len()));
    }
}

pub proof fn lemma_find_sub_none(s: Seq<char>, lo: int, hi: int, key: Seq<char>)
    requires
        0 <= lo <= hi <= s.len(),
        forall|k: int| lo <= k && k + key.len() <= hi ==> !#[trigger] occurs_at(s, k, key),
    ensures
        find_sub(s.subrange(lo, hi), key) is None,
    decreases hi - lo,
{
    let t = s.subrange(lo, hi);
    if t.len() >= key.len() {
        if key.len() == 0 {
            assert(s.subrange(lo, lo) =~= key);
        }
        assert(!occurs_at(s, lo, key));
        assert(t.take(key.len() as int) =~= s.subrange(lo, lo + key.len()));
        assert(key.len() > 0);
        lemma_find_sub_none(s, lo + 1, hi, key);
        assert(t.drop_first() =~= s.subrange(lo + 1, hi));
    }
}

/// Whether `v[i..i + key.len()]` is `key`.
pub fn matches_at(v: &Vec<char>, i: usize, key: &Vec<char>) -> (b: bool)
    requires
        i + key@.len() <= v@.len(),
    ensures
        b == (v@.subrange(i as int, i + key@.len()) == key@),
{
    let n = v.len();
    let mut k: usize = 0;
    while k < key.len()
        invariant
            0 <= k <= key@.len(),
            n == v@.len(),
            i + key@.len() <= v@.len(),
            forall|j: int| 0 <= j < k ==> v@[i + j] == key@[j],
        decreases key.len() - k,
    {
        assert(i + k < v@.len());
        if v[i + k] != key[k] {
            assert(v@.subrange(i as int, i + key@.len())[k as int] != key@[k as int]);
            return false;
        }
        k += 1;
    }
    assert(v@.subrange(i as int, i + key@.len()) =~= key@);
    true
}

/// The index of the first occurrence of `key` in `v[lo..hi]`, counted in `v`.
pub fn find_sub_range(v: &Vec<char>, lo: usize, hi: usize, key: &Vec<char>) -> (r: Option<usize>)
    requires
        lo <= hi <= v@.len(),
    ensures
        match r {
            Some(i) => lo <= i && i + key@.len() <= hi && find_sub(v@.subrange(lo as int, hi as int), key@)
                == Some(i - lo),
            None => find_sub(v@.subrange(lo as int, hi as int), key@) is None,
        },
{
    if key.len() > hi - lo {
        proof {
            lemma_find_sub_none(v@, lo as int, hi as int, key@);
        }
        return None;
    }
    if key.len() == 0 {
        proof {
            assert(v@.subrange(lo as int, lo as int) =~= key@);
            lemma_find_sub_at(v@, lo as int, hi as int, lo as int, key@);
        }
        return Some(lo);
    }
    let mut i = lo;
    while key.len() <= hi - i
        invariant
            lo <= i <= hi <= v@.len(),
            key@.len() >= 1,
            forall|k: int| lo <= k < i ==> !#[trigger] occurs_at(v@, k, key@),
        decreases hi - i,
    {
        if matches_at(v, i, key) {
            proof {
                lemma_find_sub_at(v@, lo as int, hi as int, i as int, key@);
            }
            return Some(i);
        }
        i += 1;
    }
    proof {
        lemma_find_sub_none(v@, lo as int, hi as int, key@);
    }
    None
}

/// The first run of non-whitespace characters of `s`.
pub open spec fn first_token(s: Seq<char>) -> Option<Seq<char>> {
    let t = trim_start(s);
    if t.len() == 0 {
        None
    } else {
        match find_whitespace(t) {
            Some(i) => Some(t.take(i)),
            None => Some(t),
        }
    }
}

/// The index of the first whitespace character of `s`.
pub open spec fn find_whitespace(s: Seq<char>) -> Option<int>
    decreases s.len(),
{
    if s.len() == 0 {
        None
    } else if is_whitespace(s[0]) {
        Some(0)
    } else {
        match find_whitespace(s.drop_first()) {
            Some(i) => Some(i + 1),
            None => None,
        }
    }
}

/// `s` without the `c`s at its end.
pub open spec fn trim_end_char(s: Seq<char>, c: char) -> Seq<char>
    decreases s.len(),
{
    if s.len() > 0 && s.last() == c {
        trim_end_char(s.drop_last(), c)
    } else {
        s
    }
}

/// The range of the first whitespace-delimited token of `v[lo..hi]`.
pub fn first_token_range(v: &Vec<char>, lo: usize, hi: usize) -> (r: Option<(usize, usize)>)
    requires
        lo <= hi <= v@.len(),
    ensures
        match first_token(v@.subrange(lo as int, hi as int)) {
            Some(t) => r matches Some(p) && lo <= p.0 <= p.1 <= hi && v@.subrange(
                p.0 as int,
                p.1 as int,
            ) == t,
            None => r is None,
        },
{
    let mut a = lo;
    while a < hi && is_whitespace_char(v[a])
        invariant
            lo <= a <= hi <= v@.len(),
            trim_start(v@.subrange(lo as int, hi as int)) == trim_start(
                v@.subrange(a as int, hi as int),
            ),
        decreases hi - a,
    {
        proof {
            lemma_trim_start_step(v@, a as int, hi as int);
        }
        a += 1;
    }
    let ghost t = v@.subrange(a as int, hi as int);
    assert(trim_start(t) == t);
    if a == hi {
        return None;
    }
    let mut b = a;
    while b < hi && !is_whitespace_char(v[b])
        invariant
            a <= b <= hi <= v@.len(),
            t == v@.subrange(a as int, hi as int),
            find_whitespace(t) == match find_whitespace(v@.subrange(b as int, hi as int)) {
                Some(i) => Some(i + (b - a)),
                None => None,
            },
        decreases hi - b,
    {
        assert(v@.subrange(b as int, hi as int).drop_first() =~= v@.subrange(b + 1, hi as int));
        b += 1;
    }
    if b < hi {
        assert(find_whitespace(v@.subrange(b as int, hi as int)) == Some(0int));
        assert(t.take(b - a) =~= v@.subrange(a as int, b as int));
    } else {
        assert(find_whitespace(v@.subrange(b as int, hi as int)) is None);
    }
    Some((a, b))
}

/// The end of `trim_end_char(v[lo..hi], c)`.
pub fn trim_end_char_range(v: &Vec<char>, lo: usize, hi: usize, c: char) -> (e: usize)
    requires
        lo <= hi <= v@.len(),
    ensures
        lo <= e <= hi,
        v@.subrange(lo as int, e as int) == trim_end_char(v@.subrange(lo as int, hi as int), c),
{
    let mut b = hi;
    while b > lo && v[b - 1] == c
        invariant
            lo <= b <= hi <= v@.len(),
            trim_end_char(v@.subrange(lo as int, hi as int), c) == trim_end_char(
                v@.subrange(lo as int, b as int),
                c,
            ),
        decreases b - lo,
    {
        assert(v@.subrange(lo as int, b as int).drop_last() =~= v@.subrange(lo as int, b - 1));
        b -= 1;
    }
    b
}

pub proof fn lemma_utf8_bytes_len_first(s: Seq<char>)
    requires
        s.len() > 0,
    ensures
        utf8_bytes_len(s) == utf8_len(s[0]) + utf8_bytes_len(s.drop_first()),
    decreases s.len(),
{
    if s.len() > 1 {
        let d = s.drop_last();
        lemma_utf8_bytes_len_first(d);
        assert(d.drop_first() =~= s.drop_first().drop_last());
        assert(d[0] == s[0]);
        assert(s.drop_first().last() == s.last());
        assert(utf8_bytes_len(s) == utf8_bytes_len(d) + utf8_len(s.last()));
        assert(utf8_bytes_len(s.drop_first()) == utf8_bytes_len(s.drop_first().drop_last()) + utf8_len(
            s.drop_first().last(),
        ));
    } else {
        assert(s.drop_first().len() == 0);
        assert(s.drop_last().len() == 0);
        assert(utf8_bytes_len(s) == utf8_bytes_len(s.drop_last()) + utf8_len(s.last()));
        assert(s.last() == s[0]);
    }
}

/// `utf8_bytes_len` counts the bytes that vstd's `encode_utf8` gives.
pub proof fn lemma_encode_utf8_len(s: Seq<char>)
    ensures
        encode_utf8(s).len() == utf8_bytes_len(s),
    decreases s.len(),
{
    if s.len() > 0 {
        lemma_encode_utf8_len(s.drop_first());
        lemma_utf8_bytes_len_first(s);
        let c = s[0];
        let u = c as u32;
        vstd::utf8::char_is_scalar(c);
        assert(encode_scalar(u).len() == utf8_len(c));
    }
}

/// The bytes of a prefix are no more than the bytes of the whole.
pub proof fn lemma_utf8_prefix_monotonic(s: Seq<char>, i: int, j: int)
    requires
        0 <= i <= j <= s.len(),
    ensures
        utf8_bytes_len(s.take(i)) <= utf8_bytes_len(s.take(j)),
    decreases j - i,
{
    if i < j {
        lemma_utf8_prefix_monotonic(s, i, j - 1);
        assert(s.take(j).drop_last() =~= s.take(j - 1));
    }
}

/// The UTF-8 byte offset of every character position of `v`, and of its
/// end.
pub fn byte_offsets(v: &Vec<char>, total_bytes: usize) -> (r: Vec<usize>)
    requires
        utf8_bytes_len(v@) == total_bytes,
    ensures
        r@.len() == v@.len() + 1,
        forall|i: int| 0 <= i <= v@.len() ==> #[trigger] r@[i] == utf8_bytes_len(v@.take(i)),
{
    let mut r: Vec<usize> = Vec::new();
    r.push(0);
    assert(v@.take(0) =~= Seq::<char>::empty());
    let mut acc: usize = 0;
    let mut i: usize = 0;
    while i < v.len()
        invariant
            0 <= i <= v@.len(),
            utf8_bytes_len(v@) == total_bytes,
            acc == utf8_bytes_len(v@.take(i as int)),
            r@.len() == i + 1,
            forall|j: int| 0 <= j <= i ==> #[trigger] r@[j] == utf8_bytes_len(v@.take(j)),
        decreases v.len() - i,
    {
        proof {
            assert(v@.take(i + 1).drop_last() =~= v@.take(i as int));
            lemma_utf8_prefix_monotonic(v@, i + 1, v@.len() as int);
            assert(v@.take(v@.len() as int) =~= v@);
        }
        acc = acc + utf8_len_char(v[i]);
        r.push(acc);
        i += 1;
    }
    r
}

} // verus!
