//! Physical dimensions: a number with an optional unit, held exactly in
//! millionths of a point.
use vstd::prelude::*;
use crate::fonts::{lower_of, str_equal, to_lower};

verus! {

/// Millionths of a point in one point.
pub const MICRO: i64 = 1_000_000;

/// The largest magnitude a parsed dimension may have, in millionths of a
/// point (one thousand million points).
pub const MAX_MICRO: i64 = 1_000_000_000_000_000;

/// A length in millionths of a point (1/72 inch).
#[derive(Debug, Clone, Copy, PartialEq, Eq, Structural)]
pub struct Dimension(pub i64);

impl Dimension {
    /// The length in millionths of a point.
    pub fn micro_points(&self) -> (r: i64)
        ensures
            r == self.0,
    {
        self.0
    }

    /// A whole number of points.
    pub fn from_points(points: i64) -> (r: Dimension)
        requires
            -1_000_000_000_000 <= points <= 1_000_000_000_000,
        ensures
            r.0 == points * MICRO,
    {
        Dimension(points * MICRO)
    }
}

#[derive(Debug, Clone, Copy, PartialEq, Eq, Structural)]
pub enum Unit {
    Point,
    Millimetre,
    Centimetre,
    Inch,
}

/// Why a dimension text was refused.
#[derive(Debug, Clone, PartialEq, Eq)]
pub enum DimensionError {
    /// The number part is not a decimal number within range.
    InvalidNumber(String),
    /// The unit is not one of pt, mm, cm, in (or their long forms).
    UnknownUnit(String),
}

/// The Unicode White_Space characters, the ones `char::is_whitespace`
/// accepts: tab to carriage return, space, next line, no-break space, ogham
/// space mark, the spaces U+2000 to U+200A, line and paragraph separators,
/// narrow no-break space, medium mathematical space and ideographic space.
pub open spec fn white(c: char) -> bool {
    let v = c as u32;
    ||| 0x09 <= v <= 0x0D
    ||| v == 0x20
    ||| v == 0x85
    ||| v == 0xA0
    ||| v == 0x1680
    ||| 0x2000 <= v <= 0x200A
    ||| v == 0x2028
    ||| v == 0x2029
    ||| v == 0x202F
    ||| v == 0x205F
    ||| v == 0x3000
}

fn is_space(c: char) -> (r: bool)
    ensures
        r == white(c),
{
    let v = c as u32;
    (0x09 <= v && v <= 0x0D) || v == 0x20 || v == 0x85 || v == 0xA0 || v == 0x1680 || (0x2000
        <= v && v <= 0x200A) || v == 0x2028 || v == 0x2029 || v == 0x202F || v == 0x205F || v
        == 0x3000
}

pub open spec fn leading_white(s: Seq<char>) -> nat
    decreases s.len(),
{
    if s.len() == 0 {
        0
    } else if white(s[0]) {
        1 + leading_white(s.drop_first())
    } else {
        0
    }
}

pub open spec fn trailing_white(s: Seq<char>) -> nat
    decreases s.len(),
{
    if s.len() == 0 {
        0
    } else if white(s.last()) {
        1 + trailing_white(s.drop_last())
    } else {
        0
    }
}

/// The text without white space at either end.
pub open spec fn trimmed(s: Seq<char>) -> Seq<char> {
    let a = s.subrange(leading_white(s) as int, s.len() as int);
    a.subrange(0, a.len() - trailing_white(a))
}

/// Where the number part of a dimension ends: at the first white space or
/// `m`, `c`, `i`; else at the end.
pub open spec fn number_end(s: Seq<char>) -> nat
    decreases s.len(),
{
    if s.len() == 0 {
        0
    } else if white(s[0]) || s[0] == 'm' || s[0] == 'c' || s[0] == 'i' {
        0
    } else {
        1 + number_end(s.drop_first())
    }
}

pub open spec fn index_of(s: Seq<char>, c: char) -> nat
    decreases s.len(),
{
    if s.len() == 0 {
        0
    } else if s[0] == c {
        0
    } else {
        1 + index_of(s.drop_first(), c)
    }
}

proof fn lemma_index_of_le(s: Seq<char>, c: char)
    ensures
        index_of(s, c) <= s.len(),
        index_of(s, c) < s.len() ==> s[index_of(s, c) as int] == c,
        forall|j: int| 0 <= j < index_of(s, c) ==> s[j] != c,
    decreases s.len(),
{
    if s.len() > 0 && s[0] != c {
        lemma_index_of_le(s.drop_first(), c);
        assert forall|j: int| 0 <= j < index_of(s, c) implies s[j] != c by {
            if j > 0 {
                assert(s.drop_first()[j - 1] == s[j]);
            }
        }
    }
}

/// The text without white space at either end.
pub fn trim_text(s: &str) -> (r: &str)
    ensures
        r@ == trimmed(s@),
{
    let n = s.unicode_len();
    let mut i: usize = 0;
    assert(s@.subrange(0, n as int) =~= s@);
    while i < n && is_space(s.get_char(i))
        invariant
            i <= n,
            n == s@.len(),
            leading_white(s@) == i + leading_white(s@.subrange(i as int, n as int)),
        decreases n - i,
    {
        let ghost t = s@.subrange(i as int, n as int);
        assert(t.drop_first() =~= s@.subrange(i + 1, n as int));
        i = i + 1;
    }
    proof {
        let t = s@.subrange(i as int, n as int);
        if i < n {
            assert(t[0] == s@[i as int]);
        }
        assert(leading_white(s@) == i);
    }
    let a = s.substring_char(i, n);
    let m = a.unicode_len();
    let mut k: usize = 0;
    assert(a@.subrange(0, m as int) =~= a@);
    while k < m && is_space(a.get_char(m - 1 - k))
        invariant
            k <= m,
            m == a@.len(),
            trailing_white(a@) == k + trailing_white(a@.subrange(0, m - k)),
        decreases m - k,
    {
        let ghost t = a@.subrange(0, m - k);
        assert(t.drop_last() =~= a@.subrange(0, m - k - 1));
        assert(t.last() == a@[m - 1 - k]);
        k = k + 1;
    }
    proof {
        let t = a@.subrange(0, m - k);
        if k < m {
            assert(t.last() == a@[m - 1 - k]);
        }
        assert(trailing_white(a@) == k);
    }
    a.substring_char(0, m - k)
}

/// Where the number part ends: the first white space or `m`, `c`, `i`.
fn find_number_end(s: &str) -> (r: usize)
    ensures
        r == number_end(s@),
        r <= s@.len(),
{
    let n = s.unicode_len();
    let mut i: usize = 0;
    assert(s@.subrange(0, n as int) =~= s@);
    while i < n
        invariant
            i <= n,
            n == s@.len(),
            number_end(s@) == i + number_end(s@.subrange(i as int, n as int)),
        decreases n - i,
    {
        let c = s.get_char(i);
        let ghost t = s@.subrange(i as int, n as int);
        assert(t[0] == c);
        if is_space(c) || c == 'm' || c == 'c' || c == 'i' {
            return i;
        }
        assert(t.drop_first() =~= s@.subrange(i + 1, n as int));
        i = i + 1;
    }
    i
}

/// Position of the first `c`, or the length where there is none.
fn find_char(s: &str, c: char) -> (r: usize)
    ensures
        r == index_of(s@, c),
        r <= s@.len(),
{
    let n = s.unicode_len();
    let mut i: usize = 0;
    assert(s@.subrange(0, n as int) =~= s@);
    while i < n
        invariant
            i <= n,
            n == s@.len(),
            index_of(s@, c) == i + index_of(s@.subrange(i as int, n as int), c),
        decreases n - i,
    {
        let ghost t = s@.subrange(i as int, n as int);
        assert(t[0] == s@[i as int]);
        if s.get_char(i) == c {
            return i;
        }
        assert(t.drop_first() =~= s@.subrange(i + 1, n as int));
        i = i + 1;
    }
    i
}

pub open spec fn is_digit(c: char) -> bool {
    48 <= (c as u32) <= 57
}

pub open spec fn digit_val(c: char) -> nat {
    ((c as u32) - 48) as nat
}

pub open spec fn all_digits(s: Seq<char>) -> bool {
    forall|i: int| 0 <= i < s.len() ==> is_digit(#[trigger] s[i])
}

/// The value of a string of decimal digits.
pub open spec fn digits_value(s: Seq<char>) -> nat
    decreases s.len(),
{
    if s.len() == 0 {
        0
    } else {
        digits_value(s.drop_last()) * 10 + digit_val(s.last())
    }
}

pub open spec fn pow10(n: nat) -> nat
    decreases n,
{
    if n == 0 {
        1
    } else {
        10 * pow10((n - 1) as nat)
    }
}

/// The first six fraction digits, padded with zeros: millionths.
pub open spec fn six_digits(f: Seq<char>) -> Seq<char> {
    Seq::new(6, |i: int| if i < f.len() { f[i] } else { '0' })
}

pub open spec fn sign_len(s: Seq<char>) -> nat {
    if s.len() > 0 && (s[0] == '-' || s[0] == '+') {
        1
    } else {
        0
    }
}

pub open spec fn number_body(s: Seq<char>) -> Seq<char> {
    s.subrange(sign_len(s) as int, s.len() as int)
}

pub open spec fn int_digits(s: Seq<char>) -> Seq<char> {
    number_body(s).take(index_of(number_body(s), '.') as int)
}

pub open spec fn frac_digits(s: Seq<char>) -> Seq<char> {
    let b = number_body(s);
    let d = index_of(b, '.');
    if d < b.len() {
        b.subrange(d + 1int, b.len() as int)
    } else {
        Seq::empty()
    }
}

/// A decimal number: an optional sign, at most nine integer digits, an
/// optional point with fraction digits, and at least one digit in all.
pub open spec fn number_ok(s: Seq<char>) -> bool {
    &&& all_digits(int_digits(s))
    &&& all_digits(frac_digits(s))
    &&& int_digits(s).len() + frac_digits(s).len() > 0
    &&& int_digits(s).len() <= 9
}

/// The magnitude of a decimal number in millionths; further fraction digits
/// are dropped.
pub open spec fn number_magnitude(s: Seq<char>) -> nat {
    digits_value(int_digits(s)) * 1_000_000 + digits_value(six_digits(frac_digits(s)))
}

pub open spec fn number_negative(s: Seq<char>) -> bool {
    s.len() > 0 && s[0] == '-'
}

proof fn lemma_pow10_mono(a: nat, b: nat)
    requires
        a <= b,
    ensures
        pow10(a) <= pow10(b),
    decreases b,
{
    if a < b {
        lemma_pow10_mono(a, (b - 1) as nat);
    }
}

fn check_digits(s: &str, from: usize, to: usize) -> (r: bool)
    requires
        from <= to <= s@.len(),
    ensures
        r == all_digits(s@.subrange(from as int, to as int)),
{
    let mut i = from;
    while i < to
        invariant
            from <= i <= to,
            to <= s@.len(),
            forall|j: int| from <= j < i ==> is_digit(#[trigger] s@[j]),
        decreases to - i,
    {
        let c = s.get_char(i);
        if !((c as u32) >= 48 && (c as u32) <= 57) {
            assert(s@.subrange(from as int, to as int)[i - from] == c);
            return false;
        }
        i = i + 1;
    }
    assert forall|j: int| 0 <= j < to - from implies is_digit(
        #[trigger] s@.subrange(from as int, to as int)[j],
    ) by {
        assert(s@.subrange(from as int, to as int)[j] == s@[from + j]);
    }
    true
}

fn digits_number(s: &str, from: usize, to: usize) -> (r: u64)
    requires
        from <= to <= s@.len(),
        to - from <= 9,
        all_digits(s@.subrange(from as int, to as int)),
    ensures
        r == digits_value(s@.subrange(from as int, to as int)),
        r < pow10((to - from) as nat),
{
    let mut acc: u64 = 0;
    let mut i = from;
    proof {
        lemma_pow10_mono((to - from) as nat, 9);
        reveal_with_fuel(pow10, 10);
        assert(s@.subrange(from as int, from as int) =~= Seq::<char>::empty());
    }
    while i < to
        invariant
            from <= i <= to,
            to <= s@.len(),
            to - from <= 9,
            pow10((to - from) as nat) <= 1_000_000_000,
            all_digits(s@.subrange(from as int, to as int)),
            acc == digits_value(s@.subrange(from as int, i as int)),
            acc < pow10((i - from) as nat),
        decreases to - i,
    {
        let c = s.get_char(i);
        assert(s@.subrange(from as int, to as int)[i - from] == c);
        let ghost t = s@.subrange(from as int, i + 1);
        assert(t.drop_last() =~= s@.subrange(from as int, i as int));
        proof {
            lemma_pow10_mono((i + 1 - from) as nat, (to - from) as nat);
        }
        acc = acc * 10 + ((c as u32) - 48) as u64;
        i = i + 1;
    }
    acc
}

fn fraction_micro(s: &str, from: usize, to: usize) -> (r: u64)
    requires
        from <= to <= s@.len(),
        all_digits(s@.subrange(from as int, to as int)),
    ensures
        r == digits_value(six_digits(s@.subrange(from as int, to as int))),
        r < 1_000_000,
{
    let ghost f = s@.subrange(from as int, to as int);
    let ghost six = six_digits(f);
    let mut acc: u64 = 0;
    let mut j: usize = 0;
    proof {
        reveal_with_fuel(pow10, 7);
        assert(six.take(0) =~= Seq::<char>::empty());
    }
    while j < 6
        invariant
            j <= 6,
            from <= to <= s@.len(),
            f == s@.subrange(from as int, to as int),
            all_digits(f),
            six == six_digits(f),
            acc == digits_value(six.take(j as int)),
            acc < pow10(j as nat),
            pow10(6) == 1_000_000,
        decreases 6 - j,
    {
        let c = if j < to - from {
            s.get_char(from + j)
        } else {
            '0'
        };
        assert(six[j as int] == c);
        assert(six.take(j + 1).drop_last() =~= six.take(j as int));
        proof {
            lemma_pow10_mono((j + 1) as nat, 6);
        }
        acc = acc * 10 + ((c as u32) - 48) as u64;
        j = j + 1;
    }
    assert(six.take(6) =~= six);
    acc
}

/// Parses a decimal number into signed millionths.
pub fn parse_decimal(s: &str) -> (r: Option<i64>)
    ensures
        r is Some <==> number_ok(s@),
        r matches Some(v) ==> v == (if number_negative(s@) {
            -number_magnitude(s@)
        } else {
            number_magnitude(s@) as int
        }),
        r matches Some(v) ==> -MAX_MICRO < v < MAX_MICRO,
{
    let n = s.unicode_len();
    let mut sl: usize = 0;
    let mut neg = false;
    if n > 0 {
        let c0 = s.get_char(0);
        if c0 == '-' || c0 == '+' {
            sl = 1;
        }
        neg = c0 == '-';
    }
    let body = s.substring_char(sl, n);
    let blen = body.unicode_len();
    let d = find_char(body, '.');
    proof {
        lemma_index_of_le(body@, '.');
    }
    let fs = if d < blen { d + 1 } else { blen };
    assert(body@.subrange(fs as int, blen as int) =~= frac_digits(s@));
    assert(body@.subrange(0, d as int) =~= int_digits(s@));
    if d > 9 {
        return None;
    }
    if !check_digits(body, 0, d) {
        return None;
    }
    if !check_digits(body, fs, blen) {
        return None;
    }
    if d + (blen - fs) == 0 {
        return None;
    }
    let whole = digits_number(body, 0, d);
    let frac = fraction_micro(body, fs, blen);
    proof {
        lemma_pow10_mono(d as nat, 9);
        reveal_with_fuel(pow10, 10);
    }
    let mag = (whole * 1_000_000 + frac) as i64;
    if neg {
        Some(-mag)
    } else {
        Some(mag)
    }
}

/// The unit that a lower-case unit text names; the empty text means points.
pub open spec fn unit_of(u: Seq<char>) -> Option<Unit> {
    if u.len() == 0 || u == "pt"@ || u == "point"@ || u == "points"@ {
        Some(Unit::Point)
    } else if u == "mm"@ {
        Some(Unit::Millimetre)
    } else if u == "cm"@ {
        Some(Unit::Centimetre)
    } else if u == "in"@ || u == "inch"@ || u == "inches"@ {
        Some(Unit::Inch)
    } else {
        None
    }
}

/// `a * num / den`, rounded to the nearest integer, halves upwards.
pub open spec fn round_div(a: nat, num: nat, den: nat) -> nat {
    (2 * a * num + den) / (2 * den)
}

/// A magnitude in millionths of the unit, in millionths of a point: one
/// inch is 72 points, one millimetre 72 / 25.4 points, one centimetre
/// 72 / 2.54 points.
pub open spec fn in_points(u: Unit, m: nat) -> nat {
    match u {
        Unit::Point => m,
        Unit::Millimetre => round_div(m, 360, 127),
        Unit::Centimetre => round_div(m, 3600, 127),
        Unit::Inch => m * 72,
    }
}

/// The number part of a dimension text.
pub open spec fn number_text(s: Seq<char>) -> Seq<char> {
    let t = trimmed(s);
    trimmed(t.take(number_end(t) as int))
}

/// The unit part of a dimension text, in lower case.
pub open spec fn unit_text(s: Seq<char>) -> Seq<char> {
    let t = trimmed(s);
    lower_of(trimmed(t.subrange(number_end(t) as int, t.len() as int)))
}

/// The length a valid dimension text denotes, in millionths of a point.
pub open spec fn dimension_value(s: Seq<char>) -> int {
    let num = number_text(s);
    let m = in_points(unit_of(unit_text(s))->0, number_magnitude(num));
    if number_negative(num) {
        -m
    } else {
        m as int
    }
}

fn unit_from_lower(u: &str) -> (r: Option<Unit>)
    ensures
        r == unit_of(u@),
{
    if u.unicode_len() == 0 || str_equal(u, "pt") || str_equal(u, "point") || str_equal(u, "points") {
        Some(Unit::Point)
    } else if str_equal(u, "mm") {
        Some(Unit::Millimetre)
    } else if str_equal(u, "cm") {
        Some(Unit::Centimetre)
    } else if str_equal(u, "in") || str_equal(u, "inch") || str_equal(u, "inches") {
        Some(Unit::Inch)
    } else {
        None
    }
}

/// Converts a magnitude in millionths of a unit to millionths of a point.
pub fn to_points(u: Unit, m: u64) -> (r: u64)
    requires
        m < MAX_MICRO,
    ensures
        r == in_points(u, m as nat),
{
    match u {
        Unit::Point => m,
        Unit::Millimetre => (2 * m * 360 + 127) / 254,
        Unit::Centimetre => (2 * m * 3600 + 127) / 254,
        Unit::Inch => m * 72,
    }
}

/// Parses a dimension: a bare number of points, or a number followed by a
/// unit (`mm`, `cm`, `in`, `inch`, `inches`, `pt`, `point`, `points`, in
/// any case). The number ends at the first white space or `m`, `c` or `i`.
pub fn parse_dimension(s: &str) -> (r: Result<Dimension, DimensionError>)
    ensures
        r is Ok <==> number_ok(number_text(s@)) && unit_of(unit_text(s@)) is Some,
        r matches Ok(d) ==> d.0 == dimension_value(s@),
        r matches Err(DimensionError::InvalidNumber(t)) ==> !number_ok(number_text(s@)) && t@
            == number_text(s@),
        r matches Err(DimensionError::UnknownUnit(t)) ==> number_ok(number_text(s@)) && unit_of(
            unit_text(s@),
        ) is None && t@ == unit_text(s@),
{
    let t = trim_text(s);
    let k = find_number_end(t);
    let len = t.unicode_len();
    let num = trim_text(t.substring_char(0, k));
    let unit = to_lower(trim_text(t.substring_char(k, len)));
    assert(t@.subrange(0, k as int) =~= t@.take(k as int));
    let value = match parse_decimal(num) {
        Some(v) => v,
        None => {
            return Err(DimensionError::InvalidNumber(String::from_str(num)));
        },
    };
    let u = match unit_from_lower(unit.as_str()) {
        Some(u) => u,
        None => {
            return Err(DimensionError::UnknownUnit(unit));
        },
    };
    let neg = value < 0;
    let mag: u64 = if neg {
        (-value) as u64
    } else {
        value as u64
    };
    let p = to_points(u, mag);
    proof {
        assert(num@ == number_text(s@));
        assert(u == unit_of(unit_text(s@))->0);
        assert(mag == number_magnitude(num@));
        assert(round_div(0, 360, 127) == 0) by (nonlinear_arith);
        assert(round_div(0, 3600, 127) == 0) by (nonlinear_arith);
        assert(in_points(u, 0) == 0);
    }
    let signed: i64 = if neg {
        -(p as i64)
    } else {
        p as i64
    };
    Ok(Dimension(signed))
}

} // verus!
