//! Decimal numeric fields of the feed.
//!
//! Upstream records carry `depth`, `lat`, `lon` and `mag` either as a JSON
//! number or as a numeric string; both reach this module as decimal text.
//! A value is parsed into signed nano units (1 unit = 10^-9), the fixed
//! point scale the rest of the crate computes in: an optional sign, a
//! non-empty run of digits, and optionally a dot followed by a non-empty
//! run of digits.  Fractions beyond nine digits round to nearest, ties up.

use vstd::prelude::*;
use vstd::string::*;

verus! {

use crate::timestamp::spec_is_digit;
use crate::timestamp::spec_digit_val;

/// A numeric field as it arrived: the decimal text of a JSON number, or a
/// JSON string holding decimal text.  Both parse identically.
#[derive(Debug)]
pub enum RawNumber {
    Number(String),
    Text(String),
}

pub enum RawNumberView {
    Number(Seq<char>),
    Text(Seq<char>),
}

impl View for RawNumber {
    type V = RawNumberView;

    open spec fn view(&self) -> RawNumberView {
        match self {
            RawNumber::Number(s) => RawNumberView::Number(s@),
            RawNumber::Text(s) => RawNumberView::Text(s@),
        }
    }
}

impl Clone for RawNumber {
    fn clone(&self) -> (r: Self)
        ensures
            r@ == self@,
    {
        match self {
            RawNumber::Number(s) => RawNumber::Number(s.clone()),
            RawNumber::Text(s) => RawNumber::Text(s.clone()),
        }
    }
}

/// The decimal text a raw number holds, whichever way it arrived.
pub open spec fn spec_raw_number_text(v: RawNumberView) -> Seq<char> {
    match v {
        RawNumberView::Number(s) => s,
        RawNumberView::Text(s) => s,
    }
}

/// Length of an optional leading sign.
pub open spec fn spec_sign_len(s: Seq<char>) -> int {
    if s.len() > 0 && (s[0] == '-' || s[0] == '+') {
        1
    } else {
        0
    }
}

pub open spec fn spec_all_digits(s: Seq<char>) -> bool {
    forall|i: int| 0 <= i < s.len() ==> spec_is_digit(s[i])
}

/// The number written by a run of decimal digits, most significant first.
pub open spec fn spec_digits_val(s: Seq<char>) -> int
    decreases s.len(),
{
    if s.len() == 0 {
        0
    } else {
        10 * spec_digits_val(s.drop_last()) + spec_digit_val(s.last())
    }
}

pub open spec fn spec_pow10(e: int) -> int
    decreases e,
{
    if e <= 0 {
        1
    } else {
        10 * spec_pow10(e - 1)
    }
}

/// The shape of decimal text whose dot (or end of text) stands at `p`: an
/// optional sign, at least one digit before `p`, and after a dot at least
/// one digit to the end.
pub open spec fn spec_decimal_shape(s: Seq<char>, p: int) -> bool {
    let st = spec_sign_len(s);
    &&& st < p <= s.len()
    &&& spec_all_digits(s.subrange(st, p))
    &&& (p < s.len() ==> s[p] == '.' && p + 1 < s.len() && spec_all_digits(
        s.subrange(p + 1, s.len() as int),
    ))
}

pub open spec fn spec_decimal_valid(s: Seq<char>) -> bool {
    exists|p: int| spec_decimal_shape(s, p)
}

/// The nano value of a fraction digit run: its first nine digits, scaled
/// to nine places, rounded to nearest with a tenth digit of five or more
/// rounding up.
pub open spec fn spec_frac_nano(f: Seq<char>) -> int {
    let k: int = if f.len() > 9 {
        9
    } else {
        f.len() as int
    };
    spec_digits_val(f.take(k)) * spec_pow10(9 - k) + if f.len() > 9 && spec_digit_val(f[9]) >= 5 {
        1int
    } else {
        0int
    }
}

/// The signed nano value of decimal text whose dot stands at `p`.
pub open spec fn spec_decimal_value_at(s: Seq<char>, p: int) -> int {
    let st = spec_sign_len(s);
    let frac: Seq<char> = if p < s.len() {
        s.subrange(p + 1, s.len() as int)
    } else {
        Seq::empty()
    };
    let mag = spec_digits_val(s.subrange(st, p)) * 1_000_000_000 + spec_frac_nano(frac);
    if s.len() > 0 && s[0] == '-' {
        -mag
    } else {
        mag
    }
}

/// What parsing decimal text yields: its nano value when the text is
/// well-shaped and the value's magnitude stays within `i64::MAX`.
pub open spec fn spec_parse_nano(s: Seq<char>) -> Option<int> {
    if spec_decimal_valid(s) {
        let p = choose|p: int| spec_decimal_shape(s, p);
        let v = spec_decimal_value_at(s, p);
        if -(i64::MAX as int) <= v <= i64::MAX as int {
            Some(v)
        } else {
            None
        }
    } else {
        None
    }
}

/// At most one position can be the dot of well-shaped decimal text.
pub proof fn lemma_decimal_shape_unique(s: Seq<char>, p1: int, p2: int)
    requires
        spec_decimal_shape(s, p1),
        spec_decimal_shape(s, p2),
    ensures
        p1 == p2,
{
    if p1 < p2 {
        assert(spec_is_digit(s.subrange(spec_sign_len(s), p2)[p1 - spec_sign_len(s)]));
        assert(!spec_is_digit('.'));
    }
    if p2 < p1 {
        assert(spec_is_digit(s.subrange(spec_sign_len(s), p1)[p2 - spec_sign_len(s)]));
        assert(!spec_is_digit('.'));
    }
}

pub proof fn lemma_digits_val_nonneg(s: Seq<char>)
    requires
        spec_all_digits(s),
    ensures
        spec_digits_val(s) >= 0,
    decreases s.len(),
{
    if s.len() > 0 {
        assert(spec_all_digits(s.drop_last()));
        lemma_digits_val_nonneg(s.drop_last());
    }
}

pub proof fn lemma_digits_val_step(s: Seq<char>, i: int)
    requires
        0 <= i < s.len(),
    ensures
        spec_digits_val(s.take(i + 1)) == 10 * spec_digits_val(s.take(i)) + spec_digit_val(s[i]),
{
    assert(s.take(i + 1).drop_last() =~= s.take(i));
    assert(s.take(i + 1).last() == s[i]);
}

pub proof fn lemma_digits_val_take_le(s: Seq<char>, i: int)
    requires
        spec_all_digits(s),
        0 <= i <= s.len(),
    ensures
        spec_digits_val(s.take(i)) <= spec_digits_val(s),
    decreases s.len() - i,
{
    if i == s.len() {
        assert(s.take(i) =~= s);
    } else {
        lemma_digits_val_step(s, i);
        assert(spec_all_digits(s.take(i)));
        lemma_digits_val_nonneg(s.take(i));
        lemma_digits_val_take_le(s, i + 1);
    }
}

fn pow10_u64(e: usize) -> (r: u64)
    requires
        e <= 9,
    ensures
        r as int == spec_pow10(e as int),
        1 <= r <= 1_000_000_000,
{
    proof {
        reveal_with_fuel(spec_pow10, 11);
    }
    let mut r: u64 = 1;
    let mut i: usize = 0;
    while i < e
        invariant
            i <= e <= 9,
            r as int == spec_pow10(i as int),
            r <= 1_000_000_000,
        decreases e - i,
    {
        r = r * 10;
        i = i + 1;
        proof {
            reveal_with_fuel(spec_pow10, 11);
        }
    }
    r
}

/// No shape fits text whose integer-part scan hit a character that is
/// neither a digit nor a dot.
proof fn lemma_no_shape_bad_int_char(s: Seq<char>, j: int)
    requires
        spec_sign_len(s) <= j < s.len(),
        forall|i: int| spec_sign_len(s) <= i < j ==> spec_is_digit(#[trigger] s[i]),
        !spec_is_digit(s[j]),
        s[j] != '.',
    ensures
        !spec_decimal_valid(s),
{
    let st = spec_sign_len(s);
    assert forall|p: int| !spec_decimal_shape(s, p) by {
        if spec_decimal_shape(s, p) {
            if p > j {
                assert(s.subrange(st, p)[j - st] == s[j]);
                assert(spec_is_digit(s.subrange(st, p)[j - st]));
            } else if p < j {
                assert(spec_is_digit(s[p]));
                assert(!spec_is_digit('.'));
            }
        }
    }
}

/// No shape fits text with no digit between the sign and the dot or end.
proof fn lemma_no_shape_no_int(s: Seq<char>)
    requires
        spec_sign_len(s) == s.len() || (spec_sign_len(s) < s.len() && s[spec_sign_len(s)] == '.'),
    ensures
        !spec_decimal_valid(s),
{
    let st = spec_sign_len(s);
    assert forall|p: int| !spec_decimal_shape(s, p) by {
        if spec_decimal_shape(s, p) {
            assert(s.subrange(st, p)[0] == s[st]);
            assert(spec_is_digit(s.subrange(st, p)[0]));
            assert(!spec_is_digit('.'));
        }
    }
}

/// No shape fits text that ends right after its dot.
proof fn lemma_no_shape_empty_frac(s: Seq<char>, dotp: int)
    requires
        spec_sign_len(s) < dotp,
        dotp + 1 == s.len(),
        s[dotp] == '.',
        forall|i: int| spec_sign_len(s) <= i < dotp ==> spec_is_digit(#[trigger] s[i]),
    ensures
        !spec_decimal_valid(s),
{
    let st = spec_sign_len(s);
    assert forall|p: int| !spec_decimal_shape(s, p) by {
        if spec_decimal_shape(s, p) {
            if p < dotp {
                assert(spec_is_digit(s[p]));
                assert(!spec_is_digit('.'));
            } else if p > dotp {
                assert(s.subrange(st, p)[dotp - st] == s[dotp]);
                assert(spec_is_digit(s.subrange(st, p)[dotp - st]));
                assert(!spec_is_digit('.'));
            }
        }
    }
}

/// No shape fits text whose fraction holds a non-digit.
proof fn lemma_no_shape_bad_frac_char(s: Seq<char>, dotp: int, j: int)
    requires
        spec_sign_len(s) < dotp < j < s.len(),
        s[dotp] == '.',
        forall|i: int| spec_sign_len(s) <= i < dotp ==> spec_is_digit(#[trigger] s[i]),
        !spec_is_digit(s[j]),
    ensures
        !spec_decimal_valid(s),
{
    let st = spec_sign_len(s);
    assert forall|p: int| !spec_decimal_shape(s, p) by {
        if spec_decimal_shape(s, p) {
            if p < dotp {
                assert(spec_is_digit(s[p]));
                assert(!spec_is_digit('.'));
            } else if p > dotp {
                assert(s.subrange(st, p)[dotp - st] == s[dotp]);
                assert(spec_is_digit(s.subrange(st, p)[dotp - st]));
                assert(!spec_is_digit('.'));
            } else {
                assert(s.subrange(p + 1, s.len() as int)[j - p - 1] == s[j]);
                assert(spec_is_digit(s.subrange(p + 1, s.len() as int)[j - p - 1]));
            }
        }
    }
}

proof fn lemma_digits_val_upper(s: Seq<char>)
    requires
        spec_all_digits(s),
        s.len() <= 9,
    ensures
        spec_digits_val(s) < spec_pow10(s.len() as int),
    decreases s.len(),
{
    reveal_with_fuel(spec_pow10, 11);
    if s.len() > 0 {
        assert(spec_all_digits(s.drop_last()));
        lemma_digits_val_upper(s.drop_last());
    }
}

proof fn lemma_pow10_le(a: int, b: int)
    requires
        0 <= a <= b,
    ensures
        spec_pow10(a) <= spec_pow10(b),
    decreases b,
{
    if a < b {
        lemma_pow10_le(a, b - 1);
        lemma_pow10_pos(b - 1);
    }
}

proof fn lemma_pow10_pos(e: int)
    ensures
        spec_pow10(e) >= 1,
    decreases e,
{
    if e > 0 {
        lemma_pow10_pos(e - 1);
    }
}

/// Powers of ten split multiplicatively around nine places.
proof fn lemma_pow10_mul(k: int)
    requires
        0 <= k <= 9,
    ensures
        spec_pow10(k) * spec_pow10(9 - k) == spec_pow10(9),
    decreases k,
{
    if k == 0 {
        lemma_pow10_pos(9);
        assert(spec_pow10(0) == 1);
    } else {
        lemma_pow10_mul(k - 1);
        let a = spec_pow10(k - 1);
        let b = spec_pow10(9 - k);
        assert(spec_pow10(k) == 10 * a);
        assert(spec_pow10(9 - (k - 1)) == 10 * b);
        assert((10 * a) * b == a * (10 * b)) by (nonlinear_arith);
    }
}

/// The fraction contributes a non-negative amount of at most one whole
/// unit in nano scale.
proof fn lemma_frac_nano_bounds(f: Seq<char>)
    requires
        spec_all_digits(f),
    ensures
        0 <= spec_frac_nano(f) <= 1_000_000_000,
{
    reveal_with_fuel(spec_pow10, 11);
    let k: int = if f.len() > 9 {
        9
    } else {
        f.len() as int
    };
    let dv = spec_digits_val(f.take(k));
    let p = spec_pow10(9 - k);
    assert(spec_all_digits(f.take(k)));
    lemma_digits_val_nonneg(f.take(k));
    lemma_digits_val_upper(f.take(k));
    lemma_pow10_mul(k);
    lemma_pow10_pos(9 - k);
    assert(0 <= dv * p <= spec_pow10(9) - p) by (nonlinear_arith)
        requires
            0 <= dv,
            dv <= spec_pow10(k) - 1,
            p >= 1,
            spec_pow10(k) * p == spec_pow10(9),
    ;
}

/// Parses decimal text into signed nano units.  `None` exactly when the
/// text is not well-shaped or its magnitude exceeds `i64::MAX` nano units.
pub fn parse_decimal_nano(s: &str) -> (r: Option<i64>)
    ensures
        match spec_parse_nano(s@) {
            Some(v) => r == Some(v as i64),
            None => r == None::<i64>,
        },
{
    let n = s.unicode_len();
    if n == 0 {
        return None;
    }
    let c0 = s.get_char(0);
    let neg = c0 == '-';
    let start: usize = if c0 == '-' || c0 == '+' {
        1
    } else {
        0
    };
    if start == n {
        proof {
            lemma_no_shape_no_int(s@);
        }
        return None;
    }
    // Scan the integer part up to the dot, the end, or a stray character.
    let mut j = start;
    let mut dot = n;
    let mut seen_dot = false;
    while j < n && !seen_dot
        invariant
            start <= j <= n,
            n == s@.len(),
            start == spec_sign_len(s@),
            forall|i: int| start <= i < j ==> spec_is_digit(#[trigger] s@[i]),
            seen_dot ==> j < n && s@[j as int] == '.' && dot == j,
            !seen_dot ==> dot == n,
        decreases 2 * (n - j) + (if seen_dot { 0int } else { 1int }),
    {
        let c = s.get_char(j);
        let v = c as u32;
        if 48 <= v && v <= 57 {
            j = j + 1;
        } else if c == '.' {
            dot = j;
            seen_dot = true;
        } else {
            proof {
                lemma_no_shape_bad_int_char(s@, j as int);
            }
            return None;
        }
    }
    // The integer part must not be empty.
    if dot == start {
        proof {
            lemma_no_shape_no_int(s@);
        }
        return None;
    }
    // A dot must be followed by one or more digits.
    if seen_dot {
        if dot + 1 == n {
            proof {
                lemma_no_shape_empty_frac(s@, dot as int);
            }
            return None;
        }
        let mut j2 = dot + 1;
        while j2 < n
            invariant
                start == spec_sign_len(s@),
                start < dot < j2 <= n,
                n == s@.len(),
                s@[dot as int] == '.',
                forall|i: int| start <= i < dot ==> spec_is_digit(#[trigger] s@[i]),
                forall|i: int| dot < i < j2 ==> spec_is_digit(#[trigger] s@[i]),
            decreases n - j2,
        {
            let c = s.get_char(j2);
            let v = c as u32;
            if 48 <= v && v <= 57 {
                j2 = j2 + 1;
            } else {
                proof {
                    lemma_no_shape_bad_frac_char(s@, dot as int, j2 as int);
                }
                return None;
            }
        }
    }
    proof {
        assert(spec_decimal_shape(s@, dot as int)) by {
            assert forall|i: int|
                0 <= i < s@.subrange(start as int, dot as int).len() implies spec_is_digit(
                #[trigger] s@.subrange(start as int, dot as int)[i]) by {
                assert(s@.subrange(start as int, dot as int)[i] == s@[start + i]);
            }
            if (dot as int) < s@.len() {
                assert forall|i: int|
                    0 <= i < s@.subrange(dot + 1, s@.len() as int).len() implies spec_is_digit(
                    #[trigger] s@.subrange(dot + 1, s@.len() as int)[i]) by {
                    assert(s@.subrange(dot + 1, s@.len() as int)[i] == s@[dot + 1 + i]);
                }
            }
        }
        lemma_decimal_shape_unique(s@, dot as int, choose|p: int| spec_decimal_shape(s@, p));
    }
    // Accumulate the integer part, stopping once the value can no longer
    // fit in nano units.
    let ghost ipart: Seq<char> = s@.subrange(start as int, dot as int);
    let ghost fpart: Seq<char> = if (dot as int) < s@.len() {
        s@.subrange(dot + 1, s@.len() as int)
    } else {
        Seq::empty()
    };
    proof {
        assert(spec_all_digits(fpart));
        lemma_frac_nano_bounds(fpart);
    }
    let mut acc: u64 = 0;
    let mut k = start;
    while k < dot
        invariant
            start <= k <= dot <= n,
            n == s@.len(),
            start == spec_sign_len(s@),
            neg == (s@[0] == '-'),
            spec_decimal_shape(s@, dot as int),
            ipart == s@.subrange(start as int, dot as int),
            fpart == (if (dot as int) < s@.len() {
                s@.subrange(dot + 1, s@.len() as int)
            } else {
                Seq::empty()
            }),
            0 <= spec_frac_nano(fpart) <= 1_000_000_000,
            (choose|p: int| spec_decimal_shape(s@, p)) == dot as int,
            acc as int == spec_digits_val(ipart.take(k - start)),
            acc <= 9_223_372_036,
        decreases dot - k,
    {
        let c = s.get_char(k);
        let v = (c as u32) as u64;
        proof {
            assert(ipart[k - start] == s@[k as int]);
            assert(spec_is_digit(ipart[k - start]));
            lemma_digits_val_step(ipart, k - start);
        }
        let next = acc * 10 + (v - 48);
        if next > 9_223_372_036 {
            proof {
                assert(spec_all_digits(ipart));
                assert(ipart.take(k + 1 - start) == ipart.take((k - start) + 1));
                lemma_digits_val_take_le(ipart, k + 1 - start);
                assert(spec_digits_val(ipart) >= next);
            }
            return None;
        }
        acc = next;
        k = k + 1;
    }
    proof {
        assert(ipart.take(dot - start) =~= ipart);
    }
    // Accumulate at most nine fraction digits, then round on the tenth.
    let mut fr: u64 = 0;
    let mut taken: usize = 0;
    if seen_dot {
        let flen: usize = n - dot - 1;
        let stop: usize = if flen > 9 {
            9
        } else {
            flen
        };
        while taken < stop
            invariant
                0 <= taken <= stop <= 9,
                stop == (if flen > 9 { 9int } else { flen as int }),
                seen_dot,
                dot + 1 + flen == n,
                start < dot < n,
                n == s@.len(),
                s@[dot as int] == '.',
                spec_decimal_shape(s@, dot as int),
                fpart == s@.subrange(dot + 1, s@.len() as int),
                spec_all_digits(fpart),
                fr as int == spec_digits_val(fpart.take(taken as int)),
                (fr as int) < spec_pow10(taken as int),
                fr <= 999_999_999,
            decreases stop - taken,
        {
            let c = s.get_char(dot + 1 + taken);
            let v = (c as u32) as u64;
            proof {
                assert(fpart[taken as int] == s@[dot + 1 + taken]);
                assert(spec_is_digit(fpart[taken as int]));
                lemma_digits_val_step(fpart, taken as int);
                assert(spec_all_digits(fpart.take(taken as int + 1)));
                lemma_digits_val_upper(fpart.take(taken as int + 1));
                lemma_pow10_le(taken as int + 1, 9);
                reveal_with_fuel(spec_pow10, 11);
            }
            fr = fr * 10 + (v - 48);
            taken = taken + 1;
        }
        let p10 = pow10_u64(9 - taken);
        proof {
            assert(0 <= (fr as int) * (p10 as int) <= 999_999_999 * 1_000_000_000)
                by (nonlinear_arith)
                requires
                    0 <= fr as int <= 999_999_999,
                    1 <= p10 as int <= 1_000_000_000,
            ;
        }
        fr = fr * p10;
        if flen > 9 {
            let c = s.get_char(dot + 10);
            proof {
                assert(fpart[9] == s@[dot + 10]);
                assert(spec_is_digit(fpart[9]));
                assert(spec_all_digits(fpart.take(taken as int)));
                lemma_digits_val_upper(fpart.take(taken as int));
                reveal_with_fuel(spec_pow10, 11);
            }
            if c as u32 >= 53 {
                fr = fr + 1;
            } else {
                proof {
                    assert(spec_digit_val(fpart[9]) < 5);
                }
            }
        }
        proof {
            assert(fr as int == spec_frac_nano(fpart));
        }
    } else {
        proof {
            assert(fpart =~= Seq::<char>::empty());
            assert(fpart.take(0) =~= Seq::<char>::empty());
            assert(spec_digits_val(fpart.take(0)) == 0);
            assert(spec_frac_nano(fpart) == 0 * spec_pow10(9 - 0));
            assert(fr as int == spec_frac_nano(fpart));
        }
    }
    // Assemble the magnitude and apply the sign.
    proof {
        assert(fr as int <= 1_000_000_000);
    }
    let mag: u64 = acc * 1_000_000_000 + fr;
    proof {
        assert(mag as int == spec_digits_val(ipart) * 1_000_000_000 + spec_frac_nano(fpart));
    }
    if mag > 9_223_372_036_854_775_807 {
        return None;
    }
    let v = mag as i64;
    if neg {
        Some(-v)
    } else {
        Some(v)
    }
}

/// A number and a numeric string holding the same text parse identically.
pub proof fn lemma_number_text_agree(a: RawNumberView, b: RawNumberView)
    requires
        spec_raw_number_text(a) == spec_raw_number_text(b),
    ensures
        spec_parse_nano(spec_raw_number_text(a)) == spec_parse_nano(spec_raw_number_text(b)),
{
}

/// Parses a raw numeric field, whichever representation it arrived in.
pub fn parse_raw_number(raw: &RawNumber) -> (r: Option<i64>)
    ensures
        match spec_parse_nano(spec_raw_number_text(raw@)) {
            Some(v) => r == Some(v as i64),
            None => r == None::<i64>,
        },
{
    match raw {
        RawNumber::Number(s) => parse_decimal_nano(s.as_str()),
        RawNumber::Text(s) => parse_decimal_nano(s.as_str()),
    }
}

} // verus!
