//! Calendar timestamps with second precision.
//!
//! A feed record carries its moment as a `YYYY-MM-DD` date string and an
//! `HH:MM:SS` time string.  Parsing is strict: nineteen characters, the
//! punctuation in place, every other position a decimal digit, and the
//! fields calendar-valid (leap years included).  A malformed input never
//! raises an error: it yields a tagged `Invalid` outcome carrying the
//! original text, which sorts as the minimum representable timestamp.

use vstd::prelude::*;
use vstd::string::*;

verus! {

/// A calendar timestamp, ordered lexicographically by its fields.
#[derive(Clone, Copy, PartialEq, Eq, Structural, Debug)]
pub struct Timestamp {
    pub year: i32,
    pub month: u8,
    pub day: u8,
    pub hour: u8,
    pub minute: u8,
    pub second: u8,
}

/// The minimum representable timestamp, used as the sentinel for
/// unparseable inputs.
pub open spec fn spec_min_timestamp() -> Timestamp {
    Timestamp { year: i32::MIN, month: 1, day: 1, hour: 0, minute: 0, second: 0 }
}

/// Lexicographic order on (year, month, day, hour, minute, second).
pub open spec fn spec_le(a: Timestamp, b: Timestamp) -> bool {
    if a.year != b.year {
        a.year < b.year
    } else if a.month != b.month {
        a.month < b.month
    } else if a.day != b.day {
        a.day < b.day
    } else if a.hour != b.hour {
        a.hour < b.hour
    } else if a.minute != b.minute {
        a.minute < b.minute
    } else {
        a.second <= b.second
    }
}

pub open spec fn spec_is_leap_year(y: int) -> bool {
    y % 4 == 0 && (y % 100 != 0 || y % 400 == 0)
}

pub open spec fn spec_days_in_month(y: int, m: int) -> int
    recommends
        1 <= m <= 12,
{
    if m == 2 {
        if spec_is_leap_year(y) {
            29
        } else {
            28
        }
    } else if m == 4 || m == 6 || m == 9 || m == 11 {
        30
    } else {
        31
    }
}

pub open spec fn spec_is_digit(c: char) -> bool {
    48 <= c as u32 <= 57
}

pub open spec fn spec_digit_val(c: char) -> int {
    c as u32 - 48
}

/// The number encoded by two decimal digits at position `i`.
pub open spec fn spec_two_digits(s: Seq<char>, i: int) -> int {
    spec_digit_val(s[i]) * 10 + spec_digit_val(s[i + 1])
}

/// The number encoded by four decimal digits at position `i`.
pub open spec fn spec_four_digits(s: Seq<char>, i: int) -> int {
    spec_digit_val(s[i]) * 1000 + spec_digit_val(s[i + 1]) * 100 + spec_digit_val(s[i + 2]) * 10
        + spec_digit_val(s[i + 3])
}

/// The fixed `YYYY-MM-DD HH:MM:SS` shape: length, punctuation and digits.
pub open spec fn spec_datetime_shape(s: Seq<char>) -> bool {
    &&& s.len() == 19
    &&& spec_is_digit(s[0]) && spec_is_digit(s[1]) && spec_is_digit(s[2]) && spec_is_digit(s[3])
    &&& s[4] == '-'
    &&& spec_is_digit(s[5]) && spec_is_digit(s[6])
    &&& s[7] == '-'
    &&& spec_is_digit(s[8]) && spec_is_digit(s[9])
    &&& s[10] == ' '
    &&& spec_is_digit(s[11]) && spec_is_digit(s[12])
    &&& s[13] == ':'
    &&& spec_is_digit(s[14]) && spec_is_digit(s[15])
    &&& s[16] == ':'
    &&& spec_is_digit(s[17]) && spec_is_digit(s[18])
}

/// The timestamp written in a well-shaped datetime string.
pub open spec fn spec_datetime_fields(s: Seq<char>) -> Timestamp {
    Timestamp {
        year: spec_four_digits(s, 0) as i32,
        month: spec_two_digits(s, 5) as u8,
        day: spec_two_digits(s, 8) as u8,
        hour: spec_two_digits(s, 11) as u8,
        minute: spec_two_digits(s, 14) as u8,
        second: spec_two_digits(s, 17) as u8,
    }
}

/// A well-shaped string whose fields are calendar-valid.
pub open spec fn spec_datetime_valid(s: Seq<char>) -> bool {
    &&& spec_datetime_shape(s)
    &&& {
        let t = spec_datetime_fields(s);
        &&& 1 <= t.month <= 12
        &&& 1 <= t.day <= spec_days_in_month(t.year as int, t.month as int)
        &&& t.hour <= 23
        &&& t.minute <= 59
        &&& t.second <= 59
    }
}

/// Outcome of parsing a datetime string: either the timestamp it denotes,
/// or the rejected input kept verbatim.  An `Invalid` outcome sorts as the
/// minimum timestamp.
#[derive(Debug, PartialEq)]
pub enum TimestampOutcome {
    Parsed(Timestamp),
    Invalid(String),
}

pub enum TimestampOutcomeView {
    Parsed(Timestamp),
    Invalid(Seq<char>),
}

impl View for TimestampOutcome {
    type V = TimestampOutcomeView;

    open spec fn view(&self) -> TimestampOutcomeView {
        match self {
            TimestampOutcome::Parsed(t) => TimestampOutcomeView::Parsed(*t),
            TimestampOutcome::Invalid(s) => TimestampOutcomeView::Invalid(s@),
        }
    }
}

impl Clone for TimestampOutcome {
    fn clone(&self) -> (r: Self)
        ensures
            r@ == self@,
    {
        match self {
            TimestampOutcome::Parsed(t) => TimestampOutcome::Parsed(*t),
            TimestampOutcome::Invalid(s) => TimestampOutcome::Invalid(s.clone()),
        }
    }
}

/// What parsing a datetime string yields.
pub open spec fn spec_parse_datetime(s: Seq<char>) -> TimestampOutcomeView {
    if spec_datetime_valid(s) {
        TimestampOutcomeView::Parsed(spec_datetime_fields(s))
    } else {
        TimestampOutcomeView::Invalid(s)
    }
}

/// The key an outcome sorts and filters under.
pub open spec fn spec_outcome_key(o: TimestampOutcomeView) -> Timestamp {
    match o {
        TimestampOutcomeView::Parsed(t) => t,
        TimestampOutcomeView::Invalid(_) => spec_min_timestamp(),
    }
}

impl Timestamp {
    /// The sentinel value substituted for unparseable datetime strings.
    pub fn min_value() -> (r: Timestamp)
        ensures
            r == spec_min_timestamp(),
    {
        Timestamp { year: i32::MIN, month: 1, day: 1, hour: 0, minute: 0, second: 0 }
    }

    /// Lexicographic comparison.
    pub fn le(self, other: Timestamp) -> (r: bool)
        ensures
            r == spec_le(self, other),
    {
        if self.year != other.year {
            self.year < other.year
        } else if self.month != other.month {
            self.month < other.month
        } else if self.day != other.day {
            self.day < other.day
        } else if self.hour != other.hour {
            self.hour < other.hour
        } else if self.minute != other.minute {
            self.minute < other.minute
        } else {
            self.second <= other.second
        }
    }
}

impl TimestampOutcome {
    /// The timestamp the outcome stands for when sorting or filtering.
    pub fn key(&self) -> (r: Timestamp)
        ensures
            r == spec_outcome_key(self@),
    {
        match self {
            TimestampOutcome::Parsed(t) => *t,
            TimestampOutcome::Invalid(_) => Timestamp::min_value(),
        }
    }
}

fn days_in_month(y: u32, m: u32) -> (r: u32)
    requires
        1 <= m <= 12,
    ensures
        r as int == spec_days_in_month(y as int, m as int),
{
    if m == 2 {
        if y % 4 == 0 && (y % 100 != 0 || y % 400 == 0) {
            29
        } else {
            28
        }
    } else if m == 4 || m == 6 || m == 9 || m == 11 {
        30
    } else {
        31
    }
}

/// Reads the two decimal digits at position `i`; `None` when either
/// character is not a digit.
fn two_digits(s: &str, i: usize) -> (r: Option<u32>)
    requires
        s@.len() == 19,
        i + 2 <= 19,
    ensures
        match r {
            Some(v) => spec_is_digit(s@[i as int]) && spec_is_digit(s@[i as int + 1]) && v as int
                == spec_two_digits(s@, i as int),
            None => !(spec_is_digit(s@[i as int]) && spec_is_digit(s@[i as int + 1])),
        },
{
    let c0 = s.get_char(i);
    let c1 = s.get_char(i + 1);
    let v0 = c0 as u32;
    let v1 = c1 as u32;
    if 48 <= v0 && v0 <= 57 && 48 <= v1 && v1 <= 57 {
        Some((v0 - 48) * 10 + (v1 - 48))
    } else {
        None
    }
}

/// Parses a `YYYY-MM-DD HH:MM:SS` string; anything else, the shape broken
/// or a field out of its calendar range, yields `Invalid` with the input.
pub fn parse_date_string(datestring: &str) -> (r: TimestampOutcome)
    ensures
        r@ == spec_parse_datetime(datestring@),
{
    let n = datestring.unicode_len();
    if n != 19 {
        return TimestampOutcome::Invalid(datestring.to_owned());
    }
    if !(datestring.get_char(4) == '-' && datestring.get_char(7) == '-' && datestring.get_char(10)
        == ' ' && datestring.get_char(13) == ':' && datestring.get_char(16) == ':') {
        return TimestampOutcome::Invalid(datestring.to_owned());
    }
    let y0 = two_digits(datestring, 0);
    let y1 = two_digits(datestring, 2);
    let mo = two_digits(datestring, 5);
    let d = two_digits(datestring, 8);
    let h = two_digits(datestring, 11);
    let mi = two_digits(datestring, 14);
    let se = two_digits(datestring, 17);
    match (y0, y1, mo, d, h, mi, se) {
        (Some(y0), Some(y1), Some(mo), Some(d), Some(h), Some(mi), Some(se)) => {
            let y = y0 * 100 + y1;
            if 1 <= mo && mo <= 12 && 1 <= d && d <= days_in_month(y, mo) && h <= 23 && mi <= 59
                && se <= 59 {
                TimestampOutcome::Parsed(
                    Timestamp {
                        year: y as i32,
                        month: mo as u8,
                        day: d as u8,
                        hour: h as u8,
                        minute: mi as u8,
                        second: se as u8,
                    },
                )
            } else {
                TimestampOutcome::Invalid(datestring.to_owned())
            }
        },
        _ => TimestampOutcome::Invalid(datestring.to_owned()),
    }
}

/// Joins a date and a time with a single space, as the upstream feed
/// splits them, and parses the pair as one datetime string.
pub fn parse_date_time_parts(date: &str, time: &str) -> (r: TimestampOutcome)
    ensures
        r@ == spec_parse_datetime(date@ + seq![' '] + time@),
{
    let mut combined = date.to_owned();
    combined.append(" ");
    combined.append(time);
    proof {
        reveal_strlit(" ");
        assert(combined@ =~= date@ + seq![' '] + time@);
    }
    parse_date_string(combined.as_str())
}

} // verus!
