//! Small shared data types: index spans, dates, path wrappers and orderings.

use vstd::prelude::*;
use vstd::string::*;

verus! {

/// A half-open interval of indices into a flat page or record array.
#[derive(Clone, Copy, Debug, PartialEq, Eq, Structural)]
pub struct Span {
    pub start: usize,
    pub end: usize,
}

impl Span {
    /// The empty span.
    pub fn empty() -> (r: Span)
        ensures
            r.start == 0 && r.end == 0,
    {
        Span { start: 0, end: 0 }
    }

    /// How many indices the span covers.
    pub open spec fn spec_len(self) -> int {
        if self.start <= self.end {
            self.end - self.start
        } else {
            0
        }
    }

    /// Whether `j` lies inside the span.
    pub open spec fn holds(self, j: int) -> bool {
        self.start <= j < self.end
    }

    pub fn len(&self) -> (n: usize)
        ensures
            n == self.spec_len(),
    {
        if self.start <= self.end {
            self.end - self.start
        } else {
            0
        }
    }

    pub fn is_empty(&self) -> (r: bool)
        ensures
            r == (self.spec_len() == 0),
    {
        self.end <= self.start
    }
}

/// The default, empty child range of a freshly parsed page.
pub fn default_range() -> (r: Span)
    ensures
        r.start == 0 && r.end == 0,
{
    Span { start: 0, end: 0 }
}

/// A calendar date and time, the plain-value stand-in for a parsed timestamp.
/// Ordering is lexicographic over (year, month, day, hour, minute, second).
#[derive(Clone, Copy, Debug, PartialEq, Eq, Structural)]
pub struct DateTime {
    pub year: i32,
    pub month: u8,
    pub day: u8,
    pub hour: u8,
    pub minute: u8,
    pub second: u8,
}

impl DateTime {
    /// Lexicographic "less than" over the six fields.
    pub open spec fn spec_lt(self, o: DateTime) -> bool {
        if self.year != o.year {
            self.year < o.year
        } else if self.month != o.month {
            self.month < o.month
        } else if self.day != o.day {
            self.day < o.day
        } else if self.hour != o.hour {
            self.hour < o.hour
        } else if self.minute != o.minute {
            self.minute < o.minute
        } else {
            self.second < o.second
        }
    }

    pub open spec fn spec_le(self, o: DateTime) -> bool {
        self.spec_lt(o) || self == o
    }

    /// Compare two datetimes.
    pub fn lt(&self, o: &DateTime) -> (r: bool)
        ensures
            r == self.spec_lt(*o),
    {
        if self.year != o.year {
            self.year < o.year
        } else if self.month != o.month {
            self.month < o.month
        } else if self.day != o.day {
            self.day < o.day
        } else if self.hour != o.hour {
            self.hour < o.hour
        } else if self.minute != o.minute {
            self.minute < o.minute
        } else {
            self.second < o.second
        }
    }
}

/// "Less or equal" over optional dates, with a missing date below every
/// present one: the tie-break used by every date sort in the crate.
pub open spec fn spec_date_le(a: Option<DateTime>, b: Option<DateTime>) -> bool {
    match (a, b) {
        (Option::None, _) => true,
        (Option::Some(_), Option::None) => false,
        (Option::Some(x), Option::Some(y)) => x.spec_le(y),
    }
}

pub fn date_le(a: &Option<DateTime>, b: &Option<DateTime>) -> (r: bool)
    ensures
        r == spec_date_le(*a, *b),
{
    match (a, b) {
        (Option::None, _) => true,
        (Option::Some(_), Option::None) => false,
        (Option::Some(x), Option::Some(y)) => x.lt(y) || (
            x.year == y.year && x.month == y.month && x.day == y.day
            && x.hour == y.hour && x.minute == y.minute && x.second == y.second
        ),
    }
}

/// A year divisible by four, except century years not divisible by 400.
pub open spec fn spec_is_leap(y: int) -> bool {
    y % 4 == 0 && (y % 100 != 0 || y % 400 == 0)
}

/// How many days the given month of the given year has.
pub open spec fn spec_days_in_month(y: int, m: int) -> int {
    if m == 2 {
        if spec_is_leap(y) {
            29
        } else {
            28
        }
    } else if m == 4 || m == 6 || m == 9 || m == 11 {
        30
    } else {
        31
    }
}

/// A real calendar date of the proleptic Gregorian calendar.
pub open spec fn spec_valid_date(y: int, m: int, d: int) -> bool {
    1 <= m <= 12 && 1 <= d <= spec_days_in_month(y, m)
}

pub open spec fn spec_is_digit(c: char) -> bool {
    '0' <= c && c <= '9'
}

pub open spec fn spec_digit_val(c: char) -> int {
    c as int - 48
}

/// What parsing the first ten characters of `s` as `YYYY-MM-DD` yields: the
/// date at midnight when they spell a real calendar date, nothing otherwise
/// (also when `s` is shorter than ten characters).
pub open spec fn spec_parse_date10(s: Seq<char>) -> Option<DateTime> {
    if s.len() >= 10 && spec_is_digit(s[0]) && spec_is_digit(s[1]) && spec_is_digit(s[2])
        && spec_is_digit(s[3]) && s[4] == '-' && spec_is_digit(s[5]) && spec_is_digit(s[6])
        && s[7] == '-' && spec_is_digit(s[8]) && spec_is_digit(s[9]) {
        let y = spec_digit_val(s[0]) * 1000 + spec_digit_val(s[1]) * 100 + spec_digit_val(s[2])
            * 10 + spec_digit_val(s[3]);
        let m = spec_digit_val(s[5]) * 10 + spec_digit_val(s[6]);
        let d = spec_digit_val(s[8]) * 10 + spec_digit_val(s[9]);
        if spec_valid_date(y, m, d) {
            Option::Some(
                DateTime {
                    year: y as i32,
                    month: m as u8,
                    day: d as u8,
                    hour: 0,
                    minute: 0,
                    second: 0,
                },
            )
        } else {
            Option::None
        }
    } else {
        Option::None
    }
}

/// Parse a leading `YYYY-MM-DD` date out of a file stem such as
/// `2021-01-05-hello`; the stem may continue after the date.
pub fn parse_date_prefix(s: &str) -> (r: Option<DateTime>)
    ensures
        r == spec_parse_date10(s@),
{
    let n = s.unicode_len();
    if n < 10 {
        return Option::None;
    }
    let c0 = s.get_char(0);
    let c1 = s.get_char(1);
    let c2 = s.get_char(2);
    let c3 = s.get_char(3);
    let c4 = s.get_char(4);
    let c5 = s.get_char(5);
    let c6 = s.get_char(6);
    let c7 = s.get_char(7);
    let c8 = s.get_char(8);
    let c9 = s.get_char(9);
    if !(digit(c0) && digit(c1) && digit(c2) && digit(c3) && c4 == '-' && digit(c5) && digit(c6)
        && c7 == '-' && digit(c8) && digit(c9)) {
        return Option::None;
    }
    let y: u32 = val(c0) * 1000 + val(c1) * 100 + val(c2) * 10 + val(c3);
    let m: u32 = val(c5) * 10 + val(c6);
    let d: u32 = val(c8) * 10 + val(c9);
    if m < 1 || m > 12 {
        return Option::None;
    }
    let dim = days_in_month(y as i32, m as u8);
    if d < 1 || d > dim as u32 {
        return Option::None;
    }
    Option::Some(
        DateTime {
            year: y as i32,
            month: m as u8,
            day: d as u8,
            hour: 0,
            minute: 0,
            second: 0,
        },
    )
}

fn digit(c: char) -> (r: bool)
    ensures
        r == spec_is_digit(c),
{
    '0' <= c && c <= '9'
}

fn val(c: char) -> (r: u32)
    requires
        spec_is_digit(c),
    ensures
        r == spec_digit_val(c),
{
    c as u32 - 48
}

/// The number of days in the given month.
pub fn days_in_month(y: i32, m: u8) -> (r: u8)
    ensures
        r == spec_days_in_month(y as int, m as int),
{
    if m == 2 {
        if y % 4 == 0 && (y % 100 != 0 || y % 400 == 0) {
            29
        } else {
            28
        }
    } else if m == 4 || m == 6 || m == 9 || m == 11 {
        30
    } else {
        31
    }
}

/// The outcome of a three-way comparison.
#[derive(Clone, Copy, Debug, PartialEq, Eq, Structural)]
pub enum Order {
    Less,
    Equal,
    Greater,
}

/// A path in the output tree, relative to the output root, stored without a
/// leading separator; segments are separated by `/`.
#[derive(Clone, Debug)]
pub struct Ancestors(pub String);

/// Is the slice empty?
pub fn is_slice_empty<T>(s: &[T]) -> (r: bool)
    ensures
        r == (s@.len() == 0),
{
    s.len() == 0
}

/// Is the number zero?
pub fn equal_zero(i: &i64) -> (r: bool)
    ensures
        r == (*i == 0),
{
    *i == 0
}

} // verus!
