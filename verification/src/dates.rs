//! The publication date of a post, as a UTC instant.

use vstd::prelude::*;

verus! {

/// An instant in UTC: seconds since the Unix epoch and the nanoseconds
/// since the last whole second (at or above one second during a leap
/// second), as `chrono::DateTime::timestamp` and
/// `timestamp_subsec_nanos` give them.
#[derive(Debug, Clone, Copy, PartialEq, Eq, Structural)]
pub struct PostDate {
    pub secs: i64,
    pub nanos: u32,
}

impl PostDate {
    /// `self` is a later instant than `other`: the order of `chrono`'s UTC
    /// date-times, which compares seconds first and then nanoseconds.
    pub open spec fn is_after(self, other: PostDate) -> bool {
        self.secs > other.secs || (self.secs == other.secs && self.nanos > other.nanos)
    }

    pub fn after(&self, other: &PostDate) -> (res: bool)
        ensures
            res == self.is_after(*other),
    {
        self.secs > other.secs || (self.secs == other.secs && self.nanos > other.nanos)
    }

    /// The date written as `chrono` writes `%v` (`%e-%b-%Y`, such as
    /// ` 5-Jan-2024`), or `None` where `chrono` has no date-time for this
    /// instant.
    pub fn friendly(&self) -> (res: Option<String>)
        ensures
            res.deep_view() == friendly_date_of(self.secs, self.nanos),
            !valid_nanos(self.secs as int, self.nanos as int) ==> res is None,
            valid_nanos(self.secs as int, self.nanos as int) && in_years_0_to_9999(self.secs as int)
                ==> res.deep_view() == Some(friendly_text(self.secs as int)),
    {
        format_friendly_date(self.secs, self.nanos)
    }
}

/// The day `z`, counted from 1 January 1970, as a date of the proleptic
/// Gregorian calendar: year, month (1 to 12) and day of the month.
pub open spec fn civil_from_days(z: int) -> (int, int, int) {
    // days from 1 March of year 0, in 400-year eras of 146097 days, each
    // year counted from 1 March so that the leap day comes last
    let z = z + 719468;
    let era = z / 146097;
    let doe = z - era * 146097;
    let yoe = (doe - doe / 1460 + doe / 36524 - doe / 146096) / 365;
    let doy = doe - (365 * yoe + yoe / 4 - yoe / 100);
    let mp = (5 * doy + 2) / 153;
    let d = doy - (153 * mp + 2) / 5 + 1;
    let m = if mp < 10 {
        mp + 3
    } else {
        mp - 9
    };
    let y = yoe + era * 400 + if m <= 2 {
        1int
    } else {
        0int
    };
    (y, m, d)
}

/// The decimal digit `n` (0 to 9).
pub open spec fn digit(n: int) -> char {
    (48 + n) as char
}

/// The English abbreviation of month `m` (1 to 12).
pub open spec fn month_abbr(m: int) -> Seq<char> {
    if m == 1 {
        seq!['J', 'a', 'n']
    } else if m == 2 {
        seq!['F', 'e', 'b']
    } else if m == 3 {
        seq!['M', 'a', 'r']
    } else if m == 4 {
        seq!['A', 'p', 'r']
    } else if m == 5 {
        seq!['M', 'a', 'y']
    } else if m == 6 {
        seq!['J', 'u', 'n']
    } else if m == 7 {
        seq!['J', 'u', 'l']
    } else if m == 8 {
        seq!['A', 'u', 'g']
    } else if m == 9 {
        seq!['S', 'e', 'p']
    } else if m == 10 {
        seq!['O', 'c', 't']
    } else if m == 11 {
        seq!['N', 'o', 'v']
    } else {
        seq!['D', 'e', 'c']
    }
}

/// The day of the month in two places, padded with a space.
pub open spec fn day_text(d: int) -> Seq<char> {
    if d < 10 {
        seq![' ', digit(d)]
    } else {
        seq![digit(d / 10), digit(d % 10)]
    }
}

/// A year from 0 to 9999 in four digits, padded with zeros.
pub open spec fn year_text(y: int) -> Seq<char> {
    seq![digit(y / 1000), digit(y / 100 % 10), digit(y / 10 % 10), digit(y % 10)]
}

/// The date of the instant `secs` (seconds since the Unix epoch) written
/// as `%e-%b-%Y`, such as ` 5-Jan-2024`.
pub open spec fn friendly_text(secs: int) -> Seq<char> {
    let (y, m, d) = civil_from_days(secs / 86400);
    day_text(d) + seq!['-'] + month_abbr(m) + seq!['-'] + year_text(y)
}

/// The instant falls in a year from 0 to 9999.
pub open spec fn in_years_0_to_9999(secs: int) -> bool {
    -62167219200 <= secs < 253402300800
}

/// The nanoseconds are below one second, or below two seconds in the last
/// second of a minute (a leap second).
pub open spec fn valid_nanos(secs: int, nanos: int) -> bool {
    nanos < 1_000_000_000 || (nanos < 2_000_000_000 && secs % 60 == 59)
}

/// What `chrono` writes for the instant under the format `%v`, or `None`
/// where `DateTime::from_timestamp` has no date-time for it.
pub uninterp spec fn friendly_date_of(secs: i64, nanos: u32) -> Option<Seq<char>>;

/// `chrono::DateTime::from_timestamp` followed by `format("%v")`. The result
/// is named by `friendly_date_of`. `from_timestamp` gives no date-time where
/// the nanoseconds are out of range; for years 0 to 9999 it gives one
/// otherwise, and `%v` writes the day padded with a space, the English
/// month abbreviation and the year in four digits. For other years (where
/// `%Y` adds a sign, and beyond which `from_timestamp` gives none) the text
/// is left to the name.
#[verifier::external_body]
fn format_friendly_date(secs: i64, nanos: u32) -> (res: Option<String>)
    ensures
        res.deep_view() == friendly_date_of(secs, nanos),
        !valid_nanos(secs as int, nanos as int) ==> res is None,
        valid_nanos(secs as int, nanos as int) && in_years_0_to_9999(secs as int) ==> res.deep_view()
            == Some(friendly_text(secs as int)),
{
    match chrono::DateTime::from_timestamp(secs, nanos) {
        Some(date) => Some(date.format("%v").to_string()),
        None => None,
    }
}

} // verus!
