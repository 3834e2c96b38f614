//! Calendar dates and timestamps, through chrono.
use chrono::Datelike;
use std::fmt::Write;
use vstd::prelude::*;

verus! {

/// A leap year of the Gregorian calendar.
pub open spec fn is_leap_year(y: int) -> bool {
    (y % 4 == 0 && y % 100 != 0) || y % 400 == 0
}

/// The number of days in month `m` of year `y`.
pub open spec fn days_in_month(y: int, m: int) -> int {
    if m == 2 {
        if is_leap_year(y) {
            29
        } else {
            28
        }
    } else if m == 4 || m == 6 || m == 9 || m == 11 {
        30
    } else {
        31
    }
}

/// A calendar date in the proleptic Gregorian calendar, within chrono's
/// range of years.
pub open spec fn valid_date(y: int, m: int, d: int) -> bool {
    &&& -262143 <= y <= 262142
    &&& 1 <= m <= 12
    &&& 1 <= d <= days_in_month(y, m)
}

/// An ASCII decimal digit.
pub open spec fn is_digit(c: char) -> bool {
    '0' <= c <= '9'
}

/// The value of a decimal digit.
pub open spec fn digit_value(c: char) -> int {
    c as int - '0' as int
}

/// The decimal digit of `n` (`0 <= n < 10`).
pub open spec fn digit_char(n: int) -> char {
    seq!['0', '1', '2', '3', '4', '5', '6', '7', '8', '9'][n]
}

/// The value of the decimal digits `s[from..to]`.
pub open spec fn number_at(s: Seq<char>, from: int, to: int) -> int
    decreases to - from,
{
    if to <= from {
        0
    } else {
        number_at(s, from, to - 1) * 10 + digit_value(s[to - 1])
    }
}

/// `s` is exactly `YYYY-MM-DD` and names a calendar date.
pub open spec fn is_plain_date(s: Seq<char>) -> bool {
    &&& s.len() == 10
    &&& forall|i: int| 0 <= i < 10 && i != 4 && i != 7 ==> is_digit(#[trigger] s[i])
    &&& s[4] == '-'
    &&& s[7] == '-'
    &&& valid_date(number_at(s, 0, 4), number_at(s, 5, 7), number_at(s, 8, 10))
}

/// `n` written with two digits (`0 <= n < 100`).
pub open spec fn two_digits(n: int) -> Seq<char> {
    seq![digit_char(n / 10), digit_char(n % 10)]
}

/// Midnight UTC of a date in the years 0 to 9999, in RFC 3339:
/// `YYYY-MM-DDT00:00:00+00:00`.
pub open spec fn midnight_text(y: int, m: int, d: int) -> Seq<char> {
    two_digits(y / 100) + two_digits(y % 100) + seq!['-'] + two_digits(m) + seq!['-'] + two_digits(d)
        + "T00:00:00+00:00"@
}

/// The number of days from 1970-01-01 to a date of the proleptic
/// Gregorian calendar (negative before it).
pub open spec fn days_from_civil(y: int, m: int, d: int) -> int {
    let yy = if m <= 2 { y - 1 } else { y };
    let era = yy / 400;
    let yoe = yy - era * 400;
    let mp = if m > 2 { m - 3 } else { m + 9 };
    let doy = (153 * mp + 2) / 5 + d - 1;
    let doe = yoe * 365 + yoe / 4 - yoe / 100 + doy;
    era * 146097 + doe - 719468
}

/// What `NaiveDate::parse_from_str(s, "%Y-%m-%d")` gives, as year, month
/// and day.
pub uninterp spec fn ymd_parsed(s: Seq<char>) -> Option<(i32, u32, u32)>;

/// The RFC 3339 text of midnight UTC on a date.
pub uninterp spec fn midnight_rfc3339(y: i32, m: u32, d: u32) -> Seq<char>;

/// The instant that RFC 3339 text names, as seconds since the Unix epoch,
/// nanoseconds, and its offset from UTC in seconds.
pub uninterp spec fn rfc3339_instant(s: Seq<char>) -> Option<(i64, u32, i32)>;

/// Relies on `chrono::NaiveDate::parse_from_str` with format `%Y-%m-%d`: a
/// date is only ever a calendar date, and `YYYY-MM-DD` text of a calendar
/// date parses to it.
#[verifier::external_body]
pub(crate) fn parse_ymd(s: &str) -> (r: Option<(i32, u32, u32)>)
    ensures
        r == ymd_parsed(s@),
        r matches Some((y, m, d)) ==> valid_date(y as int, m as int, d as int),
        is_plain_date(s@) ==> r == Some(
            (number_at(s@, 0, 4) as i32, number_at(s@, 5, 7) as u32, number_at(s@, 8, 10) as u32),
        ),
{
    chrono::NaiveDate::parse_from_str(s, "%Y-%m-%d").ok().map(|d| (d.year(), d.month(), d.day()))
}

/// Relies on chrono's `%+` format of a `DateTime<Utc>` at midnight of a
/// date: RFC 3339 with a `+00:00` offset, the year in four digits when it
/// lies in 0 to 9999.
#[verifier::external_body]
pub(crate) fn midnight_utc(y: i32, m: u32, d: u32) -> (r: String)
    requires
        valid_date(y as int, m as int, d as int),
    ensures
        r@ == midnight_rfc3339(y, m, d),
        0 <= y <= 9999 ==> r@ == midnight_text(y as int, m as int, d as int),
{
    let date = chrono::NaiveDate::from_ymd_opt(y, m, d).unwrap().and_hms_opt(0, 0, 0).unwrap();
    chrono::DateTime::<chrono::Utc>::from_naive_utc_and_offset(date, chrono::Utc).format("%+").to_string()
}

/// Where `s` is the RFC 3339 text of midnight UTC on a date, `r` is that
/// instant.
pub open spec fn reads_midnight(s: Seq<char>, r: Result<(i64, u32, i32), String>) -> bool {
    forall|y: i32, m: u32, d: u32|
        valid_date(y as int, m as int, d as int) && s == #[trigger] midnight_rfc3339(y, m, d) ==> (r matches Ok(x)
            && x == ((86400 * days_from_civil(y as int, m as int, d as int)) as i64, 0u32, 0i32))
}

/// Relies on `chrono::DateTime::parse_from_str` with format `%+` (RFC 3339),
/// read back as a timestamp, its nanoseconds and its UTC offset; on failure
/// gives chrono's message. A bare `YYYY-MM-DD` lacks the time and fails;
/// chrono's own text of midnight UTC on a date reads back as that instant.
#[verifier::external_body]
pub(crate) fn parse_rfc3339(s: &str) -> (r: Result<(i64, u32, i32), String>)
    ensures
        r is Ok <==> rfc3339_instant(s@) is Some,
        r matches Ok(x) ==> rfc3339_instant(s@) == Some(x),
        is_plain_date(s@) ==> r is Err,
        reads_midnight(s@, r),
{
    chrono::DateTime::parse_from_str(s, "%+").map(
        |dt| (dt.timestamp(), dt.timestamp_subsec_nanos(), dt.offset().local_minus_utc()),
    ).map_err(|e| e.to_string())
}

/// Relies on chrono's `NaiveDate::from_ymd_opt`, `and_hms_opt(0, 0, 0)`,
/// `and_utc` and `timestamp`: the seconds from the Unix epoch to midnight
/// UTC on a date.
#[verifier::external_body]
pub(crate) fn midnight_timestamp(y: i32, m: u32, d: u32) -> (r: i64)
    requires
        valid_date(y as int, m as int, d as int),
    ensures
        r == 86400 * days_from_civil(y as int, m as int, d as int),
{
    chrono::NaiveDate::from_ymd_opt(y, m, d).unwrap().and_hms_opt(0, 0, 0).unwrap().and_utc().timestamp()
}

/// The text of an instant, seen at a UTC offset, under a chrono format
/// string; none where the format string is not valid.
pub uninterp spec fn strftime_text(secs: i64, nanos: u32, offset: i32, fmt: Seq<char>) -> Option<Seq<char>>;

/// Relies on `chrono::DateTime::from_timestamp`, `chrono::FixedOffset::east_opt`
/// and chrono's `format`: the instant at the offset, formatted; none where
/// the instant or offset is out of range or the format string is invalid.
#[verifier::external_body]
pub(crate) fn format_instant(secs: i64, nanos: u32, offset: i32, fmt: &str) -> (r: Option<String>)
    ensures
        r is None <==> strftime_text(secs, nanos, offset, fmt@) is None,
        r matches Some(s) ==> strftime_text(secs, nanos, offset, fmt@) == Some(s@),
{
    let zone = chrono::FixedOffset::east_opt(offset)?;
    let dt = chrono::DateTime::from_timestamp(secs, nanos)?.with_timezone(&zone);
    let mut out = String::new();
    write!(out, "{}", dt.format(fmt)).ok()?;
    Some(out)
}

} // verus!
