//! Calendar dates and local hours of usage messages: the `YYYY-MM-DD` date of a message
//! gives its day and month numbers, and its timestamp gives its local hour bucket.
use vstd::prelude::*;

use chrono::{Datelike, Local, NaiveDate, TimeZone};

verus! {

/// What `NaiveDate::parse_from_str(date, "%Y-%m-%d")` gives for a date string, as
/// (days since 0001-12-31 in the proleptic Gregorian calendar, year, month counted from 0),
/// or `None` when the string is not such a date.
pub uninterp spec fn spec_parse_date(date: Seq<char>) -> Option<(int, int, int)>;

/// The day number of a date string, when it parses.
pub open spec fn spec_date_day(date: Seq<char>) -> Option<int> {
    match spec_parse_date(date) {
        Some(p) => Some(p.0),
        None => None,
    }
}

/// The year and month (counted from 0) of a date string, when it parses.
pub open spec fn spec_date_year_month0(date: Seq<char>) -> Option<(int, int)> {
    match spec_parse_date(date) {
        Some(p) => Some((p.1, p.2)),
        None => None,
    }
}

/// The month number `year * 12 + month0` of a date string, when it parses.
pub open spec fn spec_date_month(date: Seq<char>) -> Option<int> {
    match spec_parse_date(date) {
        Some(p) => Some(p.1 * 12 + p.2),
        None => None,
    }
}

/// Parses a `YYYY-MM-DD` date with `chrono::NaiveDate::parse_from_str` and reads the parsed
/// date's `num_days_from_ce`, `year` and `month0`. The result is the named parse of the
/// string; chrono's `NaiveDate` holds years within `i32` and `month0` is below 12.
#[verifier::external_body]
pub fn parse_date_parts(date: &str) -> (r: Option<(i64, i64, i64)>)
    ensures
        r matches Some(p) ==> spec_parse_date(date@) == Some((p.0 as int, p.1 as int, p.2 as int)),
        r is None ==> spec_parse_date(date@) is None,
        r matches Some(p) ==> {
            &&& i32::MIN <= p.0 <= i32::MAX
            &&& i32::MIN <= p.1 <= i32::MAX
            &&& 0 <= p.2 < 12
        },
{
    match NaiveDate::parse_from_str(date, "%Y-%m-%d") {
        Ok(d) => Some((d.num_days_from_ce() as i64, d.year() as i64, d.month0() as i64)),
        Err(_) => None,
    }
}

/// The day number of a `YYYY-MM-DD` date, or `None` when it does not parse.
pub fn parse_date_day(date: &str) -> (r: Option<i64>)
    ensures
        r matches Some(d) ==> spec_date_day(date@) == Some(d as int),
        r is None ==> spec_date_day(date@) is None,
        r matches Some(d) ==> i32::MIN <= d <= i32::MAX,
{
    match parse_date_parts(date) {
        Some(p) => Some(p.0),
        None => None,
    }
}

/// The month number (`year * 12 + month0`) of a `YYYY-MM-DD` date, or `None` when it does
/// not parse.
pub fn parse_date_month(date: &str) -> (r: Option<i64>)
    ensures
        r matches Some(m) ==> spec_date_month(date@) == Some(m as int),
        r is None ==> spec_date_month(date@) is None,
{
    match parse_date_parts(date) {
        Some(p) => Some(p.1 * 12 + p.2),
        None => None,
    }
}

/// The day number (`num_days_from_ce`) of chrono's earliest date, `NaiveDate::MIN`.
pub const FIRST_DAY: i64 = -95746129;

/// The day number (`num_days_from_ce`) of chrono's latest date, `NaiveDate::MAX`.
pub const LAST_DAY: i64 = 95745399;

/// The day number of 1970-01-01.
pub const EPOCH_DAY: i64 = 719163;

/// The day (as a day number) on which the instant `secs` seconds after the epoch falls,
/// counting whole days of 86 400 seconds.
pub open spec fn day_of_second(secs: int) -> int {
    secs / 86400 + EPOCH_DAY
}

/// A second after the epoch lies on a date chrono can hold.
pub open spec fn second_in_range(secs: int) -> bool {
    FIRST_DAY <= day_of_second(secs) <= LAST_DAY
}

/// Reads the machine's UTC offset, in seconds east of UTC, at the instant `secs` seconds
/// after the epoch, with `chrono::Local.timestamp_opt(secs, 0)` and the offset's
/// `local_minus_utc`. The offset depends on the machine's time zone, so it is not named.
/// What holds of every outcome: chrono's `FixedOffset` lies strictly within a day either
/// way, and chrono's `DateTime::from_timestamp` gives an instant (which `Local` then always
/// maps to a single local time) exactly when the second lies on a date chrono holds. Left
/// unsaid: chrono's Unix time-zone lookup expects the machine's time-zone data to give an
/// offset, and panics when it cannot.
#[verifier::external_body]
fn local_offset_at(secs: i64) -> (r: Option<i64>)
    ensures
        r matches Some(o) ==> -86400 < o < 86400,
        r is Some <==> second_in_range(secs as int),
{
    match Local.timestamp_opt(secs, 0) {
        chrono::LocalResult::Single(dt) => Some(dt.offset().local_minus_utc() as i64),
        chrono::LocalResult::Ambiguous(_, _) => None,
        chrono::LocalResult::None => None,
    }
}

/// The local (day number, hour) of the second `secs` at UTC offset `offset`.
pub open spec fn local_day_hour(secs: int, offset: int) -> (int, int) {
    let l = secs + offset;
    (l / 86400 + EPOCH_DAY, (l % 86400) / 3600)
}

/// The local bucket a timestamp gets at UTC offset `offset`: none at or before the epoch or
/// when its second or its local time lies outside chrono's dates; otherwise the local day
/// and hour of its whole second.
pub open spec fn bucket_at_offset(timestamp_ms: i64, offset: int) -> Option<(i64, i64)> {
    let secs = timestamp_ms / 1000;
    if timestamp_ms <= 0 || !second_in_range(secs as int) || !second_in_range(secs + offset) {
        None
    } else {
        Some((local_day_hour(secs as int, offset).0 as i64, local_day_hour(secs as int, offset).1 as i64))
    }
}

/// `b` is the local bucket of the timestamp at some UTC offset strictly within a day.
pub open spec fn local_bucket_ok(timestamp_ms: i64, b: Option<(i64, i64)>) -> bool {
    exists|offset: int| -86400 < offset < 86400 && b == #[trigger] bucket_at_offset(timestamp_ms, offset)
}

/// The local hour bucket of a timestamp in milliseconds, as (day number, hour), in the
/// machine's time zone: none at or before the epoch; none when the timestamp's second or its
/// local time falls outside chrono's dates (where reading the local time would fail);
/// otherwise the local day and hour of the timestamp's whole second, at the machine's UTC
/// offset for that instant.
pub fn local_hour_bucket(timestamp_ms: i64) -> (r: Option<(i64, i64)>)
    ensures
        local_bucket_ok(timestamp_ms, r),
        timestamp_ms <= 0 ==> r is None,
        r matches Some(p) ==> FIRST_DAY <= p.0 <= LAST_DAY && 0 <= p.1 < 24,
        timestamp_ms > 0 && !second_in_range(timestamp_ms / 1000) ==> r is None,
{
    if timestamp_ms <= 0 {
        assert(bucket_at_offset(timestamp_ms, 0) is None);
        return None;
    }
    let secs = timestamp_ms / 1000;
    let offset = match local_offset_at(secs) {
        Some(o) => o,
        None => {
            assert(bucket_at_offset(timestamp_ms, 0) is None);
            return None;
        },
    };
    local_bucket_at_offset(timestamp_ms, offset)
}

/// The local hour bucket of a timestamp at a given UTC offset (seconds east of UTC): none at
/// or before the epoch or when the timestamp's second or its local time falls outside
/// chrono's dates; otherwise the local day number and hour of the timestamp's whole second.
pub fn local_bucket_at_offset(timestamp_ms: i64, offset: i64) -> (r: Option<(i64, i64)>)
    requires
        -86400 < offset < 86400,
    ensures
        r == bucket_at_offset(timestamp_ms, offset as int),
{
    if timestamp_ms <= 0 {
        return None;
    }
    let secs = timestamp_ms / 1000;
    let sd = secs / 86400 + EPOCH_DAY;
    if sd < FIRST_DAY || sd > LAST_DAY {
        return None;
    }
    let l = secs + offset;
    let (q, rem): (i64, i64) = if l >= 0 {
        (l / 86400, l % 86400)
    } else {
        (-1, l + 86400)
    };
    assert(q == l / 86400 && rem == l % 86400) by {
        if l < 0 {
            assert(-86400 < l);
        }
    }
    let day = q + EPOCH_DAY;
    if day < FIRST_DAY || day > LAST_DAY {
        None
    } else {
        Some((day, rem / 3600))
    }
}

/// The hour number `day * 24 + hour` of a message: its local hour bucket when its timestamp
/// has one, else midnight of its date when the date parses, else none.
pub open spec fn hour_number_from(b: Option<(i64, i64)>, date: Seq<char>) -> Option<int> {
    match b {
        Some(p) => Some(p.0 * 24 + p.1),
        None => match spec_date_day(date) {
            Some(d) => Some(d * 24),
            None => None,
        },
    }
}

/// An optional machine integer as an optional integer.
pub open spec fn opt_int(o: Option<i64>) -> Option<int> {
    match o {
        Some(v) => Some(v as int),
        None => None,
    }
}

/// The hour number of a message from its timestamp, falling back to midnight of its date.
/// The local hour depends on the machine's time zone: whatever it is, the result is the hour
/// number of a possible local bucket of the timestamp, or of the date's midnight when the
/// timestamp has none (always so at or before the epoch).
pub fn hour_bucket_with_fallback(timestamp_ms: i64, date: &str) -> (r: Option<i64>)
    ensures
        exists|b: Option<(i64, i64)>|
            local_bucket_ok(timestamp_ms, b) && opt_int(r) == #[trigger] hour_number_from(b, date@),
        timestamp_ms > 0 && !second_in_range(timestamp_ms / 1000) ==> opt_int(r) == hour_number_from(None, date@),
        timestamp_ms <= 0 ==> opt_int(r) == hour_number_from(None, date@),
{
    let b = local_hour_bucket(timestamp_ms);
    let r = match b {
        Some(p) => Some(p.0 * 24 + p.1),
        None => match parse_date_day(date) {
            Some(d) => Some(d * 24),
            None => None,
        },
    };
    assert(local_bucket_ok(timestamp_ms, b) && opt_int(r) == hour_number_from(b, date@));
    r
}

} // verus!
