//! The PDU timestamp: six nibble-swapped decimal digit pairs (year, month,
//! day, hour, minute, second) followed by two timezone characters carrying a
//! signed quarter-hour offset, decoded into a local date-time at that fixed
//! offset and converted to an absolute instant.

use vstd::prelude::*;
use crate::errors::Error;
use crate::hex::{hex_val, is_ascii_digit};
use chrono::TimeZone;

verus! {

/// An absolute instant together with the local calendar fields and the
/// originating quarter-hour offset it was decoded from.
#[derive(Debug, Clone, Copy, PartialEq, Eq, Structural)]
pub struct Timestamp {
    /// Full year; two-digit wire years are taken to lie in the 2000s.
    pub year: u16,
    pub month: u8,
    pub day: u8,
    pub hour: u8,
    pub minute: u8,
    pub second: u8,
    /// Signed timezone offset in quarter hours east of UTC.
    pub offset_quarter_hours: i32,
    /// Seconds since the Unix epoch of the instant the local fields denote.
    pub utc_seconds: i64,
}

/// The signed quarter-hour count carried by the two decoded timezone values:
/// `zero` is the ones digit; bit 3 of `one` is the sign (set means negative)
/// and its low three bits are the tens digit.
pub open spec fn tz_offset(zero: int, one: int) -> int
    recommends
        0 <= zero < 16,
        0 <= one < 16,
{
    if one >= 8 {
        -((one - 8) * 10 + zero)
    } else {
        one * 10 + zero
    }
}

/// The signed quarter-hour offset from the two decoded timezone digit values.
pub fn parse_time_zone(zero: i32, one: i32) -> (r: i32)
    requires
        0 <= zero < 16,
        0 <= one < 16,
    ensures
        r == tz_offset(zero as int, one as int),
{
    if one >= 8 {
        -((one - 8) * 10 + zero)
    } else {
        one * 10 + zero
    }
}

/// A leap year of the proleptic Gregorian calendar.
pub open spec fn is_leap_year(year: int) -> bool {
    (year % 4 == 0 && year % 100 != 0) || year % 400 == 0
}

/// The number of days of a month.
pub open spec fn days_in_month(year: int, month: int) -> int
    recommends
        1 <= month <= 12,
{
    if month == 2 {
        if is_leap_year(year) {
            29
        } else {
            28
        }
    } else if month == 4 || month == 6 || month == 9 || month == 11 {
        30
    } else {
        31
    }
}

/// A valid calendar date and time of day (leap seconds excluded).
pub open spec fn is_valid_datetime(
    year: int,
    month: int,
    day: int,
    hour: int,
    minute: int,
    second: int,
) -> bool {
    &&& 1 <= month <= 12
    &&& 1 <= day <= days_in_month(year, month)
    &&& 0 <= hour < 24
    &&& 0 <= minute < 60
    &&& 0 <= second < 60
}

/// The seconds since the Unix epoch of the valid local date-time
/// `year-month-day hour:minute:second` at the fixed offset `offset_seconds`
/// east of UTC. The calendar arithmetic is the outside library's; nothing
/// more is assumed of it than that it is a function of these arguments.
pub uninterp spec fn utc_seconds_of(
    year: int,
    month: int,
    day: int,
    hour: int,
    minute: int,
    second: int,
    offset_seconds: int,
) -> int;

/// Relies on chrono: `NaiveDate::from_ymd_opt` and `NaiveDate::and_hms_opt`
/// return `None` exactly on an invalid calendar date or time of day (years
/// 2000 to 2099 are all in chrono's range), `FixedOffset::east_opt` accepts
/// any offset strictly within one day, `TimeZone::from_local_datetime` on a
/// `FixedOffset` always maps a local date-time to a single instant, and
/// `DateTime::timestamp` is the count of seconds since the Unix epoch.
#[verifier::external_body]
fn chrono_utc_seconds(
    year: i32,
    month: u32,
    day: u32,
    hour: u32,
    minute: u32,
    second: u32,
    offset_seconds: i32,
) -> (r: Option<i64>)
    requires
        2000 <= year <= 2099,
        -86400 < offset_seconds < 86400,
    ensures
        r is Some <==> is_valid_datetime(
            year as int,
            month as int,
            day as int,
            hour as int,
            minute as int,
            second as int,
        ),
        r is Some ==> r->0 as int == utc_seconds_of(
            year as int,
            month as int,
            day as int,
            hour as int,
            minute as int,
            second as int,
            offset_seconds as int,
        ),
{
    let date = match chrono::NaiveDate::from_ymd_opt(year, month, day) {
        Some(d) => d,
        None => return None,
    };
    let local = match date.and_hms_opt(hour, minute, second) {
        Some(t) => t,
        None => return None,
    };
    let offset = match chrono::FixedOffset::east_opt(offset_seconds) {
        Some(o) => o,
        None => return None,
    };
    Some(offset.from_local_datetime(&local).unwrap().timestamp())
}

/// The two-digit decimal value of the nibble-swapped digit pair at `pos`:
/// the earlier (low-nibble) character is the tens digit.
pub open spec fn swapped_pair_val(d: Seq<u8>, pos: int) -> int
    recommends
        0 <= pos,
        pos + 2 <= d.len(),
{
    (d[pos + 1] - 48) * 10 + (d[pos] - 48)
}

/// Decoding the 14-character timestamp field at `pos`: six nibble-swapped
/// decimal digit pairs, then two timezone characters (read as hex digit
/// values, any other byte counting as 0). Fails with `MalformedTimestamp`
/// when a date-time character is not a decimal digit or the fields do not
/// form a valid calendar date-time.
pub open spec fn spec_parse_timestamp(d: Seq<u8>, pos: int) -> Result<Timestamp, Error> {
    if pos + 14 > d.len() {
        Err(Error::Incomplete)
    } else if exists|i: int| pos <= i < pos + 12 && !is_ascii_digit(d[i]) {
        Err(Error::MalformedTimestamp)
    } else {
        let year = 2000 + swapped_pair_val(d, pos);
        let month = swapped_pair_val(d, pos + 2);
        let day = swapped_pair_val(d, pos + 4);
        let hour = swapped_pair_val(d, pos + 6);
        let minute = swapped_pair_val(d, pos + 8);
        let second = swapped_pair_val(d, pos + 10);
        let offset = tz_offset(hex_val(d[pos + 12]) as int, hex_val(d[pos + 13]) as int);
        if !is_valid_datetime(year, month, day, hour, minute, second) {
            Err(Error::MalformedTimestamp)
        } else {
            Ok(
                Timestamp {
                    year: year as u16,
                    month: month as u8,
                    day: day as u8,
                    hour: hour as u8,
                    minute: minute as u8,
                    second: second as u8,
                    offset_quarter_hours: offset as i32,
                    utc_seconds: utc_seconds_of(
                        year,
                        month,
                        day,
                        hour,
                        minute,
                        second,
                        offset * 900,
                    ) as i64,
                },
            )
        }
    }
}

/// Read the two-digit decimal value of the nibble-swapped pair at `pos`,
/// or `None` when either character is not a decimal digit.
fn read_swapped_pair(data: &Vec<u8>, pos: usize) -> (r: Option<u8>)
    requires
        pos + 2 <= data@.len(),
    ensures
        r is Some <==> is_ascii_digit(data@[pos as int]) && is_ascii_digit(
            data@[pos as int + 1],
        ),
        r is Some ==> r->0 == swapped_pair_val(data@, pos as int),
{
    let _len = data.len();
    let c0 = data[pos];
    let c1 = data[pos + 1];
    if 48 <= c0 && c0 <= 57 && 48 <= c1 && c1 <= 57 {
        Some((c1 - 48) * 10 + (c0 - 48))
    } else {
        None
    }
}

/// Decode the timestamp field at `pos`; it occupies exactly 14 characters.
pub fn parse_timestamp(data: &Vec<u8>, pos: usize) -> (r: Result<Timestamp, Error>)
    ensures
        r == spec_parse_timestamp(data@, pos as int),
{
    if pos >= data.len() || data.len() - pos < 14 {
        return Err(Error::Incomplete);
    }
    let yy = read_swapped_pair(data, pos);
    let mo = read_swapped_pair(data, pos + 2);
    let da = read_swapped_pair(data, pos + 4);
    let ho = read_swapped_pair(data, pos + 6);
    let mi = read_swapped_pair(data, pos + 8);
    let se = read_swapped_pair(data, pos + 10);
    match (yy, mo, da, ho, mi, se) {
        (Some(yy), Some(mo), Some(da), Some(ho), Some(mi), Some(se)) => {
            assert(forall|i: int| pos <= i < pos + 12 ==> is_ascii_digit(data@[i])) by {
                assert forall|i: int| pos <= i < pos + 12 implies is_ascii_digit(data@[i]) by {
                    let p = pos as int;
                    assert(i == p || i == p + 1 || i == p + 2 || i == p + 3 || i == p + 4 || i == p
                        + 5 || i == p + 6 || i == p + 7 || i == p + 8 || i == p + 9 || i == p + 10
                        || i == p + 11);
                }
            }
            let zero = crate::hex::parse_ascii_hex_number(data[pos + 12]);
            let one = crate::hex::parse_ascii_hex_number(data[pos + 13]);
            let offset = parse_time_zone(zero, one);
            let year: i32 = 2000 + yy as i32;
            match chrono_utc_seconds(
                year,
                mo as u32,
                da as u32,
                ho as u32,
                mi as u32,
                se as u32,
                offset * 900,
            ) {
                Some(secs) => Ok(
                    Timestamp {
                        year: year as u16,
                        month: mo,
                        day: da,
                        hour: ho,
                        minute: mi,
                        second: se,
                        offset_quarter_hours: offset,
                        utc_seconds: secs,
                    },
                ),
                None => Err(Error::MalformedTimestamp),
            }
        },
        _ => Err(Error::MalformedTimestamp),
    }
}

} // verus!
