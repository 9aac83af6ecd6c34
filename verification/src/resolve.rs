//! The time-range resolver: user-supplied calendar dates become one
//! absolute UTC window, local midnight to local end of day.

use vstd::prelude::*;
use crate::date::{
    date_str_parses, day_of_str, days_from_civil, date_to_days, lemma_civil_within_year,
    lemma_days_before_year_bounds_high, lemma_days_before_year_bounds_low,
    lemma_days_before_year_monotone, lemma_days_from_civil_monotone, month_of_str, parse_date,
    valid_date, year_of_str, DateParseError,
};

verus! {

/// One absolute UTC time range, both bounds in seconds from the Unix
/// epoch. A well-formed window has `start <= end`.
#[derive(Clone, Copy, Debug, PartialEq, Eq, Structural)]
pub struct TimeWindow {
    pub start: i64,
    pub end: i64,
}

/// UTC seconds of local midnight of the given date, in a zone `offset`
/// seconds east of UTC.
pub open spec fn day_start_utc(y: int, m: int, d: int, offset: int) -> int {
    days_from_civil(y, m, d) * 86400 - offset
}

/// UTC seconds of local 23:59:59 of the given date, in a zone `offset`
/// seconds east of UTC.
pub open spec fn day_end_utc(y: int, m: int, d: int, offset: int) -> int {
    days_from_civil(y, m, d) * 86400 + 86399 - offset
}

/// The first date is not after the second in calendar order.
pub open spec fn date_not_after(y1: int, m1: int, d1: int, y2: int, m2: int, d2: int) -> bool {
    (y1 < y2) || (y1 == y2 && m1 < m2) || (y1 == y2 && m1 == m2 && d1 <= d2)
}

pub proof fn lemma_epoch_days_bounds(y: int, m: int, d: int)
    requires
        valid_date(y, m, d),
    ensures
        -722000 <= days_from_civil(y, m, d) <= 2940000,
{
    lemma_civil_within_year(y, m, d);
    lemma_days_before_year_bounds_low(0);
    lemma_days_before_year_monotone(0, y);
    lemma_days_before_year_monotone(y + 1, 10000);
    lemma_days_before_year_bounds_high(10000);
}

/// Resolves the user's calendar dates to one UTC window.
///
/// `start_date` is taken at local midnight, `end_date` at local 23:59:59;
/// a missing end date means "now". `start_offset` and `end_offset` are the
/// local zone's displacements east of UTC, in seconds, at the two dates;
/// `now_utc` is the current time. All three are plain values so that the
/// resolution itself is exact; the caller reads clock and zone.
pub fn resolve(
    start_date: &str,
    end_date: Option<&str>,
    now_utc: i64,
    start_offset: i64,
    end_offset: i64,
) -> (r: Result<TimeWindow, DateParseError>)
    requires
        -86400 < start_offset < 86400,
        -86400 < end_offset < 86400,
    ensures
        r is Ok <==> (date_str_parses(start_date@) && (end_date matches Some(e)
            ==> date_str_parses(e@))),
        r matches Ok(w) ==> w.start == day_start_utc(
            year_of_str(start_date@),
            month_of_str(start_date@),
            day_of_str(start_date@),
            start_offset as int,
        ),
        r matches Ok(w) ==> (match end_date {
            Some(e) => w.end == day_end_utc(
                year_of_str(e@),
                month_of_str(e@),
                day_of_str(e@),
                end_offset as int,
            ),
            None => w.end == now_utc,
        }),
{
    let start = match parse_date(start_date) {
        Ok(d) => d,
        Err(e) => {
            return Err(e);
        },
    };
    proof {
        lemma_epoch_days_bounds(start.year as int, start.month as int, start.day as int);
    }
    let start_secs: i64 = date_to_days(&start) * 86400 - start_offset;
    let end_secs: i64 = match end_date {
        Some(e) => {
            let end = match parse_date(e) {
                Ok(d) => d,
                Err(e) => {
                    return Err(e);
                },
            };
            proof {
                lemma_epoch_days_bounds(end.year as int, end.month as int, end.day as int);
            }
            date_to_days(&end) * 86400 + 86399 - end_offset
        },
        None => now_utc,
    };
    Ok(TimeWindow { start: start_secs, end: end_secs })
}

/// Resolving an ordered pair of dates yields an ordered window: as long
/// as the start date is not after the end date and the end date's zone
/// offset does not exceed the start date's by a whole day, local midnight
/// of the first lies at or before local 23:59:59 of the second.
pub proof fn lemma_resolved_window_ordered(
    y1: int,
    m1: int,
    d1: int,
    y2: int,
    m2: int,
    d2: int,
    start_offset: int,
    end_offset: int,
)
    requires
        valid_date(y1, m1, d1),
        valid_date(y2, m2, d2),
        date_not_after(y1, m1, d1, y2, m2, d2),
        end_offset - start_offset <= 86399,
    ensures
        day_start_utc(y1, m1, d1, start_offset) <= day_end_utc(y2, m2, d2, end_offset),
{
    lemma_days_from_civil_monotone(y1, m1, d1, y2, m2, d2);
}

/// The enumerated legal set of candle resolutions, in seconds: a fixed
/// list of sub-day widths, or any whole multiple of a day up to 30 days.
pub open spec fn spec_resolution_valid(r: u32) -> bool {
    ||| r == 15
    ||| r == 60
    ||| r == 300
    ||| r == 900
    ||| r == 3600
    ||| r == 14400
    ||| (r % 86400 == 0 && 86400 <= r <= 30 * 86400)
}

/// Checks a requested resolution against the legal set before any
/// request is issued.
pub fn resolution_valid(r: u32) -> (b: bool)
    ensures
        b == spec_resolution_valid(r),
{
    r == 15 || r == 60 || r == 300 || r == 900 || r == 3600 || r == 14400 || (r % 86400 == 0 && r
        >= 86400 && r <= 30 * 86400)
}

} // verus!
