//! Verified calendar arithmetic: civil dates, their distance from the
//! Unix epoch in days, strict `YYYY-MM-DD` parsing, and the character
//! sequences of formatted dates and timestamps.

use vstd::prelude::*;
use vstd::string::{StrSliceExecFns, StringExecFns};
use crate::text::{pad2_chars, pad4_chars, push_2digit, push_4digit};

verus! {

/// A calendar date. Supported years are `0 ..= 9999`, the range the
/// four-digit date format can express.
#[derive(Clone, Copy, Debug, PartialEq, Eq, Structural)]
pub struct CivilDate {
    pub year: i64,
    pub month: i64,
    pub day: i64,
}

pub open spec fn is_leap_year(y: int) -> bool {
    y % 4 == 0 && (y % 100 != 0 || y % 400 == 0)
}

pub open spec fn year_days(y: int) -> int {
    if is_leap_year(y) {
        366
    } else {
        365
    }
}

pub open spec fn days_in_month(y: int, m: int) -> int {
    if m == 2 {
        if is_leap_year(y) {
            29
        } else {
            28
        }
    } else if m == 4 || m == 6 || m == 9 || m == 11 {
        30
    } else {
        31
    }
}

pub open spec fn valid_date(y: int, m: int, d: int) -> bool {
    &&& 0 <= y <= 9999
    &&& 1 <= m <= 12
    &&& 1 <= d <= days_in_month(y, m)
}

impl CivilDate {
    pub open spec fn valid(self) -> bool {
        valid_date(self.year as int, self.month as int, self.day as int)
    }

    /// Days from the Unix epoch to this date, negative before 1970.
    pub open spec fn epoch_days(self) -> int {
        days_from_civil(self.year as int, self.month as int, self.day as int)
    }
}

/// Days from 1970-01-01 to the first day of year `y` (negative before 1970).
pub open spec fn days_before_year(y: int) -> int
    decreases
            (if y >= 1970 {
                y - 1970
            } else {
                1970 - y
            }),
{
    if y == 1970 {
        0
    } else if y > 1970 {
        days_before_year(y - 1) + year_days(y - 1)
    } else {
        days_before_year(y + 1) - year_days(y)
    }
}

/// Days from the first of January of year `y` to the first of month `m`.
pub open spec fn months_before(y: int, m: int) -> int
    decreases m,
{
    if m <= 1 {
        0
    } else {
        months_before(y, m - 1) + days_in_month(y, m - 1)
    }
}

/// Days from 1970-01-01 to the civil date `y-m-d` (negative before 1970).
pub open spec fn days_from_civil(y: int, m: int, d: int) -> int {
    days_before_year(y) + months_before(y, m) + d - 1
}

pub proof fn lemma_months_before_full_year(y: int)
    ensures
        months_before(y, 13) == year_days(y),
{
    reveal_with_fuel(months_before, 14);
}

pub proof fn lemma_months_before_monotone(y: int, m1: int, m2: int)
    requires
        1 <= m1 <= m2 <= 13,
    ensures
        months_before(y, m1) <= months_before(y, m2),
    decreases m2 - m1,
{
    if m1 < m2 {
        lemma_months_before_monotone(y, m1, m2 - 1);
    }
}

/// Any valid date of year `y` lies in `[days_before_year(y), days_before_year(y + 1))`.
pub proof fn lemma_civil_within_year(y: int, m: int, d: int)
    requires
        valid_date(y, m, d),
    ensures
        days_before_year(y) <= days_from_civil(y, m, d),
        days_from_civil(y, m, d) < days_before_year(y) + year_days(y),
        days_before_year(y) + year_days(y) == days_before_year(y + 1),
{
    lemma_months_before_monotone(y, 1, m);
    assert(months_before(y, m) + days_in_month(y, m) == months_before(y, m + 1));
    lemma_months_before_monotone(y, m + 1, 13);
    lemma_months_before_full_year(y);
}

pub proof fn lemma_days_before_year_monotone(y1: int, y2: int)
    requires
        y1 <= y2,
    ensures
        days_before_year(y1) <= days_before_year(y2),
    decreases y2 - y1,
{
    if y1 < y2 {
        lemma_days_before_year_monotone(y1, y2 - 1);
        if y2 > 1970 {
            assert(days_before_year(y2) == days_before_year(y2 - 1) + year_days(y2 - 1));
        } else {
            assert(days_before_year(y2 - 1) == days_before_year(y2) - year_days(y2 - 1));
        }
    }
}

/// Earlier valid dates never lie after later ones: `days_from_civil` is
/// monotone in the lexicographic order on `(year, month, day)`.
pub proof fn lemma_days_from_civil_monotone(y1: int, m1: int, d1: int, y2: int, m2: int, d2: int)
    requires
        valid_date(y1, m1, d1),
        valid_date(y2, m2, d2),
        (y1 < y2) || (y1 == y2 && m1 < m2) || (y1 == y2 && m1 == m2 && d1 <= d2),
    ensures
        days_from_civil(y1, m1, d1) <= days_from_civil(y2, m2, d2),
{
    if y1 < y2 {
        lemma_civil_within_year(y1, m1, d1);
        lemma_civil_within_year(y2, m2, d2);
        lemma_days_before_year_monotone(y1 + 1, y2);
    } else if m1 < m2 {
        lemma_months_before_monotone(y1, m1 + 1, m2);
        assert(months_before(y1, m1) + days_in_month(y1, m1) == months_before(y1, m1 + 1));
    }
}

/// `days_before_year` grows by 365 to 366 days a year after 1970.
pub proof fn lemma_days_before_year_bounds_high(y: int)
    requires
        1970 <= y <= 10000,
    ensures
        365 * (y - 1970) <= days_before_year(y) <= 366 * (y - 1970),
    decreases y - 1970,
{
    if y > 1970 {
        lemma_days_before_year_bounds_high(y - 1);
    }
}

/// ... and shrinks by 365 to 366 days a year before 1970.
pub proof fn lemma_days_before_year_bounds_low(y: int)
    requires
        0 <= y <= 1970,
    ensures
        -366 * (1970 - y) <= days_before_year(y) <= -365 * (1970 - y),
    decreases 1970 - y,
{
    if y < 1970 {
        lemma_days_before_year_bounds_low(y + 1);
        assert(days_before_year(y) == days_before_year(y + 1) - year_days(y));
    }
}

pub fn leap_year(y: i64) -> (r: bool)
    requires
        0 <= y,
    ensures
        r == is_leap_year(y as int),
{
    y % 4 == 0 && (y % 100 != 0 || y % 400 == 0)
}

pub fn year_len(y: i64) -> (r: i64)
    requires
        0 <= y,
    ensures
        r == year_days(y as int),
{
    if leap_year(y) {
        366
    } else {
        365
    }
}

pub fn month_len(y: i64, m: i64) -> (r: i64)
    requires
        0 <= y,
        1 <= m <= 12,
    ensures
        r == days_in_month(y as int, m as int),
{
    if m == 2 {
        if leap_year(y) {
            29
        } else {
            28
        }
    } else if m == 4 || m == 6 || m == 9 || m == 11 {
        30
    } else {
        31
    }
}

/// Days from the Unix epoch to `date`, negative before 1970.
pub fn date_to_days(date: &CivilDate) -> (n: i64)
    requires
        date.valid(),
    ensures
        n == date.epoch_days(),
{
    let mut acc: i64 = 0;
    if date.year >= 1970 {
        let mut y: i64 = 1970;
        while y < date.year
            invariant
                1970 <= y <= date.year,
                date.valid(),
                acc == days_before_year(y as int),
            decreases date.year - y,
        {
            proof {
                lemma_days_before_year_bounds_high(y as int);
                lemma_days_before_year_bounds_high(y + 1 as int);
            }
            acc = acc + year_len(y);
            y = y + 1;
        }
    } else {
        let mut y: i64 = 1970;
        while y > date.year
            invariant
                date.year <= y <= 1970,
                date.valid(),
                acc == days_before_year(y as int),
            decreases y - date.year,
        {
            proof {
                lemma_days_before_year_bounds_low(y as int);
                lemma_days_before_year_bounds_low(y - 1 as int);
                assert(days_before_year(y - 1 as int) == days_before_year(y as int) - year_days(
                    y - 1 as int,
                ));
            }
            acc = acc - year_len(y - 1);
            y = y - 1;
        }
    }
    proof {
        if date.year >= 1970 {
            lemma_days_before_year_bounds_high(date.year as int);
        } else {
            lemma_days_before_year_bounds_low(date.year as int);
        }
        lemma_months_before_monotone(date.year as int, 1, 13);
        lemma_months_before_full_year(date.year as int);
    }
    let mut m: i64 = 1;
    while m < date.month
        invariant
            1 <= m <= date.month,
            date.valid(),
            -730000 <= days_before_year(date.year as int) <= 2940000,
            0 <= months_before(date.year as int, m as int) <= 366,
            acc == days_before_year(date.year as int) + months_before(date.year as int, m as int),
        decreases date.month - m,
    {
        proof {
            lemma_months_before_monotone(date.year as int, m + 1 as int, 13);
            lemma_months_before_full_year(date.year as int);
        }
        acc = acc + month_len(date.year, m);
        m = m + 1;
    }
    acc + date.day - 1
}

/// The year and day-of-year that day `n` falls in, scanning up from `y`.
pub open spec fn year_of_day(n: int, y: int) -> (int, int)
    decreases n - days_before_year(y),
{
    if y >= 9999 || n < days_before_year(y) + year_days(y) {
        (y, n - days_before_year(y))
    } else {
        year_of_day(n, y + 1)
    }
}

/// The month and day-of-month (zero-based) of day-of-year `r` in year `y`,
/// scanning up from month `m`.
pub open spec fn month_of_day(y: int, r: int, m: int) -> (int, int)
    decreases 12 - m,
{
    if m >= 12 || r < months_before(y, m) + days_in_month(y, m) {
        (m, r - months_before(y, m))
    } else {
        month_of_day(y, r, m + 1)
    }
}

/// The civil date of day `n` counted from the Unix epoch.
pub open spec fn civil_of_day(n: int) -> (int, int, int) {
    let yr = year_of_day(n, 1970);
    let md = month_of_day(yr.0, yr.1, 1);
    (yr.0, md.0, md.1 + 1)
}

proof fn lemma_year_of_day(n: int, y: int)
    requires
        1970 <= y <= 9999,
        days_before_year(y) <= n < days_before_year(10000),
    ensures
        ({
            let yr = year_of_day(n, y);
            &&& y <= yr.0 <= 9999
            &&& yr.1 == n - days_before_year(yr.0)
            &&& 0 <= yr.1 < year_days(yr.0)
        }),
    decreases n - days_before_year(y),
{
    if y >= 9999 {
        assert(days_before_year(10000) == days_before_year(9999) + year_days(9999));
    } else if n < days_before_year(y) + year_days(y) {
    } else {
        assert(days_before_year(y + 1) == days_before_year(y) + year_days(y));
        lemma_year_of_day(n, y + 1);
    }
}

proof fn lemma_month_of_day(y: int, r: int, m: int)
    requires
        1 <= m <= 12,
        months_before(y, m) <= r < year_days(y),
    ensures
        ({
            let md = month_of_day(y, r, m);
            &&& m <= md.0 <= 12
            &&& md.1 == r - months_before(y, md.0)
            &&& 0 <= md.1 < days_in_month(y, md.0)
        }),
    decreases 12 - m,
{
    if m >= 12 || r < months_before(y, m) + days_in_month(y, m) {
        if m >= 12 {
            lemma_months_before_full_year(y);
            assert(months_before(y, 13) == months_before(y, 12) + days_in_month(y, 12));
        }
    } else {
        lemma_month_of_day(y, r, m + 1);
    }
}

/// `civil_of_day` inverts `days_from_civil` on every day from the epoch
/// up to the year 10000.
pub proof fn lemma_civil_of_day(n: int)
    requires
        0 <= n < days_before_year(10000),
    ensures
        ({
            let c = civil_of_day(n);
            &&& valid_date(c.0, c.1, c.2)
            &&& days_from_civil(c.0, c.1, c.2) == n
            &&& 1970 <= c.0 <= 9999
        }),
{
    lemma_year_of_day(n, 1970);
    let yr = year_of_day(n, 1970);
    lemma_month_of_day(yr.0, yr.1, 1);
}

/// The civil date of day `n` counted from the Unix epoch.
pub fn days_to_date(n: i64) -> (d: CivilDate)
    requires
        0 <= n < days_before_year(10000),
    ensures
        ({
            let c = civil_of_day(n as int);
            &&& d.year == c.0
            &&& d.month == c.1
            &&& d.day == c.2
        }),
        d.valid(),
        d.epoch_days() == n,
        1970 <= d.year <= 9999,
{
    let mut y: i64 = 1970;
    let mut rem: i64 = n;
    let mut yl = year_len(y);
    while rem >= yl && y < 9999
        invariant
            1970 <= y <= 9999,
            rem == n - days_before_year(y as int),
            0 <= rem,
            yl == year_days(y as int),
            n < days_before_year(10000),
            year_of_day(n as int, 1970) == year_of_day(n as int, y as int),
        decreases rem,
    {
        proof {
            assert(days_before_year(y + 1 as int) == days_before_year(y as int) + year_days(
                y as int,
            ));
            lemma_days_before_year_bounds_high(y + 1 as int);
        }
        rem = rem - yl;
        y = y + 1;
        yl = year_len(y);
    }
    proof {
        if y == 9999 {
            assert(days_before_year(10000) == days_before_year(9999) + year_days(9999));
        }
        assert(rem < yl);
        assert(year_of_day(n as int, y as int) == (y as int, rem as int));
    }
    let mut m: i64 = 1;
    let mut ml = month_len(y, m);
    while rem >= ml
        invariant
            1 <= m <= 12,
            1970 <= y <= 9999,
            ml == days_in_month(y as int, m as int),
            0 <= rem,
            rem == (n - days_before_year(y as int)) - months_before(y as int, m as int),
            n - days_before_year(y as int) < year_days(y as int),
            month_of_day(y as int, n - days_before_year(y as int), 1) == month_of_day(
                y as int,
                n - days_before_year(y as int),
                m as int,
            ),
        decreases rem,
    {
        proof {
            if m == 12 {
                lemma_months_before_full_year(y as int);
                assert(months_before(y as int, 13) == months_before(y as int, 12) + days_in_month(
                    y as int,
                    12,
                ));
                assert(false);
            }
        }
        rem = rem - ml;
        m = m + 1;
        ml = month_len(y, m);
    }
    proof {
        lemma_civil_of_day(n as int);
    }
    CivilDate { year: y, month: m, day: rem + 1 }
}

/// A date string did not parse as strict `YYYY-MM-DD`.
#[derive(Clone, Copy, Debug, PartialEq, Eq, Structural)]
pub struct DateParseError;

/// The value of an ASCII digit character, `-1` for any other character.
pub open spec fn digit_val(c: char) -> int {
    if c == '0' {
        0
    } else if c == '1' {
        1
    } else if c == '2' {
        2
    } else if c == '3' {
        3
    } else if c == '4' {
        4
    } else if c == '5' {
        5
    } else if c == '6' {
        6
    } else if c == '7' {
        7
    } else if c == '8' {
        8
    } else if c == '9' {
        9
    } else {
        -1
    }
}

pub open spec fn year_of_str(s: Seq<char>) -> int {
    1000 * digit_val(s[0]) + 100 * digit_val(s[1]) + 10 * digit_val(s[2]) + digit_val(s[3])
}

pub open spec fn month_of_str(s: Seq<char>) -> int {
    10 * digit_val(s[5]) + digit_val(s[6])
}

pub open spec fn day_of_str(s: Seq<char>) -> int {
    10 * digit_val(s[8]) + digit_val(s[9])
}

/// The string is exactly `YYYY-MM-DD` and names a valid calendar date.
pub open spec fn date_str_parses(s: Seq<char>) -> bool {
    &&& s.len() == 10
    &&& s[4] == '-'
    &&& s[7] == '-'
    &&& digit_val(s[0]) >= 0
    &&& digit_val(s[1]) >= 0
    &&& digit_val(s[2]) >= 0
    &&& digit_val(s[3]) >= 0
    &&& digit_val(s[5]) >= 0
    &&& digit_val(s[6]) >= 0
    &&& digit_val(s[8]) >= 0
    &&& digit_val(s[9]) >= 0
    &&& valid_date(year_of_str(s), month_of_str(s), day_of_str(s))
}

fn digit_of(c: char) -> (r: Option<u8>)
    ensures
        r is Some <==> digit_val(c) >= 0,
        r is Some ==> r.unwrap() == digit_val(c),
{
    match c {
        '0' => Some(0),
        '1' => Some(1),
        '2' => Some(2),
        '3' => Some(3),
        '4' => Some(4),
        '5' => Some(5),
        '6' => Some(6),
        '7' => Some(7),
        '8' => Some(8),
        '9' => Some(9),
        _ => None,
    }
}

/// Parses a calendar date written strictly as `YYYY-MM-DD`; any other
/// shape, and any invalid date, is a `DateParseError`.
pub fn parse_date(s: &str) -> (r: Result<CivilDate, DateParseError>)
    ensures
        r is Ok <==> date_str_parses(s@),
        r matches Ok(c) ==> {
            &&& c.year == year_of_str(s@)
            &&& c.month == month_of_str(s@)
            &&& c.day == day_of_str(s@)
            &&& c.valid()
        },
{
    if s.unicode_len() != 10 {
        return Err(DateParseError);
    }
    if s.get_char(4) != '-' || s.get_char(7) != '-' {
        return Err(DateParseError);
    }
    let d0 = digit_of(s.get_char(0));
    let d1 = digit_of(s.get_char(1));
    let d2 = digit_of(s.get_char(2));
    let d3 = digit_of(s.get_char(3));
    let d5 = digit_of(s.get_char(5));
    let d6 = digit_of(s.get_char(6));
    let d8 = digit_of(s.get_char(8));
    let d9 = digit_of(s.get_char(9));
    match (d0, d1, d2, d3, d5, d6, d8, d9) {
        (
            Some(d0),
            Some(d1),
            Some(d2),
            Some(d3),
            Some(d5),
            Some(d6),
            Some(d8),
            Some(d9),
        ) => {
            let year: i64 = 1000 * (d0 as i64) + 100 * (d1 as i64) + 10 * (d2 as i64) + (d3 as i64);
            let month: i64 = 10 * (d5 as i64) + (d6 as i64);
            let day: i64 = 10 * (d8 as i64) + (d9 as i64);
            if month < 1 || month > 12 {
                return Err(DateParseError);
            }
            if day < 1 || day > month_len(year, month) {
                return Err(DateParseError);
            }
            Ok(CivilDate { year, month, day })
        },
        _ => Err(DateParseError),
    }
}

/// The characters of a date formatted `YYYY-MM-DD`.
pub open spec fn date_chars(y: int, m: int, d: int) -> Seq<char> {
    pad4_chars(y) + seq!['-'] + pad2_chars(m) + seq!['-'] + pad2_chars(d)
}

/// Appends `date` formatted `YYYY-MM-DD`.
pub fn push_date(s: &mut String, date: &CivilDate)
    requires
        date.valid(),
    ensures
        final(s)@ == old(s)@ + date_chars(date.year as int, date.month as int, date.day as int),
{
    push_4digit(s, date.year as u16);
    proof {
        reveal_strlit("-");
    }
    s.append("-");
    push_2digit(s, date.month as u8);
    s.append("-");
    push_2digit(s, date.day as u8);
    proof {
        assert(final(s)@ =~= old(s)@ + date_chars(
            date.year as int,
            date.month as int,
            date.day as int,
        ));
    }
}

/// The characters of a timestamp `t` (seconds from the Unix epoch)
/// formatted `YYYY-MM-DD HH:MM:SS`.
pub open spec fn stamp_chars(t: int) -> Seq<char> {
    let c = civil_of_day(t / 86400);
    let sod = t % 86400;
    date_chars(c.0, c.1, c.2) + seq![' '] + pad2_chars(sod / 3600) + seq![':'] + pad2_chars(
        (sod / 60) % 60,
    ) + seq![':'] + pad2_chars(sod % 60)
}

/// Appends the timestamp `t` formatted `YYYY-MM-DD HH:MM:SS`.
pub fn push_stamp(s: &mut String, t: i64)
    requires
        0 <= t < days_before_year(10000) * 86400,
    ensures
        final(s)@ == old(s)@ + stamp_chars(t as int),
{
    let days: i64 = t / 86400;
    let sod: i64 = t % 86400;
    proof {
        assert(days < days_before_year(10000) && 0 <= sod < 86400) by {
            vstd::arithmetic::div_mod::lemma_fundamental_div_mod(t as int, 86400);
        };
    }
    let date = days_to_date(days);
    push_date(s, &date);
    proof {
        reveal_strlit(" ");
        reveal_strlit(":");
    }
    s.append(" ");
    push_2digit(s, (sod / 3600) as u8);
    s.append(":");
    push_2digit(s, ((sod / 60) % 60) as u8);
    s.append(":");
    push_2digit(s, (sod % 60) as u8);
    proof {
        assert(final(s)@ =~= old(s)@ + stamp_chars(t as int));
    }
}

} // verus!
