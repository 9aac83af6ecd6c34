//! The system edge: clock and time-zone readings taken on trust from
//! chrono, and the resolver composed with them.

use vstd::prelude::*;
use crate::date::{
    date_str_parses, date_to_days, day_of_str, month_of_str, parse_date, year_of_str,
    DateParseError,
};
use crate::resolve::{
    day_end_utc, day_start_utc, lemma_epoch_days_bounds, resolve, TimeWindow,
};

verus! {

/// Relies on `chrono::Utc::now`: the current time as whole seconds from
/// the Unix epoch. Nothing is promised of the value: a clock may read
/// anything.
#[verifier::external_body]
fn now_utc_seconds() -> i64 {
    chrono::Utc::now().timestamp()
}

/// Relies on chrono's `Local` zone: the zone's displacement east of UTC,
/// in seconds, at the given instant, or `None` for an instant chrono
/// cannot represent. chrono holds every offset it constructs strictly
/// within one day.
#[verifier::external_body]
fn local_offset_seconds(utc_secs: i64) -> (r: Option<i64>)
    ensures
        r matches Some(o) ==> -86400 < o < 86400,
{
    chrono::DateTime::from_timestamp(utc_secs, 0).map(
        |t| t.with_timezone(&chrono::Local).offset().local_minus_utc() as i64,
    )
}

/// Resolves the user's dates against the machine's clock and local zone:
/// the window runs from local midnight of `start_date` to local 23:59:59
/// of `end_date`, or to now when no end date is given. Exactly the
/// malformed-date inputs fail; the zone offsets and the clock reading are
/// whatever the machine reports, each offset within a day of UTC.
pub fn resolve_local(start_date: &str, end_date: Option<&str>) -> (r: Result<
    TimeWindow,
    DateParseError,
>)
    ensures
        r is Ok <==> (date_str_parses(start_date@) && (end_date matches Some(e)
            ==> date_str_parses(e@))),
        r matches Ok(w) ==> exists|so: int|
            {
                &&& -86400 < so < 86400
                &&& w.start == day_start_utc(
                    year_of_str(start_date@),
                    month_of_str(start_date@),
                    day_of_str(start_date@),
                    so,
                )
            },
        r matches Ok(w) ==> (match end_date {
            Some(e) => exists|eo: int|
                {
                    &&& -86400 < eo < 86400
                    &&& w.end == day_end_utc(year_of_str(e@), month_of_str(e@), day_of_str(e@), eo)
                },
            None => true,
        }),
{
    let sd = match parse_date(start_date) {
        Ok(d) => d,
        Err(e) => {
            return Err(e);
        },
    };
    proof {
        lemma_epoch_days_bounds(sd.year as int, sd.month as int, sd.day as int);
    }
    let so: i64 = match local_offset_seconds(date_to_days(&sd) * 86400) {
        Some(o) => o,
        None => 0,
    };
    let mut now: i64 = 0;
    let mut eo: i64 = 0;
    match end_date {
        Some(e) => {
            let ed = match parse_date(e) {
                Ok(d) => d,
                Err(err) => {
                    return Err(err);
                },
            };
            proof {
                lemma_epoch_days_bounds(ed.year as int, ed.month as int, ed.day as int);
            }
            eo = match local_offset_seconds(date_to_days(&ed) * 86400) {
                Some(o) => o,
                None => 0,
            };
        },
        None => {
            now = now_utc_seconds();
        },
    }
    let r = resolve(start_date, end_date, now, so, eo);
    proof {
        if r is Ok {
            assert(-86400 < so < 86400 && r.unwrap().start == day_start_utc(
                year_of_str(start_date@),
                month_of_str(start_date@),
                day_of_str(start_date@),
                so as int,
            ));
            match end_date {
                Some(e) => {
                    assert(-86400 < eo < 86400 && r.unwrap().end == day_end_utc(
                        year_of_str(e@),
                        month_of_str(e@),
                        day_of_str(e@),
                        eo as int,
                    ));
                },
                None => {},
            }
        }
    }
    r
}

} // verus!
