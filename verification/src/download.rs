//! The whole download pipeline minus its I/O: calendar dates become a
//! UTC window, served pages become one ordered candle series, and the
//! series becomes a named CSV file.

use vstd::prelude::*;
use crate::candle::Candle;
use crate::date::{date_str_parses, day_of_str, month_of_str, year_of_str, DateParseError};
use crate::export::{
    csv_chars, export, exportable, filename_chars, CsvExport, EmptyResultError,
};
use crate::fetch::{
    fetch_from_pages, glue, lemma_valid_prefix_bounds, page_views, valid_prefix, PageError,
    MAX_PAGES, MAX_START_INSTANT,
};
use crate::resolve::{day_end_utc, day_start_utc, lemma_epoch_days_bounds, resolve};

verus! {

/// Why a download produced no file.
#[derive(Clone, Copy, Debug, PartialEq, Eq)]
pub enum DownloadError {
    /// A date string did not parse.
    DateParse(DateParseError),
    /// A page broke the remote's contract.
    Remote(PageError),
    /// The market had zero candles in the range.
    Empty(EmptyResultError),
}

/// The window the given dates resolve to starts here.
pub open spec fn resolved_start(start_date: Seq<char>, start_offset: int) -> int {
    day_start_utc(
        year_of_str(start_date),
        month_of_str(start_date),
        day_of_str(start_date),
        start_offset,
    )
}

/// ... and ends here.
pub open spec fn resolved_end(
    end_date: Option<&str>,
    now_utc: int,
    end_offset: int,
) -> int {
    match end_date {
        Some(e) => day_end_utc(year_of_str(e@), month_of_str(e@), day_of_str(e@), end_offset),
        None => now_utc,
    }
}

proof fn lemma_glue_exportable(ps: Seq<Seq<Candle>>, k: int, off: int)
    requires
        0 <= k <= ps.len(),
        forall|a: int, b: int|
            0 <= a < ps.len() && 0 <= b < ps[a].len() ==> exportable(#[trigger] ps[a][b], off),
    ensures
        forall|i: int| 0 <= i < glue(ps, k).len() ==> exportable(#[trigger] glue(ps, k)[i], off),
    decreases k,
{
    if k > 0 {
        lemma_glue_exportable(ps, k - 1, off);
        assert forall|i: int| 0 <= i < glue(ps, k).len() implies exportable(
            #[trigger] glue(ps, k)[i],
            off,
        ) by {
            if i < ps[k - 1].len() {
                assert(glue(ps, k)[i] == ps[k - 1][i]);
            } else {
                assert(glue(ps, k)[i] == glue(ps, k - 1)[i - ps[k - 1].len()]);
            }
        }
    }
}

/// One whole download against a fixed supply of pages: resolves the
/// dates, runs the fetch loop, and serializes the result.
///
/// Exactly one of four things happens, decided by the inputs alone: a
/// malformed date fails first; then an ill-formed page; then an empty
/// series; otherwise the CSV file of every accepted page's candles is
/// returned, named after `market` and the local date range covered.
pub fn download_from_pages(
    market: &str,
    start_date: &str,
    end_date: Option<&str>,
    now_utc: i64,
    start_offset: i64,
    end_offset: i64,
    pages: Vec<Vec<Candle>>,
    started_at: i64,
    csv_offset: i64,
) -> (r: Result<CsvExport, DownloadError>)
    requires
        -86400 < start_offset < 86400,
        -86400 < end_offset < 86400,
        0 <= started_at <= MAX_START_INSTANT,
        pages@.len() <= MAX_PAGES,
        forall|a: int, b: int|
            0 <= a < pages@.len() && 0 <= b < pages@[a]@.len() ==> exportable(
                #[trigger] pages@[a]@[b],
                csv_offset as int,
            ),
    ensures
        ({
            let parses = date_str_parses(start_date@) && (end_date matches Some(e)
                ==> date_str_parses(e@));
            let ps = page_views(pages@);
            let k = valid_prefix(
                ps,
                resolved_start(start_date@, start_offset as int),
                resolved_end(end_date, now_utc as int, end_offset as int),
            );
            let got = glue(ps, k);
            &&& (r matches Err(DownloadError::DateParse(_)) <==> !parses)
            &&& (r matches Err(DownloadError::Remote(_)) <==> (parses && k < ps.len() && ps[k].len() > 0))
            &&& (r matches Err(DownloadError::Empty(_)) <==> (parses && (k == ps.len() || ps[k].len() == 0) && got.len() == 0))
            &&& (r is Ok <==> (parses && (k == ps.len() || ps[k].len() == 0) && got.len() > 0))
            &&& (r matches Ok(x) ==> x.content@ == csv_chars(got, csv_offset as int))
            &&& (r matches Ok(x) ==> x.filename@ == filename_chars(
                market@,
                got.first().start_time + csv_offset,
                got.last().start_time + csv_offset,
            ))
        }),
{
    let window = match resolve(start_date, end_date, now_utc, start_offset, end_offset) {
        Ok(w) => w,
        Err(e) => {
            return Err(DownloadError::DateParse(e));
        },
    };
    proof {
        lemma_epoch_days_bounds(
            year_of_str(start_date@),
            month_of_str(start_date@),
            day_of_str(start_date@),
        );
    }
    let outcome = match fetch_from_pages(window, pages, started_at) {
        Ok(o) => o,
        Err(e) => {
            return Err(DownloadError::Remote(e));
        },
    };
    proof {
        let ps = page_views(pages@);
        let k = valid_prefix(ps, window.start as int, window.end as int);
        lemma_valid_prefix_bounds(ps, window.start as int, window.end as int);
        assert forall|a: int, b: int|
            0 <= a < ps.len() && 0 <= b < ps[a].len() implies exportable(
            #[trigger] ps[a][b],
            csv_offset as int,
        ) by {
            assert(ps[a] == pages@[a]@);
            assert(exportable(pages@[a]@[b], csv_offset as int));
        }
        lemma_glue_exportable(ps, k, csv_offset as int);
    }
    match export(&outcome.candles, market, csv_offset) {
        Ok(x) => Ok(x),
        Err(e) => Err(DownloadError::Empty(e)),
    }
}

} // verus!
