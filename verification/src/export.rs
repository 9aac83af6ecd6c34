//! The CSV exporter: a downloaded candle series becomes one delimited
//! file, header first, each numeric column rendered with exactly four
//! decimal places, and a filename derived from the market name and the
//! local dates actually covered.

use vstd::prelude::*;
use vstd::string::StringExecFns;
use crate::candle::Candle;
use crate::date::{
    civil_of_day, date_chars, days_before_year, days_to_date, push_date, push_stamp, stamp_chars,
};
use crate::text::{fixed4_chars, push_fixed4};

verus! {

/// There were no candles to export, so no filename can be derived.
#[derive(Clone, Copy, Debug, PartialEq, Eq, Structural)]
pub struct EmptyResultError;

/// What `str::to_lowercase` returns for the given characters; the result
/// is a function of the characters alone.
pub uninterp spec fn lower_of(s: Seq<char>) -> Seq<char>;

/// Relies on `str::to_lowercase`: the lowercased text depends on the
/// input characters alone, and an empty input stays empty.
#[verifier::external_body]
fn lowercase(s: &str) -> (r: String)
    ensures
        r@ == lower_of(s@),
        s@.len() == 0 ==> r@.len() == 0,
{
    s.to_lowercase()
}

/// The fixed header row.
pub open spec fn header_chars() -> Seq<char> {
    "Start Time (Local),Open,Close,Low,High,Volume\n"@
}

/// One data row: the bucket start in local time, then the four prices
/// and the volume, each with exactly four decimals, comma-separated.
pub open spec fn row_chars(c: Candle, offset: int) -> Seq<char> {
    stamp_chars(c.start_time + offset) + seq![','] + fixed4_chars(c.open as int) + seq![',']
        + fixed4_chars(c.close as int) + seq![','] + fixed4_chars(c.low as int) + seq![',']
        + fixed4_chars(c.high as int) + seq![','] + fixed4_chars(c.volume as int) + seq!['\n']
}

/// All data rows, in the candles' own order.
pub open spec fn rows_chars(cs: Seq<Candle>, offset: int) -> Seq<char>
    decreases cs.len(),
{
    if cs.len() == 0 {
        Seq::empty()
    } else {
        rows_chars(cs.drop_last(), offset) + row_chars(cs.last(), offset)
    }
}

/// The whole file: header, then one row per candle.
pub open spec fn csv_chars(cs: Seq<Candle>, offset: int) -> Seq<char> {
    header_chars() + rows_chars(cs, offset)
}

/// The `YYYY-MM-DD` characters of the local day a timestamp falls in.
pub open spec fn day_chars(t: int) -> Seq<char> {
    let c = civil_of_day(t / 86400);
    date_chars(c.0, c.1, c.2)
}

/// The derived filename: the lowercased market name and the local dates
/// of the earliest and latest candle.
pub open spec fn filename_chars(market: Seq<char>, first_t: int, last_t: int) -> Seq<char> {
    lower_of(market) + seq!['-'] + day_chars(first_t) + seq!['-'] + day_chars(last_t) + ".csv"@
}

/// A candle the exporter can render against a local zone `offset`: its
/// local time lies between the epoch and the year 10000 (the format has
/// four year digits), and its decimals are not the one unrepresentable
/// magnitude.
pub open spec fn exportable(c: Candle, offset: int) -> bool {
    &&& 0 <= c.start_time + offset < days_before_year(10000) * 86400
    &&& c.open > i64::MIN
    &&& c.close > i64::MIN
    &&& c.low > i64::MIN
    &&& c.high > i64::MIN
    &&& c.volume > i64::MIN
}

/// A finished export: the file's name and its full contents.
pub struct CsvExport {
    pub filename: String,
    pub content: String,
}

/// Appends one data row.
fn push_row(s: &mut String, c: &Candle, offset: i64)
    requires
        exportable(*c, offset as int),
    ensures
        final(s)@ == old(s)@ + row_chars(*c, offset as int),
{
    proof {
        crate::date::lemma_days_before_year_bounds_high(10000);
    }
    push_stamp(s, c.start_time + offset);
    proof {
        reveal_strlit(",");
        reveal_strlit("\n");
    }
    s.append(",");
    push_fixed4(s, c.open);
    s.append(",");
    push_fixed4(s, c.close);
    s.append(",");
    push_fixed4(s, c.low);
    s.append(",");
    push_fixed4(s, c.high);
    s.append(",");
    push_fixed4(s, c.volume);
    s.append("\n");
    proof {
        assert(final(s)@ =~= old(s)@ + row_chars(*c, offset as int));
    }
}

/// Serializes a non-empty candle series for `market`, rendering times in
/// a local zone `offset` seconds east of UTC.
///
/// The content is exactly the header and one row per candle, in the
/// series' own order; the filename is the lowercased market name with
/// the local dates of the first and last candle. An empty series is the
/// one failure: there is no date range to name the file by.
pub fn export(candles: &Vec<Candle>, market: &str, offset: i64) -> (r: Result<
    CsvExport,
    EmptyResultError,
>)
    requires
        forall|i: int| 0 <= i < candles@.len() ==> exportable(#[trigger] candles@[i], offset as int),
    ensures
        r is Ok <==> candles@.len() > 0,
        r matches Ok(x) ==> x.content@ == csv_chars(candles@, offset as int),
        r matches Ok(x) ==> x.filename@ == filename_chars(
            market@,
            candles@.first().start_time + offset,
            candles@.last().start_time + offset,
        ),
{
    if candles.len() == 0 {
        return Err(EmptyResultError);
    }
    proof {
        crate::date::lemma_days_before_year_bounds_high(10000);
        reveal_strlit("-");
        reveal_strlit(".csv");
    }
    let mut filename = lowercase(market);
    filename.append("-");
    let first_t: i64 = candles[0].start_time + offset;
    let last_t: i64 = candles[candles.len() - 1].start_time + offset;
    proof {
        assert(first_t / 86400 < days_before_year(10000) && 0 <= first_t / 86400) by {
            vstd::arithmetic::div_mod::lemma_fundamental_div_mod(first_t as int, 86400);
        };
        assert(last_t / 86400 < days_before_year(10000) && 0 <= last_t / 86400) by {
            vstd::arithmetic::div_mod::lemma_fundamental_div_mod(last_t as int, 86400);
        };
    }
    let first_day = days_to_date(first_t / 86400);
    push_date(&mut filename, &first_day);
    filename.append("-");
    let last_day = days_to_date(last_t / 86400);
    push_date(&mut filename, &last_day);
    filename.append(".csv");
    proof {
        assert(filename@ =~= filename_chars(
            market@,
            candles@.first().start_time + offset,
            candles@.last().start_time + offset,
        ));
    }
    let mut content = String::new();
    proof {
        reveal_strlit("Start Time (Local),Open,Close,Low,High,Volume\n");
    }
    content.append("Start Time (Local),Open,Close,Low,High,Volume\n");
    let mut i: usize = 0;
    while i < candles.len()
        invariant
            0 <= i <= candles@.len(),
            forall|j: int|
                0 <= j < candles@.len() ==> exportable(#[trigger] candles@[j], offset as int),
            content@ == header_chars() + rows_chars(candles@.take(i as int), offset as int),
        decreases candles@.len() - i,
    {
        push_row(&mut content, &candles[i], offset);
        proof {
            let taken = candles@.take(i + 1 as int);
            assert(taken.drop_last() =~= candles@.take(i as int));
            assert(taken.last() == candles@[i as int]);
            assert(content@ =~= header_chars() + rows_chars(taken, offset as int));
        }
        i = i + 1;
    }
    proof {
        assert(candles@.take(candles@.len() as int) =~= candles@);
    }
    Ok(CsvExport { filename, content })
}

} // verus!
