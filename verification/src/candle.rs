//! The candle record and the ordering facts the downloader maintains.

use vstd::prelude::*;

verus! {

/// One OHLCV record for a fixed time bucket starting at `start_time`
/// (UTC seconds). Prices and volume are exact decimals held in
/// ten-thousandths, so `1001234` stands for `100.1234`.
#[derive(Clone, Copy, Debug)]
pub struct Candle {
    pub start_time: i64,
    pub open: i64,
    pub close: i64,
    pub low: i64,
    pub high: i64,
    pub volume: i64,
}

/// The candles are strictly ascending by `start_time`: no duplicates,
/// sorted in time order.
pub open spec fn strictly_ascending(s: Seq<Candle>) -> bool {
    forall|i: int, j: int| 0 <= i < j < s.len() ==> s[i].start_time < s[j].start_time
}

/// Every candle's bucket start lies inside `[lo, hi]`.
pub open spec fn all_in_range(s: Seq<Candle>, lo: int, hi: int) -> bool {
    forall|i: int| 0 <= i < s.len() ==> lo <= #[trigger] s[i].start_time <= hi
}

} // verus!
