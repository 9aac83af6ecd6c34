use ftx_fetch::candle::Candle;
use ftx_fetch::export::{export, EmptyResultError};
use ftx_fetch::sys::resolve_local;

#[test]
fn one_candle_round_trips_to_csv() {
    let candles = vec![Candle {
        start_time: 1672531200,  // 2023-01-01T00:00:00Z
        open: 1001234,           // 100.1234
        close: 1005000,          // 100.5
        low: 999000,             // 99.9
        high: 1010000,           // 101.0
        volume: 50000000,        // 5000
    }];
    let out = export(&candles, "BTC-PERP", 0).unwrap();
    assert_eq!(out.filename, "btc-perp-2023-01-01-2023-01-01.csv");
    assert_eq!(
        out.content,
        "Start Time (Local),Open,Close,Low,High,Volume\n\
         2023-01-01 00:00:00,100.1234,100.5000,99.9000,101.0000,5000.0000\n"
    );
}

#[test]
fn exporting_nothing_is_an_error_not_a_crash() {
    let r = export(&Vec::new(), "BTC-PERP", 0);
    assert_eq!(r.err(), Some(EmptyResultError));
}

#[test]
fn filename_spans_the_real_date_range() {
    let candles = vec![
        Candle { start_time: 1672531200, open: 1, close: 1, low: 1, high: 1, volume: 1 },
        Candle { start_time: 1672531200 + 3 * 86400, open: 2, close: 2, low: 2, high: 2, volume: 2 },
    ];
    let out = export(&candles, "ETH-PERP", 0).unwrap();
    assert_eq!(out.filename, "eth-perp-2023-01-01-2023-01-04.csv");
}

#[test]
fn zone_offset_shifts_the_rendered_times() {
    let candles = vec![Candle {
        start_time: 1672531200,
        open: 10000,
        close: 10000,
        low: 10000,
        high: 10000,
        volume: 0,
    }];
    // One hour east of UTC: the row and even the file's dates move.
    let out = export(&candles, "BTC-PERP", 3600).unwrap();
    assert!(out.content.contains("2023-01-01 01:00:00,1.0000,1.0000,1.0000,1.0000,0.0000"));
    // Just west of midnight the candle falls on the previous local day.
    let out = export(&candles, "BTC-PERP", -3600).unwrap();
    assert_eq!(out.filename, "btc-perp-2022-12-31-2022-12-31.csv");
    assert!(out.content.contains("2022-12-31 23:00:00"));
}

#[test]
fn negative_decimals_render_with_a_sign() {
    let candles = vec![Candle {
        start_time: 0,
        open: -15000,  // -1.5
        close: -1,     // -0.0001
        low: -10000,
        high: 10000,
        volume: 123456789,  // 12345.6789
    }];
    let out = export(&candles, "X", 0).unwrap();
    assert!(out.content.contains("1970-01-01 00:00:00,-1.5000,-0.0001,-1.0000,1.0000,12345.6789"));
}

#[test]
fn header_comes_first_and_rows_keep_order() {
    let mk = |t: i64| Candle { start_time: t, open: 0, close: 0, low: 0, high: 0, volume: 0 };
    let candles = vec![mk(0), mk(60), mk(120)];
    let out = export(&candles, "m", 0).unwrap();
    let lines: Vec<&str> = out.content.lines().collect();
    assert_eq!(lines.len(), 4);
    assert_eq!(lines[0], "Start Time (Local),Open,Close,Low,High,Volume");
    assert!(lines[1].starts_with("1970-01-01 00:00:00"));
    assert!(lines[2].starts_with("1970-01-01 00:01:00"));
    assert!(lines[3].starts_with("1970-01-01 00:02:00"));
}

#[test]
fn market_name_is_lowercased_in_the_filename() {
    let candles = vec![Candle { start_time: 0, open: 0, close: 0, low: 0, high: 0, volume: 0 }];
    let out = export(&candles, "SoL-PeRp", 0).unwrap();
    assert_eq!(out.filename, "sol-perp-1970-01-01-1970-01-01.csv");
}

#[test]
fn local_resolution_orders_the_window() {
    let w = resolve_local("2023-01-01", Some("2023-01-02")).unwrap();
    assert!(w.start <= w.end);
    // Whatever the machine's zone, it is within a day of UTC.
    assert!((w.start - 1672531200).abs() < 86400);
    assert!(resolve_local("2023-01-xx", None).is_err());
    assert!(resolve_local("2023-01-01", Some("bad")).is_err());
}
