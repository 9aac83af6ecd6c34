use ftx_fetch::candle::Candle;
use ftx_fetch::download::{download_from_pages, DownloadError};

fn candle(t: i64) -> Candle {
    Candle {
        start_time: t,
        open: 1001234,
        close: 1005000,
        low: 999000,
        high: 1010000,
        volume: 50000000,
    }
}

#[test]
fn a_whole_download_produces_the_file() {
    let pages = vec![vec![candle(1672531200)], vec![]];
    let out = download_from_pages(
        "BTC-PERP",
        "2023-01-01",
        Some("2023-01-01"),
        0,
        0,
        0,
        pages,
        0,
        0,
    )
    .unwrap();
    assert_eq!(out.filename, "btc-perp-2023-01-01-2023-01-01.csv");
    assert_eq!(
        out.content,
        "Start Time (Local),Open,Close,Low,High,Volume\n\
         2023-01-01 00:00:00,100.1234,100.5000,99.9000,101.0000,5000.0000\n"
    );
}

#[test]
fn a_bad_date_fails_before_anything_else() {
    let pages = vec![vec![candle(1672531200)], vec![]];
    let r = download_from_pages("BTC-PERP", "01.01.2023", None, 0, 0, 0, pages, 0, 0);
    assert!(matches!(r, Err(DownloadError::DateParse(_))));
}

#[test]
fn a_page_outside_the_window_aborts_the_download() {
    // The window covers 2023-01-01 alone; this candle lies a year out.
    let pages = vec![vec![candle(1704067200)]];
    let r = download_from_pages(
        "BTC-PERP",
        "2023-01-01",
        Some("2023-01-01"),
        0,
        0,
        0,
        pages,
        0,
        0,
    );
    assert!(matches!(r, Err(DownloadError::Remote(_))));
}

#[test]
fn an_empty_market_yields_the_empty_result_error() {
    let r = download_from_pages(
        "BTC-PERP",
        "2023-01-01",
        Some("2023-01-01"),
        0,
        0,
        0,
        vec![vec![]],
        0,
        0,
    );
    assert!(matches!(r, Err(DownloadError::Empty(_))));
}
