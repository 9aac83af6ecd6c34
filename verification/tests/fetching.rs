use ftx_fetch::candle::Candle;
use ftx_fetch::fetch::{fetch_from_pages, FetchState, REQUEST_INTERVAL_MS};
use ftx_fetch::resolve::TimeWindow;

fn c(t: i64) -> Candle {
    Candle { start_time: t, open: 0, close: 0, low: 0, high: 0, volume: 0 }
}

fn times(candles: &[Candle]) -> Vec<i64> {
    candles.iter().map(|c| c.start_time).collect()
}

const W: TimeWindow = TimeWindow { start: 0, end: 1000 };

#[test]
fn two_pages_walk_backward() {
    let pages = vec![vec![c(500), c(600)], vec![c(100), c(200)], vec![]];
    let out = fetch_from_pages(W, pages, 0).unwrap();
    assert_eq!(times(&out.candles), vec![100, 200, 500, 600]);
    assert_eq!(out.pages, 2);
    assert!(out.completed);
    assert_eq!(out.next_request_at, 2 * REQUEST_INTERVAL_MS);
}

#[test]
fn result_is_strictly_ascending_and_deduplicated() {
    let pages = vec![vec![c(700), c(800), c(900)], vec![c(400), c(650)], vec![c(50)], vec![]];
    let out = fetch_from_pages(W, pages, 0).unwrap();
    let ts = times(&out.candles);
    for i in 1..ts.len() {
        assert!(ts[i - 1] < ts[i]);
    }
    assert_eq!(ts, vec![50, 400, 650, 700, 800, 900]);
}

#[test]
fn abutting_pages_are_all_consumed() {
    // Each page's latest candle is exactly one resolution (100) before the
    // previous page's earliest: nothing is skipped, nothing repeated.
    let pages = vec![
        vec![c(500), c(600)],
        vec![c(300), c(400)],
        vec![c(100), c(200)],
    ];
    let out = fetch_from_pages(W, pages, 0).unwrap();
    assert_eq!(times(&out.candles), vec![100, 200, 300, 400, 500, 600]);
    assert_eq!(out.pages, 3);
    assert!(!out.completed);
}

#[test]
fn empty_first_page_is_an_empty_success() {
    let pages = vec![vec![]];
    let out = fetch_from_pages(W, pages, 0).unwrap();
    assert!(out.candles.is_empty());
    assert_eq!(out.pages, 0);
    assert!(out.completed);
    assert_eq!(out.next_request_at, 0);
}

#[test]
fn no_pages_is_an_empty_incomplete_fetch() {
    let out = fetch_from_pages(W, Vec::new(), 0).unwrap();
    assert!(out.candles.is_empty());
    assert!(!out.completed);
}

#[test]
fn out_of_window_page_aborts() {
    let pages = vec![vec![c(1500)]];
    assert!(fetch_from_pages(W, pages, 0).is_err());
}

#[test]
fn unsorted_page_aborts() {
    let pages = vec![vec![c(600), c(500)]];
    assert!(fetch_from_pages(W, pages, 0).is_err());
}

#[test]
fn page_repeating_a_candle_aborts() {
    // The second page may only reach up to 499; repeating candle 500 is
    // outside its carved window.
    let pages = vec![vec![c(500), c(600)], vec![c(100), c(500)]];
    assert!(fetch_from_pages(W, pages, 0).is_err());
}

#[test]
fn pacing_schedule_grows_one_interval_per_page() {
    let started = 1_000;
    let pages = vec![vec![c(900)], vec![c(700)], vec![c(500)], vec![c(300)], vec![]];
    let out = fetch_from_pages(W, pages, started).unwrap();
    assert_eq!(out.pages, 4);
    // Four accepted pages: the fifth request could not go out before
    // four full intervals past the start.
    assert_eq!(out.next_request_at - started, 4 * REQUEST_INTERVAL_MS);
}

#[test]
fn state_machine_steps_by_hand() {
    let mut st = FetchState::new(W, 0);
    assert_eq!(st.cursor_end, 1000);
    assert_eq!(st.accept_page(vec![c(500), c(600)]), Ok(true));
    assert_eq!(st.cursor_end, 499);
    assert_eq!(st.pages, 1);
    assert!(!st.done);
    assert_eq!(st.accept_page(vec![]), Ok(false));
    assert!(st.done);
    assert_eq!(times(&st.candles), vec![500, 600]);
}
