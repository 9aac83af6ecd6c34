//! Verified core of a historical-price downloader: calendar-date
//! resolution, the backward-paginating fetch loop with request pacing,
//! market ranking, and CSV export.

pub mod candle;
pub mod date;
pub mod download;
pub mod export;
pub mod fetch;
pub mod rank;
pub mod resolve;
pub mod sys;
pub mod text;
