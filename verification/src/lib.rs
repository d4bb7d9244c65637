//! Verified core of a market-data toolkit.
//!
//! The library holds the rules by which daily price bars are kept current,
//! resampled and joined, by which trailing returns find their candles, by
//! which instruments are ranked and summed up, and by which a Relative
//! Rotation Graph is laid out and reported. Prices and percentages are
//! binary64 numbers that the library carries by their bits: it selects,
//! orders and classifies them, and leaves the arithmetic to its caller.
//!
//! - [`candle`], [`num`], [`model`], [`performance`]: the records.
//! - [`calendar`], [`freshness`]: instants, days, and when stored data is
//!   still current.
//! - [`cache`], [`provider`]: refreshing a stored history and reading a
//!   provider's chart.
//! - [`resample`], [`align`], [`windows`], [`rrg`]: the graph.
//! - [`perf`], [`ranking`]: trailing returns and relative strength.
//! - [`grouping`], [`summary`]: stocks by sector and industry.
//! - [`text`], [`names`], [`watchlist`], [`screen`]: free text.

pub mod align;
pub mod cache;
pub mod calendar;
pub mod candle;
pub mod freshness;
pub mod grouping;
pub mod model;
pub mod names;
pub mod num;
pub mod perf;
pub mod performance;
pub mod provider;
pub mod ranking;
pub mod resample;
pub mod rrg;
pub mod screen;
pub mod summary;
pub mod text;
pub mod watchlist;
pub mod windows;

pub use crate::model::{Group, Stock, Ticker, TickerType};
pub use crate::names::{normalize, time_frames};
pub use crate::performance::Performance;
