//! Price bars and the vocabulary of a candle request.

use crate::calendar::{valid_timestamp, EPOCH_DAY};
use crate::num::Double;
use vstd::prelude::*;

verus! {

/// A wall-clock reading in the exchange's local time: a calendar day and the
/// seconds elapsed since that day's midnight.
#[derive(Clone, Copy, Debug, PartialEq, Eq, Structural)]
pub struct LocalTime {
    pub day: i32,
    pub second: u32,
}

/// One OHLCV bar. `timestamp` is the start of the bar in seconds since the
/// Unix epoch; `last_updated` is when the bar was stored.
#[derive(Clone, Copy, Debug, PartialEq, Eq, Structural)]
pub struct Candle {
    pub timestamp: i64,
    pub open: Double,
    pub high: Double,
    pub low: Double,
    pub close: Double,
    pub volume: u64,
    pub last_updated: LocalTime,
}

impl Candle {
    /// A candle is well formed when its timestamp is an instant of the
    /// calendar.
    pub open spec fn wf(self) -> bool {
        valid_timestamp(self.timestamp)
    }
}

/// Whether every candle of the series is well formed.
pub open spec fn all_wf(candles: Seq<Candle>) -> bool {
    forall|i: int| 0 <= i < candles.len() ==> (#[trigger] candles[i]).wf()
}

/// Whether timestamps strictly increase along the series.
pub open spec fn ascending(candles: Seq<Candle>) -> bool {
    forall|i: int, j: int|
        0 <= i < j < candles.len() ==> (#[trigger] candles[i]).timestamp < (
        #[trigger] candles[j]).timestamp
}

/// Size of each bar. The `Ext` variants include pre-market and after-hours
/// trading.
#[derive(Clone, Copy, Debug, PartialEq, Eq, Structural)]
pub enum BarSize {
    Min1,
    Min1Ext,
    Min5,
    Min5Ext,
    Min15,
    Min15Ext,
    Min30,
    Min30Ext,
    Hour1,
    Hour1Ext,
    Daily,
    Weekly,
}

impl BarSize {
    /// The provider's name for the bar size.
    pub open spec fn name(self) -> Seq<char> {
        match self {
            BarSize::Min1 | BarSize::Min1Ext => "1m"@,
            BarSize::Min5 | BarSize::Min5Ext => "5m"@,
            BarSize::Min15 | BarSize::Min15Ext => "15m"@,
            BarSize::Min30 | BarSize::Min30Ext => "30m"@,
            BarSize::Hour1 | BarSize::Hour1Ext => "1h"@,
            BarSize::Daily => "1d"@,
            BarSize::Weekly => "1wk"@,
        }
    }

    /// Whether the bar size includes extended-session bars.
    pub open spec fn extended(self) -> bool {
        self is Min1Ext || self is Min5Ext || self is Min15Ext || self is Min30Ext
            || self is Hour1Ext
    }

    pub fn as_str(self) -> (s: &'static str)
        ensures
            s@ == self.name(),
    {
        match self {
            BarSize::Min1 | BarSize::Min1Ext => "1m",
            BarSize::Min5 | BarSize::Min5Ext => "5m",
            BarSize::Min15 | BarSize::Min15Ext => "15m",
            BarSize::Min30 | BarSize::Min30Ext => "30m",
            BarSize::Hour1 | BarSize::Hour1Ext => "1h",
            BarSize::Daily => "1d",
            BarSize::Weekly => "1wk",
        }
    }

    pub fn include_pre_post(self) -> (b: bool)
        ensures
            b == self.extended(),
    {
        match self {
            BarSize::Min1Ext
            | BarSize::Min5Ext
            | BarSize::Min15Ext
            | BarSize::Min30Ext
            | BarSize::Hour1Ext => true,
            _ => false,
        }
    }
}

/// A named lookback window.
#[derive(Clone, Copy, Debug, PartialEq, Eq, Structural)]
pub enum Range {
    OneDay,
    FiveDay,
    OneMonth,
    ThreeMonths,
    SixMonths,
    OneYear,
    TwoYears,
    FiveYears,
    TenYears,
    Ytd,
    Max,
}

impl Range {
    /// The provider's name for the window.
    pub open spec fn name(self) -> Seq<char> {
        match self {
            Range::OneDay => "1d"@,
            Range::FiveDay => "5d"@,
            Range::OneMonth => "1mo"@,
            Range::ThreeMonths => "3mo"@,
            Range::SixMonths => "6mo"@,
            Range::OneYear => "1y"@,
            Range::TwoYears => "2y"@,
            Range::FiveYears => "5y"@,
            Range::TenYears => "10y"@,
            Range::Ytd => "ytd"@,
            Range::Max => "max"@,
        }
    }

    pub fn as_str(self) -> (s: &'static str)
        ensures
            s@ == self.name(),
    {
        match self {
            Range::OneDay => "1d",
            Range::FiveDay => "5d",
            Range::OneMonth => "1mo",
            Range::ThreeMonths => "3mo",
            Range::SixMonths => "6mo",
            Range::OneYear => "1y",
            Range::TwoYears => "2y",
            Range::FiveYears => "5y",
            Range::TenYears => "10y",
            Range::Ytd => "ytd",
            Range::Max => "max",
        }
    }
}

/// The time window of a candle request: a named lookback, or the instants
/// from `start` up to, but not including, `end`, both in seconds since the
/// Unix epoch.
#[derive(Clone, Copy, Debug, PartialEq, Eq, Structural)]
pub enum TimeSpec {
    Range(Range),
    Interval(i64, i64),
}

impl TimeSpec {
    /// The window from midnight UTC of day `start` to midnight UTC of day
    /// `end`.
    pub fn from_dates(start: i32, end: i32) -> (t: TimeSpec)
        ensures
            t == TimeSpec::Interval(
                ((start - EPOCH_DAY) * 86_400) as i64,
                ((end - EPOCH_DAY) * 86_400) as i64,
            ),
    {
        let s: i64 = (start as i64 - EPOCH_DAY as i64) * 86_400;
        let e: i64 = (end as i64 - EPOCH_DAY as i64) * 86_400;
        TimeSpec::Interval(s, e)
    }
}

} // verus!
