use chrono::{Datelike, NaiveDate, TimeZone, Utc};
use stock_themes::candle::{BarSize, Candle, LocalTime, Range, TimeSpec};
use stock_themes::num::Double;
use stock_themes::provider::{assemble, chart_url, clip, profile_url, Quote};

fn d(x: f64) -> Double {
    Double::from_bits(x.to_bits())
}

fn some(values: &[f64]) -> Vec<Option<Double>> {
    values.iter().map(|v| Some(d(*v))).collect()
}

const STAMP: LocalTime = LocalTime { day: 738_950, second: 61_200 };

fn candle(ts: i64) -> Candle {
    Candle {
        timestamp: ts,
        open: d(1.0),
        high: d(2.0),
        low: d(0.5),
        close: d(1.5),
        volume: 10,
        last_updated: STAMP,
    }
}

#[test]
fn complete_bars_become_candles() {
    let quote = Quote {
        open: some(&[1.0, 2.0]),
        high: some(&[1.5, 2.5]),
        low: some(&[0.5, 1.5]),
        close: some(&[1.2, 2.2]),
        volume: vec![Some(100), Some(200)],
    };
    let candles = assemble(&vec![1_700_000_000, 1_700_086_400], &quote, STAMP);
    assert_eq!(
        candles,
        vec![
            Candle {
                timestamp: 1_700_000_000,
                open: d(1.0),
                high: d(1.5),
                low: d(0.5),
                close: d(1.2),
                volume: 100,
                last_updated: STAMP,
            },
            Candle {
                timestamp: 1_700_086_400,
                open: d(2.0),
                high: d(2.5),
                low: d(1.5),
                close: d(2.2),
                volume: 200,
                last_updated: STAMP,
            },
        ]
    );
}

#[test]
fn incomplete_bars_are_left_out() {
    let quote = Quote {
        open: vec![Some(d(1.0)), None, Some(d(3.0)), Some(d(4.0)), Some(d(5.0))],
        high: some(&[1.0, 2.0, 3.0, 4.0, 5.0]),
        low: some(&[1.0, 2.0, 3.0, 4.0, 5.0]),
        close: some(&[1.0, 2.0, 3.0, 4.0]),
        volume: vec![Some(1), Some(2), None, Some(4), Some(5)],
    };
    let candles = assemble(&vec![10, 20, 30, 40, 50, 60], &quote, STAMP);
    let stamps: Vec<i64> = candles.iter().map(|c| c.timestamp).collect();
    assert_eq!(stamps, vec![10, 40]);
}

#[test]
fn bars_outside_the_calendar_are_left_out() {
    let n = 4;
    let quote = Quote {
        open: some(&vec![1.0; n]),
        high: some(&vec![1.0; n]),
        low: some(&vec![1.0; n]),
        close: some(&vec![1.0; n]),
        volume: vec![Some(1); n],
    };
    let stamps = vec![-8_334_601_228_801, -8_334_601_228_800, 8_210_266_876_799, 8_210_266_876_800];
    let candles = assemble(&stamps, &quote, STAMP);
    let kept: Vec<i64> = candles.iter().map(|c| c.timestamp).collect();
    assert_eq!(kept, vec![-8_334_601_228_800, 8_210_266_876_799]);
    for ts in kept {
        assert!(chrono::DateTime::from_timestamp(ts, 0).is_some());
    }
    assert!(chrono::DateTime::from_timestamp(-8_334_601_228_801, 0).is_none());
    assert!(chrono::DateTime::from_timestamp(8_210_266_876_800, 0).is_none());
}

#[test]
fn an_empty_chart_gives_no_candles() {
    let quote = Quote {
        open: Vec::new(),
        high: Vec::new(),
        low: Vec::new(),
        close: Vec::new(),
        volume: Vec::new(),
    };
    assert!(assemble(&vec![1, 2, 3], &quote, STAMP).is_empty());
    assert!(assemble(&Vec::new(), &quote, STAMP).is_empty());
}

#[test]
fn an_interval_keeps_the_candles_from_its_start_to_before_its_end() {
    let candles = vec![candle(5), candle(10), candle(15), candle(20), candle(25)];
    let kept = clip(TimeSpec::Interval(10, 20), &candles);
    assert_eq!(kept, vec![candle(10), candle(15)]);
    let kept = clip(TimeSpec::Interval(10, 21), &candles);
    assert_eq!(kept, vec![candle(10), candle(15), candle(20)]);
    assert!(clip(TimeSpec::Interval(21, 25), &candles).is_empty());
    assert!(clip(TimeSpec::Interval(10, 10), &candles).is_empty());
    assert!(clip(TimeSpec::Interval(20, 10), &candles).is_empty());
}

#[test]
fn a_named_lookback_keeps_everything() {
    let candles = vec![candle(5), candle(10)];
    assert_eq!(clip(TimeSpec::Range(Range::OneMonth), &candles), candles);
}

#[test]
fn bar_sizes_and_ranges_have_their_names() {
    assert_eq!(BarSize::Min1.as_str(), "1m");
    assert_eq!(BarSize::Min1Ext.as_str(), "1m");
    assert_eq!(BarSize::Min5.as_str(), "5m");
    assert_eq!(BarSize::Min5Ext.as_str(), "5m");
    assert_eq!(BarSize::Min15.as_str(), "15m");
    assert_eq!(BarSize::Min15Ext.as_str(), "15m");
    assert_eq!(BarSize::Min30.as_str(), "30m");
    assert_eq!(BarSize::Min30Ext.as_str(), "30m");
    assert_eq!(BarSize::Hour1.as_str(), "1h");
    assert_eq!(BarSize::Hour1Ext.as_str(), "1h");
    assert_eq!(BarSize::Daily.as_str(), "1d");
    assert_eq!(BarSize::Weekly.as_str(), "1wk");
    let names: Vec<&str> = [
        Range::OneDay,
        Range::FiveDay,
        Range::OneMonth,
        Range::ThreeMonths,
        Range::SixMonths,
        Range::OneYear,
        Range::TwoYears,
        Range::FiveYears,
        Range::TenYears,
        Range::Ytd,
        Range::Max,
    ]
    .iter()
    .map(|r| r.as_str())
    .collect();
    assert_eq!(names, vec!["1d", "5d", "1mo", "3mo", "6mo", "1y", "2y", "5y", "10y", "ytd", "max"]);
}

#[test]
fn only_the_extended_bar_sizes_include_pre_and_post_market() {
    for bar in [BarSize::Min1Ext, BarSize::Min5Ext, BarSize::Min15Ext, BarSize::Min30Ext, BarSize::Hour1Ext] {
        assert!(bar.include_pre_post());
    }
    for bar in [
        BarSize::Min1,
        BarSize::Min5,
        BarSize::Min15,
        BarSize::Min30,
        BarSize::Hour1,
        BarSize::Daily,
        BarSize::Weekly,
    ] {
        assert!(!bar.include_pre_post());
    }
}

#[test]
fn a_window_from_dates_starts_at_midnight_utc() {
    let start = NaiveDate::from_ymd_opt(2024, 1, 1).unwrap();
    let end = NaiveDate::from_ymd_opt(2024, 3, 31).unwrap();
    let window = TimeSpec::from_dates(start.num_days_from_ce(), end.num_days_from_ce());
    assert_eq!(
        window,
        TimeSpec::Interval(
            Utc.with_ymd_and_hms(2024, 1, 1, 0, 0, 0).unwrap().timestamp(),
            Utc.with_ymd_and_hms(2024, 3, 31, 0, 0, 0).unwrap().timestamp(),
        )
    );
    assert_eq!(window, TimeSpec::Interval(1_704_067_200, 1_711_843_200));
    let before = NaiveDate::from_ymd_opt(1969, 12, 31).unwrap();
    assert_eq!(
        TimeSpec::from_dates(before.num_days_from_ce(), 719_163),
        TimeSpec::Interval(-86_400, 0)
    );
    assert_eq!(
        TimeSpec::from_dates(i32::MIN, i32::MAX),
        TimeSpec::Interval(
            (i32::MIN as i64 - 719_163) * 86_400,
            (i32::MAX as i64 - 719_163) * 86_400
        )
    );
}

#[test]
fn chart_address_for_a_named_lookback() {
    assert_eq!(
        chart_url("AAPL", BarSize::Daily, TimeSpec::Range(Range::TwoYears), "abc"),
        "https://query1.finance.yahoo.com/v8/finance/chart/AAPL\
         ?interval=1d&range=2y&includePrePost=false&crumb=abc"
    );
    assert_eq!(
        chart_url("QQQ", BarSize::Min5Ext, TimeSpec::Range(Range::OneDay), ""),
        "https://query1.finance.yahoo.com/v8/finance/chart/QQQ\
         ?interval=5m&range=1d&includePrePost=true&crumb="
    );
}

#[test]
fn chart_address_for_an_interval() {
    assert_eq!(
        chart_url("SPY", BarSize::Hour1, TimeSpec::Interval(1_704_067_200, 1_711_843_200), "x/y"),
        "https://query1.finance.yahoo.com/v8/finance/chart/SPY\
         ?interval=1h&period1=1704067200&period2=1711843200&includePrePost=false&crumb=x/y"
    );
    assert_eq!(
        chart_url("SPY", BarSize::Weekly, TimeSpec::Interval(-86_400, 0), "c"),
        "https://query1.finance.yahoo.com/v8/finance/chart/SPY\
         ?interval=1wk&period1=-86400&period2=0&includePrePost=false&crumb=c"
    );
    assert_eq!(
        chart_url("", BarSize::Daily, TimeSpec::Interval(i64::MIN, i64::MAX), ""),
        format!(
            "https://query1.finance.yahoo.com/v8/finance/chart/\
             ?interval=1d&period1={}&period2={}&includePrePost=false&crumb=",
            i64::MIN,
            i64::MAX
        )
    );
}

#[test]
fn profile_address() {
    assert_eq!(
        profile_url("AAPL", "abc"),
        "https://query1.finance.yahoo.com/v10/finance/quoteSummary/AAPL\
         ?modules=assetProfile,price&crumb=abc"
    );
}
