use chrono::{Duration, Months, TimeZone, Utc};
use stock_themes::candle::{Candle, LocalTime};
use stock_themes::num::Double;
use stock_themes::perf::{nearest_index, trailing_anchors, Anchor, Horizon};

fn candle(ts: i64, close: f64) -> Candle {
    let price = Double::from_bits(close.to_bits());
    Candle {
        timestamp: ts,
        open: price,
        high: price,
        low: price,
        close: price,
        volume: 0,
        last_updated: LocalTime { day: 0, second: 0 },
    }
}

fn percent(candles: &[Candle], anchor: &Anchor) -> f64 {
    let latest = f64::from_bits(candles[candles.len() - 1].close.to_bits());
    let chosen = f64::from_bits(candles[anchor.index].close.to_bits());
    (latest - chosen) / chosen * 100.0
}

#[test]
fn horizons_have_their_labels_and_lengths() {
    assert_eq!(Horizon::OneMonth.label(), "1M");
    assert_eq!(Horizon::ThreeMonths.label(), "3M");
    assert_eq!(Horizon::SixMonths.label(), "6M");
    assert_eq!(Horizon::OneYear.label(), "1Y");
    assert_eq!(Horizon::OneMonth.months(), 1);
    assert_eq!(Horizon::ThreeMonths.months(), 3);
    assert_eq!(Horizon::SixMonths.months(), 6);
    assert_eq!(Horizon::OneYear.months(), 12);
}

#[test]
fn no_candles_give_no_anchors() {
    assert_eq!(trailing_anchors(&Vec::new()), Some(Vec::new()));
}

#[test]
fn a_single_candle_anchors_every_horizon_and_returns_zero() {
    let candles = vec![candle(1_700_000_000, 123.0)];
    let anchors = trailing_anchors(&candles).unwrap();
    assert_eq!(anchors.len(), 4);
    assert_eq!(
        anchors.iter().map(|a| a.horizon).collect::<Vec<_>>(),
        vec![Horizon::OneMonth, Horizon::ThreeMonths, Horizon::SixMonths, Horizon::OneYear]
    );
    for a in &anchors {
        assert_eq!(a.index, 0);
        assert_eq!(percent(&candles, a), 0.0);
    }
}

#[test]
fn thirty_days_apart_give_ten_percent_over_one_month() {
    let t = Utc.with_ymd_and_hms(2024, 3, 1, 0, 0, 0).unwrap();
    let candles =
        vec![candle(t.timestamp(), 100.0), candle((t + Duration::days(30)).timestamp(), 110.0)];
    let anchors = trailing_anchors(&candles).unwrap();
    assert_eq!(anchors[0].horizon, Horizon::OneMonth);
    assert_eq!(anchors[0].index, 0);
    assert!((percent(&candles, &anchors[0]) - 10.0).abs() < 1e-9);
    assert_eq!(anchors[1].index, 0);
    assert_eq!(anchors[3].index, 0);
}

#[test]
fn anchors_follow_the_calendar_months() {
    let latest = Utc.with_ymd_and_hms(2024, 5, 31, 12, 0, 0).unwrap();
    let mut candles = Vec::new();
    let mut day = latest - Duration::days(400);
    while day <= latest {
        candles.push(candle(day.timestamp(), 1.0 + candles.len() as f64));
        day = day + Duration::days(1);
    }
    let anchors = trailing_anchors(&candles).unwrap();
    for a in &anchors {
        let target = latest - Months::new(a.horizon.months());
        assert_eq!(candles[a.index].timestamp, target.timestamp());
    }
    // 2024-04-30, 2024-02-29, 2023-11-30 and 2023-05-31, counted back from the end.
    let back: Vec<usize> = anchors.iter().map(|a| candles.len() - 1 - a.index).collect();
    assert_eq!(back, vec![31, 92, 183, 366]);
    let one_month = percent(&candles, &anchors[0]);
    assert_eq!(one_month, (401.0 - 370.0) / 370.0 * 100.0);
}

#[test]
fn nearest_takes_the_first_of_two_equally_near() {
    let candles = vec![candle(100, 1.0), candle(200, 2.0), candle(300, 3.0)];
    assert_eq!(nearest_index(&candles, 150), 0);
    assert_eq!(nearest_index(&candles, 250), 1);
    assert_eq!(nearest_index(&candles, 151), 1);
    assert_eq!(nearest_index(&candles, 149), 0);
    assert_eq!(nearest_index(&candles, 300), 2);
    assert_eq!(nearest_index(&candles, i64::MAX), 2);
    assert_eq!(nearest_index(&candles, i64::MIN), 0);
    let unordered = vec![candle(300, 1.0), candle(100, 2.0), candle(200, 3.0), candle(100, 4.0)];
    assert_eq!(nearest_index(&unordered, 90), 1);
    assert_eq!(nearest_index(&unordered, 250), 0);
}

#[test]
fn nearest_copes_with_the_whole_range_of_instants() {
    let candles = vec![candle(i64::MIN, 1.0), candle(i64::MAX, 2.0)];
    assert_eq!(nearest_index(&candles, 0), 1);
    assert_eq!(nearest_index(&candles, -1), 0);
    assert_eq!(nearest_index(&candles, -2), 0);
    assert_eq!(nearest_index(&candles, 1), 1);
}

#[test]
fn targets_before_the_calendar_give_none() {
    let first = candle(-8_334_601_228_800, 1.0);
    assert_eq!(trailing_anchors(&vec![first]), None);
    let later = candle(-8_334_601_228_800 + 400 * 86_400, 1.0);
    assert!(trailing_anchors(&vec![first, later]).is_some());
}
