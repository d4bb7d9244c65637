use chrono::{Datelike, NaiveDate, TimeZone, Utc};
use stock_themes::candle::{Candle, LocalTime};
use stock_themes::num::Double;
use stock_themes::resample::{to_daily, to_weekly, PeriodClose};

fn candle(y: i32, m: u32, d: u32, hour: u32, close: f64) -> Candle {
    let ts = Utc.with_ymd_and_hms(y, m, d, hour, 0, 0).unwrap().timestamp();
    let price = Double::from_bits(close.to_bits());
    Candle {
        timestamp: ts,
        open: price,
        high: price,
        low: price,
        close: price,
        volume: 1,
        last_updated: LocalTime { day: 0, second: 0 },
    }
}

fn day(y: i32, m: u32, d: u32) -> i32 {
    NaiveDate::from_ymd_opt(y, m, d).unwrap().num_days_from_ce()
}

fn closes(periods: &Vec<PeriodClose>) -> Vec<f64> {
    periods.iter().map(|p| f64::from_bits(p.close.to_bits())).collect()
}

fn dates(periods: &Vec<PeriodClose>) -> Vec<i32> {
    periods.iter().map(|p| p.date).collect()
}

#[test]
fn daily_keeps_every_candle_with_its_utc_date() {
    let candles = vec![
        candle(2024, 3, 4, 14, 10.0),
        candle(2024, 3, 4, 23, 11.0),
        candle(2024, 3, 5, 0, 12.0),
    ];
    let out = to_daily(&candles);
    assert_eq!(dates(&out), vec![day(2024, 3, 4), day(2024, 3, 4), day(2024, 3, 5)]);
    assert_eq!(closes(&out), vec![10.0, 11.0, 12.0]);
}

#[test]
fn daily_date_differs_from_the_timestamp() {
    let c = candle(2024, 3, 4, 0, 1.0);
    let out = to_daily(&vec![c]);
    assert_eq!(out[0].date, 738_949);
    assert_ne!(out[0].date as i64, c.timestamp);
}

#[test]
fn daily_before_the_epoch_rounds_down() {
    let c = candle(1969, 12, 31, 23, 1.0);
    assert!(c.timestamp < 0);
    let out = to_daily(&vec![c]);
    assert_eq!(out[0].date, day(1969, 12, 31));
}

#[test]
fn daily_of_nothing_is_nothing() {
    assert!(to_daily(&Vec::new()).is_empty());
    assert!(to_weekly(&Vec::new()).is_empty());
}

#[test]
fn weekly_five_days_of_one_week_give_one_close() {
    // 2024-03-04 is a Monday, 2024-03-08 the Friday of the same ISO week.
    let candles = vec![
        candle(2024, 3, 4, 14, 100.0),
        candle(2024, 3, 5, 14, 101.0),
        candle(2024, 3, 6, 14, 102.0),
        candle(2024, 3, 7, 14, 103.0),
        candle(2024, 3, 8, 14, 104.5),
    ];
    let out = to_weekly(&candles);
    assert_eq!(out.len(), 1);
    assert_eq!(closes(&out), vec![104.5]);
    assert_eq!(out[0].date, day(2024, 3, 8));
}

#[test]
fn weekly_splits_at_the_iso_week_not_at_the_month() {
    // Friday, then Monday and Tuesday of the following week.
    let candles = vec![
        candle(2024, 3, 29, 14, 1.0),
        candle(2024, 4, 1, 14, 2.0),
        candle(2024, 4, 2, 14, 3.0),
    ];
    let out = to_weekly(&candles);
    assert_eq!(closes(&out), vec![1.0, 3.0]);
    assert_eq!(dates(&out), vec![day(2024, 3, 29), day(2024, 4, 2)]);
}

#[test]
fn weekly_joins_the_days_around_new_year() {
    // 2024-12-30 and 2025-01-02 both lie in ISO week 1 of 2025.
    let candles = vec![
        candle(2024, 12, 27, 14, 1.0),
        candle(2024, 12, 30, 14, 2.0),
        candle(2025, 1, 2, 14, 3.0),
        candle(2025, 1, 6, 14, 4.0),
    ];
    assert_eq!(NaiveDate::from_ymd_opt(2024, 12, 30).unwrap().iso_week().year(), 2025);
    let out = to_weekly(&candles);
    assert_eq!(closes(&out), vec![1.0, 3.0, 4.0]);
}

#[test]
fn weekly_orders_weeks_and_lets_the_later_candle_win() {
    let candles = vec![
        candle(2024, 3, 13, 14, 30.0),
        candle(2024, 3, 5, 14, 10.0),
        candle(2024, 3, 20, 14, 50.0),
        candle(2024, 3, 12, 14, 20.0),
        candle(2024, 3, 4, 14, 5.0),
    ];
    let out = to_weekly(&candles);
    assert_eq!(closes(&out), vec![5.0, 20.0, 50.0]);
    assert_eq!(dates(&out), vec![day(2024, 3, 4), day(2024, 3, 12), day(2024, 3, 20)]);
}

#[test]
fn weekly_orders_years_before_weeks() {
    let candles = vec![candle(2024, 1, 10, 14, 2.0), candle(2023, 12, 20, 14, 1.0)];
    let out = to_weekly(&candles);
    assert_eq!(closes(&out), vec![1.0, 2.0]);
}

#[test]
fn resampling_reaches_both_ends_of_the_calendar() {
    let first = Candle {
        timestamp: -8_334_601_228_800,
        open: Double::from_bits(0),
        high: Double::from_bits(0),
        low: Double::from_bits(0),
        close: Double::from_bits(1.0f64.to_bits()),
        volume: 0,
        last_updated: LocalTime { day: 0, second: 0 },
    };
    let last = Candle { timestamp: 8_210_266_876_799, ..first };
    let out = to_daily(&vec![first, last]);
    assert_eq!(dates(&out), vec![-95_746_129, 95_745_399]);
    assert_eq!(NaiveDate::from_num_days_from_ce_opt(-95_746_129), Some(NaiveDate::MIN));
    assert_eq!(NaiveDate::from_num_days_from_ce_opt(95_745_399), Some(NaiveDate::MAX));
    assert_eq!(NaiveDate::from_num_days_from_ce_opt(-95_746_130), None);
    assert_eq!(NaiveDate::from_num_days_from_ce_opt(95_745_400), None);
    let out = to_weekly(&vec![last, first]);
    assert_eq!(dates(&out), vec![-95_746_129, 95_745_399]);
}

#[test]
fn the_epoch_is_day_719163() {
    let out = to_daily(&vec![candle(1970, 1, 1, 0, 1.0)]);
    assert_eq!(out[0].date, 719_163);
    assert_eq!(out[0].date, stock_themes::calendar::EPOCH_DAY);
}
