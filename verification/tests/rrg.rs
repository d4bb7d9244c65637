use chrono::{Datelike, Duration, NaiveDate, TimeZone, Utc, Weekday};
use stock_themes::align::align;
use stock_themes::candle::{Candle, LocalTime};
use stock_themes::num::Double;
use stock_themes::resample::{to_daily, PeriodClose};
use stock_themes::rrg::{guard_ratio, report, rrg_frame, TailPoint, Timeframe, MIN_POINTS};
use stock_themes::windows::sma_windows;

fn d(x: f64) -> Double {
    Double::from_bits(x.to_bits())
}

fn f(x: Double) -> f64 {
    f64::from_bits(x.to_bits())
}

fn candle_on(date: NaiveDate, close: f64) -> Candle {
    let ts = Utc.from_utc_datetime(&date.and_hms_opt(14, 30, 0).unwrap()).timestamp();
    Candle {
        timestamp: ts,
        open: d(close),
        high: d(close),
        low: d(close),
        close: d(close),
        volume: 1000,
        last_updated: LocalTime { day: 0, second: 0 },
    }
}

fn series(start: NaiveDate, n: usize, price: fn(usize) -> f64) -> Vec<Candle> {
    (0..n).map(|i| candle_on(start + Duration::days(i as i64), price(i))).collect()
}

fn sma(src: &[f64], period: usize) -> Vec<f64> {
    sma_windows(src.len(), period)
        .iter()
        .map(|w| {
            let window = &src[w.start..w.end];
            window.iter().sum::<f64>() / window.len() as f64
        })
        .collect()
}

fn ratio(num: &[f64], den: &[f64]) -> Vec<f64> {
    num.iter()
        .zip(den.iter())
        .map(|(n, m)| f(guard_ratio(d((n / m) * 100.0), d(*m))))
        .collect()
}

fn r3(v: f64) -> f64 {
    (v * 1000.0).round() / 1000.0
}

fn instrument_price(i: usize) -> f64 {
    100.0 + 10.0 * ((i as f64) / 20.0).sin() + 0.05 * i as f64
}

fn benchmark_price(i: usize) -> f64 {
    200.0 + 20.0 * ((i as f64) / 20.0 + 1.0).sin() + 0.1 * i as f64
}

#[test]
fn timeframe_is_daily_only_for_the_word_daily() {
    assert_eq!(Timeframe::parse("daily"), Timeframe::Daily);
    assert_eq!(Timeframe::parse("weekly"), Timeframe::Weekly);
    assert_eq!(Timeframe::parse("Daily"), Timeframe::Weekly);
    assert_eq!(Timeframe::parse(""), Timeframe::Weekly);
    assert_eq!(Timeframe::parse("dailyx"), Timeframe::Weekly);
    assert_eq!(Timeframe::Daily.smoothing_period(), 50);
    assert_eq!(Timeframe::Weekly.smoothing_period(), 10);
}

#[test]
fn align_keeps_shared_dates_with_positive_closes() {
    let etf = vec![
        PeriodClose { date: 10, close: d(1.0) },
        PeriodClose { date: 11, close: d(2.0) },
        PeriodClose { date: 12, close: d(0.0) },
        PeriodClose { date: 13, close: d(4.0) },
        PeriodClose { date: 14, close: d(5.0) },
        PeriodClose { date: 15, close: d(-6.0) },
        PeriodClose { date: 16, close: d(f64::NAN) },
    ];
    let bmk = vec![
        PeriodClose { date: 16, close: d(70.0) },
        PeriodClose { date: 15, close: d(60.0) },
        PeriodClose { date: 14, close: d(-50.0) },
        PeriodClose { date: 13, close: d(40.0) },
        PeriodClose { date: 12, close: d(30.0) },
        PeriodClose { date: 10, close: d(10.0) },
        PeriodClose { date: 13, close: d(41.0) },
    ];
    let out = align(&etf, &bmk);
    assert_eq!(out.dates, vec![10, 13]);
    assert_eq!(out.instrument.iter().map(|x| f(*x)).collect::<Vec<_>>(), vec![1.0, 4.0]);
    assert_eq!(out.benchmark.iter().map(|x| f(*x)).collect::<Vec<_>>(), vec![10.0, 41.0]);
    assert_eq!(out.len(), 2);
}

#[test]
fn align_repeats_a_date_that_the_instrument_repeats() {
    let etf = vec![PeriodClose { date: 5, close: d(1.0) }, PeriodClose { date: 5, close: d(2.0) }];
    let bmk = vec![PeriodClose { date: 5, close: d(9.0) }];
    let out = align(&etf, &bmk);
    assert_eq!(out.dates, vec![5, 5]);
}

#[test]
fn align_with_nothing_gives_nothing() {
    let some = vec![PeriodClose { date: 5, close: d(1.0) }];
    assert_eq!(align(&some, &Vec::new()).len(), 0);
    assert_eq!(align(&Vec::new(), &some).len(), 0);
}

#[test]
fn fewer_than_twenty_shared_dates_give_no_result() {
    let start = NaiveDate::from_ymd_opt(2024, 1, 1).unwrap();
    let etf = series(start, 100, instrument_price);
    let bmk = series(start + Duration::days(81), 100, benchmark_price);
    assert_eq!(align(&to_daily(&etf), &to_daily(&bmk)).len(), 19);
    assert!(rrg_frame("xlk", &etf, &bmk, "daily", 5, 5).is_none());
    assert!(rrg_frame("xlk", &etf, &bmk, "weekly", 5, 5).is_none());
    assert!(rrg_frame("xlk", &Vec::new(), &bmk, "daily", 5, 5).is_none());
    assert!(rrg_frame("xlk", &etf, &Vec::new(), "daily", 5, 5).is_none());
}

#[test]
fn exactly_twenty_shared_dates_give_a_result() {
    let start = NaiveDate::from_ymd_opt(2024, 1, 1).unwrap();
    let etf = series(start, 100, instrument_price);
    let bmk = series(start + Duration::days(80), 100, benchmark_price);
    let frame = rrg_frame("xlk", &etf, &bmk, "daily", 5, 7).unwrap();
    assert_eq!(frame.series.len(), MIN_POINTS);
    assert_eq!(frame.period, 50);
    assert_eq!(frame.ticker, "XLK");
    assert_eq!((frame.tail.start, frame.tail.end), (14, 19));
    assert_eq!((frame.history.start, frame.history.end), (13, 20));
    assert_eq!(
        frame.history_dates,
        vec![
            "2024-04-03",
            "2024-04-04",
            "2024-04-05",
            "2024-04-06",
            "2024-04-07",
            "2024-04-08",
            "2024-04-09"
        ]
    );
    assert_eq!(f(frame.series.instrument[0]), instrument_price(80));
    assert_eq!(f(frame.series.benchmark[0]), benchmark_price(0));
}

#[test]
fn frame_upper_cases_the_ticker() {
    let start = NaiveDate::from_ymd_opt(2024, 1, 1).unwrap();
    let etf = series(start, 30, instrument_price);
    let frame = rrg_frame("brk-b", &etf, &etf, "daily", 0, 0).unwrap();
    assert_eq!(frame.ticker, "BRK-B");
    assert_eq!(frame.tail.start, frame.tail.end);
    assert!(frame.history_dates.is_empty());
}

#[test]
fn frame_tail_is_empty_when_longer_than_the_series() {
    let start = NaiveDate::from_ymd_opt(2024, 1, 1).unwrap();
    let etf = series(start, 25, instrument_price);
    let frame = rrg_frame("x", &etf, &etf, "daily", 25, 100).unwrap();
    assert_eq!(frame.tail.start, frame.tail.end);
    assert_eq!(frame.history_dates.len(), 25);
    let frame = rrg_frame("x", &etf, &etf, "daily", 24, 100).unwrap();
    assert_eq!((frame.tail.start, frame.tail.end), (0, 24));
}

#[test]
fn end_to_end_weekly_graph_of_two_correlated_series() {
    let start = NaiveDate::from_ymd_opt(2023, 1, 2).unwrap();
    let etf = series(start, 300, instrument_price);
    let bmk = series(start, 300, benchmark_price);
    let frame = rrg_frame("xlk", &etf, &bmk, "weekly", 12, 52).unwrap();
    let n = frame.series.len();
    assert_eq!(n, 43);
    assert_eq!(frame.period, 10);

    let rs: Vec<f64> = frame
        .series
        .instrument
        .iter()
        .zip(frame.series.benchmark.iter())
        .map(|(e, b)| f(*e) / f(*b))
        .collect();
    let rs_smooth = sma(&rs, frame.period);
    let rs_smooth_sma = sma(&rs_smooth, frame.period);
    let rs_ratio = ratio(&rs_smooth, &rs_smooth_sma);
    let rs_ratio_sma = sma(&rs_ratio, frame.period);
    let rs_momentum = ratio(&rs_ratio, &rs_ratio_sma);

    assert_eq!(rs_ratio.len(), n);
    assert_eq!(rs_momentum.len(), n);
    assert_eq!(rs_smooth[0], rs[0]);
    assert_eq!(rs_ratio[0], 100.0);

    assert_eq!(frame.tail.end, n - 1);
    assert_eq!(frame.history.end - frame.history.start, frame.history_dates.len());
    assert!(rs_ratio.iter().all(|r| (*r - 100.0).abs() < 10.0));
    assert!(rs_ratio.iter().any(|r| *r > 100.0));
    assert!(rs_ratio.iter().any(|r| *r < 100.0));

    let ratio: Vec<Double> = rs_ratio.iter().map(|v| d(r3(*v))).collect();
    let momentum: Vec<Double> = rs_momentum.iter().map(|v| d(r3(*v))).collect();
    let result = report(frame, &ratio, &momentum);
    assert_eq!(result.ticker, "XLK");
    assert_eq!(result.tail.len(), 12);
    assert_eq!(result.rs_history.len(), 43);
    assert_eq!(f(result.current_rs_ratio), r3(rs_ratio[n - 1]));
    assert_eq!(f(result.current_rs_momentum), r3(rs_momentum[n - 1]));
    assert_eq!(f(result.tail[0].rs_ratio), r3(rs_ratio[n - 13]));
    assert_eq!(f(result.tail[11].rs_momentum), r3(rs_momentum[n - 2]));
    assert_eq!(f(result.rs_history[0].value), 100.0);
    assert_eq!(f(result.rs_history[42].value), f(result.current_rs_ratio));
    assert_eq!(result.rs_history[0].date, "2023-01-08");
}

#[test]
fn end_to_end_history_of_fifty_two_weeks() {
    let start = NaiveDate::from_ymd_opt(2022, 1, 3).unwrap();
    let etf: Vec<Candle> = (0..300)
        .map(|i| candle_on(start + Duration::days(2 * i as i64), instrument_price(i)))
        .collect();
    let bmk: Vec<Candle> = (0..300)
        .map(|i| candle_on(start + Duration::days(2 * i as i64), benchmark_price(i)))
        .collect();
    let frame = rrg_frame("spy", &etf, &bmk, "weekly", 12, 52).unwrap();
    assert_eq!(frame.series.len(), 86);
    assert_eq!(frame.history_dates.len(), 52);
    assert_eq!(frame.tail.end - frame.tail.start, 12);
    assert_eq!(frame.history.start, 34);
    assert_eq!(frame.history_dates[51], "2023-08-24");

    let ratio: Vec<Double> = (0..86).map(|i| d(100.0 + i as f64)).collect();
    let momentum: Vec<Double> = (0..86).map(|i| d(50.0 - i as f64)).collect();
    let result = report(frame, &ratio, &momentum);
    assert_eq!(result.rs_history.len(), 52);
    assert_eq!(result.tail.len(), 12);
    assert_eq!(f(result.current_rs_ratio), 185.0);
    assert_eq!(f(result.current_rs_momentum), -35.0);
    assert_eq!(result.tail[0], TailPoint { rs_ratio: d(173.0), rs_momentum: d(-23.0) });
    assert_eq!(result.tail[11], TailPoint { rs_ratio: d(184.0), rs_momentum: d(-34.0) });
    assert_eq!(f(result.rs_history[0].value), 134.0);
    assert_eq!(f(result.rs_history[51].value), 185.0);
    assert_eq!(result.rs_history[51].date, "2023-08-24");
}

#[test]
fn zero_denominator_gives_exactly_one_hundred() {
    assert_eq!(f(guard_ratio(d(f64::INFINITY), d(0.0))), 100.0);
    assert_eq!(f(guard_ratio(d(f64::NAN), d(-0.0))), 100.0);
    assert_eq!(guard_ratio(d(12.5), d(0.0)).to_bits(), 100.0f64.to_bits());
    assert_eq!(f(guard_ratio(d(12.5), d(3.0))), 12.5);
    assert_eq!(f(guard_ratio(d(12.5), d(-3.0))), 12.5);
    assert!(f(guard_ratio(d(f64::NAN), d(f64::NAN))).is_nan());
}

fn sessions(start: NaiveDate, n: usize, price: fn(usize) -> f64) -> Vec<Candle> {
    let mut candles = Vec::new();
    let mut date = start;
    while candles.len() < n {
        if !matches!(date.weekday(), Weekday::Sat | Weekday::Sun) {
            candles.push(candle_on(date, price(candles.len())));
        }
        date = date + Duration::days(1);
    }
    candles
}

#[test]
fn end_to_end_three_hundred_sessions_weekly() {
    let start = NaiveDate::from_ymd_opt(2023, 1, 2).unwrap();
    let etf = sessions(start, 300, instrument_price);
    let bmk = sessions(start, 300, benchmark_price);
    let frame = rrg_frame("xlk", &etf, &bmk, "weekly", 12, 52).unwrap();
    let n = frame.series.len();
    assert_eq!(n, 60);

    let rs: Vec<f64> = frame
        .series
        .instrument
        .iter()
        .zip(frame.series.benchmark.iter())
        .map(|(e, b)| f(*e) / f(*b))
        .collect();
    let rs_smooth = sma(&rs, frame.period);
    let rs_ratio = ratio(&rs_smooth, &sma(&rs_smooth, frame.period));
    let rs_momentum = ratio(&rs_ratio, &sma(&rs_ratio, frame.period));
    let ratio: Vec<Double> = rs_ratio.iter().map(|v| d(r3(*v))).collect();
    let momentum: Vec<Double> = rs_momentum.iter().map(|v| d(r3(*v))).collect();
    let result = report(frame, &ratio, &momentum);

    assert_eq!(result.rs_history.len(), 52);
    assert_eq!(result.tail.len(), 12);
    assert_eq!(result.ticker, "XLK");
    let values: Vec<f64> = result.rs_history.iter().map(|p| f(p.value)).collect();
    assert!(values.iter().all(|v| (*v - 100.0).abs() < 10.0));
    assert!(values.iter().any(|v| *v > 100.0));
    assert!(values.iter().any(|v| *v < 100.0));
    assert_eq!(result.rs_history[51].date, "2024-02-23");
    assert_eq!(f(result.rs_history[51].value), f(result.current_rs_ratio));
}
