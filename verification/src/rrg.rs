//! The integer part of a Relative Rotation Graph: which closes enter the
//! computation, how long the averages are, and which points are reported.

use crate::align::{align, joined, Aligned, Pair};
use crate::calendar::{day_text, format_day, valid_day};
use crate::candle::{all_wf, Candle};
use crate::num::{Double, HUNDRED_BITS};
use crate::resample::{daily, dates_valid, to_daily, to_weekly, weekly, PeriodClose};
use crate::text::{same_text, to_upper, uppercase};
use crate::windows::{
    history_start, history_window, tail_end, tail_start, tail_window, Window,
};
use vstd::prelude::*;

verus! {

/// Fewest joined points for which a graph is computed.
pub const MIN_POINTS: usize = 20;

/// Length of the moving averages on daily closes: ten weeks of five sessions.
pub const DAILY_PERIOD: usize = 50;

/// Length of the moving averages on weekly closes: ten weeks.
pub const WEEKLY_PERIOD: usize = 10;

/// How the candles are resampled.
#[derive(Clone, Copy, Debug, PartialEq, Eq, Structural)]
pub enum Timeframe {
    Daily,
    Weekly,
}

impl Timeframe {
    /// The timeframe that a request names: daily for the word `daily`,
    /// weekly for anything else.
    pub open spec fn named(name: Seq<char>) -> Timeframe {
        if name == "daily"@ {
            Timeframe::Daily
        } else {
            Timeframe::Weekly
        }
    }

    /// Length of the moving averages for the timeframe.
    pub open spec fn period(self) -> usize {
        match self {
            Timeframe::Daily => DAILY_PERIOD,
            Timeframe::Weekly => WEEKLY_PERIOD,
        }
    }

    /// The period closes of a series in the timeframe.
    pub open spec fn periods(self, candles: Seq<Candle>) -> Seq<PeriodClose> {
        match self {
            Timeframe::Daily => daily(candles),
            Timeframe::Weekly => weekly(candles),
        }
    }

    pub fn parse(name: &str) -> (t: Timeframe)
        ensures
            t == Timeframe::named(name@),
    {
        if same_text(name, "daily") {
            Timeframe::Daily
        } else {
            Timeframe::Weekly
        }
    }

    pub fn smoothing_period(self) -> (p: usize)
        ensures
            p == self.period(),
            p >= 1,
    {
        match self {
            Timeframe::Daily => DAILY_PERIOD,
            Timeframe::Weekly => WEEKLY_PERIOD,
        }
    }

    pub fn resample(self, candles: &Vec<Candle>) -> (out: Vec<PeriodClose>)
        requires
            all_wf(candles@),
        ensures
            out@ == self.periods(candles@),
            dates_valid(out@),
    {
        match self {
            Timeframe::Daily => to_daily(candles),
            Timeframe::Weekly => to_weekly(candles),
        }
    }
}

/// A ratio scaled to 100, or 100 itself where it has no meaning: `scaled`
/// where the denominator it was divided by is not zero, else exactly 100.
pub open spec fn guarded(scaled: Double, denominator: Double) -> Double {
    if denominator.zero() {
        Double::hundred()
    } else {
        scaled
    }
}

/// Chooses between a scaled ratio and the neutral value 100, which stands in
/// where the denominator is zero.
pub fn guard_ratio(scaled: Double, denominator: Double) -> (r: Double)
    ensures
        r == guarded(scaled, denominator),
{
    if denominator.is_zero() {
        Double { bits: HUNDRED_BITS }
    } else {
        scaled
    }
}

/// A zero denominator always gives exactly 100, whatever the ratio came to.
pub proof fn lemma_neutral_on_zero(scaled: Double, denominator: Double)
    requires
        denominator.zero(),
    ensures
        guarded(scaled, denominator).bits == HUNDRED_BITS,
{
}

/// All that a graph needs besides arithmetic: the joined closes, the length
/// of the averages, the windows of the tail and of the history over the
/// joined points, and the history's dates as text.
#[derive(Clone, Debug)]
pub struct RrgFrame {
    pub ticker: String,
    pub series: Aligned,
    pub period: usize,
    pub tail: Window,
    pub history: Window,
    pub history_dates: Vec<String>,
}

/// The joined closes of an instrument and a benchmark in a timeframe.
pub open spec fn joined_closes(etf: Seq<Candle>, bmk: Seq<Candle>, t: Timeframe) -> Seq<Pair> {
    joined(t.periods(etf), t.periods(bmk))
}

/// Whether `frame` is the frame of a request over the joined closes `pairs`.
pub open spec fn frame_of(
    frame: RrgFrame,
    ticker: Seq<char>,
    pairs: Seq<Pair>,
    t: Timeframe,
    tail_len: usize,
    history_len: usize,
) -> bool {
    let n = pairs.len() as int;
    &&& frame.ticker@ == uppercase(ticker)
    &&& frame.series.wf()
    &&& frame.series.pairs() == pairs
    &&& frame.period == t.period()
    &&& frame.tail.start == tail_start(n, tail_len as int)
    &&& frame.tail.end == tail_end(n)
    &&& frame.history.start == history_start(n, history_len as int)
    &&& frame.history.end == n
    &&& frame.history_dates.len() == n - history_start(n, history_len as int)
    &&& forall|i: int|
        0 <= i < frame.history_dates.len() ==> (#[trigger] frame.history_dates[i])@ == day_text(
            pairs[history_start(n, history_len as int) + i].date,
        )
}

/// Lays out the windows over joined closes and writes out the history's
/// dates.
pub fn frame_series(
    ticker: &str,
    series: Aligned,
    t: Timeframe,
    tail_len: usize,
    history_len: usize,
) -> (frame: RrgFrame)
    requires
        series.wf(),
        forall|i: int| 0 <= i < series.dates.len() ==> valid_day(#[trigger] series.dates[i]),
    ensures
        frame_of(frame, ticker@, series.pairs(), t, tail_len, history_len),
{
    let n = series.len();
    let tail = tail_window(n, tail_len);
    let history = history_window(n, history_len);
    let mut history_dates: Vec<String> = Vec::new();
    let mut i: usize = history.start;
    while i < n
        invariant
            history.start <= i <= n,
            n == series.dates.len(),
            series.wf(),
            forall|k: int| 0 <= k < series.dates.len() ==> valid_day(#[trigger] series.dates[k]),
            history_dates.len() == i - history.start,
            forall|k: int|
                0 <= k < history_dates.len() ==> (#[trigger] history_dates[k])@ == day_text(
                    series.dates[history.start + k],
                ),
        decreases n - i,
    {
        history_dates.push(format_day(series.dates[i]));
        i += 1;
    }
    let frame = RrgFrame {
        ticker: to_upper(ticker),
        series,
        period: t.smoothing_period(),
        tail,
        history,
        history_dates,
    };
    assert(frame.series.pairs().len() == n);
    frame
}

/// Prepares a graph of `ticker` against a benchmark: resamples both series
/// in the requested timeframe, joins them on the date and, where at least
/// [`MIN_POINTS`] dates remain, lays out the windows. With fewer there is no
/// result.
pub fn rrg_frame(
    ticker: &str,
    etf_candles: &Vec<Candle>,
    bmk_candles: &Vec<Candle>,
    timeframe: &str,
    tail_len: usize,
    history_len: usize,
) -> (r: Option<RrgFrame>)
    requires
        all_wf(etf_candles@),
        all_wf(bmk_candles@),
    ensures
        r is None <==> joined_closes(etf_candles@, bmk_candles@, Timeframe::named(timeframe@)).len()
            < MIN_POINTS,
        r matches Some(frame) ==> frame.wf() && frame_of(
            frame,
            ticker@,
            joined_closes(etf_candles@, bmk_candles@, Timeframe::named(timeframe@)),
            Timeframe::named(timeframe@),
            tail_len,
            history_len,
        ),
{
    let t = Timeframe::parse(timeframe);
    let etf = t.resample(etf_candles);
    let bmk = t.resample(bmk_candles);
    let series = align(&etf, &bmk);
    if series.len() < MIN_POINTS {
        assert(series.pairs().len() == series.dates.len());
        return None;
    }
    proof {
        crate::align::lemma_joined_from(etf@, bmk@);
        assert forall|i: int| 0 <= i < series.dates.len() implies valid_day(
            #[trigger] series.dates[i],
        ) by {
            assert(series.pairs()[i].date == series.dates[i]);
        }
        assert(series.pairs().len() == series.dates.len());
    }
    Some(frame_series(ticker, series, t, tail_len, history_len))
}

/// One point of the tail: the graph's two coordinates.
#[derive(Clone, Copy, Debug, PartialEq, Eq, Structural)]
pub struct TailPoint {
    pub rs_ratio: Double,
    pub rs_momentum: Double,
}

/// One point of the history: a date as text and the first coordinate on it.
#[derive(Clone, Debug)]
pub struct HistoryPoint {
    pub date: String,
    pub value: Double,
}

/// The graph of an instrument: the current point, the tail that leads up to
/// it from the oldest point to the newest, and the history of the first
/// coordinate.
#[derive(Clone, Debug)]
pub struct RrgResult {
    pub ticker: String,
    pub current_rs_ratio: Double,
    pub current_rs_momentum: Double,
    pub tail: Vec<TailPoint>,
    pub rs_history: Vec<HistoryPoint>,
}

impl RrgFrame {
    /// The windows lie within the joined points, which are not none, the
    /// history ends at the last point, and every point of the history has
    /// its date.
    pub open spec fn wf(self) -> bool {
        &&& self.series.wf()
        &&& self.series.dates.len() > 0
        &&& self.tail.start <= self.tail.end < self.series.dates.len()
        &&& self.history.start <= self.history.end == self.series.dates.len()
        &&& self.history_dates.len() == self.history.end - self.history.start
    }
}

/// A frame of at least one point that answers a request is well formed.
pub proof fn lemma_frame_wf(
    frame: RrgFrame,
    ticker: Seq<char>,
    pairs: Seq<Pair>,
    t: Timeframe,
    tail_len: usize,
    history_len: usize,
)
    requires
        frame_of(frame, ticker, pairs, t, tail_len, history_len),
        pairs.len() > 0,
    ensures
        frame.wf(),
{
    assert(frame.series.pairs().len() == frame.series.dates.len());
}

/// Whether `result` reports the two coordinate series over the frame: the
/// last point as the current one, the points of the tail window in order,
/// and of the history window the first coordinate with its date.
pub open spec fn reports(
    result: RrgResult,
    frame: RrgFrame,
    ratio: Seq<Double>,
    momentum: Seq<Double>,
) -> bool {
    &&& result.ticker@ == frame.ticker@
    &&& result.current_rs_ratio == ratio.last()
    &&& result.current_rs_momentum == momentum.last()
    &&& result.tail.len() == frame.tail.end - frame.tail.start
    &&& forall|i: int|
        0 <= i < result.tail.len() ==> #[trigger] result.tail[i] == (TailPoint {
            rs_ratio: ratio[frame.tail.start + i],
            rs_momentum: momentum[frame.tail.start + i],
        })
    &&& result.rs_history.len() == frame.history_dates.len()
    &&& forall|i: int|
        0 <= i < result.rs_history.len() ==> (#[trigger] result.rs_history[i]).date@
            == frame.history_dates[i]@ && result.rs_history[i].value == ratio[frame.history.start
            + i]
}

/// Reads the graph off the two coordinate series, which hold one value per
/// joined point.
pub fn report(frame: RrgFrame, ratio: &Vec<Double>, momentum: &Vec<Double>) -> (result: RrgResult)
    requires
        frame.wf(),
        ratio.len() == frame.series.dates.len(),
        momentum.len() == frame.series.dates.len(),
    ensures
        reports(result, frame, ratio@, momentum@),
{
    let n = ratio.len();
    let mut tail: Vec<TailPoint> = Vec::new();
    let mut i: usize = frame.tail.start;
    while i < frame.tail.end
        invariant
            frame.tail.start <= i <= frame.tail.end < n,
            n == ratio.len(),
            n == momentum.len(),
            tail.len() == i - frame.tail.start,
            forall|k: int|
                0 <= k < tail.len() ==> #[trigger] tail[k] == (TailPoint {
                    rs_ratio: ratio[frame.tail.start + k],
                    rs_momentum: momentum[frame.tail.start + k],
                }),
        decreases frame.tail.end - i,
    {
        tail.push(TailPoint { rs_ratio: ratio[i], rs_momentum: momentum[i] });
        i += 1;
    }
    let mut rs_history: Vec<HistoryPoint> = Vec::new();
    let mut j: usize = 0;
    while j < frame.history_dates.len()
        invariant
            j <= frame.history_dates.len(),
            frame.history_dates.len() == frame.history.end - frame.history.start,
            frame.history.end == n,
            n == ratio.len(),
            rs_history.len() == j,
            forall|k: int|
                0 <= k < j ==> (#[trigger] rs_history[k]).date@ == frame.history_dates[k]@
                    && rs_history[k].value == ratio[frame.history.start + k],
        decreases frame.history_dates.len() - j,
    {
        rs_history.push(
            HistoryPoint {
                date: frame.history_dates[j].clone(),
                value: ratio[frame.history.start + j],
            },
        );
        j += 1;
    }
    RrgResult {
        ticker: frame.ticker,
        current_rs_ratio: ratio[n - 1],
        current_rs_momentum: momentum[n - 1],
        tail,
        rs_history,
    }
}

/// Two series in which no date of the instrument occurs twice and which share
/// fewer than [`MIN_POINTS`] dates give no result.
pub proof fn lemma_few_shared_dates(etf: Seq<PeriodClose>, bmk: Seq<PeriodClose>)
    requires
        crate::align::dates_of(etf).no_duplicates(),
        crate::align::shared_dates(etf, bmk).len() < MIN_POINTS,
    ensures
        joined(etf, bmk).len() < MIN_POINTS,
{
    crate::align::lemma_joined_within_shared(etf, bmk);
}

/// Weekly closes never repeat a date, so that in the weekly timeframe two
/// series that share fewer than [`MIN_POINTS`] dates give no result, whatever
/// the candles.
pub proof fn lemma_few_shared_weeks(etf: Seq<Candle>, bmk: Seq<Candle>)
    requires
        crate::align::shared_dates(weekly(etf), weekly(bmk)).len() < MIN_POINTS,
    ensures
        crate::align::dates_of(weekly(etf)).no_duplicates(),
        joined_closes(etf, bmk, Timeframe::Weekly).len() < MIN_POINTS,
{
    let s = weekly(etf);
    let ds = crate::align::dates_of(s);
    crate::resample::lemma_weekly_increases(etf);
    assert forall|i: int, j: int| 0 <= i < ds.len() && 0 <= j < ds.len() && i != j implies ds[i]
        != ds[j] by {
        if i < j {
            assert(crate::resample::week_before(
                crate::resample::week_of(s[i]),
                crate::resample::week_of(s[j]),
            ));
        } else {
            assert(crate::resample::week_before(
                crate::resample::week_of(s[j]),
                crate::resample::week_of(s[i]),
            ));
        }
    }
    lemma_few_shared_dates(s, weekly(bmk));
}

} // verus!
