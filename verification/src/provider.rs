//! Turning a provider's chart response into candles.
//!
//! A chart arrives as a list of timestamps and, beside it, one list per
//! quantity in which any entry may be missing.

use crate::calendar::valid_timestamp;
use crate::candle::{all_wf, ascending, BarSize, Candle, LocalTime, TimeSpec};
use crate::text::{append_chars, chars_of, decimal, string_of, to_decimal};
use crate::num::Double;
use vstd::prelude::*;

verus! {

/// How a truth value is written in a request.
pub open spec fn flag(b: bool) -> Seq<char> {
    if b {
        "true"@
    } else {
        "false"@
    }
}

/// The part of a chart request that names the window.
pub open spec fn window_query(window: TimeSpec) -> Seq<char> {
    match window {
        TimeSpec::Range(range) => "&range="@ + range.name(),
        TimeSpec::Interval(start, end) => "&period1="@ + decimal(start) + "&period2="@ + decimal(
            end,
        ),
    }
}

/// The address of the chart of `symbol`.
pub open spec fn chart_address(
    symbol: Seq<char>,
    bar: BarSize,
    window: TimeSpec,
    crumb: Seq<char>,
) -> Seq<char> {
    "https://query1.finance.yahoo.com/v8/finance/chart/"@ + symbol + "?interval="@ + bar.name()
        + window_query(window) + "&includePrePost="@ + flag(bar.extended()) + "&crumb="@ + crumb
}

/// The address of the profile of `symbol`.
pub open spec fn profile_address(symbol: Seq<char>, crumb: Seq<char>) -> Seq<char> {
    "https://query1.finance.yahoo.com/v10/finance/quoteSummary/"@ + symbol
        + "?modules=assetProfile,price&crumb="@ + crumb
}

fn write_piece(out: &mut Vec<char>, piece: &str)
    ensures
        final(out)@ == old(out)@ + piece@,
{
    append_chars(out, &chars_of(piece));
}

/// Writes the address from which the chart of a symbol is fetched: the bar
/// size, the window by name or by its two ends, whether extended sessions
/// are wanted, and the session's crumb.
pub fn chart_url(symbol: &str, bar: BarSize, window: TimeSpec, crumb: &str) -> (url: String)
    ensures
        url@ == chart_address(symbol@, bar, window, crumb@),
{
    let mut out = chars_of("https://query1.finance.yahoo.com/v8/finance/chart/");
    write_piece(&mut out, symbol);
    write_piece(&mut out, "?interval=");
    write_piece(&mut out, bar.as_str());
    let ghost head = out@;
    match window {
        TimeSpec::Range(range) => {
            write_piece(&mut out, "&range=");
            write_piece(&mut out, range.as_str());
        },
        TimeSpec::Interval(start, end) => {
            write_piece(&mut out, "&period1=");
            write_piece(&mut out, to_decimal(start).as_str());
            write_piece(&mut out, "&period2=");
            write_piece(&mut out, to_decimal(end).as_str());
        },
    }
    assert(out@ =~= head + window_query(window));
    write_piece(&mut out, "&includePrePost=");
    if bar.include_pre_post() {
        write_piece(&mut out, "true");
    } else {
        write_piece(&mut out, "false");
    }
    write_piece(&mut out, "&crumb=");
    write_piece(&mut out, crumb);
    assert(out@ =~= chart_address(symbol@, bar, window, crumb@));
    string_of(&out)
}

/// Writes the address from which the profile of a symbol is fetched.
pub fn profile_url(symbol: &str, crumb: &str) -> (url: String)
    ensures
        url@ == profile_address(symbol@, crumb@),
{
    let mut out = chars_of("https://query1.finance.yahoo.com/v10/finance/quoteSummary/");
    write_piece(&mut out, symbol);
    write_piece(&mut out, "?modules=assetProfile,price&crumb=");
    write_piece(&mut out, crumb);
    string_of(&out)
}

/// The quantities of a chart, one list each, parallel to the timestamps.
#[derive(Clone, Debug)]
pub struct Quote {
    pub open: Vec<Option<Double>>,
    pub high: Vec<Option<Double>>,
    pub low: Vec<Option<Double>>,
    pub close: Vec<Option<Double>>,
    pub volume: Vec<Option<u64>>,
}

/// Whether list `s` has an entry at `i` and the entry is present.
pub open spec fn present<T>(s: Seq<Option<T>>, i: int) -> bool {
    0 <= i < s.len() && s[i] is Some
}

/// Whether bar `i` of a chart is complete: its timestamp is an instant of
/// the calendar and every quantity is present.
pub open spec fn complete(timestamps: Seq<i64>, quote: Quote, i: int) -> bool {
    &&& 0 <= i < timestamps.len()
    &&& valid_timestamp(timestamps[i])
    &&& present(quote.open@, i)
    &&& present(quote.high@, i)
    &&& present(quote.low@, i)
    &&& present(quote.close@, i)
    &&& present(quote.volume@, i)
}

/// The candle of bar `i`, stamped as stored at `stamp`.
pub open spec fn candle_at(timestamps: Seq<i64>, quote: Quote, stamp: LocalTime, i: int) -> Candle {
    Candle {
        timestamp: timestamps[i],
        open: quote.open@[i]->0,
        high: quote.high@[i]->0,
        low: quote.low@[i]->0,
        close: quote.close@[i]->0,
        volume: quote.volume@[i]->0,
        last_updated: stamp,
    }
}

/// The candles of the complete bars among the first `n`, in order.
pub open spec fn assembled(timestamps: Seq<i64>, quote: Quote, stamp: LocalTime, n: int) -> Seq<
    Candle,
>
    decreases n,
{
    if n <= 0 {
        Seq::empty()
    } else if complete(timestamps, quote, n - 1) {
        assembled(timestamps, quote, stamp, n - 1).push(
            candle_at(timestamps, quote, stamp, n - 1),
        )
    } else {
        assembled(timestamps, quote, stamp, n - 1)
    }
}

/// Whether a candle lies in the window of a request: always for a named
/// lookback, and for an interval where its timestamp is at or after the
/// start and before the end.
pub open spec fn in_window(window: TimeSpec, c: Candle) -> bool {
    match window {
        TimeSpec::Range(_) => true,
        TimeSpec::Interval(start, end) => start <= c.timestamp < end,
    }
}

/// The candles that lie in the window, in order.
pub open spec fn windowed(window: TimeSpec, candles: Seq<Candle>) -> Seq<Candle>
    decreases candles.len(),
{
    if candles.len() == 0 {
        Seq::empty()
    } else if in_window(window, candles.last()) {
        windowed(window, candles.drop_last()).push(candles.last())
    } else {
        windowed(window, candles.drop_last())
    }
}

fn entry<T: Copy>(s: &Vec<Option<T>>, i: usize) -> (r: Option<T>)
    ensures
        r is Some <==> present(s@, i as int),
        r matches Some(v) ==> s@[i as int] == Some(v),
{
    if i < s.len() {
        s[i]
    } else {
        None
    }
}

/// Makes a candle of every complete bar of a chart and leaves the others
/// out.
pub fn assemble(timestamps: &Vec<i64>, quote: &Quote, stamp: LocalTime) -> (candles: Vec<Candle>)
    ensures
        candles@ == assembled(timestamps@, *quote, stamp, timestamps.len() as int),
        all_wf(candles@),
{
    let mut candles: Vec<Candle> = Vec::new();
    let mut i: usize = 0;
    while i < timestamps.len()
        invariant
            i <= timestamps.len(),
            candles@ == assembled(timestamps@, *quote, stamp, i as int),
            all_wf(candles@),
        decreases timestamps.len() - i,
    {
        let ts = timestamps[i];
        let in_calendar = crate::calendar::MIN_TIMESTAMP <= ts && ts <= crate::calendar::MAX_TIMESTAMP;
        match (
            entry(&quote.open, i),
            entry(&quote.high, i),
            entry(&quote.low, i),
            entry(&quote.close, i),
            entry(&quote.volume, i),
        ) {
            (Some(open), Some(high), Some(low), Some(close), Some(volume)) => {
                if in_calendar {
                    candles.push(
                        Candle { timestamp: ts, open, high, low, close, volume, last_updated: stamp },
                    );
                }
            },
            _ => {},
        }
        i += 1;
    }
    candles
}

/// Keeps the candles that lie in the window of the request. A provider may
/// append a bar outside an explicit interval; a named lookback keeps all.
pub fn clip(window: TimeSpec, candles: &Vec<Candle>) -> (kept: Vec<Candle>)
    ensures
        kept@ == windowed(window, candles@),
{
    let mut kept: Vec<Candle> = Vec::new();
    let mut i: usize = 0;
    assert(candles@.take(0) =~= Seq::<Candle>::empty());
    while i < candles.len()
        invariant
            i <= candles.len(),
            kept@ == windowed(window, candles@.take(i as int)),
        decreases candles.len() - i,
    {
        let c = candles[i];
        proof {
            assert(candles@.take(i + 1).drop_last() =~= candles@.take(i as int));
            assert(candles@.take(i + 1).last() == c);
        }
        let inside = match window {
            TimeSpec::Range(_) => true,
            TimeSpec::Interval(start, end) => start <= c.timestamp && c.timestamp < end,
        };
        if inside {
            kept.push(c);
        }
        i += 1;
    }
    assert(candles@.take(candles.len() as int) =~= candles@);
    kept
}

/// Clipping leaves only candles of the series that lie in the window, keeps
/// well-formed candles well formed, and changes nothing for a named lookback.
pub proof fn lemma_windowed(window: TimeSpec, candles: Seq<Candle>)
    ensures
        windowed(window, candles).len() <= candles.len(),
        forall|i: int|
            0 <= i < windowed(window, candles).len() ==> in_window(
                window,
                #[trigger] windowed(window, candles)[i],
            ) && candles.contains(windowed(window, candles)[i]),
        all_wf(candles) ==> all_wf(windowed(window, candles)),
        window is Range ==> windowed(window, candles) == candles,
    decreases candles.len(),
{
    if candles.len() > 0 {
        let rest = candles.drop_last();
        lemma_windowed(window, rest);
        let w = windowed(window, candles);
        let r = windowed(window, rest);
        assert forall|i: int| 0 <= i < w.len() implies in_window(window, #[trigger] w[i])
            && candles.contains(w[i]) by {
            if i < r.len() {
                assert(w[i] == r[i]);
                let k = choose|k: int| 0 <= k < rest.len() && rest[k] == r[i];
                assert(candles[k] == r[i]);
            } else {
                assert(candles[candles.len() - 1] == w[i]);
            }
        }
        if all_wf(candles) {
            assert forall|i: int| 0 <= i < rest.len() implies (#[trigger] rest[i]).wf() by {
                assert(rest[i] == candles[i]);
            }
            assert forall|i: int| 0 <= i < w.len() implies (#[trigger] w[i]).wf() by {
                if i < r.len() {
                    assert(w[i] == r[i]);
                } else {
                    assert(w[i] == candles[candles.len() - 1]);
                }
            }
        }
        if window is Range {
            assert(w =~= candles);
        }
    } else {
        assert(windowed(window, candles) =~= candles);
    }
}

/// Every assembled candle carries the timestamp of one of the bars it was
/// assembled from.
proof fn lemma_assembled_from(timestamps: Seq<i64>, quote: Quote, stamp: LocalTime, n: int)
    requires
        0 <= n <= timestamps.len(),
    ensures
        forall|i: int|
            0 <= i < assembled(timestamps, quote, stamp, n).len() ==> exists|k: int|
                0 <= k < n && timestamps[k] == (#[trigger] assembled(
                    timestamps,
                    quote,
                    stamp,
                    n,
                )[i]).timestamp,
    decreases n,
{
    if n > 0 {
        lemma_assembled_from(timestamps, quote, stamp, n - 1);
        let before = assembled(timestamps, quote, stamp, n - 1);
        let all = assembled(timestamps, quote, stamp, n);
        assert forall|i: int| 0 <= i < all.len() implies exists|k: int|
            0 <= k < n && timestamps[k] == (#[trigger] all[i]).timestamp by {
            if i < before.len() {
                assert(all[i] == before[i]);
                let k = choose|k: int| 0 <= k < n - 1 && timestamps[k] == before[i].timestamp;
                assert(0 <= k < n && timestamps[k] == all[i].timestamp);
            } else {
                assert(timestamps[n - 1] == all[i].timestamp);
            }
        }
    }
}

/// A chart whose timestamps strictly increase gives candles whose timestamps
/// strictly increase.
pub proof fn lemma_assembled_ascending(
    timestamps: Seq<i64>,
    quote: Quote,
    stamp: LocalTime,
    n: int,
)
    requires
        0 <= n <= timestamps.len(),
        forall|i: int, j: int|
            0 <= i < j < timestamps.len() ==> (#[trigger] timestamps[i]) < (
            #[trigger] timestamps[j]),
    ensures
        ascending(assembled(timestamps, quote, stamp, n)),
    decreases n,
{
    if n > 0 {
        lemma_assembled_ascending(timestamps, quote, stamp, n - 1);
        lemma_assembled_from(timestamps, quote, stamp, n - 1);
        let before = assembled(timestamps, quote, stamp, n - 1);
        let all = assembled(timestamps, quote, stamp, n);
        assert forall|i: int, j: int| 0 <= i < j < all.len() implies (#[trigger] all[i]).timestamp
            < (#[trigger] all[j]).timestamp by {
            assert(all[i] == before[i]);
            if j < before.len() {
                assert(all[j] == before[j]);
            } else {
                let k = choose|k: int| 0 <= k < n - 1 && timestamps[k] == before[i].timestamp;
                assert(timestamps[k] < timestamps[n - 1]);
            }
        }
    }
}

/// Clipping keeps candles whose timestamps strictly increase in that order.
pub proof fn lemma_windowed_ascending(window: TimeSpec, candles: Seq<Candle>)
    requires
        ascending(candles),
    ensures
        ascending(windowed(window, candles)),
    decreases candles.len(),
{
    if candles.len() > 0 {
        let rest = candles.drop_last();
        assert forall|i: int, j: int| 0 <= i < j < rest.len() implies (#[trigger] rest[i]).timestamp
            < (#[trigger] rest[j]).timestamp by {
            assert(rest[i] == candles[i] && rest[j] == candles[j]);
        }
        lemma_windowed_ascending(window, rest);
        lemma_windowed(window, rest);
        let r = windowed(window, rest);
        let w = windowed(window, candles);
        assert forall|i: int, j: int| 0 <= i < j < w.len() implies (#[trigger] w[i]).timestamp < (
        #[trigger] w[j]).timestamp by {
            assert(w[i] == r[i]);
            if j < r.len() {
                assert(w[j] == r[j]);
            } else {
                let k = choose|k: int| 0 <= k < rest.len() && rest[k] == r[i];
                assert(candles[k] == r[i]);
                assert(candles[k].timestamp < candles[candles.len() - 1].timestamp);
            }
        }
    }
}

} // verus!
