//! Trailing returns of an instrument, as they are stored and ranked.

use crate::candle::LocalTime;
use crate::model::TickerType;
use crate::num::Double;
use crate::text::same_text;
use vstd::prelude::*;

verus! {

/// One labelled percentage.
#[derive(Clone, Debug)]
pub struct Reading {
    pub label: String,
    pub value: Double,
}

/// The trailing returns of an instrument in percent: the four well-known
/// horizons by name, and everything that was measured by label.
#[derive(Clone, Debug)]
pub struct Performance {
    pub ticker: String,
    pub ticker_type: TickerType,
    pub perf_1m: Double,
    pub perf_3m: Double,
    pub perf_6m: Double,
    pub perf_1y: Double,
    pub extra_info: Vec<Reading>,
    pub last_updated: LocalTime,
}

/// The value that the readings give a label: that of the last reading with
/// the label, or zero where there is none.
pub open spec fn value_of(readings: Seq<Reading>, label: Seq<char>) -> Double
    decreases readings.len(),
{
    if readings.len() == 0 {
        Double { bits: 0 }
    } else if readings.last().label@ == label {
        readings.last().value
    } else {
        value_of(readings.drop_last(), label)
    }
}

/// Looks a label up in the readings.
pub fn lookup(readings: &Vec<Reading>, label: &str) -> (value: Double)
    ensures
        value == value_of(readings@, label@),
{
    let mut i: usize = readings.len();
    assert(readings@.take(i as int) =~= readings@);
    while i > 0
        invariant
            i <= readings.len(),
            value_of(readings@, label@) == value_of(readings@.take(i as int), label@),
        decreases i,
    {
        assert(readings@.take(i as int).drop_last() =~= readings@.take(i - 1));
        assert(readings@.take(i as int).last() == readings@[i - 1]);
        if same_text(readings[i - 1].label.as_str(), label) {
            return readings[i - 1].value;
        }
        i -= 1;
    }
    assert(readings@.take(0) =~= Seq::<Reading>::empty());
    Double { bits: 0 }
}

impl Performance {
    /// Whether `self` is the row made of the readings at `now`.
    pub open spec fn made_of(
        self,
        ticker: Seq<char>,
        ticker_type: TickerType,
        readings: Seq<Reading>,
        now: LocalTime,
    ) -> bool {
        &&& self.ticker@ == ticker
        &&& self.ticker_type == ticker_type
        &&& self.perf_1m == value_of(readings, "1M"@)
        &&& self.perf_3m == value_of(readings, "3M"@)
        &&& self.perf_6m == value_of(readings, "6M"@)
        &&& self.perf_1y == value_of(readings, "1Y"@)
        &&& self.extra_info@ == readings
        &&& self.last_updated == now
    }

    /// Makes a row from labelled readings taken at `now`. The horizons `1M`,
    /// `3M`, `6M` and `1Y` are read from the readings, zero standing for a
    /// missing one; all readings are kept.
    pub fn new(ticker: String, ticker_type: TickerType, readings: Vec<Reading>, now: LocalTime) -> (p:
        Performance)
        ensures
            p.made_of(ticker@, ticker_type, readings@, now),
    {
        let perf_1m = lookup(&readings, "1M");
        let perf_3m = lookup(&readings, "3M");
        let perf_6m = lookup(&readings, "6M");
        let perf_1y = lookup(&readings, "1Y");
        Performance {
            ticker,
            ticker_type,
            perf_1m,
            perf_3m,
            perf_6m,
            perf_1y,
            extra_info: readings,
            last_updated: now,
        }
    }
}

} // verus!
