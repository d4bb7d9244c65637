//! Which candles a trailing return is measured from.
//!
//! The return over a horizon compares the latest close with the close of the
//! candle nearest to the instant that lies the horizon's months before the
//! latest candle. This module finds those candles; the percentage itself is
//! arithmetic on the two closes.

use crate::calendar::{months_before, sub_months, valid_timestamp};
use crate::candle::{all_wf, Candle};
use vstd::prelude::*;

verus! {

/// A horizon over which a trailing return is measured.
#[derive(Clone, Copy, Debug, PartialEq, Eq, Structural)]
pub enum Horizon {
    OneMonth,
    ThreeMonths,
    SixMonths,
    OneYear,
}

impl Horizon {
    /// Length of the horizon in calendar months.
    pub open spec fn length(self) -> u32 {
        match self {
            Horizon::OneMonth => 1,
            Horizon::ThreeMonths => 3,
            Horizon::SixMonths => 6,
            Horizon::OneYear => 12,
        }
    }

    /// The label under which the horizon's return is reported.
    pub open spec fn name(self) -> Seq<char> {
        match self {
            Horizon::OneMonth => "1M"@,
            Horizon::ThreeMonths => "3M"@,
            Horizon::SixMonths => "6M"@,
            Horizon::OneYear => "1Y"@,
        }
    }

    /// The horizons in the order in which they are reported.
    pub open spec fn all() -> Seq<Horizon> {
        seq![Horizon::OneMonth, Horizon::ThreeMonths, Horizon::SixMonths, Horizon::OneYear]
    }

    pub fn months(self) -> (m: u32)
        ensures
            m == self.length(),
    {
        match self {
            Horizon::OneMonth => 1,
            Horizon::ThreeMonths => 3,
            Horizon::SixMonths => 6,
            Horizon::OneYear => 12,
        }
    }

    pub fn label(self) -> (s: &'static str)
        ensures
            s@ == self.name(),
    {
        match self {
            Horizon::OneMonth => "1M",
            Horizon::ThreeMonths => "3M",
            Horizon::SixMonths => "6M",
            Horizon::OneYear => "1Y",
        }
    }
}

/// The candle from which the return over a horizon is measured.
#[derive(Clone, Copy, Debug, PartialEq, Eq, Structural)]
pub struct Anchor {
    pub horizon: Horizon,
    pub index: usize,
}

/// Seconds between two instants.
pub open spec fn distance(ts: i64, target: i64) -> int {
    if ts >= target {
        ts - target
    } else {
        target - ts
    }
}

/// Whether candle `idx` is nearest to `target`: no candle is nearer, and
/// every earlier candle is farther.
pub open spec fn is_nearest(candles: Seq<Candle>, target: i64, idx: int) -> bool {
    &&& 0 <= idx < candles.len()
    &&& forall|k: int|
        0 <= k < candles.len() ==> distance(candles[idx].timestamp, target) <= distance(
            (#[trigger] candles[k]).timestamp,
            target,
        )
    &&& forall|k: int|
        0 <= k < idx ==> distance(candles[idx].timestamp, target) < distance(
            (#[trigger] candles[k]).timestamp,
            target,
        )
}

/// Whether the instant a horizon before the latest candle lies in the
/// calendar for every horizon.
pub open spec fn targets_in_calendar(latest: i64) -> bool {
    forall|i: int|
        0 <= i < Horizon::all().len() ==> months_before(
            latest,
            (#[trigger] Horizon::all()[i]).length(),
        ) is Some
}

/// Whether `anchors` are the anchors of the series: one per horizon, in
/// order, each the candle nearest to the horizon's target.
pub open spec fn anchors_of(candles: Seq<Candle>, anchors: Seq<Anchor>) -> bool {
    &&& anchors.len() == Horizon::all().len()
    &&& forall|i: int|
        0 <= i < anchors.len() ==> {
            let h = Horizon::all()[i];
            &&& (#[trigger] anchors[i]).horizon == h
            &&& months_before(candles.last().timestamp, h.length()) matches Some(target)
            &&& is_nearest(candles, target, anchors[i].index as int)
        }
}

/// At most one candle is nearest to a target.
pub proof fn lemma_nearest_unique(candles: Seq<Candle>, target: i64, a: int, b: int)
    requires
        is_nearest(candles, target, a),
        is_nearest(candles, target, b),
    ensures
        a == b,
{
    if a < b {
        assert(distance(candles[b].timestamp, target) < distance(candles[a].timestamp, target));
    } else if b < a {
        assert(distance(candles[a].timestamp, target) < distance(candles[b].timestamp, target));
    }
}

/// In a series of one candle that candle is nearest to every target, so that
/// every trailing return compares the close with itself.
pub proof fn lemma_single_candle(candles: Seq<Candle>, target: i64)
    requires
        candles.len() == 1,
    ensures
        is_nearest(candles, target, 0),
{
}

fn gap(ts: i64, target: i64) -> (d: i128)
    ensures
        d == distance(ts, target),
{
    if ts >= target {
        ts as i128 - target as i128
    } else {
        target as i128 - ts as i128
    }
}

/// Index of the candle whose timestamp is nearest to `target`, the first of
/// them where several are equally near.
pub fn nearest_index(candles: &Vec<Candle>, target: i64) -> (idx: usize)
    requires
        candles.len() > 0,
    ensures
        is_nearest(candles@, target, idx as int),
{
    let mut best: usize = 0;
    let mut best_gap: i128 = gap(candles[0].timestamp, target);
    let mut i: usize = 1;
    while i < candles.len()
        invariant
            1 <= i <= candles.len(),
            best < i,
            best_gap == distance(candles@[best as int].timestamp, target),
            forall|k: int|
                0 <= k < i ==> best_gap <= distance((#[trigger] candles@[k]).timestamp, target),
            forall|k: int|
                0 <= k < best ==> best_gap < distance((#[trigger] candles@[k]).timestamp, target),
        decreases candles.len() - i,
    {
        let g = gap(candles[i].timestamp, target);
        if g < best_gap {
            best = i;
            best_gap = g;
        }
        i += 1;
    }
    best
}

/// The anchors of the trailing returns over one, three, six and twelve
/// months. An empty series has none. `None` is returned only where a target
/// instant would lie before the calendar's first instant.
pub fn trailing_anchors(candles: &Vec<Candle>) -> (r: Option<Vec<Anchor>>)
    requires
        all_wf(candles@),
    ensures
        candles.len() == 0 ==> (r matches Some(v) && v.len() == 0),
        candles.len() > 0 ==> (r is Some <==> targets_in_calendar(candles@.last().timestamp)),
        candles.len() > 0 ==> (r matches Some(v) ==> anchors_of(candles@, v@)),
{
    let mut anchors: Vec<Anchor> = Vec::new();
    if candles.len() == 0 {
        return Some(anchors);
    }
    let latest = candles[candles.len() - 1].timestamp;
    assert(candles@.last().wf());
    let horizons = [Horizon::OneMonth, Horizon::ThreeMonths, Horizon::SixMonths, Horizon::OneYear];
    assert(horizons@ =~= Horizon::all());
    let mut i: usize = 0;
    while i < 4
        invariant
            i <= 4,
            candles.len() > 0,
            latest == candles@.last().timestamp,
            valid_timestamp(latest),
            horizons@ == Horizon::all(),
            anchors.len() == i,
            forall|k: int|
                0 <= k < i ==> {
                    let h = Horizon::all()[k];
                    &&& (#[trigger] anchors@[k]).horizon == h
                    &&& months_before(latest, h.length()) matches Some(target)
                    &&& is_nearest(candles@, target, anchors@[k].index as int)
                },
        decreases 4 - i,
    {
        let h = horizons[i];
        match sub_months(latest, h.months()) {
            Some(target) => {
                let index = nearest_index(candles, target);
                anchors.push(Anchor { horizon: h, index });
            },
            None => {
                assert(months_before(latest, Horizon::all()[i as int].length()) is None);
                return None;
            },
        }
        i += 1;
    }
    assert forall|k: int| 0 <= k < Horizon::all().len() implies months_before(
        latest,
        (#[trigger] Horizon::all()[k]).length(),
    ) is Some by {
        assert(anchors@[k].horizon == Horizon::all()[k]);
    }
    Some(anchors)
}

} // verus!
