//! Resampling of candles into one close per period.

use crate::calendar::{day_of, iso_week, iso_week_of, utc_day, valid_day};
use crate::candle::{all_wf, Candle};
use crate::num::Double;
use vstd::prelude::*;

verus! {

/// The close of one period, dated by a day of that period.
#[derive(Clone, Copy, Debug, PartialEq, Eq, Structural)]
pub struct PeriodClose {
    pub date: i32,
    pub close: Double,
}

/// The period close that a single candle stands for: its UTC date and its
/// close.
pub open spec fn period_of(c: Candle) -> PeriodClose {
    PeriodClose { date: day_of(c.timestamp as int) as i32, close: c.close }
}

/// One period close per candle, in the order of the candles.
pub open spec fn daily(candles: Seq<Candle>) -> Seq<PeriodClose> {
    candles.map_values(|c: Candle| period_of(c))
}

/// Whether ISO week `a` comes before ISO week `b`.
pub open spec fn week_before(a: (i32, u32), b: (i32, u32)) -> bool {
    a.0 < b.0 || (a.0 == b.0 && a.1 < b.1)
}

/// The ISO week that a period close falls in.
pub open spec fn week_of(p: PeriodClose) -> (i32, u32) {
    iso_week_of(p.date)
}

/// Where a close of week `week` belongs in `s`: just behind the last entry
/// of an earlier week.
pub open spec fn slot(s: Seq<PeriodClose>, week: (i32, u32)) -> int
    decreases s.len(),
{
    if s.len() == 0 {
        0
    } else if week_before(week_of(s.last()), week) {
        s.len() as int
    } else {
        slot(s.drop_last(), week)
    }
}

/// `s` with `p` put in its week's place: over the entry of the same week if
/// there is one there, else as a new entry.
pub open spec fn put(s: Seq<PeriodClose>, p: PeriodClose) -> Seq<PeriodClose> {
    let at = slot(s, week_of(p));
    if at < s.len() && week_of(s[at]) == week_of(p) {
        s.update(at, p)
    } else {
        s.insert(at, p)
    }
}

/// The weekly closes of a series: the candles are taken in order, and each
/// replaces what its ISO week held before.
pub open spec fn weekly(candles: Seq<Candle>) -> Seq<PeriodClose>
    decreases candles.len(),
{
    if candles.len() == 0 {
        Seq::empty()
    } else {
        put(weekly(candles.drop_last()), period_of(candles.last()))
    }
}

/// Whether the weeks of `s` strictly increase.
pub open spec fn weeks_increase(s: Seq<PeriodClose>) -> bool {
    forall|i: int, j: int|
        0 <= i < j < s.len() ==> week_before(week_of(#[trigger] s[i]), week_of(#[trigger] s[j]))
}

/// Whether every date of `s` is a day of the calendar.
pub open spec fn dates_valid(s: Seq<PeriodClose>) -> bool {
    forall|i: int| 0 <= i < s.len() ==> valid_day((#[trigger] s[i]).date)
}

/// Whether candle `j` is the last candle of its ISO week in the series.
pub open spec fn last_of_week(candles: Seq<Candle>, j: int) -> bool {
    &&& 0 <= j < candles.len()
    &&& forall|k: int|
        j < k < candles.len() ==> week_of(period_of(#[trigger] candles[k])) != week_of(
            period_of(candles[j]),
        )
}

proof fn lemma_slot(s: Seq<PeriodClose>, week: (i32, u32))
    ensures
        0 <= slot(s, week) <= s.len(),
        slot(s, week) > 0 ==> week_before(week_of(s[slot(s, week) - 1]), week),
        forall|k: int| slot(s, week) <= k < s.len() ==> !week_before(week_of(#[trigger] s[k]), week),
    decreases s.len(),
{
    if s.len() > 0 && !week_before(week_of(s.last()), week) {
        lemma_slot(s.drop_last(), week);
        assert forall|k: int| slot(s, week) <= k < s.len() implies !week_before(
            week_of(#[trigger] s[k]),
            week,
        ) by {
            if k < s.len() - 1 {
                assert(s.drop_last()[k] == s[k]);
            }
        }
    }
}

proof fn lemma_put_increases(s: Seq<PeriodClose>, p: PeriodClose)
    requires
        weeks_increase(s),
    ensures
        weeks_increase(put(s, p)),
        forall|k: int|
            0 <= k < put(s, p).len() ==> #[trigger] put(s, p)[k] == p || (s.contains(put(s, p)[k])
                && week_of(put(s, p)[k]) != week_of(p)),
        forall|m: int|
            0 <= m < s.len() && week_of(#[trigger] s[m]) != week_of(p) ==> put(s, p).contains(
                s[m],
            ),
        put(s, p).contains(p),
{
    let week = week_of(p);
    let at = slot(s, week);
    let r = put(s, p);
    lemma_slot(s, week);
    assert forall|k: int| 0 <= k < at implies week_before(week_of(#[trigger] s[k]), week) by {
        if k < at - 1 {
            assert(week_before(week_of(s[k]), week_of(s[at - 1])));
        }
    }
    assert forall|k: int| at < k < s.len() implies week_before(week, week_of(#[trigger] s[k])) by {
        assert(week_before(week_of(s[at]), week_of(s[k])));
        assert(!week_before(week_of(s[at]), week));
    }
    if at < s.len() && week_of(s[at]) == week {
        assert(r[at] == p);
        assert forall|m: int| 0 <= m < s.len() && week_of(#[trigger] s[m]) != week implies r.contains(
            s[m],
        ) by {
            assert(r[m] == s[m]);
        }
        assert forall|k: int| 0 <= k < r.len() implies #[trigger] r[k] == p || (s.contains(r[k])
            && week_of(r[k]) != week) by {
            if k != at {
                assert(r[k] == s[k]);
            }
        }
    } else {
        assert(r[at] == p);
        assert forall|m: int| 0 <= m < s.len() && week_of(#[trigger] s[m]) != week implies r.contains(
            s[m],
        ) by {
            if m < at {
                assert(r[m] == s[m]);
            } else {
                assert(r[m + 1] == s[m]);
            }
        }
        assert forall|k: int| 0 <= k < r.len() implies #[trigger] r[k] == p || (s.contains(r[k])
            && week_of(r[k]) != week) by {
            if k < at {
                assert(r[k] == s[k]);
            } else if k > at {
                assert(r[k] == s[k - 1]);
            }
        }
        assert forall|i: int, j: int| 0 <= i < j < r.len() implies week_before(
            week_of(#[trigger] r[i]),
            week_of(#[trigger] r[j]),
        ) by {
            let a = if i < at { i } else { i - 1 };
            let b = if j < at { j } else { j - 1 };
            if i != at && j != at {
                assert(week_before(week_of(s[a]), week_of(s[b])));
            }
        }
    }
}

/// The weekly closes hold at most one entry per ISO week, in ascending order
/// of the weeks.
pub proof fn lemma_weekly_increases(candles: Seq<Candle>)
    ensures
        weeks_increase(weekly(candles)),
    decreases candles.len(),
{
    if candles.len() > 0 {
        lemma_weekly_increases(candles.drop_last());
        lemma_put_increases(weekly(candles.drop_last()), period_of(candles.last()));
    }
}

/// The last candle of each ISO week is among the weekly closes.
pub proof fn lemma_weekly_keeps_last(candles: Seq<Candle>, j: int)
    requires
        last_of_week(candles, j),
    ensures
        weekly(candles).contains(period_of(candles[j])),
    decreases candles.len(),
{
    let rest = candles.drop_last();
    lemma_weekly_increases(rest);
    lemma_put_increases(weekly(rest), period_of(candles.last()));
    if j < candles.len() - 1 {
        assert(rest[j] == candles[j]);
        assert forall|k: int| j < k < rest.len() implies week_of(period_of(#[trigger] rest[k]))
            != week_of(period_of(rest[j])) by {
            assert(rest[k] == candles[k]);
        }
        lemma_weekly_keeps_last(rest, j);
        let m = choose|m: int| 0 <= m < weekly(rest).len() && weekly(rest)[m] == period_of(candles[j]);
        assert(week_of(period_of(candles[candles.len() - 1])) != week_of(period_of(candles[j])));
        assert(week_of(weekly(rest)[m]) != week_of(period_of(candles.last())));
    }
}

/// Every weekly close is the close of the last candle of some ISO week.
pub proof fn lemma_weekly_only_last(candles: Seq<Candle>, i: int)
    requires
        0 <= i < weekly(candles).len(),
    ensures
        exists|j: int| last_of_week(candles, j) && weekly(candles)[i] == period_of(#[trigger] candles[j]),
    decreases candles.len(),
{
    if candles.len() > 0 {
        let rest = candles.drop_last();
        let p = period_of(candles.last());
        lemma_weekly_increases(rest);
        lemma_put_increases(weekly(rest), p);
        let e = weekly(candles)[i];
        if e == p {
            assert(last_of_week(candles, candles.len() - 1));
        } else {
            assert(weekly(rest).contains(e));
            let m = choose|m: int| 0 <= m < weekly(rest).len() && weekly(rest)[m] == e;
            lemma_weekly_only_last(rest, m);
            let j = choose|j: int| last_of_week(rest, j) && weekly(rest)[m] == period_of(#[trigger] rest[j]);
            assert(rest[j] == candles[j]);
            assert forall|k: int| j < k < candles.len() implies week_of(
                period_of(#[trigger] candles[k]),
            ) != week_of(period_of(candles[j])) by {
                if k < candles.len() - 1 {
                    assert(rest[k] == candles[k]);
                }
            }
            assert(last_of_week(candles, j));
        }
    }
}

/// Candles that all fall in one ISO week resample to a single weekly close,
/// that of the last candle.
pub proof fn lemma_weekly_one_week(candles: Seq<Candle>)
    requires
        candles.len() > 0,
        forall|i: int|
            0 <= i < candles.len() ==> week_of(period_of(#[trigger] candles[i])) == week_of(
                period_of(candles[0]),
            ),
    ensures
        weekly(candles) == seq![period_of(candles.last())],
    decreases candles.len(),
{
    let rest = candles.drop_last();
    let p = period_of(candles.last());
    if rest.len() == 0 {
        assert(weekly(rest) =~= Seq::<PeriodClose>::empty());
        assert(put(weekly(rest), p) =~= seq![p]);
    } else {
        assert forall|i: int| 0 <= i < rest.len() implies week_of(period_of(#[trigger] rest[i]))
            == week_of(period_of(rest[0])) by {
            assert(rest[i] == candles[i]);
            assert(rest[0] == candles[0]);
        }
        lemma_weekly_one_week(rest);
        let s = weekly(rest);
        assert(s.len() == 1);
        assert(s[0] == period_of(rest.last()));
        assert(rest.last() == candles[candles.len() - 2]);
        assert(week_of(s[0]) == week_of(p));
        assert(s.drop_last() =~= Seq::<PeriodClose>::empty());
        assert(slot(s.drop_last(), week_of(p)) == 0);
        assert(slot(s, week_of(p)) == 0);
        assert(put(s, p) =~= seq![p]);
    }
}

/// Turns every candle into the close of its own UTC date.
pub fn to_daily(candles: &Vec<Candle>) -> (out: Vec<PeriodClose>)
    requires
        all_wf(candles@),
    ensures
        out@ == daily(candles@),
        dates_valid(out@),
{
    let mut out: Vec<PeriodClose> = Vec::new();
    let mut i: usize = 0;
    while i < candles.len()
        invariant
            i <= candles.len(),
            all_wf(candles@),
            out.len() == i,
            forall|k: int| 0 <= k < i ==> out@[k] == period_of(candles@[k]),
            dates_valid(out@),
        decreases candles.len() - i,
    {
        let c = &candles[i];
        assert(candles@[i as int].wf());
        let date = utc_day(c.timestamp);
        out.push(PeriodClose { date, close: c.close });
        i += 1;
    }
    assert(out@ =~= daily(candles@));
    out
}

fn is_week_before(a: (i32, u32), b: (i32, u32)) -> (r: bool)
    ensures
        r == week_before(a, b),
{
    a.0 < b.0 || (a.0 == b.0 && a.1 < b.1)
}

/// Keeps, for every ISO week that has a candle, the close of the candle that
/// comes last in the series, and returns the weeks in ascending order.
pub fn to_weekly(candles: &Vec<Candle>) -> (out: Vec<PeriodClose>)
    requires
        all_wf(candles@),
    ensures
        out@ == weekly(candles@),
        dates_valid(out@),
{
    let mut out: Vec<PeriodClose> = Vec::new();
    let mut weeks: Vec<(i32, u32)> = Vec::new();
    let mut i: usize = 0;
    assert(candles@.take(0) =~= Seq::<Candle>::empty());
    while i < candles.len()
        invariant
            i <= candles.len(),
            all_wf(candles@),
            out@ == weekly(candles@.take(i as int)),
            weeks.len() == out.len(),
            forall|k: int| 0 <= k < out.len() ==> weeks@[k] == week_of(#[trigger] out@[k]),
            dates_valid(out@),
        decreases candles.len() - i,
    {
        let c = &candles[i];
        assert(candles@[i as int].wf());
        let date = utc_day(c.timestamp);
        let week = iso_week(date);
        let p = PeriodClose { date, close: c.close };
        let mut at: usize = out.len();
        assert(out@.take(at as int) =~= out@);
        while at > 0 && !is_week_before(weeks[at - 1], week)
            invariant
                at <= out.len(),
                weeks.len() == out.len(),
                forall|k: int| 0 <= k < out.len() ==> weeks@[k] == week_of(#[trigger] out@[k]),
                slot(out@, week) == slot(out@.take(at as int), week),
            decreases at,
        {
            assert(out@.take(at as int).drop_last() =~= out@.take(at - 1));
            at -= 1;
        }
        proof {
            assert(out@.take(out.len() as int) =~= out@);
            assert(at == slot(out@, week)) by {
                if at > 0 {
                    assert(out@.take(at as int).last() == out@[at - 1]);
                }
            }
            let before = candles@.take(i as int);
            let after = candles@.take(i + 1);
            assert(after.drop_last() =~= before);
            assert(after.last() == candles@[i as int]);
            assert(p == period_of(candles@[i as int]));
        }
        if at < out.len() && weeks[at].0 == week.0 && weeks[at].1 == week.1 {
            out.set(at, p);
            weeks.set(at, week);
        } else {
            out.insert(at, p);
            weeks.insert(at, week);
        }
        i += 1;
    }
    assert(candles@.take(candles.len() as int) =~= candles@);
    out
}

} // verus!
