//! Keeping a stored candle history current with as little fetching as
//! possible.
//!
//! The library decides; the caller reads, fetches and stores. A refresh is a
//! short dialogue: [`begin`] names the first action, the caller performs it
//! and reports what came of it to [`advance`], which names the next, until
//! the action is to return the candles.

use crate::calendar::valid_timestamp;
use crate::candle::{all_wf, Candle, LocalTime, Range, TimeSpec};
use crate::freshness::{fresh, is_upto_date, MarketHours};
use vstd::prelude::*;

verus! {

/// Seconds in a day.
pub const DAY_SECONDS: i64 = 86_400;

/// Seconds of the lookback that is fetched where no stored candle is left to
/// start from: two years of 365 days.
pub const DEFAULT_LOOKBACK_SECONDS: i64 = 63_072_000;

/// The moment of a decision: the instant, the local wall-clock reading, and
/// the market's hours.
#[derive(Clone, Copy, Debug, PartialEq, Eq, Structural)]
pub struct Clock {
    pub now: i64,
    pub local: LocalTime,
    pub hours: MarketHours,
}

/// What to do about a stored history.
#[derive(Clone, Copy, Debug, PartialEq, Eq, Structural)]
pub enum Refresh {
    /// Nothing is stored: fetch the whole window.
    FetchAll(TimeSpec),
    /// The latest stored candle is current: use the stored history as it is.
    Reuse,
    /// The latest stored candle may be provisional: keep the first `keep`
    /// candles and fetch the window again.
    FetchSince { keep: usize, window: TimeSpec },
}

/// The decision for a stored history at a moment.
pub open spec fn refresh_for(cached: Seq<Candle>, clock: Clock) -> Refresh {
    if cached.len() == 0 {
        Refresh::FetchAll(TimeSpec::Range(Range::TwoYears))
    } else if fresh(cached.last().last_updated, clock.local, clock.hours) {
        Refresh::Reuse
    } else {
        let keep = (cached.len() - 1) as usize;
        let start = if keep == 0 {
            clock.now - DEFAULT_LOOKBACK_SECONDS
        } else {
            cached[keep - 1].timestamp - DAY_SECONDS
        };
        Refresh::FetchSince { keep, window: TimeSpec::Interval(start as i64, clock.now) }
    }
}

/// Decides what to do about a stored history. An empty history is fetched
/// whole. A history whose latest candle is current is used as it is. From
/// any other the latest candle is dropped as provisional, and the window
/// from one day before the latest remaining candle up to now is fetched
/// again; where no candle remains the window reaches back two years.
pub fn plan_refresh(cached: &Vec<Candle>, clock: Clock) -> (plan: Refresh)
    requires
        all_wf(cached@),
        valid_timestamp(clock.now),
    ensures
        plan == refresh_for(cached@, clock),
{
    let n = cached.len();
    if n == 0 {
        return Refresh::FetchAll(TimeSpec::Range(Range::TwoYears));
    }
    if is_upto_date(cached[n - 1].last_updated, clock.local, clock.hours) {
        return Refresh::Reuse;
    }
    let keep = n - 1;
    let start: i64 = if keep == 0 {
        clock.now - DEFAULT_LOOKBACK_SECONDS
    } else {
        assert(cached@[keep - 1].wf());
        cached[keep - 1].timestamp - DAY_SECONDS
    };
    Refresh::FetchSince { keep, window: TimeSpec::Interval(start, clock.now) }
}

/// A current history is never fetched again, and a stale one never used as
/// it is.
pub proof fn lemma_refresh_iff_stale(cached: Seq<Candle>, clock: Clock)
    requires
        0 < cached.len() <= usize::MAX,
    ensures
        refresh_for(cached, clock) is Reuse <==> fresh(
            cached.last().last_updated,
            clock.local,
            clock.hours,
        ),
        refresh_for(cached, clock) matches Refresh::FetchSince { keep, .. } ==> keep + 1
            == cached.len(),
{
}

/// Where a refresh stands.
#[derive(Debug)]
pub enum Phase {
    /// The stored history has been asked for.
    Reading,
    /// The whole window has been asked for.
    FetchingAll,
    /// The latest window has been asked for; `kept` is what stays of the
    /// stored history.
    FetchingDelta { kept: Vec<Candle> },
    /// The fetched window is being stored.
    SavingAll { fetched: Vec<Candle> },
    /// The merged history is being stored.
    SavingDelta,
    /// The merged history has been asked for.
    Rereading,
    /// The refresh has ended.
    Finished,
}

/// What the caller reports.
#[derive(Debug)]
pub enum Event {
    /// Candles came back from the store or from the provider.
    Candles(Vec<Candle>),
    /// The candles were stored.
    Saved,
}

/// What the caller is to do next.
#[derive(Debug)]
pub enum Action {
    /// Read the stored history and report it.
    Read,
    /// Fetch the window from the provider and report the candles.
    Fetch(TimeSpec),
    /// Store the candles, overwriting stored candles of the same timestamp,
    /// and report that it is done.
    Save(Vec<Candle>),
    /// Hand the candles to whoever asked for them.
    Return(Vec<Candle>),
    /// The report did not answer the action that was asked for.
    Unexpected,
}

/// Whether the candles that a report carries are well formed.
pub open spec fn event_wf(event: Event) -> bool {
    event matches Event::Candles(c) ==> all_wf(c@)
}

/// Whether the candles that a phase holds are well formed.
pub open spec fn phase_wf(phase: Phase) -> bool {
    match phase {
        Phase::FetchingDelta { kept } => all_wf(kept@),
        Phase::SavingAll { fetched } => all_wf(fetched@),
        _ => true,
    }
}

/// The mathematical content of a phase.
pub enum PhaseView {
    Reading,
    FetchingAll,
    FetchingDelta { kept: Seq<Candle> },
    SavingAll { fetched: Seq<Candle> },
    SavingDelta,
    Rereading,
    Finished,
}

/// The mathematical content of an action.
pub enum ActionView {
    Read,
    Fetch(TimeSpec),
    Save(Seq<Candle>),
    Return(Seq<Candle>),
    Unexpected,
}

impl View for Phase {
    type V = PhaseView;

    open spec fn view(&self) -> PhaseView {
        match *self {
            Phase::Reading => PhaseView::Reading,
            Phase::FetchingAll => PhaseView::FetchingAll,
            Phase::FetchingDelta { kept } => PhaseView::FetchingDelta { kept: kept@ },
            Phase::SavingAll { fetched } => PhaseView::SavingAll { fetched: fetched@ },
            Phase::SavingDelta => PhaseView::SavingDelta,
            Phase::Rereading => PhaseView::Rereading,
            Phase::Finished => PhaseView::Finished,
        }
    }
}

impl View for Action {
    type V = ActionView;

    open spec fn view(&self) -> ActionView {
        match *self {
            Action::Read => ActionView::Read,
            Action::Fetch(window) => ActionView::Fetch(window),
            Action::Save(candles) => ActionView::Save(candles@),
            Action::Return(candles) => ActionView::Return(candles@),
            Action::Unexpected => ActionView::Unexpected,
        }
    }
}

/// The phase and the action that follow a report.
pub open spec fn next(phase: Phase, event: Event, clock: Clock) -> (PhaseView, ActionView) {
    match (phase, event) {
        (Phase::Reading, Event::Candles(cached)) => match refresh_for(cached@, clock) {
            Refresh::FetchAll(window) => (PhaseView::FetchingAll, ActionView::Fetch(window)),
            Refresh::Reuse => (PhaseView::Finished, ActionView::Return(cached@)),
            Refresh::FetchSince { keep, window } => (
                PhaseView::FetchingDelta { kept: cached@.take(keep as int) },
                ActionView::Fetch(window),
            ),
        },
        (Phase::FetchingAll, Event::Candles(fetched)) => (
            PhaseView::SavingAll { fetched: fetched@ },
            ActionView::Save(fetched@),
        ),
        (Phase::SavingAll { fetched }, Event::Saved) => (
            PhaseView::Finished,
            ActionView::Return(fetched@),
        ),
        (Phase::FetchingDelta { kept }, Event::Candles(fetched)) => (
            PhaseView::SavingDelta,
            ActionView::Save(kept@ + fetched@),
        ),
        (Phase::SavingDelta, Event::Saved) => (PhaseView::Rereading, ActionView::Read),
        (Phase::Rereading, Event::Candles(stored)) => (
            PhaseView::Finished,
            ActionView::Return(stored@),
        ),
        (phase, _) => (phase@, ActionView::Unexpected),
    }
}

/// Starts a refresh: the stored history is to be read.
pub fn begin() -> (r: (Phase, Action))
    ensures
        r.0@ == PhaseView::Reading,
        r.1@ == ActionView::Read,
{
    (Phase::Reading, Action::Read)
}

fn extend(dst: &mut Vec<Candle>, src: &Vec<Candle>, count: usize)
    requires
        count <= src.len(),
    ensures
        final(dst)@ == old(dst)@ + src@.take(count as int),
{
    let mut i: usize = 0;
    while i < count
        invariant
            i <= count <= src.len(),
            dst@ == old(dst)@ + src@.take(i as int),
        decreases count - i,
    {
        dst.push(src[i]);
        assert(src@.take(i + 1) =~= src@.take(i as int).push(src@[i as int]));
        i += 1;
    }
}

/// Takes the refresh one step further: from the phase it stands in and the
/// caller's report to the next phase and the next action.
pub fn advance(phase: Phase, event: Event, clock: Clock) -> (r: (Phase, Action))
    requires
        phase_wf(phase),
        event_wf(event),
        valid_timestamp(clock.now),
    ensures
        (r.0@, r.1@) == next(phase, event, clock),
        phase_wf(r.0),
{
    match phase {
        Phase::Reading => match event {
            Event::Candles(cached) => match plan_refresh(&cached, clock) {
                Refresh::FetchAll(window) => (Phase::FetchingAll, Action::Fetch(window)),
                Refresh::Reuse => (Phase::Finished, Action::Return(cached)),
                Refresh::FetchSince { keep, window } => {
                    let mut kept: Vec<Candle> = Vec::new();
                    extend(&mut kept, &cached, keep);
                    assert(kept@ =~= cached@.take(keep as int));
                    (Phase::FetchingDelta { kept }, Action::Fetch(window))
                },
            },
            Event::Saved => (Phase::Reading, Action::Unexpected),
        },
        Phase::FetchingAll => match event {
            Event::Candles(fetched) => {
                let mut batch: Vec<Candle> = Vec::new();
                extend(&mut batch, &fetched, fetched.len());
                assert(batch@ =~= fetched@);
                (Phase::SavingAll { fetched }, Action::Save(batch))
            },
            Event::Saved => (Phase::FetchingAll, Action::Unexpected),
        },
        Phase::SavingAll { fetched } => match event {
            Event::Saved => (Phase::Finished, Action::Return(fetched)),
            Event::Candles(_) => (Phase::SavingAll { fetched }, Action::Unexpected),
        },
        Phase::FetchingDelta { kept } => match event {
            Event::Candles(fetched) => {
                let mut batch = kept;
                extend(&mut batch, &fetched, fetched.len());
                assert(fetched@.take(fetched.len() as int) =~= fetched@);
                (Phase::SavingDelta, Action::Save(batch))
            },
            Event::Saved => (Phase::FetchingDelta { kept }, Action::Unexpected),
        },
        Phase::SavingDelta => match event {
            Event::Saved => (Phase::Rereading, Action::Read),
            Event::Candles(_) => (Phase::SavingDelta, Action::Unexpected),
        },
        Phase::Rereading => match event {
            Event::Candles(stored) => (Phase::Finished, Action::Return(stored)),
            Event::Saved => (Phase::Rereading, Action::Unexpected),
        },
        Phase::Finished => (Phase::Finished, Action::Unexpected),
    }
}

} // verus!
