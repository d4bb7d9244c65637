//! Joining an instrument's period closes with a benchmark's, date by date.

use crate::num::Double;
use crate::resample::PeriodClose;
use std::collections::HashMap;
use vstd::prelude::*;

verus! {

/// One date on which both series have a usable close.
#[derive(Clone, Copy, Debug, PartialEq, Eq, Structural)]
pub struct Pair {
    pub instrument: Double,
    pub date: i32,
    pub benchmark: Double,
}

/// The joined series as three parallel sequences.
#[derive(Clone, Debug)]
pub struct Aligned {
    pub instrument: Vec<Double>,
    pub dates: Vec<i32>,
    pub benchmark: Vec<Double>,
}

impl Aligned {
    /// The three sequences have one length.
    pub open spec fn wf(self) -> bool {
        self.instrument.len() == self.dates.len() && self.benchmark.len() == self.dates.len()
    }

    /// The joined series as a sequence of pairs.
    pub open spec fn pairs(self) -> Seq<Pair> {
        Seq::new(
            self.dates.len() as nat,
            |i: int|
                Pair {
                    instrument: self.instrument[i],
                    date: self.dates[i],
                    benchmark: self.benchmark[i],
                },
        )
    }

    /// Number of joined dates.
    pub fn len(&self) -> (n: usize)
        ensures
            n == self.dates.len(),
    {
        self.dates.len()
    }
}

/// The benchmark's close on `date`: that of the last entry with this date, if
/// there is one.
pub open spec fn benchmark_on(bmk: Seq<PeriodClose>, date: i32) -> Option<Double>
    decreases bmk.len(),
{
    if bmk.len() == 0 {
        None
    } else if bmk.last().date == date {
        Some(bmk.last().close)
    } else {
        benchmark_on(bmk.drop_last(), date)
    }
}

/// Whether `p` has a partner in the benchmark and both closes are positive.
pub open spec fn joins(p: PeriodClose, bmk: Seq<PeriodClose>) -> bool {
    benchmark_on(bmk, p.date) matches Some(b) && p.close.positive() && b.positive()
}

/// The inner join of the two series on the date, in the order of the
/// instrument's series.
pub open spec fn joined(etf: Seq<PeriodClose>, bmk: Seq<PeriodClose>) -> Seq<Pair>
    decreases etf.len(),
{
    if etf.len() == 0 {
        Seq::empty()
    } else {
        let rest = joined(etf.drop_last(), bmk);
        let p = etf.last();
        if joins(p, bmk) {
            rest.push(
                Pair { instrument: p.close, date: p.date, benchmark: benchmark_on(bmk, p.date)->0 },
            )
        } else {
            rest
        }
    }
}

/// The dates of a series, in order.
pub open spec fn dates_of(s: Seq<PeriodClose>) -> Seq<i32> {
    s.map_values(|p: PeriodClose| p.date)
}

/// The dates that occur in both series.
pub open spec fn shared_dates(etf: Seq<PeriodClose>, bmk: Seq<PeriodClose>) -> Set<i32> {
    dates_of(etf).to_set().intersect(dates_of(bmk).to_set())
}

/// The map from each benchmark date to the benchmark's close on it.
pub open spec fn benchmark_map(bmk: Seq<PeriodClose>) -> Map<i32, Double>
    decreases bmk.len(),
{
    if bmk.len() == 0 {
        Map::empty()
    } else {
        benchmark_map(bmk.drop_last()).insert(bmk.last().date, bmk.last().close)
    }
}

proof fn lemma_benchmark_map(bmk: Seq<PeriodClose>, date: i32)
    ensures
        benchmark_map(bmk).contains_key(date) <==> benchmark_on(bmk, date) is Some,
        benchmark_map(bmk).contains_key(date) ==> benchmark_map(bmk)[date] == benchmark_on(
            bmk,
            date,
        )->0,
    decreases bmk.len(),
{
    if bmk.len() > 0 {
        lemma_benchmark_map(bmk.drop_last(), date);
    }
}

proof fn lemma_benchmark_on_shared(bmk: Seq<PeriodClose>, date: i32)
    ensures
        benchmark_on(bmk, date) is Some ==> dates_of(bmk).contains(date),
    decreases bmk.len(),
{
    if bmk.len() > 0 {
        if bmk.last().date == date {
            assert(dates_of(bmk)[bmk.len() - 1] == date);
        } else {
            lemma_benchmark_on_shared(bmk.drop_last(), date);
            if benchmark_on(bmk, date) is Some {
                let k = choose|k: int|
                    0 <= k < dates_of(bmk.drop_last()).len() && dates_of(bmk.drop_last())[k]
                        == date;
                assert(dates_of(bmk)[k] == date);
            }
        }
    }
}

proof fn lemma_joined_dates(etf: Seq<PeriodClose>, bmk: Seq<PeriodClose>)
    ensures
        joined(etf, bmk).len() <= etf.len(),
        forall|i: int|
            0 <= i < joined(etf, bmk).len() ==> dates_of(etf).contains(
                (#[trigger] joined(etf, bmk)[i]).date,
            ) && dates_of(bmk).contains(joined(etf, bmk)[i].date),
        dates_of(etf).no_duplicates() ==> forall|i: int, j: int|
            0 <= i < j < joined(etf, bmk).len() ==> (#[trigger] joined(etf, bmk)[i]).date != (
            #[trigger] joined(etf, bmk)[j]).date,
    decreases etf.len(),
{
    if etf.len() > 0 {
        let rest = etf.drop_last();
        let p = etf.last();
        lemma_joined_dates(rest, bmk);
        lemma_benchmark_on_shared(bmk, p.date);
        let r = joined(rest, bmk);
        let full = joined(etf, bmk);
        assert(dates_of(etf)[etf.len() - 1] == p.date);
        assert forall|i: int| 0 <= i < full.len() implies dates_of(etf).contains(
            (#[trigger] full[i]).date,
        ) && dates_of(bmk).contains(full[i].date) by {
            if i < r.len() {
                assert(full[i] == r[i]);
                let k = choose|k: int| 0 <= k < dates_of(rest).len() && dates_of(rest)[k] == r[i].date;
                assert(dates_of(etf)[k] == r[i].date);
            }
        }
        if dates_of(etf).no_duplicates() {
            assert forall|a: int, b: int| 0 <= a < b < dates_of(rest).len() implies dates_of(
                rest,
            )[a] != dates_of(rest)[b] by {
                assert(dates_of(etf)[a] == dates_of(rest)[a]);
                assert(dates_of(etf)[b] == dates_of(rest)[b]);
            }
            assert(dates_of(rest).no_duplicates());
            assert forall|i: int, j: int| 0 <= i < j < full.len() implies (#[trigger] full[i]).date
                != (#[trigger] full[j]).date by {
                assert(full[i] == r[i]);
                if j < r.len() {
                    assert(full[j] == r[j]);
                } else {
                    let k = choose|k: int|
                        0 <= k < dates_of(rest).len() && dates_of(rest)[k] == r[i].date;
                    assert(dates_of(etf)[k] == r[i].date);
                    assert(dates_of(etf)[etf.len() - 1] == p.date);
                }
            }
        }
    }
}

/// Every joined pair carries a date and a close of the instrument's series.
pub proof fn lemma_joined_from(etf: Seq<PeriodClose>, bmk: Seq<PeriodClose>)
    ensures
        forall|i: int|
            0 <= i < joined(etf, bmk).len() ==> exists|k: int|
                0 <= k < etf.len() && etf[k].date == (#[trigger] joined(etf, bmk)[i]).date
                    && etf[k].close == joined(etf, bmk)[i].instrument,
    decreases etf.len(),
{
    if etf.len() > 0 {
        let rest = etf.drop_last();
        lemma_joined_from(rest, bmk);
        let r = joined(rest, bmk);
        let full = joined(etf, bmk);
        assert forall|i: int| 0 <= i < full.len() implies exists|k: int|
            0 <= k < etf.len() && etf[k].date == (#[trigger] full[i]).date && etf[k].close
                == full[i].instrument by {
            if i < r.len() {
                assert(full[i] == r[i]);
                let k = choose|k: int|
                    0 <= k < rest.len() && rest[k].date == r[i].date && rest[k].close
                        == r[i].instrument;
                assert(etf[k] == rest[k]);
            } else {
                assert(etf[etf.len() - 1].date == full[i].date);
            }
        }
    }
}

/// Where no date occurs twice in the instrument's series, the join is no
/// longer than the number of dates that the two series share.
pub proof fn lemma_joined_within_shared(etf: Seq<PeriodClose>, bmk: Seq<PeriodClose>)
    requires
        dates_of(etf).no_duplicates(),
    ensures
        shared_dates(etf, bmk).finite(),
        joined(etf, bmk).len() <= shared_dates(etf, bmk).len(),
{
    let full = joined(etf, bmk);
    let ds = full.map_values(|q: Pair| q.date);
    lemma_joined_dates(etf, bmk);
    assert(ds.no_duplicates());
    ds.unique_seq_to_set();
    vstd::seq_lib::seq_to_set_is_finite(dates_of(etf));
    vstd::seq_lib::seq_to_set_is_finite(dates_of(bmk));
    let shared = shared_dates(etf, bmk);
    vstd::set_lib::lemma_len_intersect(dates_of(etf).to_set(), dates_of(bmk).to_set());
    assert(shared.finite());
    assert forall|d: i32| ds.to_set().contains(d) implies shared.contains(d) by {
        let i = choose|i: int| 0 <= i < ds.len() && ds[i] == d;
        assert(full[i].date == d);
    }
    vstd::set_lib::lemma_len_subset(ds.to_set(), shared);
}

/// Joins the two series on the date. A date of the instrument's series is
/// kept where the benchmark has it too and both closes are positive; where
/// the benchmark has a date more than once its last entry counts.
pub fn align(etf: &Vec<PeriodClose>, bmk: &Vec<PeriodClose>) -> (out: Aligned)
    ensures
        out.wf(),
        out.pairs() == joined(etf@, bmk@),
{
    broadcast use vstd::std_specs::hash::group_hash_axioms;

    let mut closes: HashMap<i32, Double> = HashMap::new();
    let mut i: usize = 0;
    assert(bmk@.take(0) =~= Seq::<PeriodClose>::empty());
    while i < bmk.len()
        invariant
            i <= bmk.len(),
            closes@ == benchmark_map(bmk@.take(i as int)),
        decreases bmk.len() - i,
    {
        assert(bmk@.take(i + 1).drop_last() =~= bmk@.take(i as int));
        closes.insert(bmk[i].date, bmk[i].close);
        i += 1;
    }
    assert(bmk@.take(bmk.len() as int) =~= bmk@);

    let mut out = Aligned { instrument: Vec::new(), dates: Vec::new(), benchmark: Vec::new() };
    let mut j: usize = 0;
    assert(etf@.take(0) =~= Seq::<PeriodClose>::empty());
    while j < etf.len()
        invariant
            j <= etf.len(),
            closes@ == benchmark_map(bmk@),
            out.wf(),
            out.pairs() == joined(etf@.take(j as int), bmk@),
        decreases etf.len() - j,
    {
        let p = etf[j];
        proof {
            assert(etf@.take(j + 1).drop_last() =~= etf@.take(j as int));
            assert(etf@.take(j + 1).last() == p);
            lemma_benchmark_map(bmk@, p.date);
        }
        let ghost before = out.pairs();
        match closes.get(&p.date) {
            Some(b) => {
                if p.close.is_positive() && b.is_positive() {
                    out.instrument.push(p.close);
                    out.benchmark.push(*b);
                    out.dates.push(p.date);
                    assert(out.pairs() =~= before.push(
                        Pair { instrument: p.close, date: p.date, benchmark: *b },
                    ));
                }
            },
            None => {},
        }
        j += 1;
    }
    assert(etf@.take(etf.len() as int) =~= etf@);
    out
}

} // verus!
