//! A summary of stocks by sector and industry.

use crate::grouping::{
    as_ints, distinct, distinct_keys, lemma_group_not_empty, lemma_positions, positions,
    positions_of, sizes_of,
};
use crate::model::{Stock, Ticker};
use crate::ranking::{rank_keys, ranked};
use crate::text::texts;
use vstd::prelude::*;

verus! {

/// An industry with the stocks that belong to it.
#[derive(Clone, Debug)]
pub struct SummaryIndustry {
    pub name: String,
    pub url: String,
    pub size: usize,
    pub tickers: Vec<Ticker>,
}

/// A sector with its industries, the largest first.
#[derive(Clone, Debug)]
pub struct SummarySector {
    pub name: String,
    pub url: String,
    pub size: usize,
    pub industries: Vec<SummaryIndustry>,
}

/// All stocks by sector, the largest sector first.
#[derive(Clone, Debug)]
pub struct Summary {
    pub size: usize,
    pub sectors: Vec<SummarySector>,
}

/// The sector names of the stocks, in order.
pub open spec fn sector_names(stocks: Seq<Stock>) -> Seq<Seq<char>> {
    stocks.map_values(|s: Stock| s.sector.name@)
}

/// The industry names of the stocks at the given positions, in order.
pub open spec fn industry_names(stocks: Seq<Stock>, members: Seq<int>) -> Seq<Seq<char>> {
    members.map_values(|i: int| stocks[i].industry.name@)
}

/// Whether `ind` sums up the industry `name` among the stocks at the
/// positions `members`: it lists those of them that belong to the industry,
/// in order, and takes its page from the first.
pub open spec fn is_industry(
    ind: SummaryIndustry,
    stocks: Seq<Stock>,
    members: Seq<int>,
    name: Seq<char>,
) -> bool {
    let at = positions(industry_names(stocks, members), name);
    &&& ind.name@ == name
    &&& ind.url@ == stocks[members[at[0]]].industry.url@
    &&& ind.size == at.len()
    &&& ind.tickers.len() == at.len()
    &&& forall|t: int|
        0 <= t < at.len() ==> (#[trigger] ind.tickers[t]).exchange@
            == stocks[members[at[t]]].exchange@ && ind.tickers[t].ticker@
            == stocks[members[at[t]]].ticker@
}

/// Whether the industries sum up the stocks at the positions `members` by
/// industry, the largest industry first and, among industries of one size,
/// the one that occurs first.
pub open spec fn are_industries(
    industries: Seq<SummaryIndustry>,
    stocks: Seq<Stock>,
    members: Seq<int>,
) -> bool {
    let keys = industry_names(stocks, members);
    exists|order: Seq<usize>|
        {
            &&& #[trigger] ranked(sizes_of(keys), order, distinct(keys).len() as int)
            &&& industries.len() == order.len()
            &&& forall|r: int|
                0 <= r < order.len() ==> is_industry(
                    #[trigger] industries[r],
                    stocks,
                    members,
                    distinct(keys)[order[r] as int],
                )
        }
}

/// Whether `sec` sums up the sector `name` of the stocks.
pub open spec fn is_sector(sec: SummarySector, stocks: Seq<Stock>, name: Seq<char>) -> bool {
    let members = positions(sector_names(stocks), name);
    &&& sec.name@ == name
    &&& sec.url@ == stocks[members[0]].sector.url@
    &&& sec.size == members.len()
    &&& are_industries(sec.industries@, stocks, members)
}

/// Whether `summary` sums up the stocks: every stock is counted, and the
/// sectors come the largest first and, among sectors of one size, the one
/// that occurs first.
pub open spec fn summarizes(summary: Summary, stocks: Seq<Stock>) -> bool {
    let keys = sector_names(stocks);
    &&& summary.size == stocks.len()
    &&& exists|order: Seq<usize>|
        {
            &&& #[trigger] ranked(sizes_of(keys), order, distinct(keys).len() as int)
            &&& summary.sectors.len() == order.len()
            &&& forall|r: int|
                0 <= r < order.len() ==> is_sector(
                    #[trigger] summary.sectors[r],
                    stocks,
                    distinct(keys)[order[r] as int],
                )
        }
}

/// Ranks the distinct keys by how often they occur.
fn rank_groups(keys: &Vec<String>, names: &Vec<String>) -> (order: Vec<usize>)
    requires
        texts(names@) == distinct(texts(keys@)),
    ensures
        ranked(sizes_of(texts(keys@)), order@, names.len() as int),
{
    let mut sizes: Vec<i128> = Vec::new();
    let mut g: usize = 0;
    while g < names.len()
        invariant
            g <= names.len(),
            texts(names@) == distinct(texts(keys@)),
            sizes.len() == g,
            forall|k: int|
                0 <= k < g ==> #[trigger] sizes@[k] == positions(
                    texts(keys@),
                    distinct(texts(keys@))[k],
                ).len(),
        decreases names.len() - g,
    {
        assert(texts(names@)[g as int] == names@[g as int]@);
        let at = positions_of(keys, names[g].as_str());
        assert(as_ints(at@).len() == at.len());
        sizes.push(at.len() as i128);
        g += 1;
    }
    assert(sizes@.map_values(|k: i128| k as int) =~= sizes_of(texts(keys@)));
    assert(texts(names@).len() == names.len());
    rank_keys(&sizes)
}

fn industry_of(stocks: &Vec<Stock>, members: &Vec<usize>, keys: &Vec<String>, name: &String) -> (ind:
    SummaryIndustry)
    requires
        forall|j: int| 0 <= j < members.len() ==> (#[trigger] members@[j]) < stocks.len(),
        texts(keys@) == industry_names(stocks@, as_ints(members@)),
        positions(texts(keys@), name@).len() > 0,
    ensures
        is_industry(ind, stocks@, as_ints(members@), name@),
{
    let at = positions_of(keys, name.as_str());
    let ghost spec_at = positions(texts(keys@), name@);
    proof {
        lemma_positions(texts(keys@), name@);
        assert(as_ints(at@).len() == at.len());
        assert forall|t: int| 0 <= t < at.len() implies (#[trigger] at@[t]) < members.len() by {
            assert(as_ints(at@)[t] == at@[t]);
            assert(0 <= spec_at[t] < texts(keys@).len());
        }
        assert(texts(keys@).len() == members.len());
    }
    let mut tickers: Vec<Ticker> = Vec::new();
    let mut t: usize = 0;
    while t < at.len()
        invariant
            t <= at.len(),
            forall|j: int| 0 <= j < members.len() ==> (#[trigger] members@[j]) < stocks.len(),
            forall|k: int| 0 <= k < at.len() ==> (#[trigger] at@[k]) < members.len(),
            tickers.len() == t,
            forall|k: int|
                0 <= k < t ==> (#[trigger] tickers@[k]).exchange@
                    == stocks@[members@[at@[k] as int] as int].exchange@ && tickers@[k].ticker@
                    == stocks@[members@[at@[k] as int] as int].ticker@,
        decreases at.len() - t,
    {
        let stock = &stocks[members[at[t]]];
        tickers.push(Ticker { exchange: stock.exchange.clone(), ticker: stock.ticker.clone() });
        t += 1;
    }
    let first = &stocks[members[at[0]]];
    let ind = SummaryIndustry {
        name: name.clone(),
        url: first.industry.url.clone(),
        size: at.len(),
        tickers,
    };
    proof {
        let ms = as_ints(members@);
        assert(spec_at == as_ints(at@));
        assert(spec_at[0] == at@[0]);
        assert(ms[spec_at[0]] == members@[at@[0] as int]);
        assert forall|k: int| 0 <= k < spec_at.len() implies (#[trigger] ind.tickers[k]).exchange@
            == stocks@[ms[spec_at[k]]].exchange@ && ind.tickers[k].ticker@
            == stocks@[ms[spec_at[k]]].ticker@ by {
            assert(spec_at[k] == at@[k]);
            assert(ms[spec_at[k]] == members@[at@[k] as int]);
        }
    }
    ind
}

fn sector_of(stocks: &Vec<Stock>, sector_keys: &Vec<String>, name: &String) -> (sec: SummarySector)
    requires
        texts(sector_keys@) == sector_names(stocks@),
        positions(texts(sector_keys@), name@).len() > 0,
    ensures
        is_sector(sec, stocks@, name@),
{
    let members = positions_of(sector_keys, name.as_str());
    let ghost ms = as_ints(members@);
    proof {
        lemma_positions(texts(sector_keys@), name@);
        assert(ms.len() == members.len());
        assert(texts(sector_keys@).len() == stocks.len());
        assert forall|j: int| 0 <= j < members.len() implies (#[trigger] members@[j]) < stocks.len() by {
            assert(ms[j] == members@[j]);
        }
    }
    let mut keys: Vec<String> = Vec::new();
    let mut j: usize = 0;
    while j < members.len()
        invariant
            j <= members.len(),
            forall|k: int| 0 <= k < members.len() ==> (#[trigger] members@[k]) < stocks.len(),
            keys.len() == j,
            forall|k: int|
                0 <= k < j ==> (#[trigger] keys@[k])@ == stocks@[members@[k] as int].industry.name@,
        decreases members.len() - j,
    {
        keys.push(stocks[members[j]].industry.name.clone());
        j += 1;
    }
    proof {
        assert(texts(keys@) =~= industry_names(stocks@, ms)) by {
            assert forall|k: int| 0 <= k < keys.len() implies texts(keys@)[k] == industry_names(
                stocks@,
                ms,
            )[k] by {
                assert(ms[k] == members@[k]);
            }
        }
    }
    let names = distinct_keys(&keys);
    let order = rank_groups(&keys, &names);
    let ghost ikeys = texts(keys@);
    assert(texts(names@).len() == names.len());
    let mut industries: Vec<SummaryIndustry> = Vec::new();
    let mut r: usize = 0;
    while r < order.len()
        invariant
            r <= order.len(),
            ms == as_ints(members@),
            ikeys == texts(keys@),
            ikeys == industry_names(stocks@, ms),
            texts(names@) == distinct(ikeys),
            texts(names@).len() == names.len(),
            ranked(sizes_of(ikeys), order@, names.len() as int),
            forall|k: int| 0 <= k < members.len() ==> (#[trigger] members@[k]) < stocks.len(),
            industries.len() == r,
            forall|k: int|
                0 <= k < r ==> is_industry(
                    #[trigger] industries@[k],
                    stocks@,
                    ms,
                    distinct(ikeys)[order@[k] as int],
                ),
        decreases order.len() - r,
    {
        let g = order[r];
        proof {
            assert(texts(names@)[g as int] == names@[g as int]@);
            lemma_group_not_empty(ikeys, g as int);
        }
        let ind = industry_of(stocks, &members, &keys, &names[g]);
        industries.push(ind);
        r += 1;
    }
    let first = &stocks[members[0]];
    let sec = SummarySector {
        name: name.clone(),
        url: first.sector.url.clone(),
        size: members.len(),
        industries,
    };
    proof {
        assert(positions(sector_names(stocks@), name@) == ms);
        assert(ms[0] == members@[0]);
        assert(ranked(sizes_of(ikeys), order@, distinct(ikeys).len() as int));
        assert(are_industries(sec.industries@, stocks@, ms));
    }
    sec
}

impl Summary {
    /// Sums up the stocks by sector and, within each sector, by industry.
    /// Sectors and industries come the largest first; those of one size stay in
    /// the order in which they first occur. A sector and an industry take their
    /// page from their first stock, and an industry lists its stocks in order.
    pub fn summarize(stocks: &Vec<Stock>) -> (summary: Summary)
        ensures
            summarizes(summary, stocks@),
    {
        let mut keys: Vec<String> = Vec::new();
        let mut j: usize = 0;
        while j < stocks.len()
            invariant
                j <= stocks.len(),
                keys.len() == j,
                forall|k: int| 0 <= k < j ==> (#[trigger] keys@[k])@ == stocks@[k].sector.name@,
            decreases stocks.len() - j,
        {
            keys.push(stocks[j].sector.name.clone());
            j += 1;
        }
        assert(texts(keys@) =~= sector_names(stocks@));
        let names = distinct_keys(&keys);
        let order = rank_groups(&keys, &names);
        let ghost skeys = texts(keys@);
        assert(texts(names@).len() == names.len());
        let mut sectors: Vec<SummarySector> = Vec::new();
        let mut r: usize = 0;
        while r < order.len()
            invariant
                r <= order.len(),
                skeys == texts(keys@),
                skeys == sector_names(stocks@),
                texts(names@) == distinct(skeys),
                texts(names@).len() == names.len(),
                ranked(sizes_of(skeys), order@, names.len() as int),
                sectors.len() == r,
                forall|k: int|
                    0 <= k < r ==> is_sector(
                        #[trigger] sectors@[k],
                        stocks@,
                        distinct(skeys)[order@[k] as int],
                    ),
            decreases order.len() - r,
        {
            let g = order[r];
            proof {
                assert(texts(names@)[g as int] == names@[g as int]@);
                lemma_group_not_empty(skeys, g as int);
            }
            let sec = sector_of(stocks, &keys, &names[g]);
            sectors.push(sec);
            r += 1;
        }
        let summary = Summary { size: stocks.len(), sectors };
        assert(ranked(sizes_of(skeys), order@, distinct(skeys).len() as int));
        summary
    }
}

} // verus!
