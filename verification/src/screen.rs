//! Reading the cells of a screener table.

use crate::text::{
    append_chars, chars_of, same_text, string_of, to_upper, trim_chars, trimmed, uppercase,
};
use vstd::prelude::*;

verus! {

/// The first position of `c` in `s`, or the length of `s` where `c` does not
/// occur.
pub open spec fn first_at(s: Seq<char>, c: char) -> int
    decreases s.len(),
{
    if s.len() == 0 {
        0
    } else if s[0] == c {
        0
    } else {
        1 + first_at(s.drop_first(), c)
    }
}

proof fn lemma_first_at(s: Seq<char>, c: char)
    ensures
        0 <= first_at(s, c) <= s.len(),
        first_at(s, c) < s.len() ==> s[first_at(s, c)] == c,
        forall|k: int| 0 <= k < first_at(s, c) ==> #[trigger] s[k] != c,
    decreases s.len(),
{
    if s.len() > 0 && s[0] != c {
        lemma_first_at(s.drop_first(), c);
        assert forall|k: int| 0 <= k < first_at(s, c) implies #[trigger] s[k] != c by {
            if k > 0 {
                assert(s.drop_first()[k - 1] == s[k]);
            }
        }
    }
}

proof fn lemma_first_at_found(s: Seq<char>, c: char, i: int)
    requires
        0 <= i <= s.len(),
        forall|k: int| 0 <= k < i ==> #[trigger] s[k] != c,
        i < s.len() ==> s[i] == c,
    ensures
        first_at(s, c) == i,
{
    lemma_first_at(s, c);
    let f = first_at(s, c);
    if f < i {
        assert(s[f] != c);
    } else if i < f {
        assert(s[i] != c);
    }
}

fn find_char(s: &Vec<char>, c: char) -> (i: usize)
    ensures
        i == first_at(s@, c),
        i <= s.len(),
{
    let mut i: usize = 0;
    while i < s.len() && s[i] != c
        invariant
            i <= s.len(),
            forall|k: int| 0 <= k < i ==> #[trigger] s@[k] != c,
        decreases s.len() - i,
    {
        i += 1;
    }
    proof {
        lemma_first_at_found(s@, c, i as int);
    }
    i
}

fn slice_chars(s: &Vec<char>, from: usize, to: usize) -> (out: Vec<char>)
    requires
        from <= to <= s.len(),
    ensures
        out@ == s@.subrange(from as int, to as int),
{
    let mut out: Vec<char> = Vec::new();
    let mut i: usize = from;
    while i < to
        invariant
            from <= i <= to <= s.len(),
            out@ == s@.subrange(from as int, i as int),
        decreases to - i,
    {
        out.push(s[i]);
        assert(s@.subrange(from as int, i + 1) =~= s@.subrange(from as int, i as int).push(
            s@[i as int],
        ));
        i += 1;
    }
    out
}

/// The name in a cell: where the cell has several lines, its first line
/// without surrounding white space; else the cell as it is.
pub open spec fn cell_name(cell: Seq<char>) -> Seq<char> {
    let at = first_at(cell, '\n');
    if at < cell.len() {
        trimmed(cell.take(at))
    } else {
        cell
    }
}

/// Reads the name out of the first cell of a row, whose further lines hold
/// details.
pub fn name_of_cell(cell: &str) -> (name: String)
    ensures
        name@ == cell_name(cell@),
{
    let text = chars_of(cell);
    let at = find_char(&text, '\n');
    if at < text.len() {
        let line = slice_chars(&text, 0, at);
        assert(text@.subrange(0, at as int) =~= text@.take(at as int));
        string_of(&trim_chars(&line))
    } else {
        string_of(&text)
    }
}

/// The exchange and the symbol that a row key `EXCHANGE:SYMBOL` names, both
/// trimmed and in upper case; nothing where the key has no colon.
pub open spec fn row_key_parts(key: Seq<char>) -> Option<(Seq<char>, Seq<char>)> {
    let at = first_at(key, ':');
    if at < key.len() {
        Some((uppercase(trimmed(key.take(at))), uppercase(trimmed(key.skip(at + 1)))))
    } else {
        None
    }
}

/// Splits a row key at its first colon into exchange and symbol.
pub fn split_row_key(key: &str) -> (parts: Option<(String, String)>)
    ensures
        match parts {
            Some((exchange, ticker)) => row_key_parts(key@) == Some((exchange@, ticker@)),
            None => row_key_parts(key@) is None,
        },
{
    let text = chars_of(key);
    let at = find_char(&text, ':');
    if at < text.len() {
        let left = slice_chars(&text, 0, at);
        let right = slice_chars(&text, at + 1, text.len());
        assert(text@.subrange(0, at as int) =~= text@.take(at as int));
        assert(text@.subrange(at + 1, text.len() as int) =~= text@.skip(at + 1));
        let exchange = to_upper(string_of(&trim_chars(&left)).as_str());
        let ticker = to_upper(string_of(&trim_chars(&right)).as_str());
        Some((exchange, ticker))
    } else {
        None
    }
}

/// The columns in which a table shows the returns over the four horizons.
#[derive(Clone, Copy, Debug, PartialEq, Eq, Structural)]
pub struct PerfColumns {
    pub one_month: Option<usize>,
    pub three_months: Option<usize>,
    pub six_months: Option<usize>,
    pub one_year: Option<usize>,
}

impl PerfColumns {
    /// Whether all four columns were found.
    pub open spec fn complete(self) -> bool {
        self.one_month is Some && self.three_months is Some && self.six_months is Some
            && self.one_year is Some
    }

    /// Whether no column was found.
    pub open spec fn empty(self) -> bool {
        self.one_month is None && self.three_months is None && self.six_months is None
            && self.one_year is None
    }

    pub fn is_complete(&self) -> (b: bool)
        ensures
            b == self.complete(),
    {
        self.one_month.is_some() && self.three_months.is_some() && self.six_months.is_some()
            && self.one_year.is_some()
    }

    pub fn is_empty(&self) -> (b: bool)
        ensures
            b == self.empty(),
    {
        self.one_month.is_none() && self.three_months.is_none() && self.six_months.is_none()
            && self.one_year.is_none()
    }
}

/// Whether header `i` carries the field `field`.
pub open spec fn carries(headers: Seq<Option<String>>, i: int, field: Seq<char>) -> bool {
    headers[i] matches Some(f) && f@ == field
}

/// Whether `found` is the first header that carries `field`, if any does.
pub open spec fn first_carrier(
    headers: Seq<Option<String>>,
    field: Seq<char>,
    found: Option<usize>,
) -> bool {
    match found {
        Some(i) => i < headers.len() && carries(headers, i as int, field) && forall|k: int|
            0 <= k < i ==> !#[trigger] carries(headers, k, field),
        None => forall|k: int| 0 <= k < headers.len() ==> !#[trigger] carries(headers, k, field),
    }
}

/// The first column whose header carries `field`.
pub fn column_of(headers: &Vec<Option<String>>, field: &str) -> (found: Option<usize>)
    ensures
        first_carrier(headers@, field@, found),
{
    let mut i: usize = 0;
    while i < headers.len()
        invariant
            i <= headers.len(),
            forall|k: int| 0 <= k < i ==> !#[trigger] carries(headers@, k, field@),
        decreases headers.len() - i,
    {
        match &headers[i] {
            Some(f) => {
                if same_text(f.as_str(), field) {
                    return Some(i);
                }
            },
            None => {},
        }
        i += 1;
    }
    None
}

/// Finds, for each of the four horizons, the first column whose header
/// carries the horizon's field. `headers` holds the field of every header
/// cell, where it has one.
pub fn perf_columns(headers: &Vec<Option<String>>) -> (cols: PerfColumns)
    ensures
        first_carrier(headers@, "Performance|Interval1M"@, cols.one_month),
        first_carrier(headers@, "Performance|Interval3M"@, cols.three_months),
        first_carrier(headers@, "Performance|Interval6M"@, cols.six_months),
        first_carrier(headers@, "Performance|Interval1Y"@, cols.one_year),
{
    PerfColumns {
        one_month: column_of(headers, "Performance|Interval1M"),
        three_months: column_of(headers, "Performance|Interval3M"),
        six_months: column_of(headers, "Performance|Interval6M"),
        one_year: column_of(headers, "Performance|Interval1Y"),
    }
}

/// The text of a report on tickers for which fetching failed: the tickers
/// in order with commas between them, in a sentence.
pub open spec fn failure_text(failed: Seq<Seq<char>>) -> Seq<char> {
    "Fetching stock info failed for '"@ + crate::text::join(failed, seq![',']) + "'"@
}

/// Sums up the failures of a bulk fetch, which goes on past single
/// failures: nothing where every ticker succeeded, else one report that
/// names every ticker that failed.
pub fn failure_report(failed: &Vec<String>) -> (report: Option<String>)
    ensures
        failed.len() == 0 ==> report is None,
        failed.len() > 0 ==> (report matches Some(text) && text@ == failure_text(
            crate::text::texts(failed@),
        )),
{
    if failed.len() == 0 {
        return None;
    }
    let mut pieces: Vec<Vec<char>> = Vec::new();
    let mut i: usize = 0;
    while i < failed.len()
        invariant
            i <= failed.len(),
            pieces.len() == i,
            forall|k: int| 0 <= k < i ==> (#[trigger] pieces@[k])@ == failed@[k]@,
        decreases failed.len() - i,
    {
        pieces.push(chars_of(failed[i].as_str()));
        i += 1;
    }
    assert(crate::text::pieces_view(pieces@) =~= crate::text::texts(failed@));
    let mut comma: Vec<char> = Vec::new();
    comma.push(',');
    assert(comma@ =~= seq![',']);
    let names = crate::text::join_chars(&pieces, &comma);
    let mut text = chars_of("Fetching stock info failed for '");
    append_chars(&mut text, &names);
    append_chars(&mut text, &chars_of("'"));
    Some(string_of(&text))
}

} // verus!
