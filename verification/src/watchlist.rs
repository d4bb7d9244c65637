//! Reading lists of symbols from comma-separated text.

use crate::text::{
    chars_of, contains_text, lemma_split_free, split_chars, split_on, string_of, texts,
    to_upper, trim_chars, trimmed, uppercase,
};
use vstd::prelude::*;

verus! {

/// The symbol that a line names: its first comma-separated field, without
/// surrounding white space and in upper case.
pub open spec fn symbol_of(line: Seq<char>) -> Seq<char> {
    uppercase(trimmed(split_on(trimmed(line), ',')[0]))
}

/// The symbols of the first `n` lines, those before `skip` and the empty
/// ones left out.
pub open spec fn symbols_upto(lines: Seq<Seq<char>>, skip: int, n: int) -> Seq<Seq<char>>
    decreases n,
{
    if n <= 0 {
        Seq::empty()
    } else if n - 1 < skip || symbol_of(lines[n - 1]).len() == 0 {
        symbols_upto(lines, skip, n - 1)
    } else {
        symbols_upto(lines, skip, n - 1).push(symbol_of(lines[n - 1]))
    }
}

/// The symbols that a text lists, one line each, after `skip` lines of
/// heading.
pub open spec fn symbols_in(content: Seq<char>, skip: int) -> Seq<Seq<char>> {
    let lines = split_on(content, '\n');
    symbols_upto(lines, skip, lines.len() as int)
}

/// Reads the symbols of a comma-separated text: of every line after the
/// first `skip_lines`, the first field, trimmed and in upper case; lines
/// that name nothing are passed over.
pub fn parse_stocks(content: &str, skip_lines: usize) -> (symbols: Vec<String>)
    ensures
        texts(symbols@) == symbols_in(content@, skip_lines as int),
{
    let lines = split_chars(&chars_of(content), '\n');
    let ghost all = split_on(content@, '\n');
    let mut symbols: Vec<String> = Vec::new();
    let mut i: usize = 0;
    while i < lines.len()
        invariant
            i <= lines.len(),
            crate::text::pieces_view(lines@) == all,
            texts(symbols@) == symbols_upto(all, skip_lines as int, i as int),
        decreases lines.len() - i,
    {
        assert(all[i as int] == lines@[i as int]@);
        if i >= skip_lines {
            let line = trim_chars(&lines[i]);
            let fields = split_chars(&line, ',');
            proof {
                lemma_split_free(line@, ',');
                assert(crate::text::pieces_view(fields@)[0] == fields@[0]@);
            }
            let field = string_of(&trim_chars(&fields[0]));
            let symbol = to_upper(field.as_str());
            if symbol.as_str().unicode_len() > 0 {
                let ghost before = texts(symbols@);
                let ghost text = symbol@;
                symbols.push(symbol);
                assert(texts(symbols@) =~= before.push(text));
            }
        }
        i += 1;
    }
    symbols
}

/// The symbols to pass over: every name of the comma-separated list and of
/// the standing list, trimmed and in upper case, the empty ones left out.
pub open spec fn skips_of(skip_stocks: Seq<char>, ignored: Seq<Seq<char>>) -> Seq<Seq<char>> {
    named(split_on(skip_stocks, ',') + ignored)
}

/// The names of a list, trimmed and in upper case, the empty ones left out.
pub open spec fn named(raw: Seq<Seq<char>>) -> Seq<Seq<char>>
    decreases raw.len(),
{
    if raw.len() == 0 {
        Seq::empty()
    } else if trimmed(raw.last()).len() == 0 {
        named(raw.drop_last())
    } else {
        named(raw.drop_last()).push(uppercase(trimmed(raw.last())))
    }
}

/// The symbols of `all` that are not passed over, each at its first
/// occurrence only.
pub open spec fn selected(all: Seq<Seq<char>>, skips: Seq<Seq<char>>) -> Seq<Seq<char>>
    decreases all.len(),
{
    if all.len() == 0 {
        Seq::empty()
    } else if skips.contains(all.last()) || all.drop_last().contains(all.last()) {
        selected(all.drop_last(), skips)
    } else {
        selected(all.drop_last(), skips).push(all.last())
    }
}

fn add_names(out: &mut Vec<String>, raw: &Vec<Vec<char>>)
    ensures
        texts(final(out)@) == texts(old(out)@) + named(crate::text::pieces_view(raw@)),
{
    let ghost start = texts(out@);
    let ghost all = crate::text::pieces_view(raw@);
    let mut i: usize = 0;
    assert(all.take(0) =~= Seq::<Seq<char>>::empty());
    assert(texts(out@) =~= start + named(all.take(0)));
    while i < raw.len()
        invariant
            i <= raw.len(),
            all == crate::text::pieces_view(raw@),
            texts(out@) == start + named(all.take(i as int)),
        decreases raw.len() - i,
    {
        proof {
            assert(all.take(i + 1).drop_last() =~= all.take(i as int));
            assert(all.take(i + 1).last() == raw@[i as int]@);
        }
        let name = trim_chars(&raw[i]);
        if name.len() > 0 {
            let ghost before = texts(out@);
            let upper = to_upper(string_of(&name).as_str());
            let ghost text = upper@;
            out.push(upper);
            assert(texts(out@) =~= before.push(text));
            assert(texts(out@) =~= start + named(all.take(i + 1)));
        }
        i += 1;
    }
    assert(all.take(raw.len() as int) =~= all);
}

/// The symbols to pass over, from a comma-separated list and a standing
/// list.
pub fn skip_list(skip_stocks: &str, ignored: &Vec<String>) -> (skips: Vec<String>)
    ensures
        texts(skips@) == skips_of(skip_stocks@, texts(ignored@)),
{
    let mut raw = split_chars(&chars_of(skip_stocks), ',');
    let ghost first = crate::text::pieces_view(raw@);
    let mut i: usize = 0;
    while i < ignored.len()
        invariant
            i <= ignored.len(),
            crate::text::pieces_view(raw@) == first + texts(ignored@).take(i as int),
        decreases ignored.len() - i,
    {
        let ghost before = crate::text::pieces_view(raw@);
        let piece = chars_of(ignored[i].as_str());
        raw.push(piece);
        assert(crate::text::pieces_view(raw@) =~= before.push(texts(ignored@)[i as int]));
        assert(texts(ignored@).take(i + 1) =~= texts(ignored@).take(i as int).push(
            texts(ignored@)[i as int],
        ));
        i += 1;
    }
    assert(texts(ignored@).take(ignored.len() as int) =~= texts(ignored@));
    let mut skips: Vec<String> = Vec::new();
    add_names(&mut skips, &raw);
    assert(texts(skips@) =~= named(crate::text::pieces_view(raw@)));
    skips
}

/// Selects from the symbols of several lists those that are not passed
/// over, each once, in the order of first occurrence.
pub fn select_stocks(all: &Vec<String>, skips: &Vec<String>) -> (chosen: Vec<String>)
    ensures
        texts(chosen@) == selected(texts(all@), texts(skips@)),
{
    let mut chosen: Vec<String> = Vec::new();
    let mut seen: Vec<String> = Vec::new();
    let ghost source = texts(all@);
    let mut i: usize = 0;
    assert(source.take(0) =~= Seq::<Seq<char>>::empty());
    while i < all.len()
        invariant
            i <= all.len(),
            source == texts(all@),
            texts(seen@) == source.take(i as int),
            texts(chosen@) == selected(source.take(i as int), texts(skips@)),
        decreases all.len() - i,
    {
        let symbol = &all[i];
        proof {
            assert(source.take(i + 1).drop_last() =~= source.take(i as int));
            assert(source.take(i + 1).last() == symbol@);
        }
        let skip = contains_text(skips, symbol.as_str());
        let again = contains_text(&seen, symbol.as_str());
        if !skip && !again {
            let ghost before = texts(chosen@);
            chosen.push(symbol.clone());
            assert(texts(chosen@) =~= before.push(symbol@));
        }
        let ghost before_seen = texts(seen@);
        seen.push(symbol.clone());
        assert(texts(seen@) =~= before_seen.push(symbol@));
        assert(source.take(i + 1) =~= source.take(i as int).push(symbol@));
        i += 1;
    }
    assert(source.take(all.len() as int) =~= source);
    chosen
}

/// Nothing is selected twice, nothing that is passed over is selected, and
/// everything selected comes from the lists.
pub proof fn lemma_selected(all: Seq<Seq<char>>, skips: Seq<Seq<char>>)
    ensures
        selected(all, skips).no_duplicates(),
        forall|i: int|
            0 <= i < selected(all, skips).len() ==> !skips.contains(
                #[trigger] selected(all, skips)[i],
            ) && all.contains(selected(all, skips)[i]),
        forall|k: int|
            0 <= k < all.len() && !skips.contains(#[trigger] all[k]) ==> selected(
                all,
                skips,
            ).contains(all[k]),
    decreases all.len(),
{
    if all.len() > 0 {
        let rest = all.drop_last();
        let x = all.last();
        lemma_selected(rest, skips);
        let r = selected(rest, skips);
        let s = selected(all, skips);
        assert forall|i: int| 0 <= i < s.len() implies !skips.contains(#[trigger] s[i])
            && all.contains(s[i]) by {
            if i < r.len() {
                assert(s[i] == r[i]);
                let k = choose|k: int| 0 <= k < rest.len() && rest[k] == r[i];
                assert(all[k] == r[i]);
            } else {
                assert(all[all.len() - 1] == s[i]);
            }
        }
        assert forall|i: int, j: int| 0 <= i < s.len() && 0 <= j < s.len() && i != j implies s[i]
            != s[j] by {
            if i < r.len() && j < r.len() {
                assert(s[i] == r[i] && s[j] == r[j]);
            } else {
                let m = if i < j { i } else { j };
                assert(s[m] == r[m]);
                assert(rest.contains(r[m]));
            }
        }
        assert forall|k: int| 0 <= k < all.len() && !skips.contains(#[trigger] all[k]) implies s.contains(
            all[k],
        ) by {
            if k < rest.len() {
                assert(rest[k] == all[k]);
                let m = choose|m: int| 0 <= m < r.len() && r[m] == all[k];
                assert(s[m] == all[k]);
            } else if rest.contains(x) {
                let j = choose|j: int| 0 <= j < rest.len() && rest[j] == x;
                assert(!skips.contains(rest[j]));
                let m = choose|m: int| 0 <= m < r.len() && r[m] == rest[j];
                assert(s[m] == x);
            } else {
                assert(s[s.len() - 1] == x);
            }
        }
    }
}

} // verus!
