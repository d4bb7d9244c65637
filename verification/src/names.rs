//! Tidying of names, lists and percentages that arrive as free text.

use crate::text::{
    chars_of, drop_empty, free_of, is_space, join, join_chars, lemma_split_free, lower_of,
    non_empty, pieces_view, push_lower, push_upper, split_chars, split_on, string_of, to_upper,
    trim_chars, trimmed, upper_of, uppercase, whitespace,
};
use vstd::prelude::*;

verus! {

/// Whether a character is one of the look-alikes of the slash: the fullwidth
/// solidus, the fraction slash, the division slash or the big solidus.
pub open spec fn slash_like(c: char) -> bool {
    c == '\u{FF0F}' || c == '\u{2044}' || c == '\u{2215}' || c == '\u{29F8}'
}

/// A character with slash look-alikes turned into `/` and white space into
/// a plain space.
pub open spec fn unified(c: char) -> char {
    let d = if slash_like(c) {
        '/'
    } else {
        c
    };
    if is_space(d) {
        ' '
    } else {
        d
    }
}

/// Whether a character ends a word: a space or a slash.
pub open spec fn boundary(c: char) -> bool {
    c == ' ' || c == '/'
}

/// `s` in title case: the first character of every word in upper case, all
/// others in lower case, the boundaries between words as they are.
pub open spec fn titled(s: Seq<char>) -> Seq<char>
    decreases s.len(),
{
    if s.len() == 0 {
        Seq::empty()
    } else {
        let head = titled(s.drop_last());
        let c = s.last();
        if boundary(c) {
            head.push(c)
        } else if s.len() == 1 || boundary(s[s.len() - 2]) {
            head + upper_of(c)
        } else {
            head + lower_of(c)
        }
    }
}

/// `s` with every run of spaces made one space and none left at the ends.
pub open spec fn squeezed(s: Seq<char>) -> Seq<char> {
    join(non_empty(split_on(s, ' ')), seq![' '])
}

/// Whether `s` neither begins nor ends with a space and has no two spaces in
/// a row.
pub open spec fn tidy(s: Seq<char>) -> bool {
    &&& s.len() > 0 ==> s[0] != ' ' && s.last() != ' '
    &&& forall|k: int| 0 <= k < s.len() - 1 ==> !(#[trigger] s[k] == ' ' && s[k + 1] == ' ')
}

proof fn lemma_non_empty(pieces: Seq<Seq<char>>, sep: char)
    requires
        forall|i: int| 0 <= i < pieces.len() ==> free_of(#[trigger] pieces[i], sep),
    ensures
        forall|i: int|
            0 <= i < non_empty(pieces).len() ==> (#[trigger] non_empty(pieces)[i]).len() > 0
                && free_of(non_empty(pieces)[i], sep),
    decreases pieces.len(),
{
    if pieces.len() > 0 {
        let rest = pieces.drop_last();
        assert forall|i: int| 0 <= i < rest.len() implies free_of(#[trigger] rest[i], sep) by {
            assert(rest[i] == pieces[i]);
        }
        lemma_non_empty(rest, sep);
        let kept = non_empty(pieces);
        let before = non_empty(rest);
        assert forall|i: int| 0 <= i < kept.len() implies (#[trigger] kept[i]).len() > 0 && free_of(
            kept[i],
            sep,
        ) by {
            if i < before.len() {
                assert(kept[i] == before[i]);
            } else {
                assert(kept[i] == pieces[pieces.len() - 1]);
            }
        }
    }
}

proof fn lemma_join_tidy(words: Seq<Seq<char>>)
    requires
        forall|i: int|
            0 <= i < words.len() ==> (#[trigger] words[i]).len() > 0 && free_of(words[i], ' '),
    ensures
        tidy(join(words, seq![' '])),
        words.len() > 0 ==> join(words, seq![' ']).len() > 0,
    decreases words.len(),
{
    if words.len() > 1 {
        let rest = words.drop_last();
        assert forall|i: int| 0 <= i < rest.len() implies (#[trigger] rest[i]).len() > 0
            && free_of(rest[i], ' ') by {
            assert(rest[i] == words[i]);
        }
        lemma_join_tidy(rest);
        let head = join(rest, seq![' ']);
        let word = words.last();
        let all = join(words, seq![' ']);
        assert(all =~= head + seq![' '] + word);
        assert(free_of(word, ' '));
        assert forall|k: int| 0 <= k < all.len() - 1 implies !(#[trigger] all[k] == ' ' && all[k
            + 1] == ' ') by {
            if k + 1 < head.len() {
                assert(all[k] == head[k] && all[k + 1] == head[k + 1]);
            } else if k + 1 == head.len() {
                assert(all[k] == head.last());
            } else if k == head.len() {
                assert(all[k + 1] == word[0]);
            } else {
                assert(all[k] == word[k - head.len() - 1]);
            }
        }
        assert(all[0] == head[0]);
        assert(all.last() == word.last());
    } else if words.len() == 1 {
        assert(join(words, seq![' ']) == words[0]);
    }
}

/// Squeezing leaves no space at either end and no two spaces in a row.
pub proof fn lemma_squeezed_tidy(s: Seq<char>)
    ensures
        tidy(squeezed(s)),
{
    lemma_split_free(s, ' ');
    lemma_non_empty(split_on(s, ' '), ' ');
    lemma_join_tidy(non_empty(split_on(s, ' ')));
}

/// The normal form of a name.
pub open spec fn normalized(s: Seq<char>) -> Seq<char> {
    titled(squeezed(s.map_values(|c: char| unified(c))))
}

fn unify(c: char) -> (d: char)
    ensures
        d == unified(c),
{
    let d = if c == '\u{FF0F}' || c == '\u{2044}' || c == '\u{2215}' || c == '\u{29F8}' {
        '/'
    } else {
        c
    };
    if whitespace(d) {
        ' '
    } else {
        d
    }
}

fn title_case(s: &Vec<char>) -> (out: Vec<char>)
    ensures
        out@ == titled(s@),
{
    let mut out: Vec<char> = Vec::new();
    let mut capitalize_next = true;
    let mut i: usize = 0;
    assert(s@.take(0) =~= Seq::<char>::empty());
    while i < s.len()
        invariant
            i <= s.len(),
            out@ == titled(s@.take(i as int)),
            capitalize_next == (i == 0 || boundary(s@[i - 1])),
        decreases s.len() - i,
    {
        let c = s[i];
        proof {
            let upto = s@.take(i + 1);
            assert(upto.drop_last() =~= s@.take(i as int));
            assert(upto.last() == c);
            if i > 0 {
                assert(upto[upto.len() - 2] == s@[i - 1]);
            }
        }
        if c == ' ' || c == '/' {
            out.push(c);
            capitalize_next = true;
        } else if capitalize_next {
            push_upper(&mut out, c);
            capitalize_next = false;
        } else {
            push_lower(&mut out, c);
        }
        i += 1;
    }
    assert(s@.take(s.len() as int) =~= s@);
    out
}

/// Brings a name into its normal form: slash look-alikes become `/`, every
/// white space becomes a space, runs of spaces shrink to one and vanish at
/// the ends, and every word, a space or a slash being a boundary, is put in
/// title case.
pub fn normalize(input: &str) -> (out: String)
    ensures
        out@ == normalized(input@),
{
    let raw = chars_of(input);
    let mut plain: Vec<char> = Vec::new();
    let mut i: usize = 0;
    while i < raw.len()
        invariant
            i <= raw.len(),
            plain.len() == i,
            forall|k: int| 0 <= k < i ==> plain@[k] == unified(raw@[k]),
        decreases raw.len() - i,
    {
        plain.push(unify(raw[i]));
        i += 1;
    }
    assert(plain@ =~= input@.map_values(|c: char| unified(c)));
    let words = drop_empty(split_chars(&plain, ' '));
    let mut space: Vec<char> = Vec::new();
    space.push(' ');
    assert(space@ =~= seq![' ']);
    let squeezed = join_chars(&words, &space);
    let titled = title_case(&squeezed);
    string_of(&titled)
}

/// The names in a comma-separated list, each without surrounding white space
/// and in upper case.
pub open spec fn frames_of(input: Seq<char>) -> Seq<Seq<char>> {
    split_on(input, ',').map_values(|piece: Seq<char>| uppercase(trimmed(piece)))
}

/// Splits a comma-separated list of time frames, trims each and puts it in
/// upper case.
pub fn time_frames(input: &str) -> (frames: Vec<String>)
    ensures
        frames@.map_values(|f: String| f@) == frames_of(input@),
{
    let raw = chars_of(input);
    let pieces = split_chars(&raw, ',');
    let mut frames: Vec<String> = Vec::new();
    let mut i: usize = 0;
    while i < pieces.len()
        invariant
            i <= pieces.len(),
            pieces_view(pieces@) == split_on(input@, ','),
            frames.len() == i,
            forall|k: int|
                0 <= k < i ==> (#[trigger] frames@[k])@ == uppercase(trimmed(pieces@[k]@)),
        decreases pieces.len() - i,
    {
        let piece = string_of(&trim_chars(&pieces[i]));
        frames.push(to_upper(piece.as_str()));
        i += 1;
    }
    proof {
        let got = frames@.map_values(|f: String| f@);
        let want = frames_of(input@);
        assert(got.len() == want.len());
        assert forall|k: int| 0 <= k < got.len() implies got[k] == want[k] by {
            assert(pieces_view(pieces@)[k] == pieces@[k]@);
        }
        assert(got =~= want);
    }
    frames
}

/// Whether a character is dropped from a percentage: the plus sign, the
/// percent sign and the thousands separator.
pub open spec fn dropped(c: char) -> bool {
    c == '+' || c == '%' || c == ','
}

/// A character of a percentage with the minus sign U+2212 turned into the
/// hyphen.
pub open spec fn hyphened(c: char) -> char {
    if c == '\u{2212}' {
        '-'
    } else {
        c
    }
}

/// `s` without plus signs, percent signs and thousands separators, and with
/// hyphens for minus signs.
pub open spec fn stripped(s: Seq<char>) -> Seq<char>
    decreases s.len(),
{
    if s.len() == 0 {
        Seq::empty()
    } else if dropped(s.last()) {
        stripped(s.drop_last())
    } else {
        stripped(s.drop_last()).push(hyphened(s.last()))
    }
}

/// The digits of a percentage as a number parser takes them.
pub open spec fn percentage_digits(s: Seq<char>) -> Seq<char> {
    stripped(trimmed(s))
}

/// Prepares a percentage such as `+3.21%`, `−1.05%` or `1,234%` for a number
/// parser: surrounding white space, plus signs, percent signs and thousands
/// separators go, and the minus sign U+2212 becomes a hyphen.
pub fn clean_percentage(s: &str) -> (out: String)
    ensures
        out@ == percentage_digits(s@),
{
    let body = trim_chars(&chars_of(s));
    let mut out: Vec<char> = Vec::new();
    let mut i: usize = 0;
    assert(body@.take(0) =~= Seq::<char>::empty());
    while i < body.len()
        invariant
            i <= body.len(),
            out@ == stripped(body@.take(i as int)),
        decreases body.len() - i,
    {
        let c = body[i];
        proof {
            assert(body@.take(i + 1).drop_last() =~= body@.take(i as int));
            assert(body@.take(i + 1).last() == c);
        }
        if c == '+' || c == '%' || c == ',' {
        } else if c == '\u{2212}' {
            out.push('-');
        } else {
            out.push(c);
        }
        i += 1;
    }
    assert(body@.take(body.len() as int) =~= body@);
    string_of(&out)
}

/// A cleaned percentage holds none of the characters that are dropped and no
/// minus sign U+2212.
pub proof fn lemma_stripped_clean(s: Seq<char>)
    ensures
        forall|i: int|
            0 <= i < stripped(s).len() ==> !dropped(#[trigger] stripped(s)[i]) && stripped(s)[i]
                != '\u{2212}',
    decreases s.len(),
{
    if s.len() > 0 {
        let head = stripped(s.drop_last());
        lemma_stripped_clean(s.drop_last());
        assert forall|i: int| 0 <= i < stripped(s).len() implies !dropped(
            #[trigger] stripped(s)[i],
        ) && stripped(s)[i] != '\u{2212}' by {
            if i < head.len() {
                assert(stripped(s)[i] == head[i]);
            }
        }
    }
}

} // verus!
