//! Text handling on sequences of characters.

use vstd::prelude::*;

verus! {

/// `String::push` appends one character to the end of the string.
pub assume_specification[ String::push ](s: &mut String, c: char)
    ensures
        final(s)@ == old(s)@.push(c),
;

/// The upper-case form of a text, as `str::to_uppercase` gives it.
pub uninterp spec fn uppercase(s: Seq<char>) -> Seq<char>;

/// Calls `str::to_uppercase`. Nothing is claimed of the result beyond its
/// being a function of the text.
#[verifier::external_body]
pub(crate) fn to_upper(s: &str) -> (r: String)
    ensures
        r@ == uppercase(s@),
{
    s.to_uppercase()
}

/// Whether a character has the Unicode property `White_Space`, as
/// `char::is_whitespace` tells it.
pub uninterp spec fn is_space(c: char) -> bool;

/// The upper-case form of a character, which may be several characters, as
/// `char::to_uppercase` gives it.
pub uninterp spec fn upper_of(c: char) -> Seq<char>;

/// The lower-case form of a character, which may be several characters, as
/// `char::to_lowercase` gives it.
pub uninterp spec fn lower_of(c: char) -> Seq<char>;

/// The decimal digits of an integer, with a minus sign in front where it is
/// negative, as `i64::to_string` writes them.
pub uninterp spec fn decimal(n: i64) -> Seq<char>;

/// Calls `i64::to_string`. Nothing is claimed of the result beyond its being
/// a function of the integer.
#[verifier::external_body]
pub(crate) fn to_decimal(n: i64) -> (r: String)
    ensures
        r@ == decimal(n),
{
    n.to_string()
}

/// Calls `char::is_whitespace`. Nothing is claimed of the result beyond its
/// being a function of the character.
#[verifier::external_body]
pub(crate) fn whitespace(c: char) -> (b: bool)
    ensures
        b == is_space(c),
{
    c.is_whitespace()
}

/// Calls `char::to_uppercase` and appends what it yields to `out`. Nothing
/// is claimed of the appended characters beyond their being a function of
/// `c`.
#[verifier::external_body]
pub(crate) fn push_upper(out: &mut Vec<char>, c: char)
    ensures
        final(out)@ == old(out)@ + upper_of(c),
{
    out.extend(c.to_uppercase());
}

/// Calls `char::to_lowercase` and appends what it yields to `out`. Nothing
/// is claimed of the appended characters beyond their being a function of
/// `c`.
#[verifier::external_body]
pub(crate) fn push_lower(out: &mut Vec<char>, c: char)
    ensures
        final(out)@ == old(out)@ + lower_of(c),
{
    out.extend(c.to_lowercase());
}

/// The characters of `s`, in order.
pub fn chars_of(s: &str) -> (v: Vec<char>)
    ensures
        v@ == s@,
{
    let mut v: Vec<char> = Vec::new();
    for c in it: s.chars()
        invariant
            v@ == it.seq().take(it.index() as int),
            it.seq() == s@,
    {
        v.push(c);
    }
    v
}

/// The string made of the characters of `v`, in order.
pub fn string_of(v: &Vec<char>) -> (s: String)
    ensures
        s@ == v@,
{
    let mut s = String::new();
    let mut i: usize = 0;
    while i < v.len()
        invariant
            i <= v.len(),
            s@ == v@.take(i as int),
        decreases v.len() - i,
    {
        s.push(v[i]);
        i += 1;
    }
    s
}

/// Whether two texts hold the same characters.
pub fn same_text(a: &str, b: &str) -> (same: bool)
    ensures
        same == (a@ == b@),
{
    let x = chars_of(a);
    let y = chars_of(b);
    if x.len() != y.len() {
        return false;
    }
    let mut i: usize = 0;
    while i < x.len()
        invariant
            i <= x.len(),
            x.len() == y.len(),
            x@ == a@,
            y@ == b@,
            forall|k: int| 0 <= k < i ==> x@[k] == y@[k],
        decreases x.len() - i,
    {
        if x[i] != y[i] {
            return false;
        }
        i += 1;
    }
    assert(x@ =~= y@);
    true
}

/// The texts of a list of strings.
pub open spec fn texts(list: Seq<String>) -> Seq<Seq<char>> {
    list.map_values(|s: String| s@)
}

/// Whether a text is among those of a list.
pub fn contains_text(list: &Vec<String>, text: &str) -> (found: bool)
    ensures
        found == texts(list@).contains(text@),
{
    let mut i: usize = 0;
    while i < list.len()
        invariant
            i <= list.len(),
            forall|k: int| 0 <= k < i ==> texts(list@)[k] != text@,
        decreases list.len() - i,
    {
        if same_text(list[i].as_str(), text) {
            assert(texts(list@)[i as int] == text@);
            return true;
        }
        i += 1;
    }
    false
}

/// The pieces of `s` between occurrences of `sep`. There is always at least
/// one piece; pieces may be empty.
pub open spec fn split_on(s: Seq<char>, sep: char) -> Seq<Seq<char>>
    decreases s.len(),
{
    if s.len() == 0 {
        seq![Seq::empty()]
    } else {
        let pieces = split_on(s.drop_last(), sep);
        if s.last() == sep {
            pieces.push(Seq::empty())
        } else {
            pieces.update(pieces.len() - 1, pieces.last().push(s.last()))
        }
    }
}

/// Whether `s` is free of `c`.
pub open spec fn free_of(s: Seq<char>, c: char) -> bool {
    forall|k: int| 0 <= k < s.len() ==> #[trigger] s[k] != c
}

/// There is always a piece, and no piece holds the separator.
pub proof fn lemma_split_free(s: Seq<char>, sep: char)
    ensures
        split_on(s, sep).len() >= 1,
        forall|i: int|
            0 <= i < split_on(s, sep).len() ==> free_of(#[trigger] split_on(s, sep)[i], sep),
    decreases s.len(),
{
    if s.len() > 0 {
        lemma_split_free(s.drop_last(), sep);
        let before = split_on(s.drop_last(), sep);
        let all = split_on(s, sep);
        assert forall|i: int| 0 <= i < all.len() implies free_of(#[trigger] all[i], sep) by {
            if i < before.len() - 1 {
                assert(all[i] == before[i]);
            } else if s.last() != sep {
                assert(free_of(before[i], sep));
                assert forall|k: int| 0 <= k < all[i].len() implies #[trigger] all[i][k] != sep by {
                    if k < before[i].len() {
                        assert(all[i][k] == before[i][k]);
                    }
                }
            } else if i < before.len() {
                assert(all[i] == before[i]);
            }
        }
    }
}

/// The pieces written one after another with `sep` between them.
pub open spec fn join(pieces: Seq<Seq<char>>, sep: Seq<char>) -> Seq<char>
    decreases pieces.len(),
{
    if pieces.len() == 0 {
        Seq::empty()
    } else if pieces.len() == 1 {
        pieces[0]
    } else {
        join(pieces.drop_last(), sep) + sep + pieces.last()
    }
}

/// The pieces that are not empty, in order.
pub open spec fn non_empty(pieces: Seq<Seq<char>>) -> Seq<Seq<char>>
    decreases pieces.len(),
{
    if pieces.len() == 0 {
        Seq::empty()
    } else if pieces.last().len() == 0 {
        non_empty(pieces.drop_last())
    } else {
        non_empty(pieces.drop_last()).push(pieces.last())
    }
}

/// `s` without the white space at its end.
pub open spec fn trim_end(s: Seq<char>) -> Seq<char>
    decreases s.len(),
{
    if s.len() > 0 && is_space(s.last()) {
        trim_end(s.drop_last())
    } else {
        s
    }
}

/// `s` without the white space at its start.
pub open spec fn trim_start(s: Seq<char>) -> Seq<char>
    decreases s.len(),
{
    if s.len() > 0 && is_space(s[0]) {
        trim_start(s.drop_first())
    } else {
        s
    }
}

/// `s` without the white space at either end.
pub open spec fn trimmed(s: Seq<char>) -> Seq<char> {
    trim_start(trim_end(s))
}

/// The mathematical content of a list of pieces.
pub open spec fn pieces_view(pieces: Seq<Vec<char>>) -> Seq<Seq<char>> {
    pieces.map_values(|p: Vec<char>| p@)
}

/// Splits the characters at every occurrence of `sep`.
pub fn split_chars(s: &Vec<char>, sep: char) -> (pieces: Vec<Vec<char>>)
    ensures
        pieces_view(pieces@) == split_on(s@, sep),
{
    let mut pieces: Vec<Vec<char>> = Vec::new();
    let mut current: Vec<char> = Vec::new();
    let mut i: usize = 0;
    assert(s@.take(0) =~= Seq::<char>::empty());
    assert(pieces_view(pieces@).push(current@) =~= split_on(s@.take(0), sep));
    while i < s.len()
        invariant
            i <= s.len(),
            pieces_view(pieces@).push(current@) == split_on(s@.take(i as int), sep),
        decreases s.len() - i,
    {
        let c = s[i];
        proof {
            assert(s@.take(i + 1).drop_last() =~= s@.take(i as int));
            assert(s@.take(i + 1).last() == c);
        }
        let ghost before = pieces_view(pieces@).push(current@);
        if c == sep {
            pieces.push(current);
            current = Vec::new();
            assert(pieces_view(pieces@).push(current@) =~= before.push(Seq::empty()));
        } else {
            let ghost word = current@;
            current.push(c);
            assert(pieces_view(pieces@).push(current@) =~= before.update(
                before.len() - 1,
                word.push(c),
            ));
            assert(before.last() == word);
        }
        i += 1;
    }
    assert(s@.take(s.len() as int) =~= s@);
    pieces.push(current);
    assert(pieces_view(pieces@) =~= split_on(s@, sep));
    pieces
}

/// Drops the empty pieces.
pub fn drop_empty(pieces: Vec<Vec<char>>) -> (kept: Vec<Vec<char>>)
    ensures
        pieces_view(kept@) == non_empty(pieces_view(pieces@)),
{
    let mut kept: Vec<Vec<char>> = Vec::new();
    let mut i: usize = 0;
    assert(pieces_view(pieces@).take(0) =~= Seq::<Seq<char>>::empty());
    while i < pieces.len()
        invariant
            i <= pieces.len(),
            pieces_view(kept@) == non_empty(pieces_view(pieces@).take(i as int)),
        decreases pieces.len() - i,
    {
        proof {
            let all = pieces_view(pieces@);
            assert(all.take(i + 1).drop_last() =~= all.take(i as int));
            assert(all.take(i + 1).last() == pieces@[i as int]@);
        }
        if pieces[i].len() > 0 {
            let ghost before = pieces_view(kept@);
            let mut piece: Vec<char> = Vec::new();
            append_chars(&mut piece, &pieces[i]);
            assert(piece@ =~= pieces@[i as int]@);
            kept.push(piece);
            assert(pieces_view(kept@) =~= before.push(piece@));
        }
        i += 1;
    }
    assert(pieces_view(pieces@).take(pieces.len() as int) =~= pieces_view(pieces@));
    kept
}

/// Appends the characters of `src` to `dst`.
pub fn append_chars(dst: &mut Vec<char>, src: &Vec<char>)
    ensures
        final(dst)@ == old(dst)@ + src@,
{
    let mut i: usize = 0;
    while i < src.len()
        invariant
            i <= src.len(),
            dst@ == old(dst)@ + src@.take(i as int),
        decreases src.len() - i,
    {
        dst.push(src[i]);
        assert(src@.take(i + 1) =~= src@.take(i as int).push(src@[i as int]));
        i += 1;
    }
    assert(src@.take(src.len() as int) =~= src@);
}

/// Writes the pieces one after another with `sep` between them.
pub fn join_chars(pieces: &Vec<Vec<char>>, sep: &Vec<char>) -> (out: Vec<char>)
    ensures
        out@ == join(pieces_view(pieces@), sep@),
{
    let mut out: Vec<char> = Vec::new();
    let mut i: usize = 0;
    assert(pieces_view(pieces@).take(0) =~= Seq::<Seq<char>>::empty());
    while i < pieces.len()
        invariant
            i <= pieces.len(),
            out@ == join(pieces_view(pieces@).take(i as int), sep@),
        decreases pieces.len() - i,
    {
        proof {
            let all = pieces_view(pieces@);
            assert(all.take(i + 1).drop_last() =~= all.take(i as int));
            assert(all.take(i + 1).last() == pieces@[i as int]@);
            if i == 0 {
                assert(all.take(1)[0] == pieces@[0]@);
            }
        }
        if i > 0 {
            append_chars(&mut out, sep);
        }
        let ghost so_far = out@;
        append_chars(&mut out, &pieces[i]);
        assert(out@ =~= so_far + pieces@[i as int]@);
        i += 1;
    }
    assert(pieces_view(pieces@).take(pieces.len() as int) =~= pieces_view(pieces@));
    out
}

proof fn lemma_trim_end_take(s: Seq<char>, end: int)
    requires
        0 <= end <= s.len(),
        forall|k: int| end <= k < s.len() ==> is_space(#[trigger] s[k]),
    ensures
        trim_end(s) == trim_end(s.take(end)),
    decreases s.len() - end,
{
    if end < s.len() {
        assert(is_space(s[s.len() - 1]));
        lemma_trim_end_take(s.drop_last(), end);
        assert(s.drop_last().take(end) =~= s.take(end));
    } else {
        assert(s.take(end) =~= s);
    }
}

proof fn lemma_trim_start_skip(s: Seq<char>, start: int)
    requires
        0 <= start <= s.len(),
        forall|k: int| 0 <= k < start ==> is_space(#[trigger] s[k]),
    ensures
        trim_start(s) == trim_start(s.skip(start)),
    decreases start,
{
    if start > 0 {
        assert(is_space(s[0]));
        assert forall|k: int| 0 <= k < start - 1 implies is_space(#[trigger] s.drop_first()[k]) by {
            assert(s.drop_first()[k] == s[k + 1]);
        }
        lemma_trim_start_skip(s.drop_first(), start - 1);
        assert(s.drop_first().skip(start - 1) =~= s.skip(start));
    } else {
        assert(s.skip(0) =~= s);
    }
}

/// Removes the white space at either end.
pub fn trim_chars(s: &Vec<char>) -> (out: Vec<char>)
    ensures
        out@ == trimmed(s@),
{
    let mut end: usize = s.len();
    while end > 0 && whitespace(s[end - 1])
        invariant
            end <= s.len(),
            forall|k: int| end <= k < s.len() ==> is_space(#[trigger] s@[k]),
        decreases end,
    {
        end -= 1;
    }
    let mut start: usize = 0;
    while start < end && whitespace(s[start])
        invariant
            start <= end <= s.len(),
            forall|k: int| 0 <= k < start ==> is_space(#[trigger] s@[k]),
        decreases end - start,
    {
        start += 1;
    }
    let mut out: Vec<char> = Vec::new();
    let mut i: usize = start;
    while i < end
        invariant
            start <= i <= end <= s.len(),
            out@ == s@.subrange(start as int, i as int),
        decreases end - i,
    {
        out.push(s[i]);
        assert(s@.subrange(start as int, i + 1) =~= s@.subrange(start as int, i as int).push(
            s@[i as int],
        ));
        i += 1;
    }
    proof {
        let body = s@.take(end as int);
        lemma_trim_end_take(s@, end as int);
        if end > 0 {
            assert(body.last() == s@[end - 1]);
        }
        assert(trim_end(s@) == body);
        assert forall|k: int| 0 <= k < start implies is_space(#[trigger] body[k]) by {
            assert(body[k] == s@[k]);
        }
        lemma_trim_start_skip(body, start as int);
        let rest = body.skip(start as int);
        if start < end {
            assert(rest[0] == s@[start as int]);
        }
        assert(trim_start(rest) == rest);
        assert(rest =~= s@.subrange(start as int, end as int));
    }
    out
}

} // verus!
