//! Grouping of items by a textual key.

use crate::text::{contains_text, same_text, texts};
use vstd::prelude::*;

verus! {

/// The keys without repetitions, in the order of first occurrence.
pub open spec fn distinct(keys: Seq<Seq<char>>) -> Seq<Seq<char>>
    decreases keys.len(),
{
    if keys.len() == 0 {
        Seq::empty()
    } else {
        let head = distinct(keys.drop_last());
        if head.contains(keys.last()) {
            head
        } else {
            head.push(keys.last())
        }
    }
}

/// The positions at which `key` occurs among the keys, ascending.
pub open spec fn positions(keys: Seq<Seq<char>>, key: Seq<char>) -> Seq<int>
    decreases keys.len(),
{
    if keys.len() == 0 {
        Seq::empty()
    } else {
        let head = positions(keys.drop_last(), key);
        if keys.last() == key {
            head.push(keys.len() - 1)
        } else {
            head
        }
    }
}

/// How often each distinct key occurs, in the order of the distinct keys.
pub open spec fn sizes_of(keys: Seq<Seq<char>>) -> Seq<int> {
    distinct(keys).map_values(|k: Seq<char>| positions(keys, k).len() as int)
}

/// The positions of a key are positions of the keys, they ascend, and the
/// key stands at each of them and nowhere else.
pub proof fn lemma_positions(keys: Seq<Seq<char>>, key: Seq<char>)
    ensures
        positions(keys, key).len() <= keys.len(),
        forall|j: int|
            0 <= j < positions(keys, key).len() ==> 0 <= (#[trigger] positions(keys, key)[j])
                < keys.len() && keys[positions(keys, key)[j]] == key,
        forall|i: int, j: int|
            0 <= i < j < positions(keys, key).len() ==> (#[trigger] positions(keys, key)[i]) < (
            #[trigger] positions(keys, key)[j]),
        forall|p: int|
            0 <= p < keys.len() && #[trigger] keys[p] == key ==> positions(keys, key).contains(p),
    decreases keys.len(),
{
    if keys.len() > 0 {
        let rest = keys.drop_last();
        lemma_positions(rest, key);
        let head = positions(rest, key);
        let all = positions(keys, key);
        assert forall|j: int| 0 <= j < all.len() implies 0 <= (#[trigger] all[j]) < keys.len()
            && keys[all[j]] == key by {
            if j < head.len() {
                assert(all[j] == head[j]);
                assert(rest[head[j]] == keys[head[j]]);
            }
        }
        assert forall|i: int, j: int| 0 <= i < j < all.len() implies (#[trigger] all[i]) < (
        #[trigger] all[j]) by {
            assert(all[i] == head[i]);
            if j < head.len() {
                assert(all[j] == head[j]);
            }
        }
        assert forall|p: int| 0 <= p < keys.len() && #[trigger] keys[p] == key implies all.contains(
            p,
        ) by {
            if p < rest.len() {
                assert(rest[p] == key);
                let j = choose|j: int| 0 <= j < head.len() && head[j] == p;
                assert(all[j] == p);
            } else {
                assert(all[all.len() - 1] == p);
            }
        }
    }
}

/// The distinct keys hold every key once.
pub proof fn lemma_distinct(keys: Seq<Seq<char>>)
    ensures
        distinct(keys).no_duplicates(),
        forall|i: int| 0 <= i < keys.len() ==> distinct(keys).contains(#[trigger] keys[i]),
        forall|g: int|
            0 <= g < distinct(keys).len() ==> keys.contains(#[trigger] distinct(keys)[g]),
    decreases keys.len(),
{
    if keys.len() > 0 {
        let rest = keys.drop_last();
        lemma_distinct(rest);
        let head = distinct(rest);
        let all = distinct(keys);
        assert forall|i: int| 0 <= i < keys.len() implies all.contains(#[trigger] keys[i]) by {
            if i < rest.len() {
                assert(rest[i] == keys[i]);
                let g = choose|g: int| 0 <= g < head.len() && head[g] == keys[i];
                assert(all[g] == keys[i]);
            } else if head.contains(keys.last()) {
                let g = choose|g: int| 0 <= g < head.len() && head[g] == keys.last();
                assert(all[g] == keys[i]);
            } else {
                assert(all[all.len() - 1] == keys[i]);
            }
        }
        assert forall|g: int| 0 <= g < all.len() implies keys.contains(#[trigger] all[g]) by {
            if g < head.len() {
                assert(all[g] == head[g]);
                let i = choose|i: int| 0 <= i < rest.len() && rest[i] == head[g];
                assert(keys[i] == all[g]);
            } else {
                assert(keys[keys.len() - 1] == all[g]);
            }
        }
        assert forall|a: int, b: int| 0 <= a < all.len() && 0 <= b < all.len() && a != b implies all[a]
            != all[b] by {
            if a < head.len() && b < head.len() {
                assert(all[a] == head[a] && all[b] == head[b]);
            } else {
                let m = if a < b { a } else { b };
                assert(all[m] == head[m]);
            }
        }
    }
}

/// Every distinct key occurs somewhere.
pub proof fn lemma_group_not_empty(keys: Seq<Seq<char>>, g: int)
    requires
        0 <= g < distinct(keys).len(),
    ensures
        positions(keys, distinct(keys)[g]).len() > 0,
{
    lemma_distinct(keys);
    let key = distinct(keys)[g];
    let p = choose|p: int| 0 <= p < keys.len() && keys[p] == key;
    lemma_positions(keys, key);
    assert(positions(keys, key).contains(p));
}

/// The keys without repetitions, in the order of first occurrence.
pub fn distinct_keys(keys: &Vec<String>) -> (names: Vec<String>)
    ensures
        texts(names@) == distinct(texts(keys@)),
{
    let ghost source = texts(keys@);
    let mut names: Vec<String> = Vec::new();
    let mut i: usize = 0;
    assert(source.take(0) =~= Seq::<Seq<char>>::empty());
    while i < keys.len()
        invariant
            i <= keys.len(),
            source == texts(keys@),
            texts(names@) == distinct(source.take(i as int)),
        decreases keys.len() - i,
    {
        proof {
            assert(source.take(i + 1).drop_last() =~= source.take(i as int));
            assert(source.take(i + 1).last() == keys@[i as int]@);
        }
        if !contains_text(&names, keys[i].as_str()) {
            let ghost before = texts(names@);
            names.push(keys[i].clone());
            assert(texts(names@) =~= before.push(keys@[i as int]@));
        }
        i += 1;
    }
    assert(source.take(keys.len() as int) =~= source);
    names
}

/// The positions of a list of indices, as integers.
pub open spec fn as_ints(at: Seq<usize>) -> Seq<int> {
    at.map_values(|i: usize| i as int)
}

/// The positions at which `key` occurs among the keys, ascending.
pub fn positions_of(keys: &Vec<String>, key: &str) -> (at: Vec<usize>)
    ensures
        as_ints(at@) == positions(texts(keys@), key@),
{
    let ghost source = texts(keys@);
    let mut at: Vec<usize> = Vec::new();
    let mut i: usize = 0;
    assert(source.take(0) =~= Seq::<Seq<char>>::empty());
    while i < keys.len()
        invariant
            i <= keys.len(),
            source == texts(keys@),
            as_ints(at@) == positions(source.take(i as int), key@),
        decreases keys.len() - i,
    {
        proof {
            assert(source.take(i + 1).drop_last() =~= source.take(i as int));
            assert(source.take(i + 1).last() == keys@[i as int]@);
        }
        if same_text(keys[i].as_str(), key) {
            let ghost before = as_ints(at@);
            at.push(i);
            assert(as_ints(at@) =~= before.push(i as int));
        }
        i += 1;
    }
    assert(source.take(keys.len() as int) =~= source);
    at
}

} // verus!
