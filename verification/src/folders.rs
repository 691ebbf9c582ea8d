//! The folders of an alt: the map from base folder to overriding folder, and
//! its pairs in the order in which they are taken, that of the base folders'
//! hashes.

use vstd::prelude::*;
use std::collections::HashMap;
use vstd::std_specs::hash::spec_hash_map_iter;
use vstd::std_specs::iter::IteratorSpec;
use crate::hash::PathHash;
use crate::patch::FilePair;

verus! {

broadcast use vstd::std_specs::hash::group_hash_axioms;

/// The folder that overrides the base folder `key`, if `map` has one.
pub open spec fn folder_lookup(map: Map<u64, PathHash>, key: u64) -> Option<PathHash> {
    if map.contains_key(key) {
        Some(map[key])
    } else {
        None
    }
}

/// Whether `list` names every base folder of `map` once, with the folder that
/// overrides it, and nothing else.
pub open spec fn is_listing(list: Seq<FilePair>, map: Map<u64, PathHash>) -> bool {
    &&& forall|i: int|
        0 <= i < list.len() ==> map.contains_key((#[trigger] list[i]).0.0) && map[list[i].0.0]
            == list[i].1
    &&& forall|i: int, j: int|
        0 <= i < j < list.len() ==> (#[trigger] list[i]).0.0 != (#[trigger] list[j]).0.0
    &&& forall|k: u64|
        #[trigger] map.contains_key(k) ==> exists|i: int|
            0 <= i < list.len() && (#[trigger] list[i]).0.0 == k
}

/// The folder pairs of `map`, in the order in which the map hands them out.
pub fn list_folders(map: &HashMap<u64, PathHash>) -> (list: Vec<FilePair>)
    ensures
        is_listing(list@, map@),
{
    let mut list: Vec<FilePair> = Vec::new();
    let ghost all = spec_hash_map_iter(map).remaining();
    for item in it: map.iter()
        invariant
            it.seq() == all,
            all.no_duplicates(),
            list@.len() == it.index(),
            forall|j: int|
                0 <= j < list@.len() ==> (#[trigger] list@[j]).0.0 == *all[j].0 && list@[j].1
                    == *all[j].1,
    {
        let (k, v) = item;
        list.push((PathHash(*k), *v));
    }
    proof {
        assert(list@.len() == all.len());
        assert forall|i: int| 0 <= i < list@.len() implies map@.contains_key(
            (#[trigger] list@[i]).0.0,
        ) && map@[list@[i].0.0] == list@[i].1 by {
            assert(map@.contains_key(*all[i].0) && map@[*all[i].0] == *all[i].1);
        }
        assert forall|i: int, j: int| 0 <= i < j < list@.len() implies (#[trigger] list@[i]).0.0 != (
        #[trigger] list@[j]).0.0 by {
            assert(map@.contains_key(*all[i].0) && map@[*all[i].0] == *all[i].1);
            assert(map@.contains_key(*all[j].0) && map@[*all[j].0] == *all[j].1);
            if list@[i].0.0 == list@[j].0.0 {
                assert(all[i] == all[j]);
            }
        }
        assert forall|k: u64| #[trigger] map@.contains_key(k) implies exists|i: int|
            0 <= i < list@.len() && (#[trigger] list@[i]).0.0 == k by {
            assert(all.contains((&k, &map@[k])));
            let i = choose|i: int| 0 <= i < all.len() && all[i] == (&k, &map@[k]);
            assert(list@[i].0.0 == k);
        }
    }
    list
}

/// Whether the base folders of `list` grow from each pair to the next.
pub open spec fn increasing(list: Seq<FilePair>) -> bool {
    forall|i: int, j: int|
        0 <= i < j < list.len() ==> (#[trigger] list[i]).0.0 < (#[trigger] list[j]).0.0
}

/// The folders of `map` in the order in which an alt's folders are taken:
/// that of their base folders' hashes.
pub open spec fn listing_of(map: Map<u64, PathHash>) -> Seq<FilePair> {
    choose|list: Seq<FilePair>| is_listing(list, map) && increasing(list)
}

/// A map without folders is listed by the empty list.
pub proof fn lemma_listing_of_nothing()
    ensures
        listing_of(Map::<u64, PathHash>::empty()) == Seq::<FilePair>::empty(),
{
    let map = Map::<u64, PathHash>::empty();
    let none = Seq::<FilePair>::empty();
    assert(is_listing(none, map) && increasing(none));
    let list = listing_of(map);
    if list.len() > 0 {
        assert(map.contains_key(list[0].0.0));
    }
    assert(list =~= none);
}

/// A map of folders has one listing in growing order at most.
pub proof fn lemma_listing_unique(first: Seq<FilePair>, second: Seq<FilePair>, map: Map<u64, PathHash>)
    requires
        is_listing(first, map),
        is_listing(second, map),
        increasing(first),
        increasing(second),
    ensures
        first == second,
    decreases first.len(),
{
    if first.len() == 0 {
        if second.len() > 0 {
            assert(map.contains_key(second[0].0.0));
        }
        assert(first =~= second);
    } else {
        let a = first.last();
        assert(first[first.len() - 1] == a);
        assert(map.contains_key(a.0.0));
        let j = choose|j: int| 0 <= j < second.len() && (#[trigger] second[j]).0.0 == a.0.0;
        let b = second.last();
        assert(second[second.len() - 1] == b);
        assert(map.contains_key(b.0.0));
        let i = choose|i: int| 0 <= i < first.len() && (#[trigger] first[i]).0.0 == b.0.0;
        assert(b.0.0 == a.0.0) by {
            if j < second.len() - 1 {
                assert(second[j].0.0 < second[second.len() - 1].0.0);
            }
            if i < first.len() - 1 {
                assert(first[i].0.0 < first[first.len() - 1].0.0);
            }
        }
        assert(a == b);
        let less = map.remove(a.0.0);
        lemma_listing_shorter(first, map);
        lemma_listing_shorter(second, map);
        lemma_listing_unique(first.drop_last(), second.drop_last(), less);
        assert(first =~= first.drop_last().push(a));
        assert(second =~= second.drop_last().push(b));
    }
}

/// A listing in growing order without its last pair lists the map without
/// that pair's base folder.
pub proof fn lemma_listing_shorter(list: Seq<FilePair>, map: Map<u64, PathHash>)
    requires
        is_listing(list, map),
        increasing(list),
        list.len() > 0,
    ensures
        is_listing(list.drop_last(), map.remove(list.last().0.0)),
        increasing(list.drop_last()),
{
    let short = list.drop_last();
    let top = list.last().0.0;
    let less = map.remove(top);
    let n = list.len() - 1;
    assert(list[n] == list.last());
    assert forall|i: int| 0 <= i < short.len() implies less.contains_key(
        (#[trigger] short[i]).0.0,
    ) && less[short[i].0.0] == short[i].1 by {
        assert(short[i] == list[i]);
        assert(list[i].0.0 < list[n].0.0);
    }
    assert forall|i: int, j: int| 0 <= i < j < short.len() implies (#[trigger] short[i]).0.0 < (
    #[trigger] short[j]).0.0 by {
        assert(short[i] == list[i] && short[j] == list[j]);
    }
    assert forall|k: u64| #[trigger] less.contains_key(k) implies exists|i: int|
        0 <= i < short.len() && (#[trigger] short[i]).0.0 == k by {
        assert(map.contains_key(k));
        let i = choose|i: int| 0 <= i < list.len() && (#[trigger] list[i]).0.0 == k;
        assert(i < n);
        assert(short[i] == list[i]);
    }
}

/// What a list holds after a pair was put in at place `p`: what it held, and the pair.
pub proof fn lemma_insert_holds(list: Seq<FilePair>, p: int, pair: FilePair)
    requires
        0 <= p <= list.len(),
    ensures
        forall|x: FilePair|
            #![trigger list.insert(p, pair).contains(x)]
            #![trigger list.contains(x)]
            list.insert(p, pair).contains(x) <==> list.contains(x) || x == pair,
{
    let out = list.insert(p, pair);
    assert forall|x: FilePair|
        #![trigger out.contains(x)]
        #![trigger list.contains(x)]
        out.contains(x) <==> list.contains(x) || x == pair by {
        if out.contains(x) {
            let q = choose|q: int| 0 <= q < out.len() && out[q] == x;
            if q < p {
                assert(list[q] == x);
            } else if q > p {
                assert(list[q - 1] == x);
            }
        }
        if list.contains(x) {
            let q = choose|q: int| 0 <= q < list.len() && list[q] == x;
            if q < p {
                assert(out[q] == x);
            } else {
                assert(out[q + 1] == x);
            }
        }
        if x == pair {
            assert(out[p] == x);
        }
    }
}

/// Puts `pair` into `list` where the order of the base folders asks for it.
pub fn insert_sorted(list: &mut Vec<FilePair>, pair: FilePair)
    requires
        increasing(old(list)@),
        forall|q: int| 0 <= q < old(list)@.len() ==> (#[trigger] old(list)@[q]).0.0 != pair.0.0,
    ensures
        increasing(final(list)@),
        final(list)@.len() == old(list)@.len() + 1,
        forall|x: FilePair|
            #![trigger final(list)@.contains(x)]
            #![trigger old(list)@.contains(x)]
            final(list)@.contains(x) <==> old(list)@.contains(x) || x == pair,
{
    let mut p: usize = 0;
    while p < list.len() && list[p].0.0 < pair.0.0
        invariant
            p <= list@.len(),
            forall|q: int| 0 <= q < p ==> (#[trigger] list@[q]).0.0 < pair.0.0,
        decreases list.len() - p,
    {
        p += 1;
    }
    let ghost before = list@;
    proof {
        assert forall|q: int| p <= q < before.len() implies pair.0.0 < (#[trigger] before[q]).0.0 by {
            assert(before[p as int].0.0 != pair.0.0);
            if p < q {
                assert(before[p as int].0.0 < before[q].0.0);
            }
        }
        lemma_insert_holds(before, p as int, pair);
    }
    list.insert(p, pair);
    proof {
        let after = list@;
        assert(after == before.insert(p as int, pair));
        assert(after.contains(pair)) by {
            assert(after[p as int] == pair);
        }
        assert forall|a: int, b: int| 0 <= a < b < after.len() implies (#[trigger] after[a]).0.0 < (
        #[trigger] after[b]).0.0 by {
            if a < p {
                assert(after[a] == before[a]);
            } else if a > p {
                assert(after[a] == before[a - 1]);
            }
            if b < p {
                assert(after[b] == before[b]);
            } else if b > p {
                assert(after[b] == before[b - 1]);
            }
        }
    }
}

/// The folders of `map` in the order of their base folders' hashes.
pub fn sorted_folders(map: &HashMap<u64, PathHash>) -> (list: Vec<FilePair>)
    ensures
        list@ == listing_of(map@),
        is_listing(list@, map@),
        increasing(list@),
{
    let raw = list_folders(map);
    let mut list: Vec<FilePair> = Vec::new();
    let mut i: usize = 0;
    while i < raw.len()
        invariant
            i <= raw@.len(),
            is_listing(raw@, map@),
            increasing(list@),
            forall|x: FilePair|
                #![trigger list@.contains(x)]
                #![trigger raw@.take(i as int).contains(x)]
                list@.contains(x) <==> raw@.take(i as int).contains(x),
        decreases raw.len() - i,
    {
        let pair = raw[i];
        proof {
            let front = raw@.take(i as int);
            assert forall|q: int| 0 <= q < list@.len() implies (#[trigger] list@[q]).0.0
                != pair.0.0 by {
                assert(list@.contains(list@[q]));
                let j = choose|j: int| 0 <= j < front.len() && front[j] == list@[q];
                assert(raw@[j].0.0 != raw@[i as int].0.0);
            }
            assert(raw@.take(i + 1) =~= front.insert(i as int, pair));
            lemma_insert_holds(front, i as int, pair);
        }
        insert_sorted(&mut list, pair);
        i += 1;
    }
    proof {
        assert(raw@.take(raw@.len() as int) =~= raw@);
        assert forall|q: int| 0 <= q < list@.len() implies map@.contains_key(
            (#[trigger] list@[q]).0.0,
        ) && map@[list@[q].0.0] == list@[q].1 by {
            assert(list@.contains(list@[q]));
            let j = choose|j: int| 0 <= j < raw@.len() && raw@[j] == list@[q];
            assert(map@.contains_key(raw@[j].0.0));
        }
        assert forall|k: u64| #[trigger] map@.contains_key(k) implies exists|q: int|
            0 <= q < list@.len() && (#[trigger] list@[q]).0.0 == k by {
            let j = choose|j: int| 0 <= j < raw@.len() && (#[trigger] raw@[j]).0.0 == k;
            assert(raw@.contains(raw@[j]));
            let q = choose|q: int| 0 <= q < list@.len() && list@[q] == raw@[j];
            assert(list@[q].0.0 == k);
        }
        assert(is_listing(list@, map@));
        lemma_listing_unique(list@, listing_of(map@), map@);
    }
    list
}

} // verus!
