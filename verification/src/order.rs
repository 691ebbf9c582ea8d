//! The corrected sibling order of a variant folder: the order of its base folder
//! as far as names match, then what only the variant has.

use vstd::prelude::*;
use crate::index::PathEntry;
use crate::search::find_named;

verus! {

/// The file name of entry `entry`.
pub open spec fn name_of(paths: Seq<PathEntry>, entry: u32) -> u64 {
    paths[entry as int].file_name.0
}

/// The variant entry that stands for base entry `base`: the first entry of
/// `variant` with the same file name.
pub open spec fn match_of(paths: Seq<PathEntry>, variant: Seq<u32>, base: u32) -> Option<u32> {
    find_named(paths, variant, name_of(paths, base))
}

/// The variant entries that stand for the entries of `base`, in the order of
/// `base`, each once.
pub open spec fn matched(paths: Seq<PathEntry>, base: Seq<u32>, variant: Seq<u32>) -> Seq<u32>
    decreases base.len(),
{
    if base.len() == 0 {
        Seq::empty()
    } else {
        let before = matched(paths, base.drop_last(), variant);
        match match_of(paths, variant, base.last()) {
            Some(d) => if before.contains(d) {
                before
            } else {
                before.push(d)
            },
            None => before,
        }
    }
}

/// `list` appended to `start`, without the entries that are already there.
pub open spec fn append_missing(start: Seq<u32>, list: Seq<u32>) -> Seq<u32>
    decreases list.len(),
{
    if list.len() == 0 {
        start
    } else {
        let before = append_missing(start, list.drop_last());
        if before.contains(list.last()) {
            before
        } else {
            before.push(list.last())
        }
    }
}

/// The corrected order of `variant` against `base`: the matched entries in the
/// order of `base`, then the other entries of `variant` in their own order.
pub open spec fn corrected(paths: Seq<PathEntry>, base: Seq<u32>, variant: Seq<u32>) -> Seq<u32> {
    append_missing(matched(paths, base, variant), variant)
}

/// Whether `a` stands before `b` in `list`.
pub open spec fn stands_before(list: Seq<u32>, a: u32, b: u32) -> bool {
    exists|p: int, q: int| 0 <= p < q < list.len() && list[p] == a && list[q] == b
}

/// Whether `entry` stands for some entry of `base`.
pub open spec fn is_matched(paths: Seq<PathEntry>, base: Seq<u32>, variant: Seq<u32>, entry: u32) -> bool {
    exists|i: int| 0 <= i < base.len() && match_of(paths, variant, #[trigger] base[i]) == Some(entry)
}

/// What a lookup by name finds: an entry of the list that carries the name and
/// has no entry with that name before it; it finds nothing only where no entry
/// carries the name.
pub proof fn lemma_find_named(paths: Seq<PathEntry>, list: Seq<u32>, name: u64)
    ensures
        match find_named(paths, list, name) {
            Some(d) => exists|k: int|
                0 <= k < list.len() && #[trigger] list[k] == d && d < paths.len()
                    && name_of(paths, d) == name && forall|j: int|
                    0 <= j < k ==> !(#[trigger] list[j] < paths.len() && name_of(
                        paths,
                        list[j],
                    ) == name),
            None => forall|j: int|
                0 <= j < list.len() ==> !(#[trigger] list[j] < paths.len() && name_of(
                    paths,
                    list[j],
                ) == name),
        },
    decreases list.len(),
{
    if list.len() > 0 && !(list[0] < paths.len() && name_of(paths, list[0]) == name) {
        let rest = list.skip(1);
        lemma_find_named(paths, rest, name);
        match find_named(paths, rest, name) {
            Some(d) => {
                let k = choose|k: int|
                    0 <= k < rest.len() && #[trigger] rest[k] == d && d < paths.len()
                        && name_of(paths, d) == name && forall|j: int|
                        0 <= j < k ==> !(#[trigger] rest[j] < paths.len() && name_of(
                            paths,
                            rest[j],
                        ) == name);
                assert forall|j: int| 0 <= j < k + 1 implies !(#[trigger] list[j]
                    < paths.len() && name_of(paths, list[j]) == name) by {
                    if j > 0 {
                        assert(rest[j - 1] == list[j]);
                    }
                }
            },
            None => {
                assert forall|j: int| 0 <= j < list.len() implies !(#[trigger] list[j]
                    < paths.len() && name_of(paths, list[j]) == name) by {
                    if j > 0 {
                        assert(rest[j - 1] == list[j]);
                    }
                }
            },
        }
    }
}

/// What appending the missing entries gives: `start` stays in front, every entry
/// of `list` is there, nothing else is, and nothing is there twice unless it was
/// twice in `start`.
pub proof fn lemma_append_missing(start: Seq<u32>, list: Seq<u32>)
    ensures
        append_missing(start, list).len() >= start.len(),
        append_missing(start, list).take(start.len() as int) == start,
        forall|x: u32| list.contains(x) ==> append_missing(start, list).contains(x),
        forall|x: u32|
            append_missing(start, list).contains(x) ==> start.contains(x) || list.contains(x),
        forall|k: int|
            start.len() <= k < append_missing(start, list).len() ==> !start.contains(
                #[trigger] append_missing(start, list)[k],
            ),
        start.no_duplicates() ==> append_missing(start, list).no_duplicates(),
    decreases list.len(),
{
    let out = append_missing(start, list);
    if list.len() > 0 {
        let shorter = list.drop_last();
        let before = append_missing(start, shorter);
        lemma_append_missing(start, shorter);
        let x = list.last();
        assert forall|y: u32| list.contains(y) implies out.contains(y) by {
            let k = choose|k: int| 0 <= k < list.len() && list[k] == y;
            if k < list.len() - 1 {
                assert(shorter[k] == y);
                assert(shorter.contains(y));
                let p = choose|p: int| 0 <= p < before.len() && before[p] == y;
                assert(out[p] == y);
            } else {
                if !before.contains(x) {
                    assert(out[before.len() as int] == x);
                }
            }
        }
        assert forall|y: u32| out.contains(y) implies start.contains(y) || list.contains(y) by {}
    }
}

/// Appending to a front of a list without duplicates the list itself gives the list.
pub proof fn lemma_append_missing_self(start: Seq<u32>, whole: Seq<u32>, upto: int)
    requires
        whole.no_duplicates(),
        start.len() <= whole.len(),
        whole.take(start.len() as int) == start,
        0 <= upto <= whole.len(),
    ensures
        append_missing(start, whole.take(upto)) == (if upto <= start.len() {
            start
        } else {
            whole.take(upto)
        }),
    decreases upto,
{
    if upto > 0 {
        let list = whole.take(upto);
        lemma_append_missing_self(start, whole, upto - 1);
        assert(list.drop_last() =~= whole.take(upto - 1));
    }
}

/// What the matched entries are: each stands for an entry of the base, each
/// entry that stands for one is among them, and none is there twice.
pub proof fn lemma_matched(paths: Seq<PathEntry>, base: Seq<u32>, variant: Seq<u32>)
    ensures
        matched(paths, base, variant).no_duplicates(),
        forall|x: u32|
            matched(paths, base, variant).contains(x) <==> is_matched(paths, base, variant, x),
    decreases base.len(),
{
    let out = matched(paths, base, variant);
    if base.len() > 0 {
        let shorter = base.drop_last();
        let before = matched(paths, shorter, variant);
        lemma_matched(paths, shorter, variant);
        assert forall|x: u32| out.contains(x) <==> is_matched(paths, base, variant, x) by {
            if out.contains(x) {
                let p = choose|p: int| 0 <= p < out.len() && out[p] == x;
                if p < before.len() {
                    assert(is_matched(paths, shorter, variant, x));
                }
            }
            if is_matched(paths, base, variant, x) {
                let i = choose|i: int|
                    0 <= i < base.len() && match_of(paths, variant, #[trigger] base[i]) == Some(x);
                if i < base.len() - 1 {
                    assert(shorter[i] == base[i]);
                    assert(is_matched(paths, shorter, variant, x));
                    let p = choose|p: int| 0 <= p < before.len() && before[p] == x;
                    assert(out[p] == x);
                } else {
                    if !before.contains(x) {
                        assert(out[before.len() as int] == x);
                    }
                }
            }
        }
    }
}

/// The matched entries of a front of the base are a front of the matched entries
/// of the whole base.
pub proof fn lemma_matched_front(paths: Seq<PathEntry>, base: Seq<u32>, variant: Seq<u32>, upto: int)
    requires
        0 <= upto <= base.len(),
    ensures
        matched(paths, base.take(upto), variant).len() <= matched(paths, base, variant).len(),
        matched(paths, base, variant).take(
            matched(paths, base.take(upto), variant).len() as int,
        ) == matched(paths, base.take(upto), variant),
    decreases base.len() - upto,
{
    if upto == base.len() {
        assert(base.take(upto) =~= base);
    } else {
        lemma_matched_front(paths, base, variant, upto + 1);
        let longer = base.take(upto + 1);
        assert(longer.drop_last() =~= base.take(upto));
    }
}

/// Lists in which the names of the base find the same entries give the same
/// matched entries.
pub proof fn lemma_matched_same(paths: Seq<PathEntry>, base: Seq<u32>, a: Seq<u32>, b: Seq<u32>)
    requires
        forall|i: int|
            0 <= i < base.len() ==> match_of(paths, a, #[trigger] base[i]) == match_of(
                paths,
                b,
                base[i],
            ),
    ensures
        matched(paths, base, a) == matched(paths, base, b),
    decreases base.len(),
{
    if base.len() > 0 {
        let shorter = base.drop_last();
        lemma_matched_same(paths, shorter, a, b);
    }
}

/// Every entry of the corrected order is an entry of the variant.
pub proof fn lemma_corrected_members(paths: Seq<PathEntry>, base: Seq<u32>, variant: Seq<u32>)
    ensures
        corrected(paths, base, variant).no_duplicates(),
        forall|x: u32| corrected(paths, base, variant).contains(x) <==> variant.contains(x),
        matched(paths, base, variant).len() <= corrected(paths, base, variant).len(),
        corrected(paths, base, variant).take(matched(paths, base, variant).len() as int)
            == matched(paths, base, variant),
{
    let m = matched(paths, base, variant);
    let out = corrected(paths, base, variant);
    lemma_matched(paths, base, variant);
    lemma_append_missing(m, variant);
    assert forall|x: u32| out.contains(x) implies variant.contains(x) by {
        if m.contains(x) {
            assert(is_matched(paths, base, variant, x));
            let i = choose|i: int|
                0 <= i < base.len() && match_of(paths, variant, #[trigger] base[i]) == Some(x);
            lemma_find_named(paths, variant, name_of(paths, base[i]));
        }
    }
}

/// The names of the base find in the corrected order what they find in the variant.
pub proof fn lemma_corrected_same_matches(paths: Seq<PathEntry>, base: Seq<u32>, variant: Seq<u32>)
    ensures
        forall|i: int|
            0 <= i < base.len() ==> match_of(
                paths,
                corrected(paths, base, variant),
                #[trigger] base[i],
            ) == match_of(paths, variant, base[i]),
{
    let m = matched(paths, base, variant);
    let out = corrected(paths, base, variant);
    lemma_corrected_members(paths, base, variant);
    lemma_matched(paths, base, variant);
    assert forall|i: int| 0 <= i < base.len() implies match_of(paths, out, #[trigger] base[i])
        == match_of(paths, variant, base[i]) by {
        let n = name_of(paths, base[i]);
        lemma_find_named(paths, variant, n);
        lemma_find_named(paths, out, n);
        match find_named(paths, variant, n) {
            None => {
                if find_named(paths, out, n) is Some {
                    let e = find_named(paths, out, n).unwrap();
                    assert(variant.contains(e));
                }
            },
            Some(d) => {
                assert(is_matched(paths, base, variant, d));
                let e = find_named(paths, out, n).unwrap();
                let k = choose|k: int|
                    0 <= k < out.len() && #[trigger] out[k] == e && e < paths.len()
                        && name_of(paths, e) == n && forall|j: int|
                        0 <= j < k ==> !(#[trigger] out[j] < paths.len() && name_of(
                            paths,
                            out[j],
                        ) == n);
                assert(out.take(m.len() as int)[k] == e);
                assert(is_matched(paths, base, variant, e));
                let i2 = choose|i2: int|
                    0 <= i2 < base.len() && match_of(paths, variant, #[trigger] base[i2]) == Some(
                        e,
                    );
                lemma_find_named(paths, variant, name_of(paths, base[i2]));
            },
        }
    }
}

/// The order correction changes nothing when it runs again: correcting the
/// corrected order of a variant against the same base gives that order back.
pub proof fn law_correction_idempotent(paths: Seq<PathEntry>, base: Seq<u32>, variant: Seq<u32>)
    ensures
        corrected(paths, base, corrected(paths, base, variant)) == corrected(
            paths,
            base,
            variant,
        ),
{
    let m = matched(paths, base, variant);
    let out = corrected(paths, base, variant);
    lemma_corrected_members(paths, base, variant);
    lemma_corrected_same_matches(paths, base, variant);
    lemma_matched_same(paths, base, out, variant);
    lemma_append_missing_self(m, out, out.len() as int);
    assert(out.take(out.len() as int) =~= out);
}

/// The matched entries keep the order of the base: where base entry `i` stands
/// before base entry `j`, the two are matched by different variant entries, and
/// no earlier base entry is matched by the same entry as `j`, the entry for `i`
/// stands before the entry for `j` in the corrected order.
pub proof fn law_correction_keeps_base_order(
    paths: Seq<PathEntry>,
    base: Seq<u32>,
    variant: Seq<u32>,
    i: int,
    j: int,
)
    requires
        0 <= i < j < base.len(),
        match_of(paths, variant, base[i]) is Some,
        match_of(paths, variant, base[j]) is Some,
        match_of(paths, variant, base[i]) != match_of(paths, variant, base[j]),
        forall|k: int|
            0 <= k < j ==> match_of(paths, variant, #[trigger] base[k]) != match_of(
                paths,
                variant,
                base[j],
            ),
    ensures
        stands_before(
            corrected(paths, base, variant),
            match_of(paths, variant, base[i]).unwrap(),
            match_of(paths, variant, base[j]).unwrap(),
        ),
{
    let a = match_of(paths, variant, base[i]).unwrap();
    let b = match_of(paths, variant, base[j]).unwrap();
    let front = base.take(j);
    let longer = base.take(j + 1);
    let mf = matched(paths, front, variant);
    let ml = matched(paths, longer, variant);
    lemma_matched(paths, front, variant);
    assert(front[i] == base[i]);
    assert(is_matched(paths, front, variant, a));
    if mf.contains(b) {
        assert(is_matched(paths, front, variant, b));
    }
    assert(longer.drop_last() =~= front);
    lemma_matched_front(paths, base, variant, j + 1);
    lemma_corrected_members(paths, base, variant);
    let p = choose|p: int| 0 <= p < mf.len() && mf[p] == a;
    let q = mf.len() as int;
    assert(ml[p] == a && ml[q] == b);
}

/// What only the variant has comes last: in the corrected order every entry that
/// stands for a base entry stands before every entry that stands for none.
pub proof fn law_correction_variant_only_last(
    paths: Seq<PathEntry>,
    base: Seq<u32>,
    variant: Seq<u32>,
    x: u32,
    y: u32,
)
    requires
        variant.contains(x),
        variant.contains(y),
        is_matched(paths, base, variant, x),
        !is_matched(paths, base, variant, y),
    ensures
        stands_before(corrected(paths, base, variant), x, y),
{
    let m = matched(paths, base, variant);
    let out = corrected(paths, base, variant);
    lemma_matched(paths, base, variant);
    lemma_corrected_members(paths, base, variant);
    let q = choose|q: int| 0 <= q < out.len() && out[q] == y;
    if q < m.len() {
        assert(out.take(m.len() as int)[q] == y);
    }
}

} // verus!
