//! The lookup patcher: redirecting the link stored for a base file to the link
//! of its variant file, and restoring links from a snapshot.

use vstd::prelude::*;
use std::collections::BTreeMap;
use crate::hash::PathHash;
use vstd::std_specs::btree::spec_btree_map_iter;
use vstd::std_specs::iter::IteratorSpec;
use crate::index::{link_ok, slots_ok};
use crate::table::{LinkTable, NO_LINK};

verus! {

broadcast use {vstd::laws_cmp::group_laws_cmp, vstd::std_specs::btree::group_btree_axioms};

/// A base file and the variant file that takes its place.
pub type FilePair = (PathHash, PathHash);

/// The table after one redirection: the base file's slot holds what the variant
/// file's slot holds. Where the table lacks either file, nothing changes.
pub open spec fn patch_one(table: Map<u64, u32>, pair: FilePair) -> Map<u64, u32> {
    if table.dom().contains(pair.0.0) && table.dom().contains(pair.1.0) {
        table.insert(pair.0.0, table[pair.1.0])
    } else {
        table
    }
}

/// The table after the redirections of `pairs`, one after the other.
pub open spec fn patched(table: Map<u64, u32>, pairs: Seq<FilePair>) -> Map<u64, u32>
    decreases pairs.len(),
{
    if pairs.len() == 0 {
        table
    } else {
        patch_one(patched(table, pairs.drop_last()), pairs.last())
    }
}

/// The table after one base file's slot was restored from `backup`. Where the
/// table or the backup lacks the file, nothing changes.
pub open spec fn restore_one(table: Map<u64, u32>, pair: FilePair, backup: Map<u64, u32>) -> Map<
    u64,
    u32,
> {
    if table.dom().contains(pair.0.0) && backup.dom().contains(pair.0.0) {
        table.insert(pair.0.0, backup[pair.0.0])
    } else {
        table
    }
}

/// The table after the base files of `pairs` were restored from `backup`.
pub open spec fn restored(table: Map<u64, u32>, pairs: Seq<FilePair>, backup: Map<u64, u32>) -> Map<
    u64,
    u32,
>
    decreases pairs.len(),
{
    if pairs.len() == 0 {
        table
    } else {
        restore_one(restored(table, pairs.drop_last(), backup), pairs.last(), backup)
    }
}

/// Whether `key` is the base file of one of `pairs`.
pub open spec fn is_base(pairs: Seq<FilePair>, key: u64) -> bool {
    exists|i: int| 0 <= i < pairs.len() && (#[trigger] pairs[i]).0.0 == key
}

/// Whether `key` is the variant file of one of `pairs`.
pub open spec fn is_variant(pairs: Seq<FilePair>, key: u64) -> bool {
    exists|i: int| 0 <= i < pairs.len() && (#[trigger] pairs[i]).1.0 == key
}

/// Whether no redirection of `pairs` changes what another one reads: a file
/// that is some pair's variant is a base only of pairs that lead to itself.
pub open spec fn stable(pairs: Seq<FilePair>) -> bool {
    forall|i: int, j: int|
        0 <= i < pairs.len() && 0 <= j < pairs.len() && (#[trigger] pairs[i]).1.0 == (
        #[trigger] pairs[j]).0.0 ==> pairs[j].1.0 == pairs[j].0.0
}

/// Whether `backup` records every slot of `table` with the index it holds.
pub open spec fn snapshot_of(backup: Map<u64, u32>, table: Map<u64, u32>) -> bool {
    forall|k: u64| table.dom().contains(k) ==> backup.dom().contains(k) && backup[k] == table[k]
}

/// Redirecting keeps the slots that the table has, and changes base files only.
pub proof fn lemma_patched_frame(table: Map<u64, u32>, pairs: Seq<FilePair>)
    ensures
        patched(table, pairs).dom() == table.dom(),
        forall|k: u64| !is_base(pairs, k) ==> patched(table, pairs)[k] == table[k],
    decreases pairs.len(),
{
    if pairs.len() > 0 {
        let shorter = pairs.drop_last();
        lemma_patched_frame(table, shorter);
        assert forall|k: u64| !is_base(pairs, k) implies patched(table, pairs)[k] == table[k] by {}
    }
}

/// Restoring keeps the slots that the table has, sets each base file that the
/// table and the backup have to its backup, and changes nothing else.
pub proof fn lemma_restored(table: Map<u64, u32>, pairs: Seq<FilePair>, backup: Map<u64, u32>)
    ensures
        restored(table, pairs, backup).dom() == table.dom(),
        forall|k: u64|
            table.dom().contains(k) ==> restored(table, pairs, backup)[k] == (if is_base(pairs, k)
                && backup.dom().contains(k) {
                backup[k]
            } else {
                table[k]
            }),
    decreases pairs.len(),
{
    if pairs.len() > 0 {
        let shorter = pairs.drop_last();
        lemma_restored(table, shorter, backup);
        let out = restored(table, pairs, backup);
        assert forall|k: u64| table.dom().contains(k) implies out[k] == (if is_base(pairs, k)
            && backup.dom().contains(k) {
            backup[k]
        } else {
            table[k]
        }) by {
            if is_base(shorter, k) {}
            if is_base(pairs, k) && !is_base(shorter, k) {
                let i = choose|i: int| 0 <= i < pairs.len() && (#[trigger] pairs[i]).0.0 == k;
                if i < shorter.len() {
                    assert(shorter[i] == pairs[i]);
                }
            }
        }
    }
}

/// Reverting undoes applying: after the redirections of `pairs` and the
/// restoring of their base files from a snapshot of the table as it was before,
/// every slot holds what it held before.
pub proof fn law_revert_after_apply(table: Map<u64, u32>, pairs: Seq<FilePair>, backup: Map<u64, u32>)
    requires
        snapshot_of(backup, table),
    ensures
        restored(patched(table, pairs), pairs, backup) == table,
{
    let mid = patched(table, pairs);
    lemma_patched_frame(table, pairs);
    lemma_restored(mid, pairs, backup);
}

/// Reverting undoes applying in whatever order the pairs come: after the
/// redirections of `first` and the restoring of the base files of `second`,
/// which has every base file of `first`, every slot holds what it held before.
pub proof fn law_revert_in_any_order(
    table: Map<u64, u32>,
    first: Seq<FilePair>,
    second: Seq<FilePair>,
    backup: Map<u64, u32>,
)
    requires
        snapshot_of(backup, table),
        forall|k: u64| is_base(first, k) ==> is_base(second, k),
    ensures
        restored(patched(table, first), second, backup) == table,
{
    let mid = patched(table, first);
    let out = restored(mid, second, backup);
    lemma_patched_frame(table, first);
    lemma_restored(mid, second, backup);
    assert forall|k: u64| table.dom().contains(k) implies out[k] == table[k] by {
        if !is_base(second, k) {
            assert(!is_base(first, k));
        }
    }
    assert(out =~= table);
}

/// Whether all pairs of one base file have the same variant file.
pub open spec fn single_valued(pairs: Seq<FilePair>) -> bool {
    forall|i: int, j: int|
        0 <= i < pairs.len() && 0 <= j < pairs.len() && (#[trigger] pairs[i]).0.0 == (
        #[trigger] pairs[j]).0.0 ==> pairs[i].1.0 == pairs[j].1.0
}

/// What a slot holds after the redirections of pairs that are stable and
/// single-valued: a base file whose pair the table has in full holds what the
/// table held for the variant file, every other slot what it held.
pub proof fn lemma_patched_slot(table: Map<u64, u32>, pairs: Seq<FilePair>, key: u64)
    requires
        stable(pairs),
        single_valued(pairs),
        table.dom().contains(key),
    ensures
        forall|i: int|
            0 <= i < pairs.len() && (#[trigger] pairs[i]).0.0 == key && table.dom().contains(
                pairs[i].1.0,
            ) ==> patched(table, pairs)[key] == table[pairs[i].1.0],
        (forall|i: int|
            0 <= i < pairs.len() && (#[trigger] pairs[i]).0.0 == key ==> !table.dom().contains(
                pairs[i].1.0,
            )) ==> patched(table, pairs)[key] == table[key],
    decreases pairs.len(),
{
    if pairs.len() > 0 {
        let shorter = pairs.drop_last();
        let last = pairs.len() - 1;
        let (base, variant) = pairs.last();
        let mid = patched(table, shorter);
        assert forall|i: int| 0 <= i < shorter.len() implies #[trigger] shorter[i] == pairs[i] by {}
        assert(stable(shorter)) by {
            assert forall|i: int, j: int|
                0 <= i < shorter.len() && 0 <= j < shorter.len() && (#[trigger] shorter[i]).1.0 == (
                #[trigger] shorter[j]).0.0 implies shorter[j].1.0 == shorter[j].0.0 by {
                assert(pairs[i].1.0 == pairs[j].0.0);
            }
        }
        assert(single_valued(shorter)) by {
            assert forall|i: int, j: int|
                0 <= i < shorter.len() && 0 <= j < shorter.len() && (#[trigger] shorter[i]).0.0 == (
                #[trigger] shorter[j]).0.0 implies shorter[i].1.0 == shorter[j].1.0 by {
                assert(pairs[i].0.0 == pairs[j].0.0);
            }
        }
        lemma_patched_frame(table, shorter);
        lemma_patched_slot(table, shorter, key);
        if table.dom().contains(base.0) && table.dom().contains(variant.0) {
            lemma_patched_slot(table, shorter, variant.0);
            assert(mid[variant.0] == table[variant.0]) by {
                if exists|i: int| 0 <= i < shorter.len() && (#[trigger] shorter[i]).0.0 == variant.0 {
                    let i = choose|i: int|
                        0 <= i < shorter.len() && (#[trigger] shorter[i]).0.0 == variant.0;
                    assert(pairs[last].1.0 == pairs[i].0.0);
                    assert(shorter[i].1.0 == variant.0);
                }
            }
        }
        assert forall|i: int|
            0 <= i < pairs.len() && (#[trigger] pairs[i]).0.0 == key && table.dom().contains(
                pairs[i].1.0,
            ) implies patched(table, pairs)[key] == table[pairs[i].1.0] by {
            assert(pairs[i].0.0 == key);
            if key == base.0 {
                assert(pairs[i].0.0 == pairs[last].0.0);
                assert(pairs[i].1.0 == variant.0);
            } else {
                assert(i < shorter.len());
                assert(shorter[i] == pairs[i]);
            }
        }
        if forall|i: int|
            0 <= i < pairs.len() && (#[trigger] pairs[i]).0.0 == key ==> !table.dom().contains(
                pairs[i].1.0,
            ) {
            assert forall|i: int|
                0 <= i < shorter.len() && (#[trigger] shorter[i]).0.0
                    == key implies !table.dom().contains(shorter[i].1.0) by {
                assert(pairs[i].0.0 == key);
            }
            if key == base.0 {
                assert(pairs[last].0.0 == key);
            }
        }
    }
}

/// The order of the redirections does not matter where they are stable and
/// single-valued: two lists of the same pairs give the same table.
pub proof fn law_patch_order_free(table: Map<u64, u32>, first: Seq<FilePair>, second: Seq<FilePair>)
    requires
        stable(first),
        single_valued(first),
        forall|p: FilePair| first.contains(p) <==> second.contains(p),
    ensures
        patched(table, first) == patched(table, second),
{
    assert forall|j: int| 0 <= j < second.len() implies first.contains(#[trigger] second[j]) by {
        assert(second.contains(second[j]));
    }
    assert(stable(second)) by {
        assert forall|i: int, j: int|
            0 <= i < second.len() && 0 <= j < second.len() && (#[trigger] second[i]).1.0 == (
            #[trigger] second[j]).0.0 implies second[j].1.0 == second[j].0.0 by {
            let a = choose|a: int| 0 <= a < first.len() && first[a] == second[i];
            let b = choose|b: int| 0 <= b < first.len() && first[b] == second[j];
            assert(first[a].1.0 == first[b].0.0);
        }
    }
    assert(single_valued(second)) by {
        assert forall|i: int, j: int|
            0 <= i < second.len() && 0 <= j < second.len() && (#[trigger] second[i]).0.0 == (
            #[trigger] second[j]).0.0 implies second[i].1.0 == second[j].1.0 by {
            let a = choose|a: int| 0 <= a < first.len() && first[a] == second[i];
            let b = choose|b: int| 0 <= b < first.len() && first[b] == second[j];
            assert(first[a].0.0 == first[b].0.0);
        }
    }
    lemma_patched_frame(table, first);
    lemma_patched_frame(table, second);
    let one = patched(table, first);
    let two = patched(table, second);
    assert forall|k: u64| table.dom().contains(k) implies one[k] == two[k] by {
        lemma_patched_slot(table, first, k);
        lemma_patched_slot(table, second, k);
        if exists|i: int|
            0 <= i < first.len() && (#[trigger] first[i]).0.0 == k && table.dom().contains(
                first[i].1.0,
            ) {
            let i = choose|i: int|
                0 <= i < first.len() && (#[trigger] first[i]).0.0 == k && table.dom().contains(
                    first[i].1.0,
                );
            assert(first.contains(first[i]));
            let j = choose|j: int| 0 <= j < second.len() && second[j] == first[i];
            assert(second[j].0.0 == k);
        } else {
            assert forall|j: int|
                0 <= j < second.len() && (#[trigger] second[j]).0.0
                    == k implies !table.dom().contains(second[j].1.0) by {
                let a = choose|a: int| 0 <= a < first.len() && first[a] == second[j];
                assert(first[a].0.0 == k);
            }
        }
    }
    assert(one =~= two);
}

/// Reverting sets every patched slot to its snapshot: whatever the table held
/// before the redirections of `pairs`, after the restoring of their base files
/// from `backup` the slot of each base file holds what `backup` holds for it.
pub proof fn law_revert_restores_snapshot(
    table: Map<u64, u32>,
    pairs: Seq<FilePair>,
    backup: Map<u64, u32>,
    key: u64,
)
    requires
        is_base(pairs, key),
        table.dom().contains(key),
        backup.dom().contains(key),
    ensures
        restored(patched(table, pairs), pairs, backup)[key] == backup[key],
{
    lemma_patched_frame(table, pairs);
    lemma_restored(patched(table, pairs), pairs, backup);
}

/// Redirections that are stable leave alone what they read.
pub proof fn lemma_patched_reads(table: Map<u64, u32>, pairs: Seq<FilePair>, upto: int)
    requires
        stable(pairs),
        0 <= upto <= pairs.len(),
    ensures
        patched(table, pairs.take(upto)).dom() == table.dom(),
        forall|k: u64| is_variant(pairs, k) ==> patched(table, pairs.take(upto))[k] == table[k],
    decreases upto,
{
    let front = pairs.take(upto);
    if upto > 0 {
        lemma_patched_reads(table, pairs, upto - 1);
        assert(front.drop_last() =~= pairs.take(upto - 1));
        assert forall|k: u64| is_variant(pairs, k) implies patched(table, front)[k] == table[k] by {}
    }
}

/// Whether one of the first `upto` pairs writes the slot of `key` in a table with
/// the slots `slots`.
pub open spec fn writes(pairs: Seq<FilePair>, slots: Set<u64>, upto: int, key: u64) -> bool {
    exists|i: int|
        0 <= i < upto && (#[trigger] pairs[i]).0.0 == key && slots.contains(pairs[i].0.0)
            && slots.contains(pairs[i].1.0)
}

/// Two tables with the same slots that agree on what stable redirections read
/// agree, after the redirections, on what these wrote; the rest is as it was.
pub proof fn lemma_patched_agree(
    a: Map<u64, u32>,
    b: Map<u64, u32>,
    pairs: Seq<FilePair>,
    upto: int,
)
    requires
        stable(pairs),
        0 <= upto <= pairs.len(),
        a.dom() == b.dom(),
        forall|k: u64| is_variant(pairs, k) && a.dom().contains(k) ==> a[k] == b[k],
    ensures
        forall|k: u64|
            writes(pairs, a.dom(), upto, k) ==> patched(a, pairs.take(upto))[k] == patched(
                b,
                pairs.take(upto),
            )[k],
        forall|k: u64|
            !writes(pairs, a.dom(), upto, k) ==> patched(a, pairs.take(upto))[k] == a[k] && patched(
                b,
                pairs.take(upto),
            )[k] == b[k],
    decreases upto,
{
    let front = pairs.take(upto);
    if upto > 0 {
        lemma_patched_agree(a, b, pairs, upto - 1);
        lemma_patched_reads(a, pairs, upto - 1);
        lemma_patched_reads(b, pairs, upto - 1);
        assert(front.drop_last() =~= pairs.take(upto - 1));
        let pair = pairs[upto - 1];
        assert(is_variant(pairs, pair.1.0));
        assert forall|k: u64| writes(pairs, a.dom(), upto, k) implies patched(a, front)[k]
            == patched(b, front)[k] by {
            if !(pair.0.0 == k && a.dom().contains(pair.0.0) && a.dom().contains(pair.1.0)) {
                assert(writes(pairs, a.dom(), upto - 1, k));
            }
        }
        assert forall|k: u64| !writes(pairs, a.dom(), upto, k) implies patched(a, front)[k] == a[k]
            && patched(b, front)[k] == b[k] by {
            if writes(pairs, a.dom(), upto - 1, k) {}
        }
    }
}

/// Applying twice is applying once: where no redirection of `pairs` changes
/// what another one reads, the redirections leave a table that they have
/// already been applied to as it is.
pub proof fn law_apply_twice(table: Map<u64, u32>, pairs: Seq<FilePair>)
    requires
        stable(pairs),
    ensures
        patched(patched(table, pairs), pairs) == patched(table, pairs),
{
    let once = patched(table, pairs);
    let n = pairs.len() as int;
    assert(pairs.take(n) =~= pairs);
    lemma_patched_reads(table, pairs, n);
    lemma_patched_frame(once, pairs);
    lemma_patched_agree(once, table, pairs, n);
}

/// Applies the redirections of `pairs` to `table`, one after the other.
pub fn apply_pairs(table: &mut LinkTable, pairs: &Vec<FilePair>)
    requires
        old(table).wf(),
    ensures
        final(table).wf(),
        final(table).same_layout(old(table)),
        final(table)@ == patched(old(table)@, pairs@),
        forall|limit: int|
            slots_ok(old(table).slots@, limit) ==> slots_ok(final(table).slots@, limit),
{
    let ghost start = *table;
    let mut i: usize = 0;
    while i < pairs.len()
        invariant
            i <= pairs@.len(),
            table.wf(),
            table.same_layout(&start),
            table@ == patched(start@, pairs@.take(i as int)),
            forall|limit: int| slots_ok(start.slots@, limit) ==> slots_ok(table.slots@, limit),
        decreases pairs.len() - i,
    {
        let ghost front = pairs@.take(i + 1);
        assert(front.drop_last() =~= pairs@.take(i as int));
        let (base, variant) = pairs[i];
        match table.find(variant.0) {
            Some(p) => {
                let index = table.slots[p].index;
                table.set(base.0, index);
            },
            None => {},
        }
        i += 1;
    }
    assert(pairs@.take(pairs@.len() as int) =~= pairs@);
}

/// Whether every index that `backup` holds is `NO_LINK` or below `limit`.
pub open spec fn values_ok(backup: Map<u64, u32>, limit: int) -> bool {
    forall|k: u64| backup.contains_key(k) ==> link_ok(#[trigger] backup[k], limit)
}

/// Restores the slots of the base files of `pairs` from `backup`.
pub fn restore_pairs(table: &mut LinkTable, pairs: &Vec<FilePair>, backup: &BTreeMap<u64, u32>)
    requires
        old(table).wf(),
    ensures
        final(table).wf(),
        final(table).same_layout(old(table)),
        final(table)@ == restored(old(table)@, pairs@, backup@),
        forall|limit: int|
            slots_ok(old(table).slots@, limit) && values_ok(backup@, limit) ==> slots_ok(
                final(table).slots@,
                limit,
            ),
{
    let ghost start = *table;
    let mut i: usize = 0;
    assert(pairs@.take(0) =~= Seq::<FilePair>::empty());
    while i < pairs.len()
        invariant
            i <= pairs@.len(),
            table.wf(),
            table.same_layout(&start),
            table@ == restored(start@, pairs@.take(i as int), backup@),
            forall|limit: int|
                slots_ok(start.slots@, limit) && values_ok(backup@, limit) ==> slots_ok(
                    table.slots@,
                    limit,
                ),
        decreases pairs.len() - i,
    {
        let ghost front = pairs@.take(i + 1);
        assert(front.drop_last() =~= pairs@.take(i as int));
        assert(front.last() == pairs@[i as int]);
        let (base, _variant) = pairs[i];
        let ghost before = *table;
        match backup.get(&base.0) {
            Some(held) => {
                let index = *held;
                assert(backup@.contains_key(base.0) && backup@[base.0] == index);
                table.set(base.0, index);
                proof {
                    assert forall|limit: int|
                        slots_ok(start.slots@, limit) && values_ok(
                            backup@,
                            limit,
                        ) implies slots_ok(table.slots@, limit) by {
                        assert(slots_ok(before.slots@, limit));
                        assert(link_ok(backup@[base.0], limit));
                        assert forall|k: int| 0 <= k < table.slots@.len() implies link_ok(
                            #[trigger] table.slots@[k].index,
                            limit,
                        ) by {
                            assert(link_ok(before.slots@[k].index, limit));
                        }
                    }
                }
            },
            None => {
                assert(!backup@.contains_key(base.0));
            },
        }
        i += 1;
    }
    assert(pairs@.take(pairs@.len() as int) =~= pairs@);
}

/// Whether every index that `backup` holds is `NO_LINK` or below `limit`.
pub fn values_in_range(backup: &BTreeMap<u64, u32>, limit: usize) -> (ok: bool)
    ensures
        ok == values_ok(backup@, limit as int),
{
    let ghost all = spec_btree_map_iter(backup).remaining();
    for item in it: backup.iter()
        invariant
            it.seq() == all,
            forall|j: int| 0 <= j < it.index() ==> link_ok(*(#[trigger] all[j]).1, limit as int),
    {
        let (k, v) = item;
        if *v != NO_LINK && *v as usize >= limit {
            proof {
                let j = it.index();
                assert(backup@.contains_key(*all[j].0) && backup@[*all[j].0] == *all[j].1);
            }
            return false;
        }
    }
    proof {
        assert forall|k: u64| backup@.contains_key(k) implies link_ok(
            #[trigger] backup@[k],
            limit as int,
        ) by {
            assert(all.contains((&k, &backup@[k])));
            let j = choose|j: int| 0 <= j < all.len() && all[j] == (&k, &backup@[k]);
            assert(link_ok(*all[j].1, limit as int));
        }
    }
    true
}

/// Whether `second` has every key of `first`, with the same index.
pub open spec fn covered(first: Map<u64, u32>, second: Map<u64, u32>) -> bool {
    forall|k: u64| #[trigger]
        first.contains_key(k) ==> second.contains_key(k) && second[k] == first[k]
}

/// Whether `second` has every key of `first`, with the same index.
pub fn covers(first: &BTreeMap<u64, u32>, second: &BTreeMap<u64, u32>) -> (ok: bool)
    ensures
        ok == covered(first@, second@),
{
    let ghost all = spec_btree_map_iter(first).remaining();
    for item in it: first.iter()
        invariant
            it.seq() == all,
            forall|j: int|
                0 <= j < it.index() ==> second@.contains_key(*(#[trigger] all[j]).0)
                    && second@[*all[j].0] == *all[j].1,
    {
        let (k, v) = item;
        let same = match second.get(k) {
            Some(other) => *other == *v,
            None => false,
        };
        if !same {
            proof {
                let j = it.index();
                assert(first@.contains_key(*all[j].0) && first@[*all[j].0] == *all[j].1);
            }
            return false;
        }
    }
    proof {
        assert forall|k: u64| #[trigger] first@.contains_key(k) implies second@.contains_key(k)
            && second@[k] == first@[k] by {
            assert(all.contains((&k, &first@[k])));
            let j = choose|j: int| 0 <= j < all.len() && all[j] == (&k, &first@[k]);
            assert(second@.contains_key(*all[j].0));
        }
    }
    true
}

/// Whether `table` holds `backup` with the redirections of `pairs`.
pub fn is_patched(table: &LinkTable, backup: &BTreeMap<u64, u32>, pairs: &Vec<FilePair>) -> (ok:
    bool)
    requires
        table.wf(),
    ensures
        ok == (table@ == patched(backup@, pairs@)),
{
    let mut want = backup.clone();
    let mut i: usize = 0;
    assert(pairs@.take(0) =~= Seq::<FilePair>::empty());
    while i < pairs.len()
        invariant
            i <= pairs@.len(),
            want@ == patched(backup@, pairs@.take(i as int)),
        decreases pairs.len() - i,
    {
        let ghost front = pairs@.take(i + 1);
        assert(front.drop_last() =~= pairs@.take(i as int));
        let (base, variant) = pairs[i];
        if want.contains_key(&base.0) {
            let found = match want.get(&variant.0) {
                Some(index) => Some(*index),
                None => None,
            };
            match found {
                Some(index) => {
                    want.insert(base.0, index);
                },
                None => {},
            }
        }
        i += 1;
    }
    assert(pairs@.take(pairs@.len() as int) =~= pairs@);
    let have = table.backup();
    let ok = covers(&have, &want) && covers(&want, &have);
    proof {
        if ok {
            assert(have@ =~= want@);
        }
    }
    ok
}

} // verus!
