//! The order fix: a variant folder's sibling chain rewritten in the order of its
//! base folder, level by level down the folders that match by name.

use vstd::prelude::*;
use crate::hash::PathHash;
use crate::index::{chain, links_ok, Frame, Links, SearchIndex};
use crate::order::{append_missing, corrected, lemma_corrected_members, match_of, matched};
use crate::search::first_named;
use crate::table::NO_LINK;

verus! {

/// The link that entry `k` of `order` gets: the entry after it, `NO_LINK` for the last.
pub open spec fn successor(order: Seq<u32>, k: int) -> u32 {
    if k + 1 < order.len() {
        order[k + 1]
    } else {
        NO_LINK
    }
}

/// The first entry of `order`, `NO_LINK` where there is none.
pub open spec fn head(order: Seq<u32>) -> u32 {
    if order.len() == 0 {
        NO_LINK
    } else {
        order[0]
    }
}

/// The sibling links after the first `n` entries of `order` were linked up.
pub open spec fn linked(next: Seq<u32>, order: Seq<u32>, n: nat) -> Seq<u32>
    decreases n,
{
    if n == 0 {
        next
    } else {
        linked(next, order, (n - 1) as nat).update(
            order[n - 1] as int,
            successor(order, n - 1),
        )
    }
}

/// The links after `order` was written as the chain of folder `folder`.
pub open spec fn written(links: Links, folder: int, order: Seq<u32>) -> Links {
    Links {
        first: links.first.update(folder, head(order)),
        next: linked(links.next, order, order.len()),
    }
}

/// Whether `order` can be written as a chain over `limit` entries: its entries
/// are numbers below `limit`, each there once.
pub open spec fn writable(order: Seq<u32>, limit: int) -> bool {
    &&& order.no_duplicates()
    &&& forall|k: int| 0 <= k < order.len() ==> #[trigger] order[k] < limit
}

/// A list of different numbers below `limit` has at most `limit` entries.
pub proof fn lemma_writable_len(order: Seq<u32>, limit: int)
    requires
        writable(order, limit),
        limit >= 0,
    ensures
        order.len() <= limit,
    decreases limit,
{
    if order.len() > 0 && limit == 0 {
        assert(order[0] < limit);
    } else if order.len() > 0 {
        let top = (limit - 1) as u32;
        if order.contains(top) {
            let p = choose|p: int| 0 <= p < order.len() && order[p] == top;
            let rest = order.remove(p);
            lemma_writable_len(rest, limit - 1);
        } else {
            lemma_writable_len(order, limit - 1);
        }
    }
}

/// What linking up does: each linked entry leads to its successor, every other
/// link stays, and links that were in range stay in range.
pub proof fn lemma_linked(next: Seq<u32>, order: Seq<u32>, n: nat)
    requires
        n <= order.len(),
        writable(order, next.len() as int),
    ensures
        linked(next, order, n).len() == next.len(),
        forall|k: int|
            0 <= k < n ==> linked(next, order, n)[#[trigger] order[k] as int] == successor(order, k),
        forall|e: int|
            0 <= e < next.len() && (forall|k: int| 0 <= k < n ==> order[k] != e) ==> linked(
                next,
                order,
                n,
            )[e] == next[e],
        links_ok(next, next.len() as int) ==> links_ok(linked(next, order, n), next.len() as int),
    decreases n,
{
    if n > 0 {
        lemma_linked(next, order, (n - 1) as nat);
    }
}

/// A chain that was written reads back as it was written.
pub proof fn lemma_read_back(next: Seq<u32>, order: Seq<u32>, k: int, fuel: nat)
    requires
        writable(order, next.len() as int),
        next.len() <= NO_LINK,
        0 <= k <= order.len(),
        fuel >= order.len() - k,
    ensures
        chain(
            linked(next, order, order.len()),
            if k < order.len() {
                order[k]
            } else {
                NO_LINK
            },
            fuel,
        ) == order.skip(k),
    decreases order.len() - k,
{
    lemma_linked(next, order, order.len());
    if k < order.len() {
        lemma_read_back(next, order, k + 1, (fuel - 1) as nat);
    }
}

/// After `order` was written as the chain of a folder, the folder's children are `order`.
pub proof fn lemma_written_children(frame: Frame, links: Links, hash: u64, order: Seq<u32>)
    requires
        writable(order, links.next.len() as int),
        links.next.len() <= NO_LINK,
        frame.folder_of(links.first.len() as int, hash) is Some,
    ensures
        frame.children(
            written(links, frame.folder_of(links.first.len() as int, hash).unwrap(), order),
            hash,
        ) == order,
{
    lemma_linked(links.next, order, order.len());
    lemma_writable_len(order, links.next.len() as int);
    lemma_read_back(links.next, order, 0, links.next.len());
}

/// A chain reads the same under links that agree on its entries.
pub proof fn lemma_chain_frame(next: Seq<u32>, other: Seq<u32>, start: u32, fuel: nat)
    requires
        next.len() == other.len(),
        forall|k: int|
            0 <= k < chain(next, start, fuel).len() ==> other[#[trigger] chain(
                next,
                start,
                fuel,
            )[k] as int] == next[chain(next, start, fuel)[k] as int],
    ensures
        chain(other, start, fuel) == chain(next, start, fuel),
    decreases fuel,
{
    if fuel > 0 && start != NO_LINK && start < next.len() {
        let rest = chain(next, next[start as int], (fuel - 1) as nat);
        let whole = chain(next, start, fuel);
        assert(whole[0] == start);
        assert forall|k: int| 0 <= k < rest.len() implies other[#[trigger] rest[k] as int]
            == next[rest[k] as int] by {
            assert(whole[k + 1] == rest[k]);
        }
        lemma_chain_frame(next, other, next[start as int], (fuel - 1) as nat);
    }
}

/// The links after the order fix went down from the base folder `src` and the
/// variant folder `dst`, at most `fuel` levels deep. Nothing happens where `dst`
/// is no folder entry of the index or `src` has no children. Otherwise the fix
/// first goes down, in the order of the base, into each folder of the variant
/// that stands for a base entry, and then writes the corrected order of the
/// variant's children as the variant's chain.
pub open spec fn fixed(frame: Frame, links: Links, src: u64, dst: u64, fuel: nat) -> Links
    decreases fuel, 0nat, 0nat,
{
    if fuel == 0 {
        links
    } else {
        match frame.entry_of(dst) {
            None => links,
            Some(d) => if !frame.paths[d as int].is_directory {
                links
            } else {
                let base = frame.children(links, src);
                if base.len() == 0 {
                    links
                } else {
                    let below = fixed_below(frame, links, base, dst, (fuel - 1) as nat);
                    match frame.folder_of(below.first.len() as int, dst) {
                        None => below,
                        Some(f) => written(
                            below,
                            f,
                            corrected(frame.paths, base, frame.children(below, dst)),
                        ),
                    }
                }
            },
        }
    }
}

/// The links after the order fix went down into the folders of the variant
/// `dst` that stand for the entries of `base`, one after the other.
pub open spec fn fixed_below(frame: Frame, links: Links, base: Seq<u32>, dst: u64, fuel: nat) -> Links
    decreases fuel, 1nat, base.len(),
{
    if base.len() == 0 {
        links
    } else {
        let before = fixed_below(frame, links, base.drop_last(), dst, fuel);
        match match_of(frame.paths, frame.children(before, dst), base.last()) {
            Some(d) => if frame.paths[d as int].is_directory {
                fixed(
                    frame,
                    before,
                    frame.paths[base.last() as int].path.0,
                    frame.paths[d as int].path.0,
                    fuel,
                )
            } else {
                before
            },
            None => before,
        }
    }
}

/// Whether the order fix of `dst` against `src` writes a chain: there is fuel,
/// `dst` is a folder entry and a folder of the index, and `src` has children.
pub open spec fn fix_applies(search: &SearchIndex, src: u64, dst: u64, fuel: nat) -> bool {
    &&& fuel > 0
    &&& search.entry_of(dst) matches Some(d) && search.paths@[d as int].is_directory
    &&& search.children_of(src).len() > 0
    &&& search.folder_of(dst) is Some
}

/// Whether `list` holds `x`.
pub fn list_contains(list: &Vec<u32>, x: u32) -> (found: bool)
    ensures
        found == list@.contains(x),
{
    let mut i: usize = 0;
    while i < list.len()
        invariant
            i <= list@.len(),
            forall|k: int| 0 <= k < i ==> list@[k] != x,
        decreases list.len() - i,
    {
        if list[i] == x {
            return true;
        }
        i += 1;
    }
    false
}

/// The corrected order of `variant` against `base`.
pub fn corrected_order(search: &SearchIndex, base: &Vec<u32>, variant: &Vec<u32>) -> (order: Vec<
    u32,
>)
    requires
        forall|i: int| 0 <= i < base@.len() ==> #[trigger] base@[i] < search.paths@.len(),
        forall|i: int| 0 <= i < variant@.len() ==> #[trigger] variant@[i] < search.paths@.len(),
    ensures
        order@ == corrected(search.paths@, base@, variant@),
        writable(order@, search.paths@.len() as int),
{
    let mut order: Vec<u32> = Vec::new();
    let mut i: usize = 0;
    while i < base.len()
        invariant
            i <= base@.len(),
            forall|k: int| 0 <= k < base@.len() ==> #[trigger] base@[k] < search.paths@.len(),
            forall|k: int| 0 <= k < variant@.len() ==> #[trigger] variant@[k] < search.paths@.len(),
            order@ == matched(search.paths@, base@.take(i as int), variant@),
        decreases base.len() - i,
    {
        let ghost front = base@.take(i + 1);
        assert(front.drop_last() =~= base@.take(i as int));
        let name = search.paths[base[i] as usize].file_name;
        match first_named(search, variant, name) {
            Some(d) => {
                if !list_contains(&order, d) {
                    order.push(d);
                }
            },
            None => {},
        }
        i += 1;
    }
    assert(base@.take(base@.len() as int) =~= base@);
    let mut j: usize = 0;
    while j < variant.len()
        invariant
            j <= variant@.len(),
            order@ == append_missing(
                matched(search.paths@, base@, variant@),
                variant@.take(j as int),
            ),
        decreases variant.len() - j,
    {
        let ghost front = variant@.take(j + 1);
        assert(front.drop_last() =~= variant@.take(j as int));
        let x = variant[j];
        if !list_contains(&order, x) {
            order.push(x);
        }
        j += 1;
    }
    assert(variant@.take(variant@.len() as int) =~= variant@);
    proof {
        lemma_corrected_members(search.paths@, base@, variant@);
        assert forall|k: int| 0 <= k < order@.len() implies #[trigger] order@[k]
            < search.paths@.len() by {
            assert(variant@.contains(order@[k]));
        }
    }
    order
}

/// Writes `order` as the chain of folder `folder`: the folder's first child is
/// the first entry, each entry leads to the next, the last to nothing.
pub fn write_chain(search: &mut SearchIndex, folder: usize, order: &Vec<u32>)
    requires
        old(search).wf(),
        folder < old(search).first_child@.len(),
        writable(order@, old(search).paths@.len() as int),
    ensures
        final(search).wf(),
        final(search).same_entries(old(search)),
        final(search).links() == written(old(search).links(), folder as int, order@),
{
    let ghost start = *search;
    if order.len() == 0 {
        search.first_child[folder] = NO_LINK;
        return;
    }
    search.first_child[folder] = order[0];
    let mut n: usize = 0;
    while n < order.len()
        invariant
            n <= order@.len(),
            order@.len() > 0,
            start.wf(),
            writable(order@, start.paths@.len() as int),
            search.same_entries(&start),
            search.first_child@ == start.first_child@.update(folder as int, order@[0]),
            search.next@ == linked(start.next@, order@, n as nat),
        decreases order.len() - n,
    {
        let link = if n + 1 < order.len() {
            order[n + 1]
        } else {
            NO_LINK
        };
        search.next[order[n] as usize] = link;
        n += 1;
    }
    proof {
        lemma_linked(start.next@, order@, order@.len());
    }
}

/// Fixes the order of the variant folder `dst` against the base folder `src`,
/// and of the folders below that match by name, as deep as the index has folders.
pub fn file_order_fix(search: &mut SearchIndex, src: PathHash, dst: PathHash)
    requires
        old(search).wf(),
    ensures
        final(search).wf(),
        final(search).same_entries(old(search)),
        final(search).links() == fixed(
            old(search).frame(),
            old(search).links(),
            src.0,
            dst.0,
            old(search).first_child@.len() as nat,
        ),
        fix_applies(old(search), src.0, dst.0, old(search).first_child@.len() as nat)
            ==> final(search).children_of(dst.0) == corrected(
            old(search).paths@,
            old(search).children_of(src.0),
            old(search).frame().children(
                fixed_below(
                    old(search).frame(),
                    old(search).links(),
                    old(search).children_of(src.0),
                    dst.0,
                    (old(search).first_child@.len() - 1) as nat,
                ),
                dst.0,
            ),
        ),
{
    let depth = search.first_child.len();
    fix_levels(search, src, dst, depth);
}

/// Fixes the order of `dst` against `src`, at most `fuel` levels deep.
pub fn fix_levels(search: &mut SearchIndex, src: PathHash, dst: PathHash, fuel: usize)
    requires
        old(search).wf(),
    ensures
        final(search).wf(),
        final(search).same_entries(old(search)),
        final(search).links() == fixed(
            old(search).frame(),
            old(search).links(),
            src.0,
            dst.0,
            fuel as nat,
        ),
        fix_applies(old(search), src.0, dst.0, fuel as nat) ==> final(search).children_of(dst.0)
            == corrected(
            old(search).paths@,
            old(search).children_of(src.0),
            old(search).frame().children(
                fixed_below(
                    old(search).frame(),
                    old(search).links(),
                    old(search).children_of(src.0),
                    dst.0,
                    (fuel - 1) as nat,
                ),
                dst.0,
            ),
        ),
    decreases fuel,
{
    let ghost start = *search;
    let ghost frame = search.frame();
    if fuel == 0 {
        return;
    }
    let target = match search.entry(dst) {
        Some(d) => d,
        None => {
            return;
        },
    };
    if !search.paths[target as usize].is_directory {
        return;
    }
    let base = search.children(src);
    if base.len() == 0 {
        return;
    }
    let mut i: usize = 0;
    while i < base.len()
        invariant
            i <= base@.len(),
            fuel > 0,
            search.wf(),
            search.same_entries(&start),
            frame == start.frame(),
            forall|k: int| 0 <= k < base@.len() ==> #[trigger] base@[k] < search.paths@.len(),
            search.links() == fixed_below(
                frame,
                start.links(),
                base@.take(i as int),
                dst.0,
                (fuel - 1) as nat,
            ),
        decreases base.len() - i,
    {
        let ghost front = base@.take(i + 1);
        assert(front.drop_last() =~= base@.take(i as int));
        let from = search.paths[base[i] as usize];
        let variant = search.children(dst);
        match first_named(search, &variant, from.file_name) {
            Some(d) => {
                proof {
                    crate::order::lemma_find_named(search.paths@, variant@, from.file_name.0);
                }
                let to = search.paths[d as usize];
                if to.is_directory {
                    fix_levels(search, from.path, to.path, fuel - 1);
                }
            },
            None => {},
        }
        i += 1;
    }
    assert(base@.take(base@.len() as int) =~= base@);
    let folder = match search.folder(dst) {
        Some(f) => f,
        None => {
            return;
        },
    };
    let variant = search.children(dst);
    let order = corrected_order(search, &base, &variant);
    let ghost below = search.links();
    write_chain(search, folder, &order);
    proof {
        lemma_written_children(frame, below, dst.0, order@);
    }
}

} // verus!
