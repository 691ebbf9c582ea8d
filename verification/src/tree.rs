//! The order fix on an index whose folders form a forest: a second run changes
//! no link.

use vstd::prelude::*;
use crate::fix::{
    fixed, fixed_below, head, lemma_chain_frame, lemma_linked, successor, writable, written,
};
use crate::index::{chain, lemma_chain_bounds, Frame, Links};
use crate::order::{
    corrected, law_correction_idempotent, lemma_corrected_members, lemma_corrected_same_matches,
    lemma_find_named, match_of, name_of,
};
use crate::table::NO_LINK;

verus! {

/// Whether the order fix of `dst` against `src`, `fuel` levels deep, finds
/// every chain as it would write it.
pub open spec fn settled(frame: Frame, links: Links, src: u64, dst: u64, fuel: nat) -> bool
    decreases fuel, 0nat, 0nat,
{
    if fuel == 0 {
        true
    } else {
        match frame.entry_of(dst) {
            None => true,
            Some(d) => if !frame.paths[d as int].is_directory {
                true
            } else {
                let base = frame.children(links, src);
                if base.len() == 0 {
                    true
                } else {
                    &&& settled_below(frame, links, base, dst, (fuel - 1) as nat)
                    &&& match frame.folder_of(links.first.len() as int, dst) {
                        None => true,
                        Some(f) => written(
                            links,
                            f,
                            corrected(frame.paths, base, frame.children(links, dst)),
                        ) == links,
                    }
                }
            },
        }
    }
}

/// Whether the order fix, going down from `dst` into the folders that stand
/// for the entries of `base`, finds every chain as it would write it.
pub open spec fn settled_below(frame: Frame, links: Links, base: Seq<u32>, dst: u64, fuel: nat) -> bool
    decreases fuel, 1nat, base.len(),
{
    if base.len() == 0 {
        true
    } else {
        &&& settled_below(frame, links, base.drop_last(), dst, fuel)
        &&& match match_of(frame.paths, frame.children(links, dst), base.last()) {
            Some(d) => frame.paths[d as int].is_directory ==> settled(
                frame,
                links,
                frame.paths[base.last() as int].path.0,
                frame.paths[d as int].path.0,
                fuel,
            ),
            None => true,
        }
    }
}

/// The order fix changes nothing where every chain is as it would write it.
pub proof fn lemma_settled_stays(frame: Frame, links: Links, src: u64, dst: u64, fuel: nat)
    requires
        settled(frame, links, src, dst, fuel),
    ensures
        fixed(frame, links, src, dst, fuel) == links,
    decreases fuel, 0nat, 0nat,
{
    if fuel > 0 {
        let base = frame.children(links, src);
        if frame.entry_of(dst) is Some && frame.paths[frame.entry_of(dst).unwrap() as int].is_directory
            && base.len() > 0 {
            lemma_settled_below_stays(frame, links, base, dst, (fuel - 1) as nat);
        }
    }
}

/// Going down changes nothing where every chain is as the fix would write it.
pub proof fn lemma_settled_below_stays(
    frame: Frame,
    links: Links,
    base: Seq<u32>,
    dst: u64,
    fuel: nat,
)
    requires
        settled_below(frame, links, base, dst, fuel),
    ensures
        fixed_below(frame, links, base, dst, fuel) == links,
    decreases fuel, 1nat, base.len(),
{
    if base.len() > 0 {
        lemma_settled_below_stays(frame, links, base.drop_last(), dst, fuel);
        match match_of(frame.paths, frame.children(links, dst), base.last()) {
            Some(d) => {
                if frame.paths[d as int].is_directory {
                    lemma_settled_stays(
                        frame,
                        links,
                        frame.paths[base.last() as int].path.0,
                        frame.paths[d as int].path.0,
                        fuel,
                    );
                }
            },
            None => {},
        }
    }
}

/// The children of folder number `f`.
pub open spec fn kids(links: Links, f: int) -> Seq<u32> {
    chain(links.next, links.first[f], links.next.len())
}

/// Whether `f` is the number of a folder.
pub open spec fn is_folder(links: Links, f: int) -> bool {
    0 <= f < links.first.len()
}

/// The number of the folder that entry `e` stands for.
pub open spec fn folder_at(frame: Frame, links: Links, e: u32) -> Option<int> {
    frame.folder_of(links.first.len() as int, frame.paths[e as int].path.0)
}

/// Whether the span of folder `f` lies within the span of folder `top`.
pub open spec fn within(spans: Seq<(int, int)>, top: int, f: int) -> bool {
    spans[top].0 <= spans[f].0 && spans[f].1 <= spans[top].1
}

/// Whether the spans of the folders `a` and `b` do not meet.
pub open spec fn apart(spans: Seq<(int, int)>, a: int, b: int) -> bool {
    spans[a].1 <= spans[b].0 || spans[b].1 <= spans[a].0
}

/// Whether the folders of the index form a forest, with `spans` as witness:
/// each folder has a span that is not empty; the span of a folder that lies in
/// another lies strictly within that folder's span, and the spans of two
/// folders that lie in one folder do not meet. Besides, no entry stands in two
/// chains or twice in one, and no two entries of one chain have the same name.
pub open spec fn forest(frame: Frame, links: Links, spans: Seq<(int, int)>) -> bool {
    &&& links.next.len() <= NO_LINK
    &&& links.next.len() == frame.paths.len()
    &&& spans.len() == links.first.len()
    &&& forall|f: int| is_folder(links, f) ==> (#[trigger] spans[f]).0 < spans[f].1
    &&& forall|f: int| is_folder(links, f) ==> (#[trigger] kids(links, f)).no_duplicates()
    &&& forall|f: int, g: int, e: u32|
        is_folder(links, f) && is_folder(links, g) && f != g && #[trigger] kids(
            links,
            f,
        ).contains(e) ==> !#[trigger] kids(links, g).contains(e)
    &&& forall|f: int, a: u32, b: u32|
        is_folder(links, f) && #[trigger] kids(links, f).contains(a) && #[trigger] kids(
            links,
            f,
        ).contains(b) && a != b ==> name_of(frame.paths, a) != name_of(frame.paths, b)
    &&& forall|f: int, e: u32|
        is_folder(links, f) && #[trigger] kids(links, f).contains(e) ==> nested(
            frame,
            links,
            spans,
            f,
            e,
        )
    &&& forall|f: int, a: u32, b: u32|
        is_folder(links, f) && #[trigger] kids(links, f).contains(a) && #[trigger] kids(
            links,
            f,
        ).contains(b) && a != b ==> beside(frame, links, spans, a, b)
}

/// Whether the folder that entry `e` stands for, if any, has its span strictly
/// within the span of folder `f`.
pub open spec fn nested(frame: Frame, links: Links, spans: Seq<(int, int)>, f: int, e: u32) -> bool {
    match folder_at(frame, links, e) {
        Some(g) => spans[f].0 < spans[g].0 && spans[g].1 <= spans[f].1,
        None => true,
    }
}

/// Whether the folders that the entries `a` and `b` stand for, if both stand
/// for one, have spans that do not meet.
pub open spec fn beside(frame: Frame, links: Links, spans: Seq<(int, int)>, a: u32, b: u32) -> bool {
    match (folder_at(frame, links, a), folder_at(frame, links, b)) {
        (Some(g), Some(h)) => apart(spans, g, h),
        _ => true,
    }
}

/// Whether the links `after` have the chains of `before` as sets, each entry once.
pub open spec fn same_sets(before: Links, after: Links) -> bool {
    &&& after.first.len() == before.first.len()
    &&& after.next.len() == before.next.len()
    &&& forall|f: int| is_folder(before, f) ==> (#[trigger] kids(after, f)).no_duplicates()
    &&& forall|f: int, e: u32|
        is_folder(before, f) ==> (#[trigger] kids(after, f).contains(e) <==> kids(
            before,
            f,
        ).contains(e))
}

/// Whether the chain of folder `f` is link for link the same in `after` as in `before`.
pub open spec fn link_same(before: Links, after: Links, f: int) -> bool {
    &&& after.first[f] == before.first[f]
    &&& forall|k: int|
        0 <= k < kids(before, f).len() ==> after.next[#[trigger] kids(before, f)[k] as int]
            == before.next[kids(before, f)[k] as int]
}

/// A chain that is link for link the same has the same children.
pub proof fn lemma_link_same_kids(before: Links, after: Links, f: int)
    requires
        after.next.len() == before.next.len(),
        link_same(before, after, f),
    ensures
        kids(after, f) == kids(before, f),
{
    let list = chain(before.next, before.first[f], before.next.len());
    assert forall|k: int| 0 <= k < list.len() implies after.next[#[trigger] list[k] as int]
        == before.next[list[k] as int] by {
        assert(kids(before, f)[k] == list[k]);
    }
    lemma_chain_frame(before.next, after.next, before.first[f], before.next.len());
}

/// Links with the same chains as sets keep the forest.
pub proof fn lemma_same_sets_forest(frame: Frame, before: Links, after: Links, spans: Seq<(int, int)>)
    requires
        forest(frame, before, spans),
        same_sets(before, after),
    ensures
        forest(frame, after, spans),
{
    assert forall|f: int, e: u32|
        is_folder(after, f) && #[trigger] kids(after, f).contains(e) implies nested(
        frame,
        after,
        spans,
        f,
        e,
    ) by {
        assert(kids(before, f).contains(e));
        assert(nested(frame, before, spans, f, e));
    }
    assert forall|f: int, a: u32, b: u32|
        is_folder(after, f) && #[trigger] kids(after, f).contains(a) && #[trigger] kids(
            after,
            f,
        ).contains(b) && a != b implies beside(frame, after, spans, a, b) by {
        assert(kids(before, f).contains(a) && kids(before, f).contains(b));
        assert(beside(frame, before, spans, a, b));
    }
    assert forall|f: int, a: u32, b: u32|
        is_folder(after, f) && #[trigger] kids(after, f).contains(a) && #[trigger] kids(
            after,
            f,
        ).contains(b) && a != b implies name_of(frame.paths, a) != name_of(frame.paths, b) by {
        assert(kids(before, f).contains(a) && kids(before, f).contains(b));
    }
    assert forall|f: int, g: int, e: u32|
        is_folder(after, f) && is_folder(after, g) && f != g && #[trigger] kids(
            after,
            f,
        ).contains(e) implies !#[trigger] kids(after, g).contains(e) by {
        assert(kids(before, f).contains(e));
        if kids(after, g).contains(e) {
            assert(kids(before, g).contains(e));
        }
    }
}

/// Whether the chain of folder `f` is `order`, link for link.
pub open spec fn closed(links: Links, f: int, order: Seq<u32>) -> bool {
    &&& links.first[f] == head(order)
    &&& forall|k: int|
        0 <= k < order.len() ==> links.next[#[trigger] order[k] as int] == successor(order, k)
}

/// Writing a chain changes nothing exactly where the chain stands as written.
pub proof fn lemma_closed(links: Links, f: int, order: Seq<u32>)
    requires
        0 <= f < links.first.len(),
        writable(order, links.next.len() as int),
    ensures
        closed(links, f, order) <==> written(links, f, order) == links,
        closed(written(links, f, order), f, order),
{
    let after = written(links, f, order);
    lemma_linked(links.next, order, order.len());
    if closed(links, f, order) {
        assert(after.first =~= links.first);
        assert forall|e: int| 0 <= e < links.next.len() implies after.next[e] == links.next[e] by {
            if exists|k: int| 0 <= k < order.len() && order[k] == e {
                let k = choose|k: int| 0 <= k < order.len() && order[k] == e;
                assert(after.next[order[k] as int] == successor(order, k));
            }
        }
        assert(after.next =~= links.next);
    }
    if after == links {
        assert(after.first[f] == head(order));
    }
}

/// Being link for link the same carries over from one pair of links to the next.
pub proof fn lemma_link_same_twice(a: Links, b: Links, c: Links, f: int)
    requires
        b.next.len() == a.next.len(),
        link_same(a, b, f),
        link_same(b, c, f),
    ensures
        link_same(a, c, f),
{
    lemma_link_same_kids(a, b, f);
    assert forall|k: int| 0 <= k < kids(a, f).len() implies c.next[#[trigger] kids(a, f)[k] as int]
        == a.next[kids(a, f)[k] as int] by {
        assert(kids(b, f)[k] == kids(a, f)[k]);
    }
}

/// Having the same chains as sets carries over from one pair of links to the next.
pub proof fn lemma_same_sets_twice(a: Links, b: Links, c: Links)
    requires
        same_sets(a, b),
        same_sets(b, c),
    ensures
        same_sets(a, c),
{
    assert forall|f: int, e: u32| is_folder(a, f) implies (#[trigger] kids(c, f).contains(e)
        <==> kids(a, f).contains(e)) by {
        assert(kids(c, f).contains(e) <==> kids(b, f).contains(e));
        assert(kids(b, f).contains(e) <==> kids(a, f).contains(e));
    }
}

/// What writing the corrected order of a folder does in a forest: the folder's
/// children are that order, every other chain stays link for link, and all
/// chains keep their entries.
pub proof fn lemma_write_step(frame: Frame, links: Links, spans: Seq<(int, int)>, f: int, base: Seq<u32>)
    requires
        forest(frame, links, spans),
        is_folder(links, f),
    ensures
        writable(corrected(frame.paths, base, kids(links, f)), links.next.len() as int),
        same_sets(links, written(links, f, corrected(frame.paths, base, kids(links, f)))),
        forall|g: int|
            is_folder(links, g) && g != f ==> #[trigger] link_same(
                links,
                written(links, f, corrected(frame.paths, base, kids(links, f))),
                g,
            ),
        kids(written(links, f, corrected(frame.paths, base, kids(links, f))), f) == corrected(
            frame.paths,
            base,
            kids(links, f),
        ),
        closed(
            written(links, f, corrected(frame.paths, base, kids(links, f))),
            f,
            corrected(frame.paths, base, kids(links, f)),
        ),
{
    let variant = kids(links, f);
    let order = corrected(frame.paths, base, variant);
    let out = written(links, f, order);
    lemma_corrected_members(frame.paths, base, variant);
    lemma_chain_bounds(links.next, links.first[f], links.next.len());
    assert forall|k: int| 0 <= k < order.len() implies #[trigger] order[k] < links.next.len() by {
        assert(order.contains(order[k]));
        assert(variant.contains(order[k]));
        let p = choose|p: int| 0 <= p < variant.len() && variant[p] == order[k];
        assert(variant[p] < links.next.len());
    }
    lemma_linked(links.next, order, order.len());
    lemma_closed(links, f, order);
    crate::fix::lemma_writable_len(order, links.next.len() as int);
    crate::fix::lemma_read_back(links.next, order, 0, links.next.len());
    assert(order.skip(0) =~= order);
    assert(kids(out, f) == order);
    assert forall|g: int| is_folder(links, g) && g != f implies #[trigger] link_same(links, out, g) by {
        assert forall|k: int| 0 <= k < kids(links, g).len() implies out.next[#[trigger] kids(
            links,
            g,
        )[k] as int] == links.next[kids(links, g)[k] as int] by {
            let e = kids(links, g)[k];
            assert(kids(links, g).contains(e));
            assert(!kids(links, f).contains(e));
            lemma_chain_bounds(links.next, links.first[g], links.next.len());
            assert forall|j: int| 0 <= j < order.len() implies order[j] != e by {
                if order[j] == e {
                    assert(order.contains(e));
                }
            }
        }
    }
    assert forall|g: int| is_folder(links, g) implies (#[trigger] kids(out, g)).no_duplicates() by {
        if g != f {
            assert(link_same(links, out, g));
            lemma_link_same_kids(links, out, g);
        }
    }
    assert forall|g: int, e: u32| is_folder(links, g) implies (#[trigger] kids(out, g).contains(e)
        <==> kids(links, g).contains(e)) by {
        if g != f {
            assert(link_same(links, out, g));
            lemma_link_same_kids(links, out, g);
        }
    }
}

/// Whether `keep` holds every folder whose span lies within the span of `top`.
pub open spec fn covers(links: Links, spans: Seq<(int, int)>, keep: Set<int>, top: Option<int>) -> bool {
    top is Some ==> forall|f: int|
        is_folder(links, f) && #[trigger] within(spans, top.unwrap(), f) ==> keep.contains(f)
}

/// Whether the chains of the folders in `keep` are link for link the same in
/// `after` as in `before`.
pub open spec fn kept(before: Links, after: Links, keep: Set<int>) -> bool {
    &&& after.first.len() == before.first.len()
    &&& after.next.len() == before.next.len()
    &&& forall|f: int|
        is_folder(before, f) && keep.contains(f) ==> #[trigger] link_same(before, after, f)
}

/// Whether `keep` holds what the fix reads and writes below the base entry `b`
/// and the entry of `variant` that stands for it.
pub open spec fn pair_covered(
    frame: Frame,
    links: Links,
    spans: Seq<(int, int)>,
    keep: Set<int>,
    variant: Seq<u32>,
    b: u32,
) -> bool {
    match match_of(frame.paths, variant, b) {
        Some(v) => frame.paths[v as int].is_directory ==> covers(
            links,
            spans,
            keep,
            folder_at(frame, links, b),
        ) && covers(links, spans, keep, folder_at(frame, links, v)),
        None => true,
    }
}

/// Chains that are as the fix would write them stay so under links that keep
/// what the fix reads and writes.
pub proof fn lemma_settled_local(
    frame: Frame,
    x: Links,
    y: Links,
    spans: Seq<(int, int)>,
    keep: Set<int>,
    src: u64,
    dst: u64,
    fuel: nat,
)
    requires
        forest(frame, x, spans),
        kept(x, y, keep),
        covers(x, spans, keep, frame.folder_of(x.first.len() as int, src)),
        covers(x, spans, keep, frame.folder_of(x.first.len() as int, dst)),
        settled(frame, x, src, dst, fuel),
    ensures
        settled(frame, y, src, dst, fuel),
    decreases fuel, 0nat, 0nat,
{
    let base = frame.children(x, src);
    match frame.folder_of(x.first.len() as int, src) {
        Some(a) => {
            assert(base == kids(x, a));
            assert(within(spans, a, a));
            assert(keep.contains(a));
            assert(link_same(x, y, a));
            lemma_link_same_kids(x, y, a);
            assert(frame.children(y, src) == kids(y, a));
        },
        None => {},
    }
    assert(frame.children(y, src) == base);
    if fuel > 0 && frame.entry_of(dst) is Some && frame.paths[frame.entry_of(
        dst,
    ).unwrap() as int].is_directory && base.len() > 0 {
        let a = frame.folder_of(x.first.len() as int, src).unwrap();
        let variant = frame.children(x, dst);
        match frame.folder_of(x.first.len() as int, dst) {
            Some(f) => {
                assert(within(spans, f, f));
                assert(keep.contains(f));
                assert(link_same(x, y, f));
                lemma_link_same_kids(x, y, f);
                assert(variant == kids(x, f));
                let order = corrected(frame.paths, base, variant);
                lemma_write_step(frame, x, spans, f, base);
                lemma_closed(x, f, order);
                assert(written(x, f, order) == x);
                assert(closed(x, f, order));
                lemma_corrected_members(frame.paths, base, variant);
                assert forall|k: int| 0 <= k < order.len() implies y.next[#[trigger] order[k] as int]
                    == successor(order, k) by {
                    assert(order.contains(order[k]));
                    assert(variant.contains(order[k]));
                    let p = choose|p: int| 0 <= p < variant.len() && variant[p] == order[k];
                    assert(kids(x, f)[p] == order[k]);
                    assert(y.next[kids(x, f)[p] as int] == x.next[kids(x, f)[p] as int]);
                    assert(x.next[order[k] as int] == successor(order, k));
                }
                assert(closed(y, f, order));
                lemma_closed(y, f, order);
                assert(frame.children(y, dst) == kids(y, f));
            },
            None => {},
        }
        assert(frame.children(y, dst) == variant);
        assert forall|i: int| 0 <= i < base.len() implies pair_covered(
            frame,
            x,
            spans,
            keep,
            variant,
            #[trigger] base[i],
        ) by {
            let b = base[i];
            assert(kids(x, a).contains(b));
            assert(nested(frame, x, spans, a, b));
            match match_of(frame.paths, variant, b) {
                Some(v) => {
                    lemma_find_named(frame.paths, variant, name_of(frame.paths, b));
                    let f = frame.folder_of(x.first.len() as int, dst).unwrap();
                    assert(kids(x, f).contains(v));
                    assert(nested(frame, x, spans, f, v));
                    assert(within(spans, f, f));
                    lemma_covers_nested(x, spans, keep, a, folder_at(frame, x, b));
                    lemma_covers_nested(x, spans, keep, f, folder_at(frame, x, v));
                },
                None => {},
            }
        }
        assert(base.take(base.len() as int) =~= base);
        lemma_settled_below_local(
            frame,
            x,
            y,
            spans,
            keep,
            src,
            dst,
            base.len() as int,
            (fuel - 1) as nat,
        );
    }
}

/// A set that holds the folders within a span holds those within a span inside it.
pub proof fn lemma_covers_nested(
    links: Links,
    spans: Seq<(int, int)>,
    keep: Set<int>,
    outer: int,
    inner: Option<int>,
)
    requires
        covers(links, spans, keep, Some(outer)),
        inner is Some ==> within(spans, outer, inner.unwrap()),
    ensures
        covers(links, spans, keep, inner),
{
    if inner is Some {
        let g = inner.unwrap();
        assert forall|f: int| is_folder(links, f) && #[trigger] within(
            spans,
            g,
            f,
        ) implies keep.contains(f) by {
            let top = Some(outer);
            assert(within(spans, top.unwrap(), f));
        }
    }
}

/// Going down, chains that are as the fix would write them stay so under links
/// that keep what the fix reads and writes and in which the names of the base
/// find the same entries.
pub proof fn lemma_settled_below_local(
    frame: Frame,
    x: Links,
    y: Links,
    spans: Seq<(int, int)>,
    keep: Set<int>,
    src: u64,
    dst: u64,
    upto: int,
    fuel: nat,
)
    requires
        forest(frame, x, spans),
        kept(x, y, keep),
        0 <= upto <= frame.children(x, src).len(),
        forall|i: int|
            0 <= i < upto ==> match_of(
                frame.paths,
                frame.children(y, dst),
                #[trigger] frame.children(x, src)[i],
            ) == match_of(frame.paths, frame.children(x, dst), frame.children(x, src)[i]),
        forall|i: int|
            0 <= i < upto ==> pair_covered(
                frame,
                x,
                spans,
                keep,
                frame.children(x, dst),
                #[trigger] frame.children(x, src)[i],
            ),
        settled_below(frame, x, frame.children(x, src).take(upto), dst, fuel),
    ensures
        settled_below(frame, y, frame.children(x, src).take(upto), dst, fuel),
    decreases fuel, 1nat, upto,
{
    let base = frame.children(x, src);
    if upto > 0 {
        let front = base.take(upto);
        assert(front.drop_last() =~= base.take(upto - 1));
        assert(front.last() == base[upto - 1]);
        lemma_settled_below_local(frame, x, y, spans, keep, src, dst, upto - 1, fuel);
        let b = base[upto - 1];
        assert(pair_covered(frame, x, spans, keep, frame.children(x, dst), b));
        match match_of(frame.paths, frame.children(x, dst), b) {
            Some(v) => {
                if frame.paths[v as int].is_directory {
                    lemma_settled_local(
                        frame,
                        x,
                        y,
                        spans,
                        keep,
                        frame.paths[b as int].path.0,
                        frame.paths[v as int].path.0,
                        fuel,
                    );
                }
            },
            None => {},
        }
    }
}

/// Whether the folders `src` and `dst`, where the index has both, have spans
/// that do not meet: neither lies in the other.
pub open spec fn sides(frame: Frame, links: Links, spans: Seq<(int, int)>, src: u64, dst: u64) -> bool {
    let a = frame.folder_of(links.first.len() as int, src);
    let t = frame.folder_of(links.first.len() as int, dst);
    a is Some && t is Some ==> apart(spans, a.unwrap(), t.unwrap())
}

/// Whether `f` lies in what the fix of the folder `top` may write: within the
/// span of `top`, and not `top` itself where only what lies below is meant.
pub open spec fn in_reach(spans: Seq<(int, int)>, top: Option<int>, below: bool, f: int) -> bool {
    top is Some && within(spans, top.unwrap(), f) && (below ==> f != top.unwrap())
}

/// Whether every chain out of reach is link for link the same in `after` as in `before`.
pub open spec fn out_of_reach_same(
    before: Links,
    after: Links,
    spans: Seq<(int, int)>,
    top: Option<int>,
    below: bool,
) -> bool {
    forall|f: int|
        is_folder(before, f) && !in_reach(spans, top, below, f) ==> #[trigger] link_same(
            before,
            after,
            f,
        )
}

/// The folders out of reach of `top`.
pub open spec fn beyond(spans: Seq<(int, int)>, top: Option<int>, below: bool) -> Set<int> {
    Set::new(|f: int| !in_reach(spans, top, below, f))
}

/// What the order fix does in a forest: every chain keeps its entries, every
/// chain that does not lie within the variant folder stays link for link, and
/// afterwards every chain is as the fix would write it.
pub proof fn lemma_fixed_forest(
    frame: Frame,
    links: Links,
    spans: Seq<(int, int)>,
    src: u64,
    dst: u64,
    fuel: nat,
)
    requires
        forest(frame, links, spans),
        sides(frame, links, spans, src, dst),
    ensures
        same_sets(links, fixed(frame, links, src, dst, fuel)),
        out_of_reach_same(
            links,
            fixed(frame, links, src, dst, fuel),
            spans,
            frame.folder_of(links.first.len() as int, dst),
            false,
        ),
        settled(frame, fixed(frame, links, src, dst, fuel), src, dst, fuel),
    decreases fuel, 0nat, 0nat,
{
    let out = fixed(frame, links, src, dst, fuel);
    let base = frame.children(links, src);
    let top = frame.folder_of(links.first.len() as int, dst);
    if fuel > 0 && frame.entry_of(dst) is Some && frame.paths[frame.entry_of(
        dst,
    ).unwrap() as int].is_directory && base.len() > 0 {
        let a = frame.folder_of(links.first.len() as int, src).unwrap();
        assert(base == kids(links, a));
        let below = fixed_below(frame, links, base, dst, (fuel - 1) as nat);
        assert(base.take(base.len() as int) =~= base);
        lemma_fixed_below_forest(
            frame,
            links,
            spans,
            src,
            dst,
            base.len() as int,
            (fuel - 1) as nat,
        );
        lemma_same_sets_forest(frame, links, below, spans);
        assert(!in_reach(spans, top, true, a));
        assert(link_same(links, below, a));
        lemma_link_same_kids(links, below, a);
        assert(frame.children(below, src) == base);
        match top {
            None => {
                assert(out == below);
                assert forall|f: int|
                    is_folder(links, f) && !in_reach(
                        spans,
                        top,
                        false,
                        f,
                    ) implies #[trigger] link_same(links, out, f) by {
                    assert(!in_reach(spans, top, true, f));
                }
            },
            Some(t) => {
                let variant = kids(below, t);
                assert(frame.children(below, dst) == variant);
                let order = corrected(frame.paths, base, variant);
                assert(out == written(below, t, order));
                lemma_write_step(frame, below, spans, t, base);
                lemma_same_sets_twice(links, below, out);
                assert forall|f: int|
                    is_folder(links, f) && !in_reach(
                        spans,
                        top,
                        false,
                        f,
                    ) implies #[trigger] link_same(links, out, f) by {
                    assert(!in_reach(spans, top, true, f));
                    assert(link_same(links, below, f));
                    assert(f != t);
                    assert(link_same(below, out, f));
                    lemma_link_same_twice(links, below, out, f);
                }
                assert(a != t);
                assert(link_same(below, out, a));
                lemma_link_same_kids(below, out, a);
                assert(frame.children(out, src) == kids(out, a));
                assert(frame.children(out, dst) == kids(out, t));
                law_correction_idempotent(frame.paths, base, variant);
                lemma_closed(out, t, order);
                let keep = Set::new(|f: int| f != t);
                lemma_corrected_same_matches(frame.paths, base, variant);
                assert forall|i: int| 0 <= i < base.len() implies pair_covered(
                    frame,
                    below,
                    spans,
                    keep,
                    variant,
                    #[trigger] base[i],
                ) by {
                    lemma_pair_apart(frame, below, spans, a, t, base[i]);
                }
                lemma_settled_below_local(
                    frame,
                    below,
                    out,
                    spans,
                    keep,
                    src,
                    dst,
                    base.len() as int,
                    (fuel - 1) as nat,
                );
            },
        }
    }
}

/// In a forest, what lies below a child of the base folder and what lies below
/// the entry of the variant folder that stands for it neither holds the
/// variant folder itself.
pub proof fn lemma_pair_apart(
    frame: Frame,
    links: Links,
    spans: Seq<(int, int)>,
    a: int,
    t: int,
    b: u32,
)
    requires
        forest(frame, links, spans),
        is_folder(links, a),
        is_folder(links, t),
        apart(spans, a, t),
        kids(links, a).contains(b),
    ensures
        pair_covered(frame, links, spans, Set::new(|f: int| f != t), kids(links, t), b),
{
    let keep = Set::new(|f: int| f != t);
    assert(nested(frame, links, spans, a, b));
    match match_of(frame.paths, kids(links, t), b) {
        Some(v) => {
            lemma_find_named(frame.paths, kids(links, t), name_of(frame.paths, b));
            assert(kids(links, t).contains(v));
            assert(nested(frame, links, spans, t, v));
            if folder_at(frame, links, b) is Some {
                let g = folder_at(frame, links, b).unwrap();
                assert forall|f: int| is_folder(links, f) && #[trigger] within(
                    spans,
                    g,
                    f,
                ) implies keep.contains(f) by {
                    assert(spans[f].0 < spans[f].1);
                }
            }
            if folder_at(frame, links, v) is Some {
                let g = folder_at(frame, links, v).unwrap();
                assert forall|f: int| is_folder(links, f) && #[trigger] within(
                    spans,
                    g,
                    f,
                ) implies keep.contains(f) by {
                    assert(spans[f].0 < spans[f].1);
                }
            }
        },
        None => {},
    }
}

/// What going down does in a forest: every chain keeps its entries, the chain
/// of the variant folder and every chain that does not lie below it stay link
/// for link, and afterwards every chain below is as the fix would write it.
pub proof fn lemma_fixed_below_forest(
    frame: Frame,
    links: Links,
    spans: Seq<(int, int)>,
    src: u64,
    dst: u64,
    upto: int,
    fuel: nat,
)
    requires
        forest(frame, links, spans),
        sides(frame, links, spans, src, dst),
        0 <= upto <= frame.children(links, src).len(),
    ensures
        same_sets(
            links,
            fixed_below(frame, links, frame.children(links, src).take(upto), dst, fuel),
        ),
        out_of_reach_same(
            links,
            fixed_below(frame, links, frame.children(links, src).take(upto), dst, fuel),
            spans,
            frame.folder_of(links.first.len() as int, dst),
            true,
        ),
        settled_below(
            frame,
            fixed_below(frame, links, frame.children(links, src).take(upto), dst, fuel),
            frame.children(links, src).take(upto),
            dst,
            fuel,
        ),
    decreases fuel, 1nat, upto,
{
    let base = frame.children(links, src);
    let top = frame.folder_of(links.first.len() as int, dst);
    let front = base.take(upto);
    let out = fixed_below(frame, links, front, dst, fuel);
    if upto > 0 {
        assert(front.drop_last() =~= base.take(upto - 1));
        assert(front.last() == base[upto - 1]);
        let before = fixed_below(frame, links, base.take(upto - 1), dst, fuel);
        lemma_fixed_below_forest(frame, links, spans, src, dst, upto - 1, fuel);
        lemma_same_sets_forest(frame, links, before, spans);
        let a = frame.folder_of(links.first.len() as int, src).unwrap();
        assert(base == kids(links, a));
        let b = base[upto - 1];
        assert(kids(links, a).contains(b));
        let variant = frame.children(links, dst);
        if top is Some {
            assert(!in_reach(spans, top, true, top.unwrap()));
            assert(link_same(links, before, top.unwrap()));
            lemma_link_same_kids(links, before, top.unwrap());
        }
        assert(frame.children(before, dst) == variant);
        match match_of(frame.paths, variant, b) {
            Some(v) => {
                if frame.paths[v as int].is_directory {
                    let t = top.unwrap();
                    assert(variant == kids(links, t));
                    lemma_find_named(frame.paths, variant, name_of(frame.paths, b));
                    assert(kids(links, t).contains(v));
                    assert(nested(frame, links, spans, a, b));
                    assert(nested(frame, links, spans, t, v));
                    let from = frame.paths[b as int].path.0;
                    let to = frame.paths[v as int].path.0;
                    let low = folder_at(frame, links, v);
                    assert(frame.folder_of(before.first.len() as int, to) == low);
                    assert(sides(frame, before, spans, from, to));
                    lemma_fixed_forest(frame, before, spans, from, to, fuel);
                    assert(out == fixed(frame, before, from, to, fuel));
                    lemma_same_sets_twice(links, before, out);
                    assert forall|f: int|
                        is_folder(links, f) && !in_reach(
                            spans,
                            top,
                            true,
                            f,
                        ) implies #[trigger] link_same(links, out, f) by {
                        assert(link_same(links, before, f));
                        assert(spans[f].0 < spans[f].1);
                        assert(!in_reach(spans, low, false, f));
                        assert(link_same(before, out, f));
                        lemma_link_same_twice(links, before, out, f);
                    }
                    assert(link_same(links, out, t));
                    lemma_link_same_kids(links, out, t);
                    assert(frame.children(out, dst) == variant);
                    assert(!in_reach(spans, top, true, a));
                    assert(link_same(links, before, a));
                    lemma_link_same_kids(links, before, a);
                    assert(frame.children(before, src) == base);
                    let keep = beyond(spans, low, false);
                    assert forall|i: int| 0 <= i < upto - 1 implies pair_covered(
                        frame,
                        before,
                        spans,
                        keep,
                        variant,
                        #[trigger] base[i],
                    ) by {
                        lemma_pairs_apart(frame, links, spans, a, t, base[i], b);
                        assert(folder_at(frame, before, base[i]) == folder_at(
                            frame,
                            links,
                            base[i],
                        ));
                    }
                    lemma_settled_below_local(
                        frame,
                        before,
                        out,
                        spans,
                        keep,
                        src,
                        dst,
                        upto - 1,
                        fuel,
                    );
                }
            },
            None => {},
        }
    } else {
        assert(front =~= Seq::<u32>::empty());
    }
}

/// In a forest, what lies below a child of the base folder and below the
/// variant entry that stands for it is out of reach of the variant entry that
/// stands for another child of the base folder.
pub proof fn lemma_pairs_apart(
    frame: Frame,
    links: Links,
    spans: Seq<(int, int)>,
    a: int,
    t: int,
    b: u32,
    other: u32,
)
    requires
        forest(frame, links, spans),
        is_folder(links, a),
        is_folder(links, t),
        apart(spans, a, t),
        kids(links, a).contains(b),
        kids(links, a).contains(other),
        b != other,
        match_of(frame.paths, kids(links, t), other) is Some,
    ensures
        pair_covered(
            frame,
            links,
            spans,
            beyond(
                spans,
                folder_at(
                    frame,
                    links,
                    match_of(frame.paths, kids(links, t), other).unwrap(),
                ),
                false,
            ),
            kids(links, t),
            b,
        ),
{
    let w = match_of(frame.paths, kids(links, t), other).unwrap();
    let low = folder_at(frame, links, w);
    let keep = beyond(spans, low, false);
    lemma_find_named(frame.paths, kids(links, t), name_of(frame.paths, other));
    assert(kids(links, t).contains(w));
    assert(nested(frame, links, spans, a, b));
    assert(nested(frame, links, spans, t, w));
    match match_of(frame.paths, kids(links, t), b) {
        Some(v) => {
            lemma_find_named(frame.paths, kids(links, t), name_of(frame.paths, b));
            assert(kids(links, t).contains(v));
            assert(name_of(frame.paths, b) != name_of(frame.paths, other));
            assert(v != w);
            assert(nested(frame, links, spans, t, v));
            assert(beside(frame, links, spans, v, w));
            if folder_at(frame, links, b) is Some {
                let g = folder_at(frame, links, b).unwrap();
                assert forall|f: int| is_folder(links, f) && #[trigger] within(
                    spans,
                    g,
                    f,
                ) implies keep.contains(f) by {
                    assert(spans[f].0 < spans[f].1);
                }
            }
            if folder_at(frame, links, v) is Some {
                let g = folder_at(frame, links, v).unwrap();
                assert forall|f: int| is_folder(links, f) && #[trigger] within(
                    spans,
                    g,
                    f,
                ) implies keep.contains(f) by {
                    assert(spans[f].0 < spans[f].1);
                }
            }
        },
        None => {},
    }
}

/// The order fix changes no link when it runs again, on an index whose folders
/// form a forest and for two folders of which neither lies in the other.
pub proof fn law_order_fix_settles(
    frame: Frame,
    links: Links,
    spans: Seq<(int, int)>,
    src: u64,
    dst: u64,
    fuel: nat,
)
    requires
        forest(frame, links, spans),
        sides(frame, links, spans, src, dst),
    ensures
        fixed(frame, fixed(frame, links, src, dst, fuel), src, dst, fuel) == fixed(
            frame,
            links,
            src,
            dst,
            fuel,
        ),
{
    lemma_fixed_forest(frame, links, spans, src, dst, fuel);
    lemma_settled_stays(frame, fixed(frame, links, src, dst, fuel), src, dst, fuel);
}

} // verus!
