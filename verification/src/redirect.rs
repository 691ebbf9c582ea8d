//! Making one alt active: the file pairs of an alt, patching them in and out of
//! the two link tables, and the advance from one selection to the next.

use vstd::prelude::*;
use std::collections::HashMap;
use crate::alts::{
    picked, qualifies, random_draw, AltRef, Selection, StageAlt, StageAltManager,
};
use crate::archive::ArchiveIndex;
use crate::folders::{
    folder_lookup, is_listing, lemma_listing_of_nothing, listing_of, sorted_folders,
};
use crate::hash::{hash40_join, hash40_of, PathHash};
use crate::index::{children_in, Links, PathEntry, SearchIndex};
use crate::patch::{
    apply_pairs, is_base, is_patched, law_patch_order_free, law_revert_after_apply, patched,
    restore_pairs, restored, single_valued, stable, values_in_range, values_ok, FilePair,
};

verus! {

broadcast use vstd::std_specs::hash::group_hash_axioms;

/// The pair of the file named `name`: the file under `base` and the file under `variant`.
pub open spec fn pair_for(base: PathHash, variant: PathHash, name: PathHash) -> FilePair {
    (PathHash(hash40_join(base.0, name.0)), PathHash(hash40_join(variant.0, name.0)))
}

/// The file pairs of one folder pair: one for each file among `kids`, the
/// children of the variant folder.
pub open spec fn folder_pairs(paths: Seq<PathEntry>, kids: Seq<u32>, base: PathHash, variant: PathHash) -> Seq<
    FilePair,
>
    decreases kids.len(),
{
    if kids.len() == 0 {
        Seq::empty()
    } else {
        let before = folder_pairs(paths, kids.drop_last(), base, variant);
        let kid = kids.last();
        if kid < paths.len() && !paths[kid as int].is_directory {
            before.push(pair_for(base, variant, paths[kid as int].file_name))
        } else {
            before
        }
    }
}

/// The file pairs of an alt: for each of its folder pairs, in their order, the
/// file pairs of the files that lie directly in the variant folder.
pub open spec fn file_pairs(
    folders: Map<u64, u32>,
    paths: Seq<PathEntry>,
    links: Links,
    alt_folders: Seq<FilePair>,
) -> Seq<FilePair>
    decreases alt_folders.len(),
{
    if alt_folders.len() == 0 {
        Seq::empty()
    } else {
        let (base, variant) = alt_folders.last();
        file_pairs(folders, paths, links, alt_folders.drop_last()) + folder_pairs(
            paths,
            children_in(folders, links, variant.0),
            base,
            variant,
        )
    }
}

/// The file pairs of the folder pairs `list`, as `search` has their files.
pub open spec fn listed(search: &SearchIndex, list: Seq<FilePair>) -> Seq<FilePair> {
    file_pairs(search.folder_slots@, search.paths@, search.links(), list)
}

/// A pair is among an alt's file pairs exactly if it is among the file pairs
/// of one of the folder pairs.
pub proof fn lemma_file_pairs_hold(
    folders: Map<u64, u32>,
    paths: Seq<PathEntry>,
    links: Links,
    list: Seq<FilePair>,
    pair: FilePair,
)
    ensures
        file_pairs(folders, paths, links, list).contains(pair) <==> exists|i: int|
            0 <= i < list.len() && folder_pairs(
                paths,
                children_in(folders, links, (#[trigger] list[i]).1.0),
                list[i].0,
                list[i].1,
            ).contains(pair),
    decreases list.len(),
{
    if list.len() > 0 {
        let shorter = list.drop_last();
        let (base, variant) = list.last();
        let front = file_pairs(folders, paths, links, shorter);
        let back = folder_pairs(paths, children_in(folders, links, variant.0), base, variant);
        let all = file_pairs(folders, paths, links, list);
        assert(all == front + back);
        lemma_file_pairs_hold(folders, paths, links, shorter, pair);
        if all.contains(pair) {
            let n = choose|n: int| 0 <= n < all.len() && all[n] == pair;
            if n < front.len() {
                assert(front[n] == all[n]);
                assert(front.contains(pair));
                let i = choose|i: int|
                    0 <= i < shorter.len() && folder_pairs(
                        paths,
                        children_in(folders, links, (#[trigger] shorter[i]).1.0),
                        shorter[i].0,
                        shorter[i].1,
                    ).contains(pair);
                assert(list[i] == shorter[i]);
            } else {
                assert(back[n - front.len()] == all[n]);
                assert(back.contains(pair));
                assert(list[list.len() - 1] == list.last());
            }
        }
        if exists|i: int|
            0 <= i < list.len() && folder_pairs(
                paths,
                children_in(folders, links, (#[trigger] list[i]).1.0),
                list[i].0,
                list[i].1,
            ).contains(pair) {
            let i = choose|i: int|
                0 <= i < list.len() && folder_pairs(
                    paths,
                    children_in(folders, links, (#[trigger] list[i]).1.0),
                    list[i].0,
                    list[i].1,
                ).contains(pair);
            if i < shorter.len() {
                assert(list[i] == shorter[i]);
                assert(front.contains(pair));
                let n = choose|n: int| 0 <= n < front.len() && front[n] == pair;
                assert(all[n] == front[n]);
            } else {
                let n = choose|n: int| 0 <= n < back.len() && back[n] == pair;
                assert(all[front.len() + n] == back[n]);
            }
        }
    }
}

/// Every file pair of one listing of a map of folders is a file pair of
/// every other listing of it.
pub proof fn lemma_listings_share_pairs(
    search: &SearchIndex,
    map: Map<u64, PathHash>,
    first: Seq<FilePair>,
    second: Seq<FilePair>,
)
    requires
        is_listing(first, map),
        is_listing(second, map),
    ensures
        forall|p: FilePair| listed(search, first).contains(p) ==> listed(search, second).contains(p),
        forall|k: u64| is_base(listed(search, first), k) ==> is_base(listed(search, second), k),
{
    let one = listed(search, first);
    let two = listed(search, second);
    assert forall|p: FilePair| one.contains(p) implies two.contains(p) by {
        let folders = search.folder_slots@;
        let paths = search.paths@;
        let links = search.links();
        lemma_file_pairs_hold(folders, paths, links, first, p);
        lemma_file_pairs_hold(folders, paths, links, second, p);
        let i = choose|i: int|
            0 <= i < first.len() && folder_pairs(
                paths,
                children_in(folders, links, (#[trigger] first[i]).1.0),
                first[i].0,
                first[i].1,
            ).contains(p);
        assert(map.contains_key(first[i].0.0));
        let j = choose|j: int| 0 <= j < second.len() && (#[trigger] second[j]).0.0 == first[i].0.0;
        assert(second[j] == first[i]);
    }
    assert forall|k: u64| is_base(one, k) implies is_base(two, k) by {
        let n = choose|n: int| 0 <= n < one.len() && (#[trigger] one[n]).0.0 == k;
        assert(one.contains(one[n]));
        let m = choose|m: int| 0 <= m < two.len() && two[m] == one[n];
        assert(two[m].0.0 == k);
    }
}

/// The order in which the folders of an alt are taken does not matter where
/// its file pairs are stable and single-valued: the redirections of two
/// listings of one map of folders give the same table.
pub proof fn law_folder_order_free(
    search: &SearchIndex,
    map: Map<u64, PathHash>,
    first: Seq<FilePair>,
    second: Seq<FilePair>,
    table: Map<u64, u32>,
)
    requires
        is_listing(first, map),
        is_listing(second, map),
        stable(listed(search, first)),
        single_valued(listed(search, first)),
    ensures
        patched(table, listed(search, first)) == patched(table, listed(search, second)),
{
    lemma_listings_share_pairs(search, map, first, second);
    lemma_listings_share_pairs(search, map, second, first);
    law_patch_order_free(table, listed(search, first), listed(search, second));
}

/// The file pairs of the folder pairs `alt_folders` in `search`.
pub fn collect_file_pairs(search: &SearchIndex, alt_folders: &Vec<FilePair>) -> (pairs: Vec<
    FilePair,
>)
    requires
        search.wf(),
    ensures
        pairs@ == file_pairs(search.folder_slots@, search.paths@, search.links(), alt_folders@),
{
    let mut pairs: Vec<FilePair> = Vec::new();
    let mut i: usize = 0;
    while i < alt_folders.len()
        invariant
            i <= alt_folders@.len(),
            search.wf(),
            pairs@ == file_pairs(
                search.folder_slots@,
                search.paths@,
                search.links(),
                alt_folders@.take(i as int),
            ),
        decreases alt_folders.len() - i,
    {
        let ghost front = alt_folders@.take(i + 1);
        assert(front.drop_last() =~= alt_folders@.take(i as int));
        let (base, variant) = alt_folders[i];
        let kids = search.children(variant);
        let ghost start = pairs@;
        let mut k: usize = 0;
        while k < kids.len()
            invariant
                k <= kids@.len(),
                forall|x: int| 0 <= x < kids@.len() ==> #[trigger] kids@[x] < search.paths@.len(),
                pairs@ == start + folder_pairs(search.paths@, kids@.take(k as int), base, variant),
            decreases kids.len() - k,
        {
            let ghost some = kids@.take(k + 1);
            assert(some.drop_last() =~= kids@.take(k as int));
            let entry = search.paths[kids[k] as usize];
            if !entry.is_directory {
                pairs.push((base.join_path(entry.file_name), variant.join_path(entry.file_name)));
            }
            k += 1;
        }
        assert(kids@.take(kids@.len() as int) =~= kids@);
        i += 1;
    }
    assert(alt_folders@.take(alt_folders@.len() as int) =~= alt_folders@);
    pairs
}

/// The files that a folder of an alt brings: for each file among `kids` that is
/// no marker file and that the archive registers, its file path number.
pub open spec fn files_for(paths: Seq<PathEntry>, archive: Map<u64, u32>, kids: Seq<u32>) -> Seq<u32>
    decreases kids.len(),
{
    if kids.len() == 0 {
        Seq::empty()
    } else {
        let before = files_for(paths, archive, kids.drop_last());
        let kid = kids.last();
        if kid < paths.len() && !paths[kid as int].is_directory && paths[kid as int].ext.0
            != hash40_of("flag"@) && archive.dom().contains(paths[kid as int].path.0) {
            before.push(archive[paths[kid as int].path.0])
        } else {
            before
        }
    }
}

/// How an advance ended.
#[derive(Clone, Copy, Debug, PartialEq, Eq, Structural)]
pub enum AdvanceNote {
    /// An alt was made active.
    Applied,
    /// The selection asked for the stage as it is.
    NoAlt,
    /// The slot had not been set.
    InvalidSelection,
    /// The catalog lacks the alt that the selection names.
    MissingAlt,
}

/// What an advance did.
#[derive(Clone, Copy, Debug, PartialEq, Eq, Structural)]
pub struct Advance {
    /// The selection that was taken.
    pub selection: Selection,
    /// The alt that is active now.
    pub alt: Option<AltRef>,
    pub note: AdvanceNote,
    /// Whether the selection names another stage than the one that comes.
    pub mismatch: bool,
}

impl StageAltManager {
    /// The alt that is patched in.
    pub open spec fn current(&self) -> Option<StageAlt> {
        match self.current_alt {
            Some(r) => Some(self.alts_of(r.stage.0)[r.ordinal as int]),
            None => None,
        }
    }

    /// The folders of the alt that is patched in: each base folder that it
    /// overrides, with the folder that overrides it.
    pub open spec fn current_folders(&self) -> Map<u64, PathHash> {
        match self.current_alt {
            Some(r) => self.alts_of(r.stage.0)[r.ordinal as int].alt_folders@,
            None => Map::empty(),
        }
    }

    /// The file pairs of the alt that is patched in, its folders taken in the
    /// order of their base folders' hashes.
    pub open spec fn current_pairs(&self, search: &SearchIndex) -> Seq<FilePair> {
        listed(search, listing_of(self.current_folders()))
    }

    /// Whether the backup of the path table fits the search index: every index
    /// that it holds is `NO_LINK` or the number of an entry.
    pub open spec fn backs(&self, search: &SearchIndex) -> bool {
        values_ok(self.path_backup@, search.paths@.len() as int)
    }

    /// Whether the two tables hold exactly the alt that is patched in: each is
    /// its backup with the file pairs of that alt redirected, and is its backup
    /// where no alt is patched in.
    pub open spec fn live(&self, search: &SearchIndex, arc: &ArchiveIndex) -> bool {
        &&& self.backs(search)
        &&& arc.path_slots@ == patched(self.filepath_backup@, self.current_pairs(search))
        &&& search.path_slots@ == patched(self.path_backup@, self.current_pairs(search))
    }

    /// A manager for the two tables as they stand, with backups of both, an
    /// empty catalog, an empty selection, and no alt patched in.
    pub fn new(search: &SearchIndex, arc: &ArchiveIndex) -> (manager: StageAltManager)
        requires
            search.wf(),
            arc.wf(),
        ensures
            manager.wf(),
            manager.live(search, arc),
            manager.filepath_backup@ == arc.path_slots@,
            manager.path_backup@ == search.path_slots@,
            manager.folder_backup@ == search.folder_slots@,
            manager.alts@.len() == 0,
            manager.alt_infos@ == Map::<u64, crate::alts::StageAltInfo>::empty(),
            manager.selection@.len() == 0,
            manager.current_index == 0,
            manager.current_alt is None,
            !manager.is_online,
    {
        let manager = StageAltManager {
            filepath_backup: arc.path_slots.backup(),
            path_backup: search.path_slots.backup(),
            folder_backup: search.folder_slots.backup(),
            alt_infos: HashMap::new(),
            alts: Vec::new(),
            selection: Vec::new(),
            current_index: 0,
            current_alt: None,
            is_online: false,
        };
        proof {
            lemma_listing_of_nothing();
        }
        manager
    }

    /// Whether the two tables hold exactly the alt that is patched in.
    pub fn holds_current_alt(&self, search: &SearchIndex, arc: &ArchiveIndex) -> (ok: bool)
        requires
            self.wf(),
            search.wf(),
            arc.wf(),
        ensures
            ok == self.live(search, arc),
    {
        let folders = match self.current_stage_alt() {
            Some(alt) => sorted_folders(&alt.alt_folders),
            None => Vec::new(),
        };
        proof {
            lemma_listing_of_nothing();
        }
        let pairs = collect_file_pairs(search, &folders);
        values_in_range(&self.path_backup, search.paths.len()) && is_patched(
            &arc.path_slots,
            &self.filepath_backup,
            &pairs,
        ) && is_patched(&search.path_slots, &self.path_backup, &pairs)
    }

    /// The alt that is patched in, if any.
    pub fn current_stage_alt(&self) -> (alt: Option<&StageAlt>)
        requires
            self.wf(),
        ensures
            alt is Some == self.current_alt is Some,
            alt matches Some(a) ==> Some(*a) == self.current(),
    {
        match self.current_alt {
            Some(r) => match self.alt_infos.get(&r.stage.0) {
                Some(info) => Some(&info.alts_found[r.ordinal]),
                None => None,
            },
            None => None,
        }
    }

    /// Whether the alt that is patched in overrides the folder `folder`.
    pub fn does_current_alt_have_folder(&self, folder: PathHash) -> (has: bool)
        requires
            self.wf(),
        ensures
            has == self.current_folders().contains_key(folder.0),
    {
        match self.current_stage_alt() {
            Some(alt) => alt.alt_folders.contains_key(&folder.0),
            None => false,
        }
    }

    /// The links of the files that the alt that is patched in must not share.
    pub fn get_sharing_base_for_alt_folder(&self, folder: PathHash) -> (sharing: Option<
        &HashMap<u64, (u32, u32)>,
    >)
        requires
            self.wf(),
        ensures
            sharing is Some == self.current_alt is Some,
            sharing matches Some(s) ==> Some(*s) == Some(self.current().unwrap().sharing_base),
    {
        match self.current_stage_alt() {
            Some(alt) => Some(&alt.sharing_base),
            None => None,
        }
    }

    /// The files that the folder overriding `folder` brings. Nothing where no
    /// alt is patched in, the alt does not override `folder`, or the search
    /// index lacks the overriding folder.
    pub fn get_files_for_alt_folder(
        &self,
        folder: PathHash,
        search: &SearchIndex,
        arc: &ArchiveIndex,
    ) -> (files: Option<Vec<u32>>)
        requires
            self.wf(),
            search.wf(),
            arc.wf(),
        ensures
            match folder_lookup(self.current_folders(), folder.0) {
                Some(variant) => match search.folder_of(variant.0) {
                    Some(_) => files matches Some(list) && list@ == files_for(
                        search.paths@,
                        arc.path_slots@,
                        search.children_of(variant.0),
                    ),
                    None => files is None,
                },
                None => files is None,
            },
    {
        let alt = match self.current_stage_alt() {
            Some(alt) => alt,
            None => {
                return None;
            },
        };
        let variant = match alt.alt_folders.get(&folder.0) {
            Some(variant) => *variant,
            None => {
                return None;
            },
        };
        if search.folder(variant).is_none() {
            return None;
        }
        let kids = search.children(variant);
        let mut files: Vec<u32> = Vec::new();
        let flag = PathHash::new("flag");
        let mut k: usize = 0;
        while k < kids.len()
            invariant
                k <= kids@.len(),
                arc.wf(),
                flag.0 == hash40_of("flag"@),
                forall|x: int| 0 <= x < kids@.len() ==> #[trigger] kids@[x] < search.paths@.len(),
                files@ == files_for(search.paths@, arc.path_slots@, kids@.take(k as int)),
            decreases kids.len() - k,
        {
            let ghost some = kids@.take(k + 1);
            assert(some.drop_last() =~= kids@.take(k as int));
            let entry = search.paths[kids[k] as usize];
            if !entry.is_directory && entry.ext != flag {
                match arc.file_path_index(entry.path) {
                    Some(n) => {
                        files.push(n);
                    },
                    None => {},
                }
            }
            k += 1;
        }
        assert(kids@.take(kids@.len() as int) =~= kids@);
        Some(files)
    }

    /// Patches the alt that is patched in into the two tables: for each of its
    /// file pairs, the slot of the base file gets what the slot of the variant
    /// file holds. A pair of which a table lacks either file is passed over.
    /// The folders are taken in the order of their base folders' hashes.
    pub fn hack_lookups_for_alt(&self, search: &mut SearchIndex, arc: &mut ArchiveIndex)
        requires
            self.wf(),
            old(search).wf(),
            old(arc).wf(),
        ensures
            final(search).wf(),
            final(arc).wf(),
            final(search).folder_slots == old(search).folder_slots,
            final(search).first_child == old(search).first_child,
            final(search).paths == old(search).paths,
            final(search).next == old(search).next,
            final(arc).file_links == old(arc).file_links,
            final(search).path_slots.same_layout(&old(search).path_slots),
            final(arc).path_slots.same_layout(&old(arc).path_slots),
            final(arc).path_slots@ == patched(
                old(arc).path_slots@,
                self.current_pairs(old(search)),
            ),
            final(search).path_slots@ == patched(
                old(search).path_slots@,
                self.current_pairs(old(search)),
            ),
    {
        let alt = match self.current_stage_alt() {
            Some(alt) => alt,
            None => {
                proof {
                    lemma_listing_of_nothing();
                }
                return;
            },
        };
        let folders = sorted_folders(&alt.alt_folders);
        let pairs = collect_file_pairs(search, &folders);
        apply_pairs(&mut arc.path_slots, &pairs);
        apply_pairs(&mut search.path_slots, &pairs);
    }

    /// Takes the alt that is patched in out of the two tables: the slot of each
    /// base file of its file pairs gets what the backup holds for it.
    pub fn unhack_lookups_for_alt(&self, search: &mut SearchIndex, arc: &mut ArchiveIndex)
        requires
            self.wf(),
            old(search).wf(),
            old(arc).wf(),
            self.backs(old(search)),
        ensures
            final(search).wf(),
            final(arc).wf(),
            final(search).folder_slots == old(search).folder_slots,
            final(search).first_child == old(search).first_child,
            final(search).paths == old(search).paths,
            final(search).next == old(search).next,
            final(arc).file_links == old(arc).file_links,
            final(search).path_slots.same_layout(&old(search).path_slots),
            final(arc).path_slots.same_layout(&old(arc).path_slots),
            final(arc).path_slots@ == restored(
                old(arc).path_slots@,
                self.current_pairs(old(search)),
                self.filepath_backup@,
            ),
            final(search).path_slots@ == restored(
                old(search).path_slots@,
                self.current_pairs(old(search)),
                self.path_backup@,
            ),
    {
        let alt = match self.current_stage_alt() {
            Some(alt) => alt,
            None => {
                proof {
                    lemma_listing_of_nothing();
                }
                return;
            },
        };
        let folders = sorted_folders(&alt.alt_folders);
        let pairs = collect_file_pairs(search, &folders);
        restore_pairs(&mut arc.path_slots, &pairs, &self.filepath_backup);
        restore_pairs(&mut search.path_slots, &pairs, &self.path_backup);
    }

    /// Makes `new_alt` the alt that is patched in: the alt that was patched in
    /// is taken out of the tables, then the new one is patched in.
    pub fn change_alt(
        &mut self,
        new_alt: Option<AltRef>,
        search: &mut SearchIndex,
        arc: &mut ArchiveIndex,
    )
        requires
            old(self).wf(),
            old(search).wf(),
            old(arc).wf(),
            old(self).live(old(search), old(arc)),
            new_alt matches Some(r) ==> old(self).has_alt(r.stage.0, r.ordinal),
        ensures
            final(self).wf(),
            final(search).wf(),
            final(arc).wf(),
            final(self).live(final(search), final(arc)),
            final(self).current_alt == new_alt,
            final(self).filepath_backup == old(self).filepath_backup,
            final(self).path_backup == old(self).path_backup,
            final(self).folder_backup == old(self).folder_backup,
            final(self).alts == old(self).alts,
            final(self).alt_infos == old(self).alt_infos,
            final(self).selection == old(self).selection,
            final(self).current_index == old(self).current_index,
            final(self).is_online == old(self).is_online,
            final(search).folder_slots == old(search).folder_slots,
            final(search).first_child == old(search).first_child,
            final(search).paths == old(search).paths,
            final(search).next == old(search).next,
            final(arc).file_links == old(arc).file_links,
    {
        let ghost pairs = self.current_pairs(search);
        proof {
            law_revert_after_apply(self.filepath_backup@, pairs, self.filepath_backup@);
            law_revert_after_apply(self.path_backup@, pairs, self.path_backup@);
        }
        self.unhack_lookups_for_alt(search, arc);
        self.current_alt = new_alt;
        self.hack_lookups_for_alt(search, arc);
    }

    /// The selection that the next advance takes when the stage named
    /// `incoming` comes: a random one where no selection was made or the
    /// results stage comes, else the slot that is next in turn.
    pub open spec fn upcoming(&self, incoming: u64) -> Selection {
        if self.selection@.len() == 0 || incoming == hash40_of("resultstage"@) {
            Selection::Random
        } else {
            self.selection@[(self.current_index as int) % (self.selection@.len() as int)]
        }
    }

    /// The slot that is next in turn after the advance for the stage named `incoming`.
    pub open spec fn index_after(&self, incoming: u64) -> int {
        if self.selection@.len() == 0 || incoming == hash40_of("resultstage"@) {
            self.current_index as int
        } else {
            ((self.current_index as int) % (self.selection@.len() as int) + 1) % (
            self.selection@.len() as int)
        }
    }

    /// The alt that a selection leads to when the stage named `incoming` comes
    /// and a random draw gives `draw`. Ordinal 0, an unset slot and an alt that
    /// the catalog lacks lead to no alt.
    pub open spec fn resolved(&self, selection: Selection, incoming: PathHash, battle: bool, draw: usize) -> Option<
        AltRef,
    > {
        match selection {
            Selection::Invalid => None,
            Selection::Random => {
                let alt = picked(self.alts_of(incoming.0), self.is_online, battle, draw);
                if alt == 0 {
                    None
                } else {
                    Some(AltRef { stage: incoming, ordinal: alt as usize })
                }
            },
            Selection::Regular { name, alt } => if alt != 0 && self.has_alt(name.0, alt) {
                Some(AltRef { stage: name, ordinal: alt })
            } else {
                None
            },
        }
    }

    /// How the advance for a selection ends.
    pub open spec fn note_for(&self, selection: Selection, incoming: PathHash, battle: bool, draw: usize) -> AdvanceNote {
        match selection {
            Selection::Invalid => AdvanceNote::InvalidSelection,
            Selection::Random => if self.resolved(selection, incoming, battle, draw) is Some {
                AdvanceNote::Applied
            } else {
                AdvanceNote::NoAlt
            },
            Selection::Regular { name, alt } => if alt == 0 {
                AdvanceNote::NoAlt
            } else if self.has_alt(name.0, alt) {
                AdvanceNote::Applied
            } else {
                AdvanceNote::MissingAlt
            },
        }
    }

    /// Takes the next selection for the stage named `incoming` and moves the
    /// turn on by one slot, around the end of the list.
    pub fn take_selection(&mut self, incoming: PathHash) -> (selection: Selection)
        ensures
            selection == old(self).upcoming(incoming.0),
            final(self).current_index == old(self).index_after(incoming.0),
            final(self).filepath_backup == old(self).filepath_backup,
            final(self).path_backup == old(self).path_backup,
            final(self).folder_backup == old(self).folder_backup,
            final(self).alts == old(self).alts,
            final(self).alt_infos == old(self).alt_infos,
            final(self).selection == old(self).selection,
            final(self).current_alt == old(self).current_alt,
            final(self).is_online == old(self).is_online,
    {
        let count = self.selection.len();
        if count == 0 || incoming == PathHash::new("resultstage") {
            return Selection::Random;
        }
        let slot = self.current_index % count;
        self.current_index = (slot + 1) % count;
        self.selection[slot]
    }

    /// Advances to the stage named `incoming` with the random draw `draw`: takes
    /// the next selection, and makes the alt that it leads to the alt that is
    /// patched in.
    pub fn advance_alt_with(
        &mut self,
        incoming: PathHash,
        is_battle: bool,
        draw: usize,
        search: &mut SearchIndex,
        arc: &mut ArchiveIndex,
    ) -> (done: Advance)
        requires
            old(self).wf(),
            old(search).wf(),
            old(arc).wf(),
            old(self).live(old(search), old(arc)),
        ensures
            final(self).wf(),
            final(search).wf(),
            final(arc).wf(),
            final(self).live(final(search), final(arc)),
            done.selection == old(self).upcoming(incoming.0),
            done.alt == old(self).resolved(done.selection, incoming, is_battle, draw),
            done.note == old(self).note_for(done.selection, incoming, is_battle, draw),
            done.mismatch == (done.selection matches Selection::Regular { name, .. } && name
                != incoming),
            done.alt matches Some(r) ==> old(self).has_alt(r.stage.0, r.ordinal) && r.ordinal != 0,
            done.alt matches Some(r) ==> done.selection is Random ==> qualifies(
                &old(self).alts_of(r.stage.0)[r.ordinal as int],
                old(self).is_online,
                is_battle,
            ),
            final(self).current_alt == done.alt,
            final(self).current_index == old(self).index_after(incoming.0),
            final(self).filepath_backup == old(self).filepath_backup,
            final(self).path_backup == old(self).path_backup,
            final(self).folder_backup == old(self).folder_backup,
            final(self).alts == old(self).alts,
            final(self).alt_infos == old(self).alt_infos,
            final(self).selection == old(self).selection,
            final(self).is_online == old(self).is_online,
            final(search).folder_slots == old(search).folder_slots,
            final(search).first_child == old(search).first_child,
            final(search).paths == old(search).paths,
            final(search).next == old(search).next,
            final(arc).file_links == old(arc).file_links,
    {
        let selection = self.take_selection(incoming);
        let (alt, note, mismatch) = match selection {
            Selection::Invalid => (None, AdvanceNote::InvalidSelection, false),
            Selection::Random => {
                let ordinal = self.pick_random_alt(incoming, is_battle, draw);
                if ordinal == 0 {
                    (None, AdvanceNote::NoAlt, false)
                } else {
                    (Some(AltRef { stage: incoming, ordinal }), AdvanceNote::Applied, false)
                }
            },
            Selection::Regular { name, alt } => {
                let mismatch = name != incoming;
                if alt == 0 {
                    (None, AdvanceNote::NoAlt, mismatch)
                } else if self.catalog_has(name, alt) {
                    (Some(AltRef { stage: name, ordinal: alt }), AdvanceNote::Applied, mismatch)
                } else {
                    (None, AdvanceNote::MissingAlt, mismatch)
                }
            },
        };
        self.change_alt(alt, search, arc);
        Advance { selection, alt, note, mismatch }
    }

    /// Advances to the stage named `incoming`: takes the next selection, draws
    /// at random where it asks for that, and makes the alt that it leads to the
    /// alt that is patched in.
    pub fn advance_alt(
        &mut self,
        incoming: PathHash,
        is_battle: bool,
        search: &mut SearchIndex,
        arc: &mut ArchiveIndex,
    ) -> (done: Advance)
        requires
            old(self).wf(),
            old(search).wf(),
            old(arc).wf(),
            old(self).live(old(search), old(arc)),
        ensures
            final(self).wf(),
            final(search).wf(),
            final(arc).wf(),
            final(self).live(final(search), final(arc)),
            done.selection == old(self).upcoming(incoming.0),
            exists|draw: usize|
                done.alt == old(self).resolved(done.selection, incoming, is_battle, draw)
                    && done.note == old(self).note_for(done.selection, incoming, is_battle, draw),
            done.mismatch == (done.selection matches Selection::Regular { name, .. } && name
                != incoming),
            done.selection matches Selection::Regular { name, alt } ==> done.alt == (if alt != 0
                && old(self).has_alt(name.0, alt) {
                Some(AltRef { stage: name, ordinal: alt })
            } else {
                None
            }),
            done.selection is Invalid ==> done.alt is None && done.note
                == AdvanceNote::InvalidSelection,
            done.alt matches Some(r) ==> old(self).has_alt(r.stage.0, r.ordinal) && r.ordinal != 0,
            done.alt matches Some(r) ==> done.selection is Random ==> qualifies(
                &old(self).alts_of(r.stage.0)[r.ordinal as int],
                old(self).is_online,
                is_battle,
            ),
            final(self).current_alt == done.alt,
            final(self).current_index == old(self).index_after(incoming.0),
            final(self).filepath_backup == old(self).filepath_backup,
            final(self).path_backup == old(self).path_backup,
            final(self).folder_backup == old(self).folder_backup,
            final(self).alts == old(self).alts,
            final(self).alt_infos == old(self).alt_infos,
            final(self).selection == old(self).selection,
            final(self).is_online == old(self).is_online,
            final(search).folder_slots == old(search).folder_slots,
            final(search).first_child == old(search).first_child,
            final(search).paths == old(search).paths,
            final(search).next == old(search).next,
            final(arc).file_links == old(arc).file_links,
    {
        let draw = random_draw();
        self.advance_alt_with(incoming, is_battle, draw, search, arc)
    }

    /// Whether the catalog has alt `ordinal` of the stage named `stage`.
    pub fn catalog_has(&self, stage: PathHash, ordinal: usize) -> (has: bool)
        ensures
            has == self.has_alt(stage.0, ordinal),
    {
        match self.alt_infos.get(&stage.0) {
            Some(info) => ordinal < info.alts_found.len(),
            None => false,
        }
    }

    /// Puts `catalog` in place of the catalog. No alt may be patched in.
    pub fn install_catalog(&mut self, catalog: HashMap<u64, crate::alts::StageAltInfo>)
        requires
            old(self).current_alt is None,
        ensures
            final(self).alt_infos == catalog,
            final(self).current_alt is None,
            final(self).filepath_backup == old(self).filepath_backup,
            final(self).path_backup == old(self).path_backup,
            final(self).folder_backup == old(self).folder_backup,
            final(self).alts == old(self).alts,
            final(self).selection == old(self).selection,
            final(self).current_index == old(self).current_index,
            final(self).is_online == old(self).is_online,
    {
        self.alt_infos = catalog;
    }
}

} // verus!
