//! The catalog builder: finds each stage's alts in the search index, fixes the
//! order of their folders, and collects what each alt overrides.

use vstd::prelude::*;
use std::collections::HashMap;
use crate::alts::{StageAlt, StageAltInfo};
use crate::archive::ArchiveIndex;
use crate::catalog::{
    alt_of, alts_upto, alts_view, catalog_of, folders_among, folders_below, form_of, info_of,
    infos_view, leads_to_itself, lemma_with_folders_itself, probe_of, sharing_of, ui_files,
    vanilla_everywhere, vanilla_first, vanilla_of, with_folders, ArchiveView, StageProbe, Unfit,
    MAX_ALTS,
};
use crate::fix::file_order_fix;
use crate::folders::{listing_of, sorted_folders};
use crate::hash::{numbered, PathHash};
use crate::index::SearchIndex;
use crate::redirect::{collect_file_pairs, file_pairs};
use crate::search::get_direct_child;
use crate::ui::get_ui_files;

verus! {

broadcast use vstd::std_specs::hash::group_hash_axioms;

impl ArchiveIndex {
    /// The archive as the catalog reads it.
    pub open spec fn view(&self) -> ArchiveView {
        ArchiveView { files: self.path_slots@, links: self.file_links@ }
    }
}

/// The relative paths of all folders below the folder `path`, each folder
/// before what lies in it; `base` is the relative path of `path` itself, 0 for
/// the root.
pub fn collect_folders(search: &SearchIndex, path: PathHash, base: PathHash) -> (folders: Vec<
    PathHash,
>)
    requires
        search.wf(),
    ensures
        folders@ == folders_below(
            search.frame(),
            search.links(),
            path.0,
            base.0,
            search.first_child@.len() as nat,
        ),
{
    let mut folders: Vec<PathHash> = Vec::new();
    folders_down(search, path, base, search.first_child.len(), &mut folders);
    folders
}

/// Appends the relative paths of all folders below `path`, at most `fuel`
/// levels deep, to `out`.
fn folders_down(
    search: &SearchIndex,
    path: PathHash,
    base: PathHash,
    fuel: usize,
    out: &mut Vec<PathHash>,
)
    requires
        search.wf(),
    ensures
        final(out)@ == old(out)@ + folders_below(
            search.frame(),
            search.links(),
            path.0,
            base.0,
            fuel as nat,
        ),
    decreases fuel,
{
    let ghost start = out@;
    if fuel == 0 {
        return;
    }
    let kids = search.children(path);
    let prefix = if base.0 != 0 {
        base.concat(PathHash::new("/"))
    } else {
        base
    };
    let mut k: usize = 0;
    while k < kids.len()
        invariant
            k <= kids@.len(),
            fuel > 0,
            search.wf(),
            kids@ == search.children_of(path.0),
            forall|x: int| 0 <= x < kids@.len() ==> #[trigger] kids@[x] < search.paths@.len(),
            prefix.0 == (if base.0 != 0 {
                crate::hash::hash40_concat(base.0, crate::hash::hash40_of("/"@))
            } else {
                base.0
            }),
            out@ == start + folders_among(
                search.frame(),
                search.links(),
                kids@.take(k as int),
                base.0,
                (fuel - 1) as nat,
            ),
        decreases kids.len() - k,
    {
        let ghost some = kids@.take(k + 1);
        assert(some.drop_last() =~= kids@.take(k as int));
        let entry = search.paths[kids[k] as usize];
        if entry.is_directory {
            let here = prefix.concat(entry.file_name);
            out.push(here);
            folders_down(search, entry.path, here, fuel - 1, out);
        }
        k += 1;
    }
    assert(kids@.take(kids@.len() as int) =~= kids@);
}

/// Sets each folder of `rels` under `base_root` to be overridden by the folder
/// of the same relative path under `variant_root`.
pub fn map_folders(
    map: &mut HashMap<u64, PathHash>,
    base_root: PathHash,
    variant_root: PathHash,
    rels: &Vec<PathHash>,
)
    ensures
        final(map)@ == with_folders(old(map)@, base_root.0, variant_root.0, rels@),
{
    let ghost start = map@;
    let mut i: usize = 0;
    while i < rels.len()
        invariant
            i <= rels@.len(),
            map@ == with_folders(start, base_root.0, variant_root.0, rels@.take(i as int)),
        decreases rels.len() - i,
    {
        let ghost front = rels@.take(i + 1);
        assert(front.drop_last() =~= rels@.take(i as int));
        let rel = rels[i];
        let base = base_root.join_path(rel);
        let variant = variant_root.join_path(rel);
        map.insert(base.0, variant);
        i += 1;
    }
    assert(rels@.take(rels@.len() as int) =~= rels@);
}

/// The files of the folders `folder_lookup` that must not share: each base
/// file whose data link is the link of its variant file, with the two links.
/// The folders are taken in the order of their base folders' hashes.
pub fn collect_sharing_base(
    arc: &ArchiveIndex,
    search: &SearchIndex,
    folder_lookup: &HashMap<u64, PathHash>,
) -> (sharing: HashMap<u64, (u32, u32)>)
    requires
        arc.wf(),
        search.wf(),
    ensures
        sharing@ == sharing_of(
            arc@,
            file_pairs(
                search.folder_slots@,
                search.paths@,
                search.links(),
                listing_of(folder_lookup@),
            ),
        ),
{
    let folders = sorted_folders(folder_lookup);
    let pairs = collect_file_pairs(search, &folders);
    let mut sharing: HashMap<u64, (u32, u32)> = HashMap::new();
    let mut i: usize = 0;
    while i < pairs.len()
        invariant
            i <= pairs@.len(),
            arc.wf(),
            sharing@ == sharing_of(arc@, pairs@.take(i as int)),
        decreases pairs.len() - i,
    {
        let ghost front = pairs@.take(i + 1);
        assert(front.drop_last() =~= pairs@.take(i as int));
        let (base, variant) = pairs[i];
        match arc.file_link(base) {
            Some(b) => match arc.file_link(variant) {
                Some(v) => {
                    if b == v {
                        sharing.insert(base.0, (b, v));
                    }
                },
                None => {},
            },
            None => {},
        }
        i += 1;
    }
    assert(pairs@.take(pairs@.len() as int) =~= pairs@);
    sharing
}

/// Takes in one form of an alt: reads the two marks of the variant folder
/// `variant`, fixes its order against the base folder `base`, and sets every
/// folder below `base` to be overridden.
pub fn take_form(
    search: &mut SearchIndex,
    map: &mut HashMap<u64, PathHash>,
    base: u32,
    variant: u32,
) -> (marks: (bool, bool))
    requires
        old(search).wf(),
        base < old(search).paths@.len(),
        variant < old(search).paths@.len(),
    ensures
        final(search).wf(),
        final(search).same_entries(old(search)),
        marks.0 == form_of(old(search).frame(), old(search).links(), old(map)@, base, variant).safe,
        marks.1 == form_of(
            old(search).frame(),
            old(search).links(),
            old(map)@,
            base,
            variant,
        ).ignore,
        final(search).links() == form_of(
            old(search).frame(),
            old(search).links(),
            old(map)@,
            base,
            variant,
        ).links,
        final(map)@ == form_of(
            old(search).frame(),
            old(search).links(),
            old(map)@,
            base,
            variant,
        ).folders,
{
    let base_path = search.paths[base as usize].path;
    let variant_path = search.paths[variant as usize].path;
    let safe = get_direct_child(search, variant, PathHash::new("wifi-safe.flag")).is_some();
    let ignore = get_direct_child(search, variant, PathHash::new("wifi-ignore.flag")).is_some();
    file_order_fix(search, base_path, variant_path);
    let rels = collect_folders(search, base_path, PathHash(0));
    map_folders(map, base_path, variant_path, &rels);
    (safe, ignore)
}

/// Builds alt `ordinal` of a stage; nothing, and nothing changed, where the
/// stage folder has no folder `normal_sNN` for it.
pub fn build_alt(search: &mut SearchIndex, arc: &ArchiveIndex, probe: StageProbe, ordinal: usize) -> (alt:
    Option<StageAlt>)
    requires
        old(search).wf(),
        arc.wf(),
        probe.stage < old(search).paths@.len(),
        probe.normal < old(search).paths@.len(),
        probe.battle matches Some(b) ==> b < old(search).paths@.len(),
    ensures
        final(search).wf(),
        final(search).same_entries(old(search)),
        match alt_of(old(search).frame(), arc@, old(search).links(), probe, ordinal as nat) {
            Some((view, links)) => alt matches Some(a) && a@ == view && final(search).links()
                == links,
            None => alt is None && final(search).links() == old(search).links(),
        },
{
    let name = search.paths[probe.stage as usize].file_name;
    let normal_alt = match get_direct_child(search, probe.stage, numbered("normal_s", ordinal, "")) {
        Some(entry) => entry,
        None => {
            return None;
        },
    };
    proof {
        crate::order::lemma_find_named(
            search.paths@,
            search.children_of(search.paths@[probe.stage as int].path.0),
            crate::catalog::numbered_hash("normal_s"@, ordinal as nat, ""@),
        );
    }
    let effect = PathHash::new("effect/stage").join_path(name);
    let mut folders: HashMap<u64, PathHash> = HashMap::new();
    folders.insert(effect.0, effect.concat(numbered("_s", ordinal, "")));
    let ui_paths = get_ui_files(name, ordinal);
    let (is_normal_ws, is_normal_ignore) = take_form(search, &mut folders, probe.normal, normal_alt);
    let battle_alt = match probe.battle {
        Some(_) => get_direct_child(search, probe.stage, numbered("battle_s", ordinal, "")),
        None => None,
    };
    let (is_battle_ws, is_battle_ignore) = match battle_alt {
        Some(entry) => {
            proof {
                crate::order::lemma_find_named(
                    search.paths@,
                    search.children_of(search.paths@[probe.stage as int].path.0),
                    crate::catalog::numbered_hash("battle_s"@, ordinal as nat, ""@),
                );
            }
            match probe.battle {
                Some(base) => take_form(search, &mut folders, base, entry),
                None => (false, false),
            }
        },
        None => (false, false),
    };
    let sharing_base = collect_sharing_base(arc, search, &folders);
    assert(ui_paths@ =~= ui_files(name.0, ordinal as nat));
    Some(
        StageAlt {
            alt_folders: folders,
            sharing_base,
            ui_paths,
            is_normal_ws,
            is_normal_ignore,
            is_battle_ws,
            is_battle_ignore,
        },
    )
}

/// Builds the alts of a stage from ordinal 1 on, up to the first ordinal for
/// which the stage has none.
pub fn stage_alts(search: &mut SearchIndex, arc: &ArchiveIndex, probe: StageProbe) -> (alts: Vec<
    StageAlt,
>)
    requires
        old(search).wf(),
        arc.wf(),
        probe.stage < old(search).paths@.len(),
        probe.normal < old(search).paths@.len(),
        probe.battle matches Some(b) ==> b < old(search).paths@.len(),
    ensures
        final(search).wf(),
        final(search).same_entries(old(search)),
        alts_view(alts@) == alts_upto(
            old(search).frame(),
            arc@,
            old(search).links(),
            probe,
            MAX_ALTS as nat,
        ).alts,
        final(search).links() == alts_upto(
            old(search).frame(),
            arc@,
            old(search).links(),
            probe,
            MAX_ALTS as nat,
        ).links,
{
    let ghost frame = search.frame();
    let ghost links = search.links();
    let mut alts: Vec<StageAlt> = Vec::new();
    let mut ordinal: usize = 1;
    let mut ended = false;
    while ordinal <= MAX_ALTS
        invariant
            1 <= ordinal <= MAX_ALTS + 1,
            search.wf(),
            arc.wf(),
            search.same_entries(old(search)),
            frame == old(search).frame(),
            links == old(search).links(),
            probe.stage < search.paths@.len(),
            probe.normal < search.paths@.len(),
            probe.battle matches Some(b) ==> b < search.paths@.len(),
            alts_view(alts@) == alts_upto(frame, arc@, links, probe, (ordinal - 1) as nat).alts,
            search.links() == alts_upto(frame, arc@, links, probe, (ordinal - 1) as nat).links,
            ended == alts_upto(frame, arc@, links, probe, (ordinal - 1) as nat).ended,
        decreases MAX_ALTS + 1 - ordinal,
    {
        if !ended {
            match build_alt(search, arc, probe, ordinal) {
                Some(alt) => {
                    alts.push(alt);
                },
                None => {
                    ended = true;
                },
            }
        }
        ordinal += 1;
    }
    alts
}

/// Builds alt 0 of a stage, the stage as it is.
pub fn vanilla_alt(search: &SearchIndex, probe: StageProbe) -> (alt: StageAlt)
    requires
        search.wf(),
        probe.stage < search.paths@.len(),
        probe.normal < search.paths@.len(),
        probe.battle matches Some(b) ==> b < search.paths@.len(),
    ensures
        alt@ == vanilla_of(search.frame(), search.links(), probe),
        leads_to_itself(alt.alt_folders@),
{
    let name = search.paths[probe.stage as usize].file_name;
    let effect = PathHash::new("effect/stage").join_path(name);
    let mut folders: HashMap<u64, PathHash> = HashMap::new();
    folders.insert(effect.0, effect);
    let ui_paths = get_ui_files(name, 0);
    let normal_path = search.paths[probe.normal as usize].path;
    let rels = collect_folders(search, normal_path, PathHash(0));
    proof {
        lemma_with_folders_itself(folders@, normal_path.0, rels@);
    }
    map_folders(&mut folders, normal_path, normal_path, &rels);
    match probe.battle {
        Some(b) => {
            let battle_path = search.paths[b as usize].path;
            let rels = collect_folders(search, battle_path, PathHash(0));
            proof {
                lemma_with_folders_itself(folders@, battle_path.0, rels@);
            }
            map_folders(&mut folders, battle_path, battle_path, &rels);
        },
        None => {},
    }
    assert(ui_paths@ =~= ui_files(name.0, 0));
    StageAlt {
        alt_folders: folders,
        sharing_base: HashMap::new(),
        ui_paths,
        is_normal_ws: true,
        is_normal_ignore: false,
        is_battle_ws: true,
        is_battle_ignore: false,
    }
}

/// Probes the entry `stage` as a stage folder.
pub fn probe_stage(search: &SearchIndex, stage: u32) -> (probe: Result<StageProbe, Unfit>)
    requires
        search.wf(),
    ensures
        probe == probe_of(search.frame(), search.links(), stage),
        probe matches Ok(p) ==> p.stage < search.paths@.len() && p.normal < search.paths@.len()
            && (p.battle matches Some(b) ==> b < search.paths@.len()),
{
    if stage as usize >= search.paths.len() {
        return Err(Unfit::NotAFolder);
    }
    let entry = search.paths[stage as usize];
    if !entry.is_directory {
        return Err(Unfit::NotAFolder);
    }
    if entry.file_name == PathHash::new("common") {
        return Err(Unfit::Common);
    }
    proof {
        crate::order::lemma_find_named(
            search.paths@,
            search.children_of(entry.path.0),
            crate::hash::hash40_of("normal"@),
        );
        crate::order::lemma_find_named(
            search.paths@,
            search.children_of(entry.path.0),
            crate::hash::hash40_of("battle"@),
        );
    }
    match get_direct_child(search, stage, PathHash::new("normal")) {
        Some(normal) => Ok(
            StageProbe {
                stage,
                normal,
                battle: get_direct_child(search, stage, PathHash::new("battle")),
            },
        ),
        None => Err(Unfit::NoNormalFolder),
    }
}

/// Builds the alts of a probed stage: alt 0, the stage as it is, and after it
/// the alts that are found.
pub fn stage_info(search: &mut SearchIndex, arc: &ArchiveIndex, probe: StageProbe) -> (info:
    StageAltInfo)
    requires
        old(search).wf(),
        arc.wf(),
        probe.stage < old(search).paths@.len(),
        probe.normal < old(search).paths@.len(),
        probe.battle matches Some(b) ==> b < old(search).paths@.len(),
    ensures
        final(search).wf(),
        final(search).same_entries(old(search)),
        info@ == info_of(old(search).frame(), arc@, old(search).links(), probe).0,
        final(search).links() == info_of(old(search).frame(), arc@, old(search).links(), probe).1,
        vanilla_first(info.alts_found@, info.stage_name.0),
{
    let mut alts = stage_alts(search, arc, probe);
    let ghost found = alts_view(alts@);
    let first = vanilla_alt(search, probe);
    alts.insert(0, first);
    assert(alts_view(alts@) =~= seq![first@] + found);
    let entry = search.paths[probe.stage as usize];
    StageAltInfo {
        stage_name: entry.file_name,
        stage_folder: entry.path,
        normal_folder: entry.path.join_path(PathHash::new("normal")),
        battle_folder: entry.path.join_path(PathHash::new("battle")),
        alts_found: alts,
    }
}

/// A catalog: the alts of each stage under the stage's name, and the entries
/// under `stage` that gave no stage, each with the reason.
#[derive(Debug)]
pub struct Catalog {
    pub infos: HashMap<u64, StageAltInfo>,
    pub unfit: Vec<(u32, Unfit)>,
}

/// Builds the catalog: the alts of every folder under `stage` but `common`
/// that has a `normal` folder. The order of each alt's folders is fixed on the
/// way. An entry that gives no stage is reported and passed over.
pub fn collect_alts(search: &mut SearchIndex, arc: &ArchiveIndex) -> (catalog: Catalog)
    requires
        old(search).wf(),
        arc.wf(),
    ensures
        final(search).wf(),
        final(search).same_entries(old(search)),
        infos_view(catalog.infos@) == catalog_of(
            old(search).frame(),
            arc@,
            old(search).links(),
            old(search).children_of(crate::hash::hash40_of("stage"@)),
        ).infos,
        catalog.unfit@ == catalog_of(
            old(search).frame(),
            arc@,
            old(search).links(),
            old(search).children_of(crate::hash::hash40_of("stage"@)),
        ).unfit,
        vanilla_everywhere(catalog.infos@),
        final(search).links() == catalog_of(
            old(search).frame(),
            arc@,
            old(search).links(),
            old(search).children_of(crate::hash::hash40_of("stage"@)),
        ).links,
{
    let ghost frame = search.frame();
    let ghost links = search.links();
    let stages = search.children(PathHash::new("stage"));
    let mut infos: HashMap<u64, StageAltInfo> = HashMap::new();
    let mut unfit: Vec<(u32, Unfit)> = Vec::new();
    let mut i: usize = 0;
    while i < stages.len()
        invariant
            i <= stages@.len(),
            search.wf(),
            arc.wf(),
            search.same_entries(old(search)),
            frame == old(search).frame(),
            links == old(search).links(),
            infos_view(infos@) == catalog_of(frame, arc@, links, stages@.take(i as int)).infos,
            unfit@ == catalog_of(frame, arc@, links, stages@.take(i as int)).unfit,
            vanilla_everywhere(infos@),
            search.links() == catalog_of(frame, arc@, links, stages@.take(i as int)).links,
        decreases stages.len() - i,
    {
        let ghost front = stages@.take(i + 1);
        assert(front.drop_last() =~= stages@.take(i as int));
        match probe_stage(search, stages[i]) {
            Ok(probe) => {
                let info = stage_info(search, arc, probe);
                let key = info.stage_name.0;
                infos.insert(key, info);
            },
            Err(why) => {
                unfit.push((stages[i], why));
            },
        }
        i += 1;
    }
    assert(stages@.take(stages@.len() as int) =~= stages@);
    Catalog { infos, unfit }
}

} // verus!
