//! What the catalog of a search index is: for every stage folder its alts, as
//! the folders `normal_s01`, `normal_s02`, ... (and `battle_s01`, ...) give them.

use vstd::prelude::*;
use crate::alts::{StageAlt, StageAltInfo};
use crate::fix::fixed;
use crate::folders::listing_of;
use crate::hash::{hash40_concat, hash40_join, hash40_of, ordinal_text, PathHash};
use crate::index::{Frame, Links};
use crate::patch::FilePair;
use crate::redirect::file_pairs;
use crate::search::find_named;
use crate::ui::ui_file;

verus! {

/// The highest alt ordinal that is probed for.
pub const MAX_ALTS: usize = 99;

/// An alt as a mathematical value.
pub struct AltView {
    pub folders: Map<u64, PathHash>,
    pub sharing: Map<u64, (u32, u32)>,
    pub ui: Seq<PathHash>,
    pub normal_ws: bool,
    pub normal_ignore: bool,
    pub battle_ws: bool,
    pub battle_ignore: bool,
}

/// A stage's alts as a mathematical value.
pub struct InfoView {
    pub stage_name: PathHash,
    pub stage_folder: PathHash,
    pub normal_folder: PathHash,
    pub battle_folder: PathHash,
    pub alts: Seq<AltView>,
}

impl StageAlt {
    /// The alt as a mathematical value.
    pub open spec fn view(&self) -> AltView {
        AltView {
            folders: self.alt_folders@,
            sharing: self.sharing_base@,
            ui: self.ui_paths@,
            normal_ws: self.is_normal_ws,
            normal_ignore: self.is_normal_ignore,
            battle_ws: self.is_battle_ws,
            battle_ignore: self.is_battle_ignore,
        }
    }
}

/// A list of alts as a mathematical value.
pub open spec fn alts_view(alts: Seq<StageAlt>) -> Seq<AltView> {
    Seq::new(alts.len(), |i: int| alts[i]@)
}

impl StageAltInfo {
    /// The stage's alts as a mathematical value.
    pub open spec fn view(&self) -> InfoView {
        InfoView {
            stage_name: self.stage_name,
            stage_folder: self.stage_folder,
            normal_folder: self.normal_folder,
            battle_folder: self.battle_folder,
            alts: alts_view(self.alts_found@),
        }
    }
}

/// The archive as the catalog reads it: the table from path hash to file path
/// number, and each file path's data link.
pub struct ArchiveView {
    pub files: Map<u64, u32>,
    pub links: Seq<u32>,
}

impl ArchiveView {
    /// The data link of the file registered for `hash`.
    pub open spec fn link_of(self, hash: u64) -> Option<u32> {
        if self.files.dom().contains(hash) && self.files[hash] < self.links.len() {
            Some(self.links[self.files[hash] as int])
        } else {
            None
        }
    }
}

/// The first child named `name` of the folder that entry `parent` stands for.
pub open spec fn child_of(frame: Frame, links: Links, parent: u32, name: u64) -> Option<u32> {
    if parent < frame.paths.len() {
        find_named(frame.paths, frame.children(links, frame.paths[parent as int].path.0), name)
    } else {
        None
    }
}

/// The hash of the text `prefix`, the ordinal `n`, `suffix`.
pub open spec fn numbered_hash(prefix: Seq<char>, n: nat, suffix: Seq<char>) -> u64 {
    hash40_of(prefix + ordinal_text(n) + suffix)
}

/// The path of the folder named `name` relative to a root, where its parent's
/// relative path is `base`; 0 stands for the root itself.
pub open spec fn relative(base: u64, name: u64) -> u64 {
    if base != 0 {
        hash40_concat(hash40_concat(base, hash40_of("/"@)), name)
    } else {
        hash40_concat(base, name)
    }
}

/// The relative paths of all folders below the folder with path hash `hash`,
/// each folder before what lies in it, at most `fuel` levels deep.
pub open spec fn folders_below(frame: Frame, links: Links, hash: u64, base: u64, fuel: nat) -> Seq<
    PathHash,
>
    decreases fuel, 0nat, 0nat,
{
    if fuel == 0 {
        Seq::empty()
    } else {
        folders_among(frame, links, frame.children(links, hash), base, (fuel - 1) as nat)
    }
}

/// The relative paths of the folders among `kids` and of all folders below them.
pub open spec fn folders_among(frame: Frame, links: Links, kids: Seq<u32>, base: u64, fuel: nat) -> Seq<
    PathHash,
>
    decreases fuel, 1nat, kids.len(),
{
    if kids.len() == 0 {
        Seq::empty()
    } else {
        let before = folders_among(frame, links, kids.drop_last(), base, fuel);
        let kid = kids.last();
        if kid < frame.paths.len() && frame.paths[kid as int].is_directory {
            let here = relative(base, frame.paths[kid as int].file_name.0);
            before + seq![PathHash(here)] + folders_below(
                frame,
                links,
                frame.paths[kid as int].path.0,
                here,
                fuel,
            )
        } else {
            before
        }
    }
}

/// The folder map after each folder of `rels` under `base_root` was set to be
/// overridden by the folder of the same relative path under `variant_root`.
pub open spec fn with_folders(
    map: Map<u64, PathHash>,
    base_root: u64,
    variant_root: u64,
    rels: Seq<PathHash>,
) -> Map<u64, PathHash>
    decreases rels.len(),
{
    if rels.len() == 0 {
        map
    } else {
        with_folders(map, base_root, variant_root, rels.drop_last()).insert(
            hash40_join(base_root, rels.last().0),
            PathHash(hash40_join(variant_root, rels.last().0)),
        )
    }
}

/// The files that must not share: each base file of `pairs` whose data link is
/// the link of its variant file, with the two links.
pub open spec fn sharing_of(archive: ArchiveView, pairs: Seq<FilePair>) -> Map<u64, (u32, u32)>
    decreases pairs.len(),
{
    if pairs.len() == 0 {
        Map::empty()
    } else {
        let before = sharing_of(archive, pairs.drop_last());
        let (base, variant) = pairs.last();
        match (archive.link_of(base.0), archive.link_of(variant.0)) {
            (Some(b), Some(v)) => if b == v {
                before.insert(base.0, (b, v))
            } else {
                before
            },
            _ => before,
        }
    }
}

/// The five texture paths of alt `alt_no` of the stage named `stage`.
pub open spec fn ui_files(stage: u64, alt_no: nat) -> Seq<PathHash> {
    Seq::new(5, |kind: int| PathHash(ui_file(stage, alt_no, kind)))
}

/// The effect folder of the stage named `stage`.
pub open spec fn effect_folder(stage: u64) -> u64 {
    hash40_join(hash40_of("effect/stage"@), stage)
}

/// A stage folder as the catalog builder found it: the entry of the stage
/// folder, of its `normal` folder, and of its `battle` folder if it has one.
#[derive(Clone, Copy, Debug, PartialEq, Eq, Structural)]
pub struct StageProbe {
    pub stage: u32,
    pub normal: u32,
    pub battle: Option<u32>,
}

/// One form of an alt: its two marks, and the links and the folder map after
/// the form was taken in.
pub struct FormView {
    pub safe: bool,
    pub ignore: bool,
    pub links: Links,
    pub folders: Map<u64, PathHash>,
}

/// What taking in one form of an alt gives: the marks read from the variant
/// folder `variant`, the links after the order fix of `variant` against `base`,
/// and the folder map with every folder below `base` set to be overridden.
pub open spec fn form_of(
    frame: Frame,
    links: Links,
    map: Map<u64, PathHash>,
    base: u32,
    variant: u32,
) -> FormView {
    let base_path = frame.paths[base as int].path.0;
    let variant_path = frame.paths[variant as int].path.0;
    let after = fixed(frame, links, base_path, variant_path, links.first.len());
    FormView {
        safe: child_of(frame, links, variant, hash40_of("wifi-safe.flag"@)) is Some,
        ignore: child_of(frame, links, variant, hash40_of("wifi-ignore.flag"@)) is Some,
        links: after,
        folders: with_folders(
            map,
            base_path,
            variant_path,
            folders_below(frame, after, base_path, 0, after.first.len()),
        ),
    }
}

/// Alt `ordinal` of a stage and the links after it was taken in; nothing where
/// the stage folder has no folder `normal_sNN` for it. The battle form is taken
/// in where the stage has a `battle` folder and a folder `battle_sNN`.
pub open spec fn alt_of(
    frame: Frame,
    archive: ArchiveView,
    links: Links,
    probe: StageProbe,
    ordinal: nat,
) -> Option<(AltView, Links)> {
    let name = frame.paths[probe.stage as int].file_name.0;
    match child_of(frame, links, probe.stage, numbered_hash("normal_s"@, ordinal, ""@)) {
        None => None,
        Some(normal_alt) => {
            let start = Map::<u64, PathHash>::empty().insert(
                effect_folder(name),
                PathHash(hash40_concat(effect_folder(name), numbered_hash("_s"@, ordinal, ""@))),
            );
            let normal = form_of(frame, links, start, probe.normal, normal_alt);
            let battle_alt = match probe.battle {
                Some(_) => child_of(
                    frame,
                    normal.links,
                    probe.stage,
                    numbered_hash("battle_s"@, ordinal, ""@),
                ),
                None => None,
            };
            let battle = match battle_alt {
                Some(v) => form_of(frame, normal.links, normal.folders, probe.battle.unwrap(), v),
                None => FormView {
                    safe: false,
                    ignore: false,
                    links: normal.links,
                    folders: normal.folders,
                },
            };
            Some(
                (
                    AltView {
                        folders: battle.folders,
                        sharing: sharing_of(
                            archive,
                            file_pairs(
                                frame.folders,
                                frame.paths,
                                battle.links,
                                listing_of(battle.folders),
                            ),
                        ),
                        ui: ui_files(name, ordinal),
                        normal_ws: normal.safe,
                        normal_ignore: normal.ignore,
                        battle_ws: battle.safe,
                        battle_ignore: battle.ignore,
                    },
                    battle.links,
                ),
            )
        },
    }
}

/// The alts of a stage from ordinal 1 on, probed up to `upto`, with the links
/// after they were taken in and whether the probing has ended at a missing ordinal.
pub struct Probed {
    pub alts: Seq<AltView>,
    pub links: Links,
    pub ended: bool,
}

/// The alts of a stage from ordinal 1 up to `upto`: the probing ends at the
/// first ordinal for which the stage has no alt.
pub open spec fn alts_upto(
    frame: Frame,
    archive: ArchiveView,
    links: Links,
    probe: StageProbe,
    upto: nat,
) -> Probed
    decreases upto,
{
    if upto == 0 {
        Probed { alts: Seq::empty(), links, ended: false }
    } else {
        let before = alts_upto(frame, archive, links, probe, (upto - 1) as nat);
        if before.ended {
            before
        } else {
            match alt_of(frame, archive, before.links, probe, upto) {
                Some((alt, after)) => Probed {
                    alts: before.alts.push(alt),
                    links: after,
                    ended: false,
                },
                None => Probed { alts: before.alts, links: before.links, ended: true },
            }
        }
    }
}

/// Alt 0 of a stage, the stage as it is: every folder leads to itself, nothing
/// must be kept from sharing, and it is safe and not ignored in both forms.
pub open spec fn vanilla_of(frame: Frame, links: Links, probe: StageProbe) -> AltView {
    let name = frame.paths[probe.stage as int].file_name.0;
    let normal_path = frame.paths[probe.normal as int].path.0;
    let start = Map::<u64, PathHash>::empty().insert(
        effect_folder(name),
        PathHash(effect_folder(name)),
    );
    let normal = with_folders(
        start,
        normal_path,
        normal_path,
        folders_below(frame, links, normal_path, 0, links.first.len()),
    );
    let all = match probe.battle {
        Some(b) => with_folders(
            normal,
            frame.paths[b as int].path.0,
            frame.paths[b as int].path.0,
            folders_below(frame, links, frame.paths[b as int].path.0, 0, links.first.len()),
        ),
        None => normal,
    };
    AltView {
        folders: all,
        sharing: Map::empty(),
        ui: ui_files(name, 0),
        normal_ws: true,
        normal_ignore: false,
        battle_ws: true,
        battle_ignore: false,
    }
}

/// Why an entry under `stage` is no stage of the catalog.
#[derive(Clone, Copy, Debug, PartialEq, Eq, Structural)]
pub enum Unfit {
    /// The entry is a file, or no entry of the index.
    NotAFolder,
    /// The entry is the folder `common`, which has no alts.
    Common,
    /// The folder has no `normal` folder.
    NoNormalFolder,
}

/// What an entry under `stage` is probed as: a stage with its `normal` folder
/// and its `battle` folder if it has one, or the reason why it is none.
pub open spec fn probe_of(frame: Frame, links: Links, stage: u32) -> Result<StageProbe, Unfit> {
    if !(stage < frame.paths.len() && frame.paths[stage as int].is_directory) {
        Err(Unfit::NotAFolder)
    } else if frame.paths[stage as int].file_name.0 == hash40_of("common"@) {
        Err(Unfit::Common)
    } else {
        match child_of(frame, links, stage, hash40_of("normal"@)) {
            Some(normal) => Ok(
                StageProbe {
                    stage,
                    normal,
                    battle: child_of(frame, links, stage, hash40_of("battle"@)),
                },
            ),
            None => Err(Unfit::NoNormalFolder),
        }
    }
}

/// The alts of a probed stage and the links after they were taken in: alt 0,
/// the stage as it is, and after it the alts that were found.
pub open spec fn info_of(frame: Frame, archive: ArchiveView, links: Links, probe: StageProbe) -> (
    InfoView,
    Links,
) {
    let found = alts_upto(frame, archive, links, probe, MAX_ALTS as nat);
    let stage_path = frame.paths[probe.stage as int].path.0;
    (
        InfoView {
            stage_name: frame.paths[probe.stage as int].file_name,
            stage_folder: frame.paths[probe.stage as int].path,
            normal_folder: PathHash(hash40_join(stage_path, hash40_of("normal"@))),
            battle_folder: PathHash(hash40_join(stage_path, hash40_of("battle"@))),
            alts: seq![vanilla_of(frame, found.links, probe)] + found.alts,
        },
        found.links,
    )
}

/// Whether every folder of `map` leads to itself.
pub open spec fn leads_to_itself(map: Map<u64, PathHash>) -> bool {
    forall|k: u64| map.contains_key(k) ==> (#[trigger] map[k]).0 == k
}

/// Whether `alts` begins with the stage named `stage` as it is: an alt in
/// which every folder leads to itself, nothing is kept from sharing, the
/// textures are those of ordinal 0, and both forms are safe and not ignored.
pub open spec fn vanilla_first(alts: Seq<StageAlt>, stage: u64) -> bool {
    &&& alts.len() > 0
    &&& leads_to_itself(alts[0].alt_folders@)
    &&& alts[0].sharing_base@ == Map::<u64, (u32, u32)>::empty()
    &&& alts[0].ui_paths@ == ui_files(stage, 0)
    &&& alts[0].is_normal_ws && alts[0].is_battle_ws
    &&& !alts[0].is_normal_ignore && !alts[0].is_battle_ignore
}

/// Whether the list of every stage of the catalog begins with the stage as it is.
pub open spec fn vanilla_everywhere(infos: Map<u64, StageAltInfo>) -> bool {
    forall|k: u64|
        infos.contains_key(k) ==> vanilla_first(
            (#[trigger] infos[k]).alts_found@,
            infos[k].stage_name.0,
        )
}

/// Setting folders to lead to themselves keeps a map in which every folder does.
pub proof fn lemma_with_folders_itself(map: Map<u64, PathHash>, root: u64, rels: Seq<PathHash>)
    requires
        leads_to_itself(map),
    ensures
        leads_to_itself(with_folders(map, root, root, rels)),
    decreases rels.len(),
{
    if rels.len() > 0 {
        lemma_with_folders_itself(map, root, rels.drop_last());
    }
}

/// A catalog as a mathematical value.
pub open spec fn infos_view(infos: Map<u64, StageAltInfo>) -> Map<u64, InfoView> {
    infos.map_values(|info: StageAltInfo| info@)
}

/// A catalog, the links after it was built, and the entries under `stage`
/// that gave no stage, each with the reason.
pub struct Built {
    pub infos: Map<u64, InfoView>,
    pub links: Links,
    pub unfit: Seq<(u32, Unfit)>,
}

/// The catalog of the entries `stages`, taken in one after the other.
pub open spec fn catalog_of(frame: Frame, archive: ArchiveView, links: Links, stages: Seq<u32>) -> Built
    decreases stages.len(),
{
    if stages.len() == 0 {
        Built { infos: Map::empty(), links, unfit: Seq::empty() }
    } else {
        let before = catalog_of(frame, archive, links, stages.drop_last());
        match probe_of(frame, before.links, stages.last()) {
            Ok(probe) => {
                let (info, after) = info_of(frame, archive, before.links, probe);
                Built {
                    infos: before.infos.insert(info.stage_name.0, info),
                    links: after,
                    unfit: before.unfit,
                }
            },
            Err(why) => Built {
                infos: before.infos,
                links: before.links,
                unfit: before.unfit.push((stages.last(), why)),
            },
        }
    }
}

} // verus!
