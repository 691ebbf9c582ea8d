//! The texture paths of a stage and its alts.

use vstd::prelude::*;
use crate::alts::{StageAlt, StageAltManager};
use crate::hash::{hash40_concat, hash40_join, hash40_of, numbered, ordinal_text, PathHash};

verus! {

broadcast use vstd::std_specs::hash::group_hash_axioms;

/// Whether `stage` names a stage whose textures lie under the patch root.
pub open spec fn dlc_stage(stage: u64) -> bool {
    ||| stage == hash40_of("battlefield_s"@)
    ||| stage == hash40_of("brave_altar"@)
    ||| stage == hash40_of("buddy_spiral"@)
    ||| stage == hash40_of("demon_dojo"@)
    ||| stage == hash40_of("dolly_stadium"@)
    ||| stage == hash40_of("fe_shrine"@)
    ||| stage == hash40_of("ff_cave"@)
    ||| stage == hash40_of("jack_mementoes"@)
    ||| stage == hash40_of("pickel_world"@)
    ||| stage == hash40_of("tantan_spring"@)
    ||| stage == hash40_of("trail_castle"@)
    ||| stage == hash40_of("xeno_alst"@)
}

/// The name under which a stage's preview and selection textures are filed:
/// the small and the large battlefield have names of their own.
pub open spec fn texture_name(stage: u64) -> u64 {
    if stage == hash40_of("battlefield_s"@) {
        hash40_of("battlefields"@)
    } else if stage == hash40_of("battlefield_l"@) {
        hash40_of("battlefieldl"@)
    } else {
        stage
    }
}

/// The name under which a stage's battle and end textures are filed: the small
/// and the large battlefield share the battlefield's.
pub open spec fn shared_texture_name(stage: u64) -> u64 {
    if stage == hash40_of("battlefield_s"@) || stage == hash40_of("battlefield_l"@) {
        hash40_of("battlefield"@)
    } else {
        stage
    }
}

/// The texture path `ui/<root>/stage/<folder>/<prefix><name>.bntx`.
pub open spec fn vanilla_path(root: Seq<char>, folder: Seq<char>, prefix: Seq<char>, name: u64) -> u64 {
    hash40_join(
        hash40_join(
            hash40_join(hash40_join(hash40_of("ui"@), hash40_of(root)), hash40_of("stage"@)),
            hash40_of(folder),
        ),
        hash40_concat(hash40_concat(hash40_of(prefix), name), hash40_of(".bntx"@)),
    )
}

/// The root of a stage's preview and selection textures.
pub open spec fn normal_root(stage: u64) -> Seq<char> {
    if dlc_stage(stage) {
        "replace_patch"@
    } else {
        "replace"@
    }
}

/// The root of a stage's battle and end textures.
pub open spec fn shared_root(stage: u64) -> Seq<char> {
    if dlc_stage(stage) && stage != hash40_of("battlefield_s"@) {
        "replace_patch"@
    } else {
        "replace"@
    }
}

/// The normal-form texture path of a stage without alt.
pub open spec fn vanilla_normal(stage: u64) -> u64 {
    vanilla_path(normal_root(stage), "stage_2"@, "stage_2_"@, texture_name(stage))
}

/// The battle-form texture path of a stage without alt.
pub open spec fn vanilla_battle(stage: u64) -> u64 {
    vanilla_path(shared_root(stage), "stage_4"@, "stage_4_"@, shared_texture_name(stage))
}

/// The end-form texture path of a stage without alt.
pub open spec fn vanilla_end(stage: u64) -> u64 {
    vanilla_path(shared_root(stage), "stage_3"@, "stage_3_"@, shared_texture_name(stage))
}

/// The folder of texture kind `kind`.
pub open spec fn kind_folder(kind: int) -> Seq<char> {
    if kind == 0 {
        "stage_0"@
    } else if kind == 1 {
        "stage_1"@
    } else if kind == 2 {
        "stage_2"@
    } else if kind == 3 {
        "stage_3"@
    } else {
        "stage_4"@
    }
}

/// The file name prefix of texture kind `kind`.
pub open spec fn kind_prefix(kind: int) -> Seq<char> {
    if kind == 0 {
        "stage_0_"@
    } else if kind == 1 {
        "stage_1_"@
    } else if kind == 2 {
        "stage_2_"@
    } else if kind == 3 {
        "stage_3_"@
    } else {
        "stage_4_"@
    }
}

/// The end of a texture's file name: `.bntx` without alt, `_sNN.bntx` for alt `NN`.
pub open spec fn alt_suffix(alt_no: nat) -> u64 {
    if alt_no == 0 {
        hash40_of(".bntx"@)
    } else {
        hash40_of("_s"@ + ordinal_text(alt_no) + ".bntx"@)
    }
}

/// The root folder of a stage's alt textures.
pub open spec fn alt_root(stage: u64) -> u64 {
    if dlc_stage(stage) {
        hash40_of("ui/replace_patch/stage"@)
    } else {
        hash40_of("ui/replace/stage"@)
    }
}

/// The path of texture kind `kind` of alt `alt_no` of a stage.
pub open spec fn ui_file(stage: u64, alt_no: nat, kind: int) -> u64 {
    hash40_concat(
        hash40_concat(
            hash40_join(
                hash40_join(alt_root(stage), hash40_of(kind_folder(kind))),
                hash40_of(kind_prefix(kind)),
            ),
            texture_name(stage),
        ),
        alt_suffix(alt_no),
    )
}

/// The texture of `alt` that slot `slot` holds, the stage's own where the alt
/// list has no alt `alt` or `alt` is 0.
pub open spec fn ui_path_of(alts: Seq<StageAlt>, alt: usize, slot: int, vanilla: u64) -> u64 {
    if alt != 0 && alt < alts.len() {
        alts[alt as int].ui_paths@[slot].0
    } else {
        vanilla
    }
}

impl StageAltManager {
    /// Whether `stage_name` names a stage whose textures lie under the patch root.
    pub fn is_dlc_stage(stage_name: PathHash) -> (dlc: bool)
        ensures
            dlc == dlc_stage(stage_name.0),
    {
        stage_name == PathHash::new("battlefield_s") || stage_name == PathHash::new("brave_altar")
            || stage_name == PathHash::new("buddy_spiral") || stage_name == PathHash::new(
            "demon_dojo",
        ) || stage_name == PathHash::new("dolly_stadium") || stage_name == PathHash::new("fe_shrine")
            || stage_name == PathHash::new("ff_cave") || stage_name == PathHash::new(
            "jack_mementoes",
        ) || stage_name == PathHash::new("pickel_world") || stage_name == PathHash::new(
            "tantan_spring",
        ) || stage_name == PathHash::new("trail_castle") || stage_name == PathHash::new("xeno_alst")
    }

    /// The normal-form texture path of the stage without alt.
    pub fn vanilla_normal_ui_path(stage_name: PathHash) -> (path: PathHash)
        ensures
            path.0 == vanilla_normal(stage_name.0),
    {
        let root = if Self::is_dlc_stage(stage_name) {
            "replace_patch"
        } else {
            "replace"
        };
        let name = if stage_name == PathHash::new("battlefield_s") {
            PathHash::new("battlefields")
        } else if stage_name == PathHash::new("battlefield_l") {
            PathHash::new("battlefieldl")
        } else {
            stage_name
        };
        vanilla_ui_path(root, "stage_2", "stage_2_", name)
    }

    /// The battle-form texture path of the stage without alt.
    pub fn vanilla_battle_ui_path(stage_name: PathHash) -> (path: PathHash)
        ensures
            path.0 == vanilla_battle(stage_name.0),
    {
        let small = PathHash::new("battlefield_s");
        let root = if Self::is_dlc_stage(stage_name) && stage_name != small {
            "replace_patch"
        } else {
            "replace"
        };
        let name = if stage_name == small || stage_name == PathHash::new("battlefield_l") {
            PathHash::new("battlefield")
        } else {
            stage_name
        };
        vanilla_ui_path(root, "stage_4", "stage_4_", name)
    }

    /// The end-form texture path of the stage without alt.
    pub fn vanilla_end_ui_path(stage_name: PathHash) -> (path: PathHash)
        ensures
            path.0 == vanilla_end(stage_name.0),
    {
        let small = PathHash::new("battlefield_s");
        let root = if Self::is_dlc_stage(stage_name) && stage_name != small {
            "replace_patch"
        } else {
            "replace"
        };
        let name = if stage_name == small || stage_name == PathHash::new("battlefield_l") {
            PathHash::new("battlefield")
        } else {
            stage_name
        };
        vanilla_ui_path(root, "stage_3", "stage_3_", name)
    }

    /// The normal-form texture path of alt `alt` of the stage; the stage's own
    /// where `alt` is 0 or the catalog has no such alt.
    pub fn get_normal_ui_path(&self, stage_name: PathHash, alt: usize) -> (path: PathHash)
        ensures
            path.0 == ui_path_of(self.alts_of(stage_name.0), alt, 2, vanilla_normal(stage_name.0)),
    {
        match self.alt_ui_path(stage_name, alt, 2) {
            Some(path) => path,
            None => Self::vanilla_normal_ui_path(stage_name),
        }
    }

    /// The battle-form texture path of alt `alt` of the stage; the stage's own
    /// where `alt` is 0 or the catalog has no such alt.
    pub fn get_battle_ui_path(&self, stage_name: PathHash, alt: usize) -> (path: PathHash)
        ensures
            path.0 == ui_path_of(self.alts_of(stage_name.0), alt, 4, vanilla_battle(stage_name.0)),
    {
        match self.alt_ui_path(stage_name, alt, 4) {
            Some(path) => path,
            None => Self::vanilla_battle_ui_path(stage_name),
        }
    }

    /// The end-form texture path of alt `alt` of the stage; the stage's own where
    /// `alt` is 0 or the catalog has no such alt.
    pub fn get_end_ui_path(&self, stage_name: PathHash, alt: usize) -> (path: PathHash)
        ensures
            path.0 == ui_path_of(self.alts_of(stage_name.0), alt, 3, vanilla_end(stage_name.0)),
    {
        match self.alt_ui_path(stage_name, alt, 3) {
            Some(path) => path,
            None => Self::vanilla_end_ui_path(stage_name),
        }
    }

    /// The texture in slot `slot` of alt `alt` of the stage, where `alt` is not 0
    /// and the catalog has the alt.
    pub fn alt_ui_path(&self, stage_name: PathHash, alt: usize, slot: usize) -> (path: Option<
        PathHash,
    >)
        requires
            slot < 5,
        ensures
            path is Some == (alt != 0 && alt < self.alts_of(stage_name.0).len()),
            path matches Some(p) ==> p == self.alts_of(stage_name.0)[alt as int].ui_paths@[slot as int],
    {
        if alt == 0 {
            return None;
        }
        match self.alt_infos.get(&stage_name.0) {
            Some(info) => {
                if alt < info.alts_found.len() {
                    Some(info.alts_found[alt].ui_paths[slot])
                } else {
                    None
                }
            },
            None => None,
        }
    }
}

/// The texture path `ui/<root>/stage/<folder>/<prefix><name>.bntx`.
pub fn vanilla_ui_path(root: &str, folder: &str, prefix: &str, name: PathHash) -> (path: PathHash)
    ensures
        path.0 == vanilla_path(root@, folder@, prefix@, name.0),
{
    let file_name = PathHash::new(prefix).concat(name).concat(PathHash::new(".bntx"));
    PathHash::new("ui").join_path(PathHash::new(root)).join_path(PathHash::new("stage")).join_path(
        PathHash::new(folder),
    ).join_path(file_name)
}

/// The folder and the file name prefix of texture kind `kind`.
pub fn kind_names(kind: usize) -> (names: (&'static str, &'static str))
    ensures
        names.0@ == kind_folder(kind as int),
        names.1@ == kind_prefix(kind as int),
{
    if kind == 0 {
        ("stage_0", "stage_0_")
    } else if kind == 1 {
        ("stage_1", "stage_1_")
    } else if kind == 2 {
        ("stage_2", "stage_2_")
    } else if kind == 3 {
        ("stage_3", "stage_3_")
    } else {
        ("stage_4", "stage_4_")
    }
}

/// The five texture paths of alt `alt_no` of the stage named `stage_name`.
pub fn get_ui_files(stage_name: PathHash, alt_no: usize) -> (files: [PathHash; 5])
    ensures
        forall|kind: int| 0 <= kind < 5 ==> (#[trigger] files@[kind]).0 == ui_file(
            stage_name.0,
            alt_no as nat,
            kind,
        ),
{
    let root = if StageAltManager::is_dlc_stage(stage_name) {
        PathHash::new("ui/replace_patch/stage")
    } else {
        PathHash::new("ui/replace/stage")
    };
    let name = if stage_name == PathHash::new("battlefield_s") {
        PathHash::new("battlefields")
    } else if stage_name == PathHash::new("battlefield_l") {
        PathHash::new("battlefieldl")
    } else {
        stage_name
    };
    let suffix = if alt_no == 0 {
        PathHash::new(".bntx")
    } else {
        numbered("_s", alt_no, ".bntx")
    };
    [
        ui_file_path(root, name, suffix, 0),
        ui_file_path(root, name, suffix, 1),
        ui_file_path(root, name, suffix, 2),
        ui_file_path(root, name, suffix, 3),
        ui_file_path(root, name, suffix, 4),
    ]
}

/// The path of texture kind `kind` under `root` for the name and suffix given.
pub fn ui_file_path(root: PathHash, name: PathHash, suffix: PathHash, kind: usize) -> (path: PathHash)
    ensures
        path.0 == hash40_concat(
            hash40_concat(
                hash40_join(
                    hash40_join(root.0, hash40_of(kind_folder(kind as int))),
                    hash40_of(kind_prefix(kind as int)),
                ),
                name.0,
            ),
            suffix.0,
        ),
{
    let (folder, prefix) = kind_names(kind);
    root.join_path(PathHash::new(folder)).join_path(PathHash::new(prefix)).concat(name).concat(
        suffix,
    )
}

} // verus!
