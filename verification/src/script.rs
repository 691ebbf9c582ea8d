//! What the selection screen asks of the manager: registering the alt chosen
//! for a panel, stepping through a stage's alts, and the texture to show.

use vstd::prelude::*;
use std::collections::HashMap;
use crate::alts::{next_alt, prev_alt, Selection, StageAltManager};
use crate::archive::ArchiveIndex;
use crate::hash::{hash40_of, PathHash};
use crate::ui::{ui_path_of, vanilla_battle, vanilla_end, vanilla_normal};

verus! {

broadcast use vstd::std_specs::hash::group_hash_axioms;

/// Whether `ui` is one of the panels that stand for a random stage.
pub open spec fn random_panel(ui: u64) -> bool {
    ||| ui == hash40_of("ui_stage_random"@)
    ||| ui == hash40_of("ui_stage_random_normal"@)
    ||| ui == hash40_of("ui_stage_random_battle"@)
    ||| ui == hash40_of("ui_stage_random_end"@)
}

/// The stage that panel `panel_id` stands for: the panel's interface id, led
/// through the table from interface id to stage name.
pub open spec fn stage_of_panel(
    panels: Map<usize, PathHash>,
    stages: Map<u64, PathHash>,
    panel_id: usize,
) -> Option<PathHash> {
    if panels.contains_key(panel_id) && stages.contains_key(panels[panel_id].0) {
        Some(stages[panels[panel_id].0])
    } else {
        None
    }
}

/// The selection that choosing alt `alt_no` on panel `panel_id` stands for: a
/// random one for a random panel, the alt of the panel's stage otherwise;
/// nothing for an unknown panel or a panel of an unknown stage.
pub open spec fn selection_for(
    panels: Map<usize, PathHash>,
    stages: Map<u64, PathHash>,
    panel_id: usize,
    alt_no: usize,
) -> Option<Selection> {
    if !panels.contains_key(panel_id) {
        None
    } else if random_panel(panels[panel_id].0) {
        Some(Selection::Random)
    } else if stages.contains_key(panels[panel_id].0) {
        Some(Selection::Regular { name: stages[panels[panel_id].0], alt: alt_no })
    } else {
        None
    }
}

/// Whether `ui` is one of the panels that stand for a random stage.
pub fn is_random_panel(ui: PathHash) -> (random: bool)
    ensures
        random == random_panel(ui.0),
{
    ui == PathHash::new("ui_stage_random") || ui == PathHash::new("ui_stage_random_normal") || ui
        == PathHash::new("ui_stage_random_battle") || ui == PathHash::new("ui_stage_random_end")
}

/// The stage that panel `panel_id` stands for.
pub fn panel_stage(
    panels: &HashMap<usize, PathHash>,
    stages: &HashMap<u64, PathHash>,
    panel_id: usize,
) -> (stage: Option<PathHash>)
    ensures
        stage == stage_of_panel(panels@, stages@, panel_id),
{
    match panels.get(&panel_id) {
        Some(ui) => match stages.get(&ui.0) {
            Some(stage) => Some(*stage),
            None => None,
        },
        None => None,
    }
}

/// What registering an alt did: the selection that was made of it, and
/// whether the session has the slot that it was meant for.
#[derive(Clone, Copy, Debug, PartialEq, Eq, Structural)]
pub struct Registered {
    pub selection: Option<Selection>,
    pub stored: bool,
}

/// Registers alt `alt_no`, chosen on panel `panel_id`, for slot `preview_id`
/// of the selection.
pub fn register_alt(
    manager: &mut StageAltManager,
    panels: &HashMap<usize, PathHash>,
    stages: &HashMap<u64, PathHash>,
    alt_no: usize,
    panel_id: usize,
    preview_id: usize,
) -> (done: Registered)
    ensures
        done.selection == selection_for(panels@, stages@, panel_id, alt_no),
        done.stored == (done.selection is Some && preview_id < old(manager).selection@.len()),
        done.stored ==> final(manager).selection@ == old(manager).selection@.update(
            preview_id as int,
            done.selection.unwrap(),
        ),
        !done.stored ==> final(manager).selection@ == old(manager).selection@,
        final(manager).filepath_backup == old(manager).filepath_backup,
        final(manager).path_backup == old(manager).path_backup,
        final(manager).folder_backup == old(manager).folder_backup,
        final(manager).alts == old(manager).alts,
        final(manager).alt_infos == old(manager).alt_infos,
        final(manager).current_index == old(manager).current_index,
        final(manager).current_alt == old(manager).current_alt,
        final(manager).is_online == old(manager).is_online,
{
    let ui = match panels.get(&panel_id) {
        Some(ui) => *ui,
        None => {
            return Registered { selection: None, stored: false };
        },
    };
    let selection = if is_random_panel(ui) {
        Selection::Random
    } else {
        match stages.get(&ui.0) {
            Some(stage) => Selection::Regular { name: *stage, alt: alt_no },
            None => {
                return Registered { selection: None, stored: false };
            },
        }
    };
    let stored = manager.set_stage_selection(preview_id, selection);
    Registered { selection: Some(selection), stored }
}

/// The alt after `alt_no` of the stage of panel `panel_id`; 0 for an unknown panel.
pub fn get_next_alt(
    manager: &StageAltManager,
    panels: &HashMap<usize, PathHash>,
    stages: &HashMap<u64, PathHash>,
    panel_id: usize,
    alt_no: usize,
    stage_form: i32,
) -> (next: usize)
    ensures
        next == (match stage_of_panel(panels@, stages@, panel_id) {
            Some(stage) => next_alt(
                manager.alts_of(stage.0),
                manager.is_online,
                stage_form != 0,
                alt_no as int,
            ),
            None => 0,
        }),
{
    match panel_stage(panels, stages, panel_id) {
        Some(stage) => manager.get_next_alt(stage, alt_no, stage_form != 0),
        None => 0,
    }
}

/// The alt before `alt_no` of the stage of panel `panel_id`; 0 for an unknown panel.
pub fn get_prev_alt(
    manager: &StageAltManager,
    panels: &HashMap<usize, PathHash>,
    stages: &HashMap<u64, PathHash>,
    panel_id: usize,
    alt_no: usize,
    stage_form: i32,
) -> (prev: usize)
    ensures
        prev == (match stage_of_panel(panels@, stages@, panel_id) {
            Some(stage) => prev_alt(
                manager.alts_of(stage.0),
                manager.is_online,
                stage_form != 0,
                alt_no as int,
            ),
            None => 0,
        }),
{
    match panel_stage(panels, stages, panel_id) {
        Some(stage) => manager.get_prev_alt(stage, alt_no, stage_form != 0),
        None => 0,
    }
}

/// The texture path of alt `alt_no` of `stage` in form `stage_form`: 0 is the
/// normal form, 1 the battle form, 2 the end form; no other form has one.
pub open spec fn texture_path(manager: &StageAltManager, stage: PathHash, stage_form: i32, alt_no: usize) -> Option<
    u64,
> {
    if stage_form == 0 {
        Some(ui_path_of(manager.alts_of(stage.0), alt_no, 2, vanilla_normal(stage.0)))
    } else if stage_form == 1 {
        Some(ui_path_of(manager.alts_of(stage.0), alt_no, 4, vanilla_battle(stage.0)))
    } else if stage_form == 2 {
        Some(ui_path_of(manager.alts_of(stage.0), alt_no, 3, vanilla_end(stage.0)))
    } else {
        None
    }
}

/// The texture that is shown where the asked one cannot be had.
pub open spec fn default_texture() -> u64 {
    hash40_of("ui/replace/chara/chara_1/chara_1_wario_04.bntx"@)
}

/// The file path number of the texture to show for alt `alt_no` of the stage
/// of panel `panel_id` in form `stage_form`. The default texture stands in for
/// an unknown panel, an unknown form, and a texture that the archive lacks;
/// nothing comes back where the archive lacks the default texture too.
pub fn get_index_for_texture(
    manager: &StageAltManager,
    arc: &ArchiveIndex,
    panels: &HashMap<usize, PathHash>,
    stages: &HashMap<u64, PathHash>,
    panel_id: usize,
    stage_form: i32,
    alt_no: usize,
) -> (index: Option<u32>)
    requires
        arc.wf(),
    ensures
        index == (match stage_of_panel(panels@, stages@, panel_id) {
            Some(stage) => match texture_path(manager, stage, stage_form, alt_no) {
                Some(path) => match arc.file_of(path) {
                    Some(n) => Some(n),
                    None => arc.file_of(default_texture()),
                },
                None => arc.file_of(default_texture()),
            },
            None => arc.file_of(default_texture()),
        }),
{
    let fallback = arc.file_path_index(
        PathHash::new("ui/replace/chara/chara_1/chara_1_wario_04.bntx"),
    );
    let stage = match panel_stage(panels, stages, panel_id) {
        Some(stage) => stage,
        None => {
            return fallback;
        },
    };
    let path = if stage_form == 0 {
        manager.get_normal_ui_path(stage, alt_no)
    } else if stage_form == 1 {
        manager.get_battle_ui_path(stage, alt_no)
    } else if stage_form == 2 {
        manager.get_end_ui_path(stage, alt_no)
    } else {
        return fallback;
    };
    match arc.file_path_index(path) {
        Some(n) => Some(n),
        None => fallback,
    }
}

/// One field of a stage record: the hash of its name, and its value where
/// the value is a hash.
pub type StageField = (u64, Option<u64>);

/// The value that a stage record gives for the field named `name`: the value of
/// the last such field that holds a hash, all bits set where there is none.
pub open spec fn field_of(record: Seq<StageField>, name: u64) -> u64
    decreases record.len(),
{
    if record.len() == 0 {
        u64::MAX
    } else {
        match record.last() {
            (key, Some(value)) => if key == name {
                value
            } else {
                field_of(record.drop_last(), name)
            },
            _ => field_of(record.drop_last(), name),
        }
    }
}

/// The table from interface id to stage name that the stage records give:
/// each record's `ui_stage_id` leads to its `stage_place_id`, later records
/// before earlier ones.
pub open spec fn stage_table_of(records: Seq<Vec<StageField>>) -> Map<u64, PathHash>
    decreases records.len(),
{
    if records.len() == 0 {
        Map::empty()
    } else {
        stage_table_of(records.drop_last()).insert(
            field_of(records.last()@, hash40_of("ui_stage_id"@)),
            PathHash(field_of(records.last()@, hash40_of("stage_place_id"@))),
        )
    }
}

/// The value that a stage record gives for the field named `name`.
pub fn record_field(record: &Vec<StageField>, name: PathHash) -> (value: u64)
    ensures
        value == field_of(record@, name.0),
{
    let mut value: u64 = u64::MAX;
    let mut i: usize = 0;
    while i < record.len()
        invariant
            i <= record@.len(),
            value == field_of(record@.take(i as int), name.0),
        decreases record.len() - i,
    {
        let ghost front = record@.take(i + 1);
        assert(front.drop_last() =~= record@.take(i as int));
        let (key, held) = record[i];
        match held {
            Some(hash) => {
                if key == name.0 {
                    value = hash;
                }
            },
            None => {},
        }
        i += 1;
    }
    assert(record@.take(record@.len() as int) =~= record@);
    value
}

/// The table from interface id to stage name that the stage records give.
pub fn stage_table(records: &Vec<Vec<StageField>>) -> (table: HashMap<u64, PathHash>)
    ensures
        table@ == stage_table_of(records@),
{
    let mut table: HashMap<u64, PathHash> = HashMap::new();
    let ui_stage_id = PathHash::new("ui_stage_id");
    let stage_place_id = PathHash::new("stage_place_id");
    let mut i: usize = 0;
    while i < records.len()
        invariant
            i <= records@.len(),
            ui_stage_id.0 == hash40_of("ui_stage_id"@),
            stage_place_id.0 == hash40_of("stage_place_id"@),
            table@ == stage_table_of(records@.take(i as int)),
        decreases records.len() - i,
    {
        let ghost front = records@.take(i + 1);
        assert(front.drop_last() =~= records@.take(i as int));
        let key = record_field(&records[i], ui_stage_id);
        let stage = record_field(&records[i], stage_place_id);
        table.insert(key, PathHash(stage));
        i += 1;
    }
    assert(records@.take(records@.len() as int) =~= records@);
    table
}

/// The 40 bits of a panel's key that are its interface id.
pub open spec fn panel_hash(key: u64) -> u64 {
    key & 0xFF_FFFF_FFFF
}

/// The table from panel number to interface id for the panel keys `keys`.
pub open spec fn panel_table_of(keys: Seq<u64>) -> Map<usize, PathHash>
    decreases keys.len(),
{
    if keys.len() == 0 {
        Map::empty()
    } else {
        panel_table_of(keys.drop_last()).insert(
            (keys.len() - 1) as usize,
            PathHash(panel_hash(keys.last())),
        )
    }
}

/// Enters the panels with the keys `keys` into `panels`, each under its number.
pub fn enter_panels(panels: &mut HashMap<usize, PathHash>, keys: &Vec<u64>)
    ensures
        final(panels)@ == old(panels)@.union_prefer_right(panel_table_of(keys@)),
{
    let ghost start = panels@;
    let mut i: usize = 0;
    while i < keys.len()
        invariant
            i <= keys@.len(),
            panels@ == start.union_prefer_right(panel_table_of(keys@.take(i as int))),
        decreases keys.len() - i,
    {
        let ghost front = keys@.take(i + 1);
        assert(front.drop_last() =~= keys@.take(i as int));
        let hash = PathHash(keys[i] & 0xFF_FFFF_FFFF);
        panels.insert(i, hash);
        i += 1;
    }
    assert(keys@.take(keys@.len() as int) =~= keys@);
}

} // verus!
