//! Stage alts and their manager: the catalog of each stage's alts, the selection
//! for the session, and the queries that walk a stage's alt list.

use vstd::prelude::*;
use std::collections::{BTreeMap, HashMap};
use crate::hash::{decimal_text, hex_text, push_decimal, push_hex, PathHash};

verus! {

broadcast use vstd::std_specs::hash::group_hash_axioms;

/// What was chosen for one coming occurrence of a stage.
#[derive(Clone, Copy, Debug, PartialEq, Eq, Structural)]
pub enum Selection {
    Regular { name: PathHash, alt: usize },
    Random,
    Invalid,
}

/// How a selection reads: `0x<stage> @ Alt #<alt>`, `Random` or `Invalid`.
pub open spec fn selection_text(selection: Selection) -> Seq<char> {
    match selection {
        Selection::Regular { name, alt } => "0x"@ + hex_text(name.0 as nat) + " @ Alt #"@
            + decimal_text(alt as nat),
        Selection::Random => "Random"@,
        Selection::Invalid => "Invalid"@,
    }
}

impl Selection {
    /// The selection as text.
    pub fn describe(&self) -> (text: String)
        ensures
            text@ == selection_text(*self),
    {
        match self {
            Selection::Regular { name, alt } => {
                let mut text = String::from_str("0x");
                push_hex(&mut text, name.0);
                text.append(" @ Alt #");
                push_decimal(&mut text, *alt);
                text
            },
            Selection::Random => String::from_str("Random"),
            Selection::Invalid => String::from_str("Invalid"),
        }
    }
}

/// One alt of one stage.
#[derive(Debug)]
pub struct StageAlt {
    /// Each base folder that the alt overrides, with the folder that overrides it.
    pub alt_folders: HashMap<u64, PathHash>,
    /// Each base file that shares its data link with its variant file, with the
    /// two links.
    pub sharing_base: HashMap<u64, (u32, u32)>,
    /// The texture paths of the alt: loading screen, preview, normal, end, battle.
    pub ui_paths: [PathHash; 5],
    pub is_normal_ws: bool,
    pub is_normal_ignore: bool,
    pub is_battle_ws: bool,
    pub is_battle_ignore: bool,
}

/// The alts of one stage. Alt 0 is the stage as it is without any alt.
#[derive(Debug)]
pub struct StageAltInfo {
    pub stage_name: PathHash,
    pub stage_folder: PathHash,
    pub normal_folder: PathHash,
    pub battle_folder: PathHash,
    pub alts_found: Vec<StageAlt>,
}

/// Names one alt of the catalog: a stage and the alt's ordinal.
#[derive(Clone, Copy, Debug, PartialEq, Eq, Structural)]
pub struct AltRef {
    pub stage: PathHash,
    pub ordinal: usize,
}

/// The catalog, the selection of the session, and the alt that is patched in.
#[derive(Debug)]
pub struct StageAltManager {
    /// What the archive's link table held before any alt was patched in.
    pub filepath_backup: BTreeMap<u64, u32>,
    /// What the search index's path table held before any alt was patched in.
    pub path_backup: BTreeMap<u64, u32>,
    /// What the search index's folder table held when the manager was made.
    pub folder_backup: BTreeMap<u64, u32>,
    pub alt_infos: HashMap<u64, StageAltInfo>,
    /// Alts held beside the catalog. The manager is made with none and puts
    /// none there.
    pub alts: Vec<StageAlt>,
    pub selection: Vec<Selection>,
    /// The slot of `selection` that the next advance takes.
    pub current_index: usize,
    pub current_alt: Option<AltRef>,
    pub is_online: bool,
}

/// Whether the alt may be shown in the given form: online only where it is
/// marked safe for that form.
pub open spec fn allowed(alt: &StageAlt, online: bool, battle: bool) -> bool {
    !(online && !(if battle {
        alt.is_battle_ws
    } else {
        alt.is_normal_ws
    }))
}

/// Whether the alt may be drawn at random in the given form: it is allowed and
/// not marked to be ignored for that form.
pub open spec fn qualifies(alt: &StageAlt, online: bool, battle: bool) -> bool {
    allowed(alt, online, battle) && !(if battle {
        alt.is_battle_ignore
    } else {
        alt.is_normal_ignore
    })
}

/// The first allowed ordinal from `from` on, 0 where there is none.
pub open spec fn next_from(alts: Seq<StageAlt>, online: bool, battle: bool, from: int) -> int
    decreases alts.len() - from,
{
    if from < 0 || from >= alts.len() {
        0
    } else if allowed(&alts[from], online, battle) {
        from
    } else {
        next_from(alts, online, battle, from + 1)
    }
}

/// The alt after `current`: the first allowed ordinal above it, 0 where there is none.
pub open spec fn next_alt(alts: Seq<StageAlt>, online: bool, battle: bool, current: int) -> int {
    next_from(alts, online, battle, current + 1)
}

/// The last allowed ordinal below `below`.
pub open spec fn prev_below(alts: Seq<StageAlt>, online: bool, battle: bool, below: int) -> Option<
    int,
>
    decreases below,
{
    if below <= 0 {
        None
    } else if below - 1 < alts.len() && allowed(&alts[below - 1], online, battle) {
        Some(below - 1)
    } else {
        prev_below(alts, online, battle, below - 1)
    }
}

/// The alt before `current`: the last allowed ordinal below it; stepping off
/// the start leads to the last allowed ordinal of all; 0 where none is allowed.
pub open spec fn prev_alt(alts: Seq<StageAlt>, online: bool, battle: bool, current: int) -> int {
    let start = if current < alts.len() {
        current
    } else {
        alts.len() as int
    };
    match prev_below(alts, online, battle, start) {
        Some(j) => j,
        None => match prev_below(alts, online, battle, alts.len() as int) {
            Some(j) => j,
            None => 0,
        },
    }
}

/// The ordinals from 1 on and below `upto` that qualify for a random draw.
pub open spec fn eligible(alts: Seq<StageAlt>, online: bool, battle: bool, upto: int) -> Seq<usize>
    decreases upto,
{
    if upto <= 1 {
        Seq::empty()
    } else {
        let before = eligible(alts, online, battle, upto - 1);
        if qualifies(&alts[upto - 1], online, battle) {
            before.push((upto - 1) as usize)
        } else {
            before
        }
    }
}

/// The alt that the draw `draw` picks: one of the eligible ordinals, each as
/// likely as the other; 0 where none is eligible.
pub open spec fn picked(alts: Seq<StageAlt>, online: bool, battle: bool, draw: usize) -> int {
    let among = eligible(alts, online, battle, alts.len() as int);
    if among.len() == 0 {
        0
    } else {
        among[(draw as int) % (among.len() as int)] as int
    }
}

/// Every eligible ordinal is an ordinal from 1 on that qualifies.
pub proof fn lemma_eligible(alts: Seq<StageAlt>, online: bool, battle: bool, upto: int)
    requires
        upto <= alts.len(),
        upto <= usize::MAX,
    ensures
        forall|k: int|
            0 <= k < eligible(alts, online, battle, upto).len() ==> 1 <= (#[trigger] eligible(
                alts,
                online,
                battle,
                upto,
            )[k]) < upto && qualifies(
                &alts[eligible(alts, online, battle, upto)[k] as int],
                online,
                battle,
            ),
        eligible(alts, online, battle, upto).len() <= (if upto <= 1 {
            0
        } else {
            upto - 1
        }),
        forall|j: int|
            1 <= j < upto && qualifies(&alts[j], online, battle) ==> eligible(
                alts,
                online,
                battle,
                upto,
            ).contains(j as usize),
    decreases upto,
{
    if upto > 1 {
        lemma_eligible(alts, online, battle, upto - 1);
        let before = eligible(alts, online, battle, upto - 1);
        let out = eligible(alts, online, battle, upto);
        assert forall|j: int| 1 <= j < upto && qualifies(&alts[j], online, battle) implies out.contains(
            j as usize,
        ) by {
            if j < upto - 1 {
                let k = choose|k: int| 0 <= k < before.len() && before[k] == j as usize;
                assert(out[k] == j as usize);
            } else {
                assert(out[before.len() as int] == j as usize);
            }
        }
    }
}

/// Stepping back undoes stepping forward: where alt `i` is allowed, and the alt
/// after it is allowed or `i` is the last, the alt before the alt after `i` is `i`.
pub proof fn law_prev_undoes_next(alts: Seq<StageAlt>, online: bool, battle: bool, i: int)
    requires
        0 <= i < alts.len(),
        allowed(&alts[i], online, battle),
        i + 1 < alts.len() ==> allowed(&alts[i + 1], online, battle),
    ensures
        prev_alt(alts, online, battle, next_alt(alts, online, battle, i)) == i,
{
}

impl StageAltManager {
    /// The alts of the stage named `stage`; a stage that the catalog lacks has none.
    pub open spec fn alts_of(&self, stage: u64) -> Seq<StageAlt> {
        if self.alt_infos@.contains_key(stage) {
            self.alt_infos@[stage].alts_found@
        } else {
            Seq::empty()
        }
    }

    /// Whether the catalog has alt `ordinal` of the stage named `stage`.
    pub open spec fn has_alt(&self, stage: u64, ordinal: usize) -> bool {
        ordinal < self.alts_of(stage).len()
    }

    /// The alt that is patched in, if any, is an alt of the catalog.
    pub open spec fn wf(&self) -> bool {
        self.current_alt matches Some(r) ==> self.has_alt(r.stage.0, r.ordinal)
    }

    /// The alt after `current_index` in the list of the stage named `stage_name`.
    pub fn get_next_alt(&self, stage_name: PathHash, current_index: usize, is_battle: bool) -> (next:
        usize)
        ensures
            next == next_alt(
                self.alts_of(stage_name.0),
                self.is_online,
                is_battle,
                current_index as int,
            ),
            next == 0 || (current_index < next < self.alts_of(stage_name.0).len() && allowed(
                &self.alts_of(stage_name.0)[next as int],
                self.is_online,
                is_battle,
            )),
    {
        let info = match self.alt_infos.get(&stage_name.0) {
            Some(info) => info,
            None => {
                return 0;
            },
        };
        let count = info.alts_found.len();
        if current_index >= count {
            return 0;
        }
        let ghost alts = info.alts_found@;
        let mut j: usize = current_index + 1;
        while j < count
            invariant
                current_index < j <= count,
                count == alts.len(),
                alts == info.alts_found@,
                alts == self.alts_of(stage_name.0),
                next_alt(alts, self.is_online, is_battle, current_index as int) == next_from(
                    alts,
                    self.is_online,
                    is_battle,
                    j as int,
                ),
            decreases count - j,
        {
            let alt = &info.alts_found[j];
            let safe = if is_battle {
                alt.is_battle_ws
            } else {
                alt.is_normal_ws
            };
            if !self.is_online || safe {
                return j;
            }
            j += 1;
        }
        0
    }

    /// The alt before `current_index` in the list of the stage named `stage_name`.
    pub fn get_prev_alt(&self, stage_name: PathHash, current_index: usize, is_battle: bool) -> (prev:
        usize)
        ensures
            prev == prev_alt(
                self.alts_of(stage_name.0),
                self.is_online,
                is_battle,
                current_index as int,
            ),
    {
        let info = match self.alt_infos.get(&stage_name.0) {
            Some(info) => info,
            None => {
                return 0;
            },
        };
        let count = info.alts_found.len();
        let start = if current_index < count {
            current_index
        } else {
            count
        };
        match last_allowed_below(&info.alts_found, self.is_online, is_battle, start) {
            Some(j) => j,
            None => match last_allowed_below(&info.alts_found, self.is_online, is_battle, count) {
                Some(j) => j,
                None => 0,
            },
        }
    }

    /// The alt that the draw `draw` picks for the stage named `stage_name`: one
    /// of the ordinals from 1 on that qualify, 0 where none does.
    pub fn pick_random_alt(&self, stage_name: PathHash, is_battle: bool, draw: usize) -> (alt: usize)
        ensures
            alt == picked(self.alts_of(stage_name.0), self.is_online, is_battle, draw),
            alt == 0 || (alt < self.alts_of(stage_name.0).len() && qualifies(
                &self.alts_of(stage_name.0)[alt as int],
                self.is_online,
                is_battle,
            )),
    {
        let info = match self.alt_infos.get(&stage_name.0) {
            Some(info) => info,
            None => {
                return 0;
            },
        };
        let count = info.alts_found.len();
        let ghost alts = info.alts_found@;
        let mut among: Vec<usize> = Vec::new();
        let mut j: usize = 1;
        while j < count
            invariant
                1 <= j,
                j <= count || count == 0,
                count == alts.len(),
                alts == info.alts_found@,
                among@ == eligible(alts, self.is_online, is_battle, if count == 0 {
                    0
                } else {
                    j as int
                }),
            decreases count - j,
        {
            let alt = &info.alts_found[j];
            let safe = if is_battle {
                alt.is_battle_ws
            } else {
                alt.is_normal_ws
            };
            let ignore = if is_battle {
                alt.is_battle_ignore
            } else {
                alt.is_normal_ignore
            };
            if (!self.is_online || safe) && !ignore {
                among.push(j);
            }
            j += 1;
        }
        proof {
            lemma_eligible(alts, self.is_online, is_battle, alts.len() as int);
        }
        if among.len() == 0 {
            0
        } else {
            among[draw % among.len()]
        }
    }

    /// An alt of the stage named `stage_name`, drawn at random among the
    /// ordinals from 1 on that qualify; 0 where none does.
    pub fn get_random_alt(&self, stage_name: PathHash, is_battle: bool) -> (alt: usize)
        ensures
            exists|draw: usize|
                alt == picked(self.alts_of(stage_name.0), self.is_online, is_battle, draw),
            alt == 0 || (alt < self.alts_of(stage_name.0).len() && qualifies(
                &self.alts_of(stage_name.0)[alt as int],
                self.is_online,
                is_battle,
            )),
    {
        let draw = random_draw();
        self.pick_random_alt(stage_name, is_battle, draw)
    }

    /// Starts a selection of `count` slots, none of them set.
    pub fn set_stage_use_count(&mut self, count: usize)
        ensures
            final(self).selection@ == Seq::new(count as nat, |i: int| Selection::Invalid),
            final(self).filepath_backup == old(self).filepath_backup,
            final(self).path_backup == old(self).path_backup,
            final(self).folder_backup == old(self).folder_backup,
            final(self).alts == old(self).alts,
            final(self).alt_infos == old(self).alt_infos,
            final(self).current_index == old(self).current_index,
            final(self).current_alt == old(self).current_alt,
            final(self).is_online == old(self).is_online,
    {
        let mut selection: Vec<Selection> = Vec::new();
        let mut i: usize = 0;
        while i < count
            invariant
                i <= count,
                selection@ == Seq::new(i as nat, |k: int| Selection::Invalid),
            decreases count - i,
        {
            selection.push(Selection::Invalid);
            i += 1;
        }
        self.selection = selection;
    }

    /// Sets slot `index` of the selection and reports whether there is such a
    /// slot; without one nothing changes.
    pub fn set_stage_selection(&mut self, index: usize, selection: Selection) -> (done: bool)
        ensures
            done == (index < old(self).selection@.len()),
            done ==> final(self).selection@ == old(self).selection@.update(index as int, selection),
            !done ==> final(self).selection@ == old(self).selection@,
            final(self).filepath_backup == old(self).filepath_backup,
            final(self).path_backup == old(self).path_backup,
            final(self).folder_backup == old(self).folder_backup,
            final(self).alts == old(self).alts,
            final(self).alt_infos == old(self).alt_infos,
            final(self).current_index == old(self).current_index,
            final(self).current_alt == old(self).current_alt,
            final(self).is_online == old(self).is_online,
    {
        if index >= self.selection.len() {
            return false;
        }
        self.selection[index] = selection;
        true
    }

    /// Ends the session: the selection is cleared, the next advance takes slot
    /// 0, and the session is not online.
    pub fn reset_session(&mut self)
        ensures
            final(self).selection@.len() == 0,
            final(self).current_index == 0,
            !final(self).is_online,
            final(self).filepath_backup == old(self).filepath_backup,
            final(self).path_backup == old(self).path_backup,
            final(self).folder_backup == old(self).folder_backup,
            final(self).alts == old(self).alts,
            final(self).alt_infos == old(self).alt_infos,
            final(self).current_alt == old(self).current_alt,
    {
        self.selection = Vec::new();
        self.current_index = 0;
        self.is_online = false;
    }
}

/// The last allowed ordinal below `below`.
pub fn last_allowed_below(alts: &Vec<StageAlt>, online: bool, battle: bool, below: usize) -> (found:
    Option<usize>)
    requires
        below <= alts@.len(),
    ensures
        match found {
            Some(j) => prev_below(alts@, online, battle, below as int) == Some(j as int) && j
                < below,
            None => prev_below(alts@, online, battle, below as int) is None,
        },
{
    let mut j: usize = below;
    while j > 0
        invariant
            j <= below <= alts@.len(),
            prev_below(alts@, online, battle, below as int) == prev_below(
                alts@,
                online,
                battle,
                j as int,
            ),
        decreases j,
    {
        let alt = &alts[j - 1];
        let safe = if battle {
            alt.is_battle_ws
        } else {
            alt.is_normal_ws
        };
        if !online || safe {
            return Some(j - 1);
        }
        j -= 1;
    }
    None
}

/// Calls `rand::random`. Nothing is promised of the number that comes back.
#[verifier::external_body]
pub(crate) fn random_draw() -> usize {
    rand::random::<usize>()
}

} // verus!
