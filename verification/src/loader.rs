//! What the content loader asks of the manager: the stage that a load is for,
//! and the files that a directory of the active alt brings.

use vstd::prelude::*;
use crate::alts::StageAltManager;
use crate::archive::ArchiveIndex;
use crate::folders::folder_lookup;
use crate::hash::{hash40_of, PathHash};
use crate::index::SearchIndex;
use crate::redirect::files_for;

verus! {

/// The stage and the form that the load of the path `hash` is for: the stage is
/// the name of the folder that the path lies in; the form is the battle form
/// unless the path is named `normal` or lies in a folder named `end`. Nothing
/// where the index lacks the path or its parent.
pub open spec fn transition_of(search: &SearchIndex, hash: u64) -> Option<(PathHash, bool)> {
    match search.entry_of(hash) {
        Some(p) => match search.entry_of(search.paths@[p as int].parent.0) {
            Some(q) => Some(
                (
                    search.paths@[q as int].file_name,
                    search.paths@[p as int].file_name.0 != hash40_of("normal"@)
                        && search.paths@[q as int].file_name.0 != hash40_of("end"@),
                ),
            ),
            None => None,
        },
        None => None,
    }
}

/// The stage and the form that the load of the path `hash` is for.
pub fn prepare_for_load(search: &SearchIndex, hash: PathHash) -> (transition: Option<
    (PathHash, bool),
>)
    requires
        search.wf(),
    ensures
        transition == transition_of(search, hash.0),
{
    let path = match search.entry(hash) {
        Some(p) => search.paths[p as usize],
        None => {
            return None;
        },
    };
    let parent = match search.entry(path.parent) {
        Some(q) => search.paths[q as usize],
        None => {
            return None;
        },
    };
    let battle = path.file_name != PathHash::new("normal") && parent.file_name != PathHash::new(
        "end",
    );
    Some((parent.file_name, battle))
}

/// What to do with a directory that was loaded: the files to let go of, and the
/// files to take in their place.
#[derive(Debug)]
pub struct DirectorySwap {
    pub release: Vec<u32>,
    pub acquire: Vec<u32>,
}

/// The swap for the directory `dir` with the children `children`: where the
/// active alt overrides the directory and the search index has the overriding
/// folder, all children are let go of and the files of that folder are taken.
/// Without that the directory stays as it is.
pub fn init_loaded_dir(
    manager: &StageAltManager,
    search: &SearchIndex,
    arc: &ArchiveIndex,
    dir: PathHash,
    children: &Vec<u32>,
) -> (swap: Option<DirectorySwap>)
    requires
        manager.wf(),
        search.wf(),
        arc.wf(),
    ensures
        match folder_lookup(manager.current_folders(), dir.0) {
            Some(variant) => match search.folder_of(variant.0) {
                Some(_) => swap matches Some(s) && s.release@ == children@ && s.acquire@
                    == files_for(search.paths@, arc.path_slots@, search.children_of(variant.0)),
                None => swap is None,
            },
            None => swap is None,
        },
{
    if !manager.does_current_alt_have_folder(dir) {
        return None;
    }
    let acquire = match manager.get_files_for_alt_folder(dir, search, arc) {
        Some(files) => files,
        None => {
            return None;
        },
    };
    let mut release: Vec<u32> = Vec::new();
    let mut i: usize = 0;
    while i < children.len()
        invariant
            i <= children@.len(),
            release@ == children@.take(i as int),
        decreases children.len() - i,
    {
        release.push(children[i]);
        i += 1;
    }
    Some(DirectorySwap { release, acquire })
}

/// Whether a file with the load flags `flags` is loaded along with the
/// directory that it lies in: the first or the third of its flags is set.
pub open spec fn loads_along(flags: u16) -> bool {
    flags & 5 != 0
}

/// The files among `children`, each with its load flags, that are loaded along
/// with their directory.
pub open spec fn loads_of(children: Seq<(u32, u16)>) -> Seq<u32>
    decreases children.len(),
{
    if children.len() == 0 {
        Seq::empty()
    } else {
        let before = loads_of(children.drop_last());
        if loads_along(children.last().1) {
            before.push(children.last().0)
        } else {
            before
        }
    }
}

/// The files of a waiting directory to ask for at the start of the loading
/// loop: those of its children that are loaded along with it.
pub fn res_loop_start(children: &Vec<(u32, u16)>) -> (loads: Vec<u32>)
    ensures
        loads@ == loads_of(children@),
{
    let mut loads: Vec<u32> = Vec::new();
    let mut i: usize = 0;
    while i < children.len()
        invariant
            i <= children@.len(),
            loads@ == loads_of(children@.take(i as int)),
        decreases children.len() - i,
    {
        let ghost front = children@.take(i + 1);
        assert(front.drop_last() =~= children@.take(i as int));
        let (file, flags) = children[i];
        if flags & 5 != 0 {
            loads.push(file);
        }
        i += 1;
    }
    assert(children@.take(children@.len() as int) =~= children@);
    loads
}

} // verus!
