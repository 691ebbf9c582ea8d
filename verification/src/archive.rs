//! The archive index: the table from a file's path hash to its file path number,
//! and each file path's link to its data.

use vstd::prelude::*;
use crate::hash::PathHash;
use crate::table::LinkTable;

verus! {

/// The archive index. `path_slots` leads from a file's path hash to its number
/// in `file_links`; `file_links[n]` is the link of file path `n` to its data.
#[derive(Debug)]
pub struct ArchiveIndex {
    pub path_slots: LinkTable,
    pub file_links: Vec<u32>,
}

impl ArchiveIndex {
    /// The table is well-formed.
    pub open spec fn wf(&self) -> bool {
        self.path_slots.wf()
    }

    /// The file path number registered for `hash`, if any.
    pub open spec fn file_of(&self, hash: u64) -> Option<u32> {
        self.path_slots.spec_get(hash)
    }

    /// The data link of the file registered for `hash`: nothing where no file is
    /// registered or its number lies outside the file paths.
    pub open spec fn link_of(&self, hash: u64) -> Option<u32> {
        match self.file_of(hash) {
            Some(n) => if n < self.file_links@.len() {
                Some(self.file_links@[n as int])
            } else {
                None
            },
            None => None,
        }
    }

    /// An archive index of the given table and links, or nothing where the
    /// table is ill-formed.
    pub fn new(path_slots: LinkTable, file_links: Vec<u32>) -> (index: Option<ArchiveIndex>)
        ensures
            index is Some == path_slots.wf(),
            index matches Some(i) ==> i == (ArchiveIndex { path_slots, file_links }),
    {
        if path_slots.is_well_formed() {
            Some(ArchiveIndex { path_slots, file_links })
        } else {
            None
        }
    }

    /// The file path number registered for `hash`, if any.
    pub fn file_path_index(&self, hash: PathHash) -> (found: Option<u32>)
        requires
            self.wf(),
        ensures
            found == self.file_of(hash.0),
    {
        self.path_slots.get(hash.0)
    }

    /// The data link of the file registered for `hash`.
    pub fn file_link(&self, hash: PathHash) -> (found: Option<u32>)
        requires
            self.wf(),
        ensures
            found == self.link_of(hash.0),
    {
        match self.path_slots.get(hash.0) {
            Some(n) => {
                if (n as usize) < self.file_links.len() {
                    Some(self.file_links[n as usize])
                } else {
                    None
                }
            },
            None => None,
        }
    }
}

} // verus!
