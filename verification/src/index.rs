//! The search index: every path of the archive as an entry in one arena, the
//! folders' first-child links, the entries' sibling links, and the two hash
//! tables that lead from a path hash to a folder or an entry.

use vstd::prelude::*;
use crate::hash::PathHash;
use crate::table::{HashSlot, LinkTable, NO_LINK};

verus! {

/// One path of the archive: a file or a folder, seen as a child of its parent.
#[derive(Clone, Copy, Debug, PartialEq, Eq, Structural)]
pub struct PathEntry {
    pub path: PathHash,
    pub parent: PathHash,
    pub file_name: PathHash,
    pub ext: PathHash,
    pub is_directory: bool,
}

/// The search index. `folder_slots` leads from a folder's path hash to its number
/// in `first_child`; `path_slots` leads from a path hash to its number in `paths`.
/// `first_child[f]` is the first entry of folder `f`, `next[p]` the sibling after
/// entry `p`; both are numbers in `paths`, or `NO_LINK`.
#[derive(Debug)]
pub struct SearchIndex {
    pub folder_slots: LinkTable,
    pub first_child: Vec<u32>,
    pub path_slots: LinkTable,
    pub paths: Vec<PathEntry>,
    pub next: Vec<u32>,
}

/// Whether `link` is `NO_LINK` or a number below `limit`.
pub open spec fn link_ok(link: u32, limit: int) -> bool {
    link == NO_LINK || link < limit
}

/// Whether every index stored in `slots` is `NO_LINK` or below `limit`.
pub open spec fn slots_ok(slots: Seq<HashSlot>, limit: int) -> bool {
    forall|i: int| 0 <= i < slots.len() ==> link_ok(#[trigger] slots[i].index, limit)
}

/// Whether every link of `links` is `NO_LINK` or below `limit`.
pub open spec fn links_ok(links: Seq<u32>, limit: int) -> bool {
    forall|i: int| 0 <= i < links.len() ==> link_ok(#[trigger] links[i], limit)
}

/// The entries reached from `start` by following `next`, at most `fuel` of them.
/// The walk ends at `NO_LINK` and at a link that leaves `next`.
pub open spec fn chain(next: Seq<u32>, start: u32, fuel: nat) -> Seq<u32>
    decreases fuel,
{
    if fuel == 0 || start == NO_LINK || start >= next.len() {
        Seq::empty()
    } else {
        seq![start] + chain(next, next[start as int], (fuel - 1) as nat)
    }
}

/// A chain is no longer than its fuel, and its entries are numbers in `next`.
pub proof fn lemma_chain_bounds(next: Seq<u32>, start: u32, fuel: nat)
    ensures
        chain(next, start, fuel).len() <= fuel,
        forall|i: int|
            0 <= i < chain(next, start, fuel).len() ==> #[trigger] chain(next, start, fuel)[i]
                < next.len() && chain(next, start, fuel)[i] != NO_LINK,
    decreases fuel,
{
    if fuel > 0 && start != NO_LINK && start < next.len() {
        lemma_chain_bounds(next, next[start as int], (fuel - 1) as nat);
    }
}

/// The part of a search index that a change of links leaves alone: the two
/// tables as maps, and the entries.
pub struct Frame {
    pub folders: Map<u64, u32>,
    pub entries: Map<u64, u32>,
    pub paths: Seq<PathEntry>,
}

/// The links of a search index: each folder's first child, each entry's next sibling.
pub struct Links {
    pub first: Seq<u32>,
    pub next: Seq<u32>,
}

impl Frame {
    /// The number of the folder with path hash `hash` among `count` folders.
    pub open spec fn folder_of(self, count: int, hash: u64) -> Option<int> {
        if self.folders.dom().contains(hash) && self.folders[hash] != NO_LINK
            && self.folders[hash] < count {
            Some(self.folders[hash] as int)
        } else {
            None
        }
    }

    /// The number of the entry with path hash `hash`.
    pub open spec fn entry_of(self, hash: u64) -> Option<u32> {
        if self.entries.dom().contains(hash) && self.entries[hash] != NO_LINK
            && self.entries[hash] < self.paths.len() {
            Some(self.entries[hash])
        } else {
            None
        }
    }

    /// The direct children of the folder with path hash `hash` under `links`.
    pub open spec fn children(self, links: Links, hash: u64) -> Seq<u32> {
        children_in(self.folders, links, hash)
    }
}

/// The direct children of the folder with path hash `hash` under `links`, the
/// folder found through the table `folders`.
pub open spec fn children_in(folders: Map<u64, u32>, links: Links, hash: u64) -> Seq<u32> {
    if folders.dom().contains(hash) && folders[hash] != NO_LINK && folders[hash]
        < links.first.len() {
        chain(links.next, links.first[folders[hash] as int], links.next.len())
    } else {
        Seq::empty()
    }
}

impl SearchIndex {
    /// Both tables are well-formed, every stored index and link is `NO_LINK` or a
    /// number in the list it points into, and the entries are few enough to be
    /// numbered below `NO_LINK`.
    pub open spec fn wf(&self) -> bool {
        &&& self.folder_slots.wf()
        &&& self.path_slots.wf()
        &&& self.paths@.len() <= NO_LINK
        &&& self.next@.len() == self.paths@.len()
        &&& slots_ok(self.folder_slots.slots@, self.first_child@.len() as int)
        &&& slots_ok(self.path_slots.slots@, self.paths@.len() as int)
        &&& links_ok(self.first_child@, self.paths@.len() as int)
        &&& links_ok(self.next@, self.paths@.len() as int)
    }

    /// What the links hang on: the tables and the entries.
    pub open spec fn frame(&self) -> Frame {
        Frame { folders: self.folder_slots@, entries: self.path_slots@, paths: self.paths@ }
    }

    /// The links: each folder's first child and each entry's next sibling.
    pub open spec fn links(&self) -> Links {
        Links { first: self.first_child@, next: self.next@ }
    }

    /// Whether `other` differs from this index in links at most: the tables and
    /// the entries are the same, and there are as many links.
    pub open spec fn same_entries(&self, other: &SearchIndex) -> bool {
        &&& self.folder_slots == other.folder_slots
        &&& self.path_slots == other.path_slots
        &&& self.paths@ == other.paths@
        &&& self.first_child@.len() == other.first_child@.len()
        &&& self.next@.len() == other.next@.len()
    }

    /// The number of the folder with path hash `hash`, if the index has it.
    pub open spec fn folder_of(&self, hash: u64) -> Option<int> {
        self.frame().folder_of(self.first_child@.len() as int, hash)
    }

    /// The number of the entry with path hash `hash`, if the index has it.
    pub open spec fn entry_of(&self, hash: u64) -> Option<u32> {
        self.frame().entry_of(hash)
    }

    /// The direct children of the folder with path hash `hash`, in sibling order.
    /// A folder that the index lacks has none.
    pub open spec fn children_of(&self, hash: u64) -> Seq<u32> {
        self.frame().children(self.links(), hash)
    }

    /// The number of the folder with path hash `hash`, if the index has it.
    pub fn folder(&self, hash: PathHash) -> (found: Option<usize>)
        requires
            self.wf(),
        ensures
            found is Some == self.folder_of(hash.0) is Some,
            found matches Some(f) ==> self.folder_of(hash.0) == Some(f as int) && f
                < self.first_child@.len(),
    {
        match self.folder_slots.get(hash.0) {
            Some(f) => {
                if f != NO_LINK && (f as usize) < self.first_child.len() {
                    Some(f as usize)
                } else {
                    None
                }
            },
            None => None,
        }
    }

    /// The number of the entry with path hash `hash`, if the index has it.
    pub fn entry(&self, hash: PathHash) -> (found: Option<u32>)
        requires
            self.wf(),
        ensures
            found == self.entry_of(hash.0),
            found matches Some(p) ==> p < self.paths@.len(),
    {
        match self.path_slots.get(hash.0) {
            Some(p) => {
                if p != NO_LINK && (p as usize) < self.paths.len() {
                    Some(p)
                } else {
                    None
                }
            },
            None => None,
        }
    }

    /// The direct children of the folder with path hash `hash`, in sibling order.
    pub fn children(&self, hash: PathHash) -> (list: Vec<u32>)
        requires
            self.wf(),
        ensures
            list@ == self.children_of(hash.0),
            forall|i: int| 0 <= i < list@.len() ==> #[trigger] list@[i] < self.paths@.len(),
    {
        let mut list: Vec<u32> = Vec::new();
        let folder = match self.folder(hash) {
            Some(f) => f,
            None => {
                return list;
            },
        };
        let first = self.first_child[folder];
        let mut link = first;
        let mut fuel = self.next.len();
        proof {
            lemma_chain_bounds(self.next@, first, self.next@.len());
        }
        while fuel > 0 && link != NO_LINK
            invariant
                self.wf(),
                link_ok(link, self.paths@.len() as int),
                list@ + chain(self.next@, link, fuel as nat) == chain(
                    self.next@,
                    first,
                    self.next@.len(),
                ),
            decreases fuel,
        {
            list.push(link);
            let here = link;
            link = self.next[here as usize];
            fuel = fuel - 1;
        }
        list
    }

    /// Whether the index is well-formed.
    pub fn is_well_formed(&self) -> (ok: bool)
        ensures
            ok == self.wf(),
    {
        self.folder_slots.is_well_formed() && self.path_slots.is_well_formed() && self.paths.len()
            <= NO_LINK as usize && self.next.len() == self.paths.len() && slots_in_range(
            &self.folder_slots.slots,
            self.first_child.len(),
        ) && slots_in_range(&self.path_slots.slots, self.paths.len()) && links_in_range(
            &self.first_child,
            self.paths.len(),
        ) && links_in_range(&self.next, self.paths.len())
    }

    /// An index of the given tables, entries and links, or nothing where they do
    /// not fit together: a table is ill-formed, a stored index or a link points
    /// outside its list, the links and the entries differ in number, or the
    /// entries are too many.
    pub fn new(
        folder_slots: LinkTable,
        first_child: Vec<u32>,
        path_slots: LinkTable,
        paths: Vec<PathEntry>,
        next: Vec<u32>,
    ) -> (index: Option<SearchIndex>)
        ensures
            index is Some == (SearchIndex { folder_slots, first_child, path_slots, paths, next }).wf(),
            index matches Some(i) ==> i == (SearchIndex {
                folder_slots,
                first_child,
                path_slots,
                paths,
                next,
            }),
    {
        let index = SearchIndex { folder_slots, first_child, path_slots, paths, next };
        if index.is_well_formed() {
            Some(index)
        } else {
            None
        }
    }
}

/// Whether every index stored in `slots` is `NO_LINK` or below `limit`.
pub fn slots_in_range(slots: &Vec<HashSlot>, limit: usize) -> (ok: bool)
    ensures
        ok == slots_ok(slots@, limit as int),
{
    let mut i: usize = 0;
    while i < slots.len()
        invariant
            i <= slots@.len(),
            forall|k: int| 0 <= k < i ==> link_ok(#[trigger] slots@[k].index, limit as int),
        decreases slots.len() - i,
    {
        let index = slots[i].index;
        if index != NO_LINK && index as usize >= limit {
            return false;
        }
        i += 1;
    }
    true
}

/// Whether every link of `links` is `NO_LINK` or below `limit`.
pub fn links_in_range(links: &Vec<u32>, limit: usize) -> (ok: bool)
    ensures
        ok == links_ok(links@, limit as int),
{
    let mut i: usize = 0;
    while i < links.len()
        invariant
            i <= links@.len(),
            forall|k: int| 0 <= k < i ==> link_ok(#[trigger] links@[k], limit as int),
        decreases links.len() - i,
    {
        let link = links[i];
        if link != NO_LINK && link as usize >= limit {
            return false;
        }
        i += 1;
    }
    true
}

} // verus!
