//! Walking the search index: a folder's children as a tree of files and folders,
//! the tree flattened into its files, and the lookup of a child by name.

use vstd::prelude::*;
use crate::hash::PathHash;
use crate::index::{PathEntry, SearchIndex};
use crate::table::NO_LINK;

verus! {

/// One node of a walked tree: a file, or a folder with what the walk found in it.
/// The number is the entry's number in the index.
#[derive(Debug)]
pub enum SearchEntry {
    File(u32),
    Folder { index: u32, children: Vec<SearchEntry> },
}

/// A walked tree as a mathematical value.
pub enum EntryView {
    File(u32),
    Folder(u32, Seq<EntryView>),
}

impl SearchEntry {
    /// The node as a mathematical value.
    pub open spec fn view(&self) -> EntryView
        decreases self,
    {
        match self {
            SearchEntry::File(i) => EntryView::File(*i),
            SearchEntry::Folder { index, children } => EntryView::Folder(
                *index,
                Seq::new(
                    children@.len(),
                    |i: int|
                        if 0 <= i < children@.len() {
                            children@[i].view()
                        } else {
                            EntryView::File(0)
                        },
                ),
            ),
        }
    }

    /// The number of the entry that the node stands for.
    pub fn index(&self) -> (i: u32)
        ensures
            i == entry_number(self@),
    {
        match self {
            SearchEntry::File(i) => *i,
            SearchEntry::Folder { index, .. } => *index,
        }
    }
}

/// The number of the entry that a node stands for.
pub open spec fn entry_number(node: EntryView) -> u32 {
    match node {
        EntryView::File(i) => i,
        EntryView::Folder(i, _) => i,
    }
}

/// A list of nodes as a mathematical value.
pub open spec fn entries_view(entries: Seq<SearchEntry>) -> Seq<EntryView> {
    Seq::new(entries.len(), |i: int| entries[i]@)
}

/// The node for entry `child` when `depth` more levels may be entered.
pub open spec fn node_of(search: &SearchIndex, child: u32, depth: nat) -> EntryView
    decreases depth, 1nat,
{
    if child < search.paths@.len() && search.paths@[child as int].is_directory {
        EntryView::Folder(child, walk_of(search, search.paths@[child as int].path.0, depth))
    } else {
        EntryView::File(child)
    }
}

/// The tree below the folder with path hash `hash`, `depth` levels deep: its
/// children in sibling order, each folder among them with its own tree one
/// level less deep. Depth 0 and a folder that the index lacks give nothing.
pub open spec fn walk_of(search: &SearchIndex, hash: u64, depth: nat) -> Seq<EntryView>
    decreases depth, 0nat,
{
    if depth == 0 {
        Seq::empty()
    } else {
        let kids = search.children_of(hash);
        Seq::new(kids.len(), |i: int| node_of(search, kids[i], (depth - 1) as nat))
    }
}

/// The depth that a walk is asked for, as a count of levels.
pub open spec fn levels(depth: isize) -> nat {
    if depth <= 0 {
        0
    } else {
        depth as nat
    }
}

/// Walks the folder with path hash `hash`, `depth` levels deep.
pub fn walk_search_section(search: &SearchIndex, hash: PathHash, depth: isize) -> (entries: Vec<
    SearchEntry,
>)
    requires
        search.wf(),
    ensures
        entries_view(entries@) == walk_of(search, hash.0, levels(depth)),
    decreases levels(depth),
{
    let mut entries: Vec<SearchEntry> = Vec::new();
    if depth <= 0 {
        return entries;
    }
    let kids = search.children(hash);
    let mut i: usize = 0;
    while i < kids.len()
        invariant
            search.wf(),
            depth > 0,
            i <= kids@.len(),
            kids@ == search.children_of(hash.0),
            forall|k: int| 0 <= k < kids@.len() ==> #[trigger] kids@[k] < search.paths@.len(),
            entries@.len() == i,
            forall|k: int|
                0 <= k < i ==> (#[trigger] entries@[k])@ == node_of(
                    search,
                    kids@[k],
                    (levels(depth) - 1) as nat,
                ),
        decreases kids.len() - i,
    {
        let child = kids[i];
        let entry = search.paths[child as usize];
        let node = if entry.is_directory {
            let children = walk_search_section(search, entry.path, depth - 1);
            let node = SearchEntry::Folder { index: child, children };
            proof {
                assert(node@ matches EntryView::Folder(n, c) && n == child && c =~= entries_view(
                    children@,
                ));
            }
            node
        } else {
            SearchEntry::File(child)
        };
        entries.push(node);
        i += 1;
    }
    entries
}

/// The files of a list of trees, depth first: each file where it stands, each
/// folder replaced by the files of its own tree.
pub open spec fn files_of(entries: Seq<EntryView>) -> Seq<u32>
    decreases entries,
{
    if entries.len() == 0 {
        Seq::empty()
    } else {
        files_of(entries.drop_last()) + (match entries.last() {
            EntryView::File(i) => seq![i],
            EntryView::Folder(_, children) => files_of(children),
        })
    }
}

/// The file nodes for a list of entry numbers.
pub open spec fn file_nodes(files: Seq<u32>) -> Seq<EntryView> {
    Seq::new(files.len(), |i: int| EntryView::File(files[i]))
}

/// Collapsing a tree into its files.
pub trait FlattenVec {
    /// The files of the tree, depth first, without the folder nodes.
    fn flatten(self) -> Self;
}

impl FlattenVec for Vec<SearchEntry> {
    fn flatten(self) -> (out: Self)
        ensures
            entries_view(out@) == file_nodes(files_of(entries_view(self@))),
    {
        let mut out: Vec<SearchEntry> = Vec::new();
        flatten_into(&self, &mut out);
        out
    }
}

/// Appends the files of `entries`, depth first, to `out`.
fn flatten_into(entries: &Vec<SearchEntry>, out: &mut Vec<SearchEntry>)
    ensures
        entries_view(final(out)@) == entries_view(old(out)@) + file_nodes(
            files_of(entries_view(entries@)),
        ),
    decreases entries,
{
    let ghost start = entries_view(out@);
    let mut i: usize = 0;
    while i < entries.len()
        invariant
            i <= entries@.len(),
            entries_view(out@) == start + file_nodes(
                files_of(entries_view(entries@).take(i as int)),
            ),
        decreases entries.len() - i,
    {
        let ghost before = entries_view(out@);
        let ghost done = entries_view(entries@).take(i as int);
        let ghost step = entries_view(entries@).take(i + 1);
        proof {
            assert(step.drop_last() =~= done);
        }
        match &entries[i] {
            SearchEntry::File(index) => {
                out.push(SearchEntry::File(*index));
                proof {
                    assert(entries_view(out@) =~= before + file_nodes(seq![*index]));
                }
            },
            SearchEntry::Folder { children, .. } => {
                flatten_into(children, out);
                proof {
                    assert(entries@[i as int]@ matches EntryView::Folder(_, c) && c
                        =~= entries_view(children@));
                }
            },
        }
        i += 1;
    }
    assert(entries_view(entries@).take(entries@.len() as int) =~= entries_view(entries@));
}

/// The first entry of `list` whose file name is `name`.
pub open spec fn find_named(paths: Seq<PathEntry>, list: Seq<u32>, name: u64) -> Option<u32>
    decreases list.len(),
{
    if list.len() == 0 {
        None
    } else if list[0] < paths.len() && paths[list[0] as int].file_name.0 == name {
        Some(list[0])
    } else {
        find_named(paths, list.skip(1), name)
    }
}

/// The first direct child named `name` of the folder that entry `parent` stands
/// for. An entry that the index lacks, or that is no folder of it, has none.
pub open spec fn direct_child_of(search: &SearchIndex, parent: u32, name: u64) -> Option<u32> {
    if parent < search.paths@.len() {
        find_named(search.paths@, search.children_of(search.paths@[parent as int].path.0), name)
    } else {
        None
    }
}

/// The first entry of `list` whose file name is `name`.
pub fn first_named(search: &SearchIndex, list: &Vec<u32>, name: PathHash) -> (found: Option<u32>)
    requires
        forall|i: int| 0 <= i < list@.len() ==> #[trigger] list@[i] < search.paths@.len(),
    ensures
        found == find_named(search.paths@, list@, name.0),
{
    let mut i: usize = 0;
    assert(list@.skip(0) =~= list@);
    while i < list.len()
        invariant
            i <= list@.len(),
            forall|k: int| 0 <= k < list@.len() ==> #[trigger] list@[k] < search.paths@.len(),
            find_named(search.paths@, list@, name.0) == find_named(
                search.paths@,
                list@.skip(i as int),
                name.0,
            ),
        decreases list.len() - i,
    {
        let child = list[i];
        if search.paths[child as usize].file_name == name {
            return Some(child);
        }
        assert(list@.skip(i as int).skip(1) =~= list@.skip(i + 1));
        i += 1;
    }
    None
}

/// The first direct child named `child` of the folder that entry `index` stands for.
pub fn get_direct_child(search: &SearchIndex, index: u32, child: PathHash) -> (found: Option<u32>)
    requires
        search.wf(),
    ensures
        found == direct_child_of(search, index, child.0),
{
    if index as usize >= search.paths.len() {
        return None;
    }
    let parent = search.paths[index as usize];
    let kids = search.children(parent.path);
    first_named(search, &kids, child)
}

/// The sibling before the first entry named `name` in `list`, `NO_LINK` where
/// that entry is the first of the list; `before` is the sibling before the list.
pub open spec fn find_referencing(search: &SearchIndex, list: Seq<u32>, name: u64, before: u32) -> Option<
    u32,
>
    decreases list.len(),
{
    if list.len() == 0 {
        None
    } else if list[0] < search.paths@.len() && search.paths@[list[0] as int].file_name.0 == name {
        Some(before)
    } else {
        find_referencing(search, list.skip(1), name, list[0])
    }
}

/// The entry whose sibling link leads to the first direct child named `child` of
/// the folder that entry `index` stands for: `NO_LINK` where the folder's own
/// first-child link leads there, nothing where the folder has no such child.
pub fn get_child_referencing(search: &SearchIndex, index: u32, child: PathHash) -> (found: Option<
    u32,
>)
    requires
        search.wf(),
    ensures
        found == (if index < search.paths@.len() {
            find_referencing(
                search,
                search.children_of(search.paths@[index as int].path.0),
                child.0,
                NO_LINK,
            )
        } else {
            None
        }),
{
    if index as usize >= search.paths.len() {
        return None;
    }
    let parent = search.paths[index as usize];
    let list = search.children(parent.path);
    let mut prev: u32 = NO_LINK;
    let mut i: usize = 0;
    assert(list@.skip(0) =~= list@);
    while i < list.len()
        invariant
            i <= list@.len(),
            forall|k: int| 0 <= k < list@.len() ==> #[trigger] list@[k] < search.paths@.len(),
            index < search.paths@.len(),
            list@ == search.children_of(search.paths@[index as int].path.0),
            find_referencing(search, list@, child.0, NO_LINK) == find_referencing(
                search,
                list@.skip(i as int),
                child.0,
                prev,
            ),
        decreases list.len() - i,
    {
        let here = list[i];
        if search.paths[here as usize].file_name == child {
            return Some(prev);
        }
        assert(list@.skip(i as int).skip(1) =~= list@.skip(i + 1));
        prev = here;
        i += 1;
    }
    None
}

} // verus!
