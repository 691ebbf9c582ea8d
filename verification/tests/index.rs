use stage_alts::alts::{AltRef, Selection, StageAltManager};
use stage_alts::archive::ArchiveIndex;
use stage_alts::builder::{
    build_alt, collect_alts, collect_folders, collect_sharing_base, map_folders, probe_stage,
    stage_alts, stage_info, take_form, vanilla_alt,
};
use stage_alts::catalog::{StageProbe, Unfit, MAX_ALTS};
use stage_alts::fix::{corrected_order, file_order_fix, fix_levels, list_contains, write_chain};
use stage_alts::folders::{insert_sorted, list_folders, sorted_folders};
use stage_alts::hash::PathHash;
use stage_alts::index::{links_in_range, slots_in_range, PathEntry, SearchIndex};
use stage_alts::loader::{init_loaded_dir, prepare_for_load, res_loop_start};
use stage_alts::patch::{apply_pairs, covers, is_patched, restore_pairs, values_in_range};
use stage_alts::redirect::{collect_file_pairs, AdvanceNote};
use stage_alts::script::{
    enter_panels, get_index_for_texture, get_next_alt, get_prev_alt, is_random_panel,
    panel_stage, record_field, register_alt, stage_table,
};
use stage_alts::search::{
    first_named, get_child_referencing, get_direct_child, walk_search_section, FlattenVec,
    SearchEntry,
};
use stage_alts::table::{Bucket, HashSlot, LinkTable, NO_LINK};
use std::collections::{BTreeMap, HashMap};

const TREE: [(&str, bool); 39] = [
    ("stage", true),
    ("stage/common", true),
    ("stage/common/shared.bin", false),
    ("stage/battlefield", true),
    ("stage/battlefield/normal", true),
    ("stage/battlefield/normal/model", true),
    ("stage/battlefield/normal/model/a.nutexb", false),
    ("stage/battlefield/normal/model/b.nutexb", false),
    ("stage/battlefield/normal/model/sub", true),
    ("stage/battlefield/normal/model/sub/x.bin", false),
    ("stage/battlefield/normal/param", true),
    ("stage/battlefield/normal/param/bf_00.lvd", false),
    ("stage/battlefield/normal/param/bf_01.lvd", false),
    ("stage/battlefield/normal_s01", true),
    ("stage/battlefield/normal_s01/wifi-safe.flag", false),
    ("stage/battlefield/normal_s01/param", true),
    ("stage/battlefield/normal_s01/param/bf_01.lvd", false),
    ("stage/battlefield/normal_s01/param/extra.lvd", false),
    ("stage/battlefield/normal_s01/param/bf_00.lvd", false),
    ("stage/battlefield/normal_s01/model", true),
    ("stage/battlefield/normal_s01/model/b.nutexb", false),
    ("stage/battlefield/normal_s01/model/a.nutexb", false),
    ("stage/battlefield/normal_s02", true),
    ("stage/battlefield/normal_s02/wifi-ignore.flag", false),
    ("stage/battlefield/normal_s02/model", true),
    ("stage/battlefield/normal_s02/model/a.nutexb", false),
    ("stage/battlefield/battle", true),
    ("stage/battlefield/battle/model", true),
    ("stage/battlefield/battle/model/c.nutexb", false),
    ("stage/battlefield/battle_s01", true),
    ("stage/battlefield/battle_s01/wifi-safe.flag", false),
    ("stage/battlefield/battle_s01/model", true),
    ("stage/battlefield/battle_s01/model/c.nutexb", false),
    ("stage/nonormal", true),
    ("stage/nonormal/battle", true),
    ("stage/sparse", true),
    ("stage/sparse/normal", true),
    ("stage/sparse/normal_s02", true),
    ("stage/loose.txt", false),
];

fn parent_of(path: &str) -> &str {
    match path.rfind('/') {
        Some(i) => &path[..i],
        None => "",
    }
}

fn name_of(path: &str) -> &str {
    match path.rfind('/') {
        Some(i) => &path[i + 1..],
        None => path,
    }
}

fn ext_of(path: &str) -> &str {
    let name = name_of(path);
    match name.rfind('.') {
        Some(i) => &name[i + 1..],
        None => "",
    }
}

fn h(text: &str) -> PathHash {
    PathHash::new(text)
}

fn sorted_table(mut slots: Vec<HashSlot>) -> LinkTable {
    slots.sort_by_key(|s| s.hash);
    LinkTable::sorted(slots).unwrap()
}

/// A search index of the given paths; siblings stand in the order of the list.
fn search_index(items: &[(&str, bool)]) -> SearchIndex {
    let mut paths = Vec::new();
    let mut path_slots = Vec::new();
    for (i, (path, dir)) in items.iter().enumerate() {
        paths.push(PathEntry {
            path: h(path),
            parent: h(parent_of(path)),
            file_name: h(name_of(path)),
            ext: h(ext_of(path)),
            is_directory: *dir,
        });
        path_slots.push(HashSlot { hash: h(path).0, index: i as u32 });
    }
    let mut next = vec![NO_LINK; items.len()];
    let mut first_child = Vec::new();
    let mut folder_slots = Vec::new();
    for (path, dir) in items.iter() {
        if !*dir {
            continue;
        }
        let kids: Vec<usize> =
            (0..items.len()).filter(|k| parent_of(items[*k].0) == *path).collect();
        for pair in kids.windows(2) {
            next[pair[0]] = pair[1] as u32;
        }
        folder_slots.push(HashSlot { hash: h(path).0, index: first_child.len() as u32 });
        first_child.push(kids.first().map_or(NO_LINK, |k| *k as u32));
    }
    SearchIndex::new(sorted_table(folder_slots), first_child, sorted_table(path_slots), paths, next)
        .unwrap()
}

/// An archive index of the given files, each with its data link, in three buckets.
fn archive_index(files: &[(&str, u32)]) -> ArchiveIndex {
    let mut buckets = Vec::new();
    let mut slots = Vec::new();
    for b in 0..3u64 {
        let mut own: Vec<HashSlot> = files
            .iter()
            .enumerate()
            .filter(|(_, (path, _))| h(path).0 % 3 == b)
            .map(|(n, (path, _))| HashSlot { hash: h(path).0, index: n as u32 })
            .collect();
        own.sort_by_key(|s| s.hash);
        buckets.push(Bucket { start: slots.len() as u32, count: own.len() as u32 });
        slots.extend(own);
    }
    ArchiveIndex::new(
        LinkTable::new(buckets, slots).unwrap(),
        files.iter().map(|(_, link)| *link).collect(),
    )
    .unwrap()
}

/// The archive of the files of `TREE`: file `n` of the tree has the data link
/// `100 + n`, but the two `a.nutexb` of `normal` and `normal_s01` share link 7.
fn tree_archive() -> ArchiveIndex {
    let mut files = Vec::new();
    for (n, (path, dir)) in TREE.iter().enumerate() {
        if !*dir {
            let link = if name_of(path) == "a.nutexb" && !path.contains("s02") {
                7
            } else {
                100 + n as u32
            };
            files.push((*path, link));
        }
    }
    archive_index(&files)
}

fn folders_of(pairs: &[(PathHash, PathHash)]) -> HashMap<u64, PathHash> {
    pairs.iter().map(|(base, variant)| (base.0, *variant)).collect()
}

fn held(table: &LinkTable) -> BTreeMap<u64, u32> {
    table.slots.iter().map(|slot| (slot.hash, slot.index)).collect()
}

fn entry(search: &SearchIndex, path: &str) -> u32 {
    search.entry(h(path)).unwrap()
}

fn names(search: &SearchIndex, list: &[u32]) -> Vec<PathHash> {
    list.iter().map(|e| search.paths[*e as usize].file_name).collect()
}

fn texts(list: &[&str]) -> Vec<PathHash> {
    list.iter().map(|t| h(t)).collect()
}

fn indices(entries: &[SearchEntry]) -> Vec<u32> {
    entries.iter().map(|e| e.index()).collect()
}

fn built() -> (SearchIndex, ArchiveIndex, StageAltManager) {
    let mut search = search_index(&TREE);
    let arc = tree_archive();
    let mut manager = StageAltManager::new(&search, &arc);
    let catalog = collect_alts(&mut search, &arc);
    manager.install_catalog(catalog.infos);
    (search, arc, manager)
}

#[test]
fn index_refuses_links_that_leave_the_entries() {
    let good = search_index(&[("a", true), ("a/b", false)]);
    assert_eq!(good.first_child, vec![1]);
    assert_eq!(good.next, vec![NO_LINK, NO_LINK]);
    let tables = || {
        (
            sorted_table(vec![HashSlot { hash: h("a").0, index: 0 }]),
            sorted_table(vec![HashSlot { hash: h("a").0, index: 0 }]),
        )
    };
    let paths = || {
        vec![PathEntry {
            path: h("a"),
            parent: h(""),
            file_name: h("a"),
            ext: h(""),
            is_directory: true,
        }]
    };
    let (f, p) = tables();
    assert!(SearchIndex::new(f, vec![NO_LINK], p, paths(), vec![NO_LINK]).is_some());
    let (f, p) = tables();
    assert!(SearchIndex::new(f, vec![1], p, paths(), vec![NO_LINK]).is_none());
    let (f, p) = tables();
    assert!(SearchIndex::new(f, vec![0], p, paths(), vec![3]).is_none());
    let (f, p) = tables();
    assert!(SearchIndex::new(f, vec![0], p, paths(), vec![]).is_none());
    let (f, p) = tables();
    assert!(SearchIndex::new(f, vec![], p, paths(), vec![NO_LINK]).is_none());
    let (f, _) = tables();
    let far = sorted_table(vec![HashSlot { hash: h("a").0, index: 5 }]);
    assert!(SearchIndex::new(f, vec![0], far, paths(), vec![NO_LINK]).is_none());
    let (f, _) = tables();
    let torn = LinkTable { buckets: Vec::new(), slots: Vec::new() };
    assert!(!torn.is_well_formed());
    assert!(SearchIndex::new(f, vec![0], torn, paths(), vec![NO_LINK]).is_none());
    let torn = LinkTable { buckets: vec![Bucket { start: 0, count: 1 }], slots: Vec::new() };
    assert!(ArchiveIndex::new(torn, Vec::new()).is_none());
    assert!(links_in_range(&vec![0, NO_LINK, 2], 3));
    assert!(!links_in_range(&vec![3], 3));
    assert!(slots_in_range(&vec![HashSlot { hash: 1, index: NO_LINK }], 0));
    assert!(!slots_in_range(&vec![HashSlot { hash: 1, index: 0 }], 0));
}

#[test]
fn a_built_index_is_well_formed_until_a_link_is_torn() {
    let mut search = search_index(&TREE);
    assert!(search.is_well_formed());
    assert!(search.path_slots.is_well_formed());
    search.next[0] = TREE.len() as u32;
    assert!(!search.is_well_formed());
    search.next[0] = NO_LINK;
    assert!(search.is_well_formed());
    search.first_child.pop();
    assert!(!search.is_well_formed());
}

#[test]
fn a_backup_holds_what_lookups_find() {
    let arc = tree_archive();
    let backup = arc.path_slots.backup();
    assert_eq!(backup, held(&arc.path_slots));
    let table = LinkTable::new(
        vec![Bucket { start: 0, count: 1 }, Bucket { start: 1, count: 1 }],
        vec![HashSlot { hash: 4, index: 40 }, HashSlot { hash: 6, index: 60 }],
    )
    .unwrap();
    // 6 belongs to the first bucket, where no lookup finds it
    let backup = table.backup();
    assert_eq!(backup.len(), 1);
    assert_eq!(backup.get(&4), Some(&40));
}

#[test]
fn lookups_find_folders_and_entries() {
    let search = search_index(&TREE);
    assert_eq!(search.entry(h("stage/battlefield/normal")), Some(4));
    assert_eq!(search.entry(h("stage/missing")), None);
    assert!(search.folder(h("stage/battlefield/normal")).is_some());
    assert_eq!(search.folder(h("stage/loose.txt")), None);
    assert_eq!(search.folder(h("stage/missing")), None);
}

#[test]
fn children_follow_the_sibling_links() {
    let search = search_index(&TREE);
    let kids = search.children(h("stage"));
    assert_eq!(
        names(&search, &kids),
        texts(&["common", "battlefield", "nonormal", "sparse", "loose.txt"])
    );
    assert!(search.children(h("stage/nonormal/battle")).is_empty());
    assert!(search.children(h("stage/missing")).is_empty());
    assert!(search.children(h("stage/loose.txt")).is_empty());
}

#[test]
fn children_of_a_looping_chain_stop_after_as_many_as_there_are_entries() {
    let mut search = search_index(&[("a", true), ("a/x", false), ("a/y", false)]);
    search.next[2] = 1;
    assert_eq!(search.children(h("a")), vec![1, 2, 1]);
}

#[test]
fn walk_of_depth_zero_or_less_is_empty() {
    let search = search_index(&TREE);
    assert!(walk_search_section(&search, h("stage"), 0).is_empty());
    assert!(walk_search_section(&search, h("stage"), -1).is_empty());
    assert!(walk_search_section(&search, h("stage"), isize::MIN).is_empty());
}

#[test]
fn walk_of_a_missing_folder_is_empty() {
    let search = search_index(&TREE);
    assert!(walk_search_section(&search, h("stage/missing"), 3).is_empty());
    assert!(walk_search_section(&search, h("stage/loose.txt"), 3).is_empty());
}

#[test]
fn walk_of_depth_one_lists_the_children() {
    let search = search_index(&TREE);
    let found = walk_search_section(&search, h("stage/battlefield/normal/model"), 1);
    assert_eq!(found.len(), 3);
    assert!(matches!(found[0], SearchEntry::File(6)));
    assert!(matches!(found[1], SearchEntry::File(7)));
    match &found[2] {
        SearchEntry::Folder { index, children } => {
            assert_eq!(*index, 8);
            assert!(children.is_empty());
        }
        SearchEntry::File(_) => panic!("a folder was walked as a file"),
    }
}

#[test]
fn walk_goes_as_deep_as_asked() {
    let search = search_index(&TREE);
    let found = walk_search_section(&search, h("stage/battlefield/normal"), 3);
    assert_eq!(indices(&found), vec![5, 10]);
    match &found[0] {
        SearchEntry::Folder { children, .. } => {
            assert_eq!(indices(children), vec![6, 7, 8]);
            match &children[2] {
                SearchEntry::Folder { children, .. } => assert_eq!(indices(children), vec![9]),
                SearchEntry::File(_) => panic!("a folder was walked as a file"),
            }
        }
        SearchEntry::File(_) => panic!("a folder was walked as a file"),
    }
    let shallow = walk_search_section(&search, h("stage/battlefield/normal"), 2);
    match &shallow[0] {
        SearchEntry::Folder { children, .. } => match &children[2] {
            SearchEntry::Folder { children, .. } => assert!(children.is_empty()),
            SearchEntry::File(_) => panic!("a folder was walked as a file"),
        },
        SearchEntry::File(_) => panic!("a folder was walked as a file"),
    }
}

#[test]
fn flatten_keeps_the_files_depth_first() {
    let search = search_index(&TREE);
    let flat = walk_search_section(&search, h("stage/battlefield/normal"), 3).flatten();
    assert_eq!(indices(&flat), vec![6, 7, 9, 11, 12]);
    assert!(flat.iter().all(|e| matches!(e, SearchEntry::File(_))));
    let flat = walk_search_section(&search, h("stage/battlefield/normal"), 1).flatten();
    assert!(flat.is_empty());
    let flat = walk_search_section(&search, h("stage/battlefield/normal/model"), 1).flatten();
    assert_eq!(indices(&flat), vec![6, 7]);
    assert!(Vec::<SearchEntry>::new().flatten().is_empty());
}

#[test]
fn direct_child_is_found_by_name() {
    let search = search_index(&TREE);
    let stage = entry(&search, "stage/battlefield");
    assert_eq!(get_direct_child(&search, stage, h("normal")), Some(4));
    assert_eq!(get_direct_child(&search, stage, h("battle_s01")), Some(29));
    assert_eq!(get_direct_child(&search, stage, h("normal_s03")), None);
    assert_eq!(get_direct_child(&search, stage, h("model")), None);
    assert_eq!(get_direct_child(&search, 6, h("normal")), None);
    assert_eq!(get_direct_child(&search, 1000, h("normal")), None);
    assert_eq!(first_named(&search, &vec![6, 7, 8], h("b.nutexb")), Some(7));
    assert_eq!(first_named(&search, &vec![6, 7, 8], h("c.nutexb")), None);
}

#[test]
fn child_referencing_gives_the_sibling_before() {
    let search = search_index(&TREE);
    let stage = entry(&search, "stage/battlefield");
    assert_eq!(get_child_referencing(&search, stage, h("normal")), Some(NO_LINK));
    assert_eq!(get_child_referencing(&search, stage, h("normal_s01")), Some(4));
    assert_eq!(get_child_referencing(&search, stage, h("battle")), Some(22));
    assert_eq!(get_child_referencing(&search, stage, h("absent")), None);
    assert_eq!(get_child_referencing(&search, 1000, h("normal")), None);
}

#[test]
fn corrected_order_follows_the_base_and_puts_the_rest_last() {
    let search = search_index(&TREE);
    let base = search.children(h("stage/battlefield/normal/param"));
    let variant = search.children(h("stage/battlefield/normal_s01/param"));
    let order = corrected_order(&search, &base, &variant);
    assert_eq!(names(&search, &order), texts(&["bf_00.lvd", "bf_01.lvd", "extra.lvd"]));
    assert_eq!(order, vec![18, 16, 17]);
    assert_eq!(corrected_order(&search, &base, &order), order);
    assert_eq!(corrected_order(&search, &Vec::new(), &variant), variant);
    assert!(corrected_order(&search, &base, &Vec::new()).is_empty());
    assert!(list_contains(&order, 17));
    assert!(!list_contains(&order, 19));
}

#[test]
fn corrected_order_takes_each_entry_once() {
    let search = search_index(&[
        ("b", true),
        ("b/x", false),
        ("b/y", false),
        ("v", true),
        ("v/y", false),
        ("v/x", false),
    ]);
    let order = corrected_order(&search, &vec![1, 2, 1], &vec![4, 5, 4]);
    assert_eq!(order, vec![5, 4]);
}

#[test]
fn write_chain_links_the_entries_in_order() {
    let mut search = search_index(&TREE);
    let folder = search.folder(h("stage/battlefield/normal_s01/param")).unwrap();
    write_chain(&mut search, folder, &vec![17, 18, 16]);
    assert_eq!(search.children(h("stage/battlefield/normal_s01/param")), vec![17, 18, 16]);
    assert_eq!(search.next[16], NO_LINK);
    write_chain(&mut search, folder, &Vec::new());
    assert!(search.children(h("stage/battlefield/normal_s01/param")).is_empty());
    assert_eq!(search.first_child[folder], NO_LINK);
}

#[test]
fn order_fix_puts_the_variant_in_the_order_of_the_base() {
    let mut search = search_index(&TREE);
    let before = search.children(h("stage/battlefield/normal_s01"));
    assert_eq!(names(&search, &before), texts(&["wifi-safe.flag", "param", "model"]));
    file_order_fix(
        &mut search,
        h("stage/battlefield/normal"),
        h("stage/battlefield/normal_s01"),
    );
    let after = search.children(h("stage/battlefield/normal_s01"));
    assert_eq!(names(&search, &after), texts(&["model", "param", "wifi-safe.flag"]));
    let param = search.children(h("stage/battlefield/normal_s01/param"));
    assert_eq!(names(&search, &param), texts(&["bf_00.lvd", "bf_01.lvd", "extra.lvd"]));
    let model = search.children(h("stage/battlefield/normal_s01/model"));
    assert_eq!(names(&search, &model), texts(&["a.nutexb", "b.nutexb"]));
    let base = search.children(h("stage/battlefield/normal"));
    assert_eq!(names(&search, &base), texts(&["model", "param"]));
}

#[test]
fn order_fix_changes_nothing_the_second_time() {
    let mut search = search_index(&TREE);
    let src = h("stage/battlefield/normal");
    let dst = h("stage/battlefield/normal_s01");
    file_order_fix(&mut search, src, dst);
    let first = search.first_child.clone();
    let next = search.next.clone();
    file_order_fix(&mut search, src, dst);
    assert_eq!(search.first_child, first);
    assert_eq!(search.next, next);
}

#[test]
fn order_fix_leaves_alone_what_it_cannot_fix() {
    let pristine = search_index(&TREE);
    let mut search = search_index(&TREE);
    // the variant is missing
    file_order_fix(&mut search, h("stage/battlefield/normal"), h("stage/battlefield/normal_s09"));
    // the variant is a file
    file_order_fix(&mut search, h("stage/battlefield/normal"), h("stage/loose.txt"));
    // the base has no children
    file_order_fix(&mut search, h("stage/nonormal/battle"), h("stage/battlefield/normal_s01"));
    // the base is missing
    file_order_fix(&mut search, h("stage/missing"), h("stage/battlefield/normal_s01"));
    // no level may be entered
    fix_levels(
        &mut search,
        h("stage/battlefield/normal"),
        h("stage/battlefield/normal_s01"),
        0,
    );
    assert_eq!(search.first_child, pristine.first_child);
    assert_eq!(search.next, pristine.next);
}

#[test]
fn order_fix_goes_only_as_deep_as_its_fuel() {
    let mut search = search_index(&TREE);
    fix_levels(
        &mut search,
        h("stage/battlefield/normal"),
        h("stage/battlefield/normal_s01"),
        1,
    );
    let top = search.children(h("stage/battlefield/normal_s01"));
    assert_eq!(names(&search, &top), texts(&["model", "param", "wifi-safe.flag"]));
    let param = search.children(h("stage/battlefield/normal_s01/param"));
    assert_eq!(names(&search, &param), texts(&["bf_01.lvd", "extra.lvd", "bf_00.lvd"]));
}

#[test]
fn folders_are_listed_in_the_order_of_their_hashes() {
    let mut map = HashMap::new();
    map.insert(30u64, PathHash(3));
    map.insert(10u64, PathHash(1));
    map.insert(20u64, PathHash(2));
    map.insert(10u64, PathHash(4));
    assert_eq!(
        sorted_folders(&map),
        vec![(PathHash(10), PathHash(4)), (PathHash(20), PathHash(2)), (PathHash(30), PathHash(3))]
    );
    let mut listed = list_folders(&map);
    assert_eq!(listed.len(), 3);
    listed.sort_by_key(|pair| pair.0 .0);
    assert_eq!(listed, sorted_folders(&map));
    assert!(list_folders(&HashMap::new()).is_empty());
    assert!(sorted_folders(&HashMap::new()).is_empty());
}

#[test]
fn a_pair_is_put_in_where_its_hash_asks_for_it() {
    let mut list = Vec::new();
    insert_sorted(&mut list, (PathHash(5), PathHash(50)));
    insert_sorted(&mut list, (PathHash(9), PathHash(90)));
    insert_sorted(&mut list, (PathHash(1), PathHash(10)));
    insert_sorted(&mut list, (PathHash(7), PathHash(70)));
    assert_eq!(
        list,
        vec![
            (PathHash(1), PathHash(10)),
            (PathHash(5), PathHash(50)),
            (PathHash(7), PathHash(70)),
            (PathHash(9), PathHash(90)),
        ]
    );
}

#[test]
fn folders_below_a_folder_are_collected_with_relative_paths() {
    let search = search_index(&TREE);
    let found = collect_folders(&search, h("stage/battlefield/normal"), PathHash(0));
    assert_eq!(found, texts(&["model", "model/sub", "param"]));
    let found = collect_folders(&search, h("stage/battlefield/normal"), h("root"));
    assert_eq!(found, texts(&["root/model", "root/model/sub", "root/param"]));
    assert!(collect_folders(&search, h("stage/missing"), PathHash(0)).is_empty());
    assert!(collect_folders(&search, h("stage/battlefield/normal/param"), PathHash(0)).is_empty());
}

#[test]
fn map_folders_joins_each_relative_path_to_both_roots() {
    let mut map = folders_of(&[(h("e"), h("e1")), (h("n/model"), h("old"))]);
    map_folders(&mut map, h("n"), h("n_s01"), &texts(&["model", "model/sub"]));
    assert_eq!(
        map,
        folders_of(&[
            (h("e"), h("e1")),
            (h("n/model"), h("n_s01/model")),
            (h("n/model/sub"), h("n_s01/model/sub")),
        ])
    );
}

#[test]
fn file_pairs_are_the_files_of_the_variant_folders() {
    let search = search_index(&TREE);
    let folders = vec![
        (h("stage/battlefield/normal/param"), h("stage/battlefield/normal_s01/param")),
        (h("stage/battlefield/normal/model"), h("stage/battlefield/normal_s02/model")),
        (h("stage/battlefield/normal"), h("stage/battlefield/normal_s09")),
        (h("stage/battlefield"), h("stage/battlefield/battle_s01")),
    ];
    let pairs = collect_file_pairs(&search, &folders);
    assert_eq!(
        pairs,
        vec![
            (
                h("stage/battlefield/normal/param/bf_01.lvd"),
                h("stage/battlefield/normal_s01/param/bf_01.lvd")
            ),
            (
                h("stage/battlefield/normal/param/extra.lvd"),
                h("stage/battlefield/normal_s01/param/extra.lvd")
            ),
            (
                h("stage/battlefield/normal/param/bf_00.lvd"),
                h("stage/battlefield/normal_s01/param/bf_00.lvd")
            ),
            (
                h("stage/battlefield/normal/model/a.nutexb"),
                h("stage/battlefield/normal_s02/model/a.nutexb")
            ),
            (h("stage/battlefield/wifi-safe.flag"), h("stage/battlefield/battle_s01/wifi-safe.flag")),
        ]
    );
    assert!(collect_file_pairs(&search, &Vec::new()).is_empty());
}

#[test]
fn applying_and_restoring_pairs() {
    let pristine = tree_archive();
    let mut arc = tree_archive();
    let base = h("stage/battlefield/normal/model/b.nutexb");
    let variant = h("stage/battlefield/normal_s01/model/b.nutexb");
    let pairs = vec![
        (base, variant),
        (h("stage/battlefield/normal/param/extra.lvd"), variant),
        (h("stage/battlefield/normal/param/bf_00.lvd"), h("stage/battlefield/missing.lvd")),
    ];
    apply_pairs(&mut arc.path_slots, &pairs);
    assert_eq!(arc.file_path_index(base), pristine.file_path_index(variant));
    assert_ne!(arc.file_path_index(base), pristine.file_path_index(base));
    assert_eq!(
        arc.file_path_index(h("stage/battlefield/normal/param/bf_00.lvd")),
        pristine.file_path_index(h("stage/battlefield/normal/param/bf_00.lvd"))
    );
    let once = arc.path_slots.slots.clone();
    apply_pairs(&mut arc.path_slots, &pairs);
    assert_eq!(arc.path_slots.slots, once);
    restore_pairs(&mut arc.path_slots, &pairs, &pristine.path_slots.backup());
    assert_eq!(arc.path_slots.slots, pristine.path_slots.slots);
    restore_pairs(&mut arc.path_slots, &pairs, &pristine.path_slots.backup());
    assert_eq!(arc.path_slots.slots, pristine.path_slots.slots);
}

#[test]
fn applying_a_chain_of_pairs_twice_goes_on() {
    let mut table = sorted_table(vec![
        HashSlot { hash: 1, index: 10 },
        HashSlot { hash: 2, index: 20 },
        HashSlot { hash: 3, index: 30 },
    ]);
    let pairs = vec![(PathHash(1), PathHash(2)), (PathHash(2), PathHash(3))];
    apply_pairs(&mut table, &pairs);
    assert_eq!((table.get(1), table.get(2), table.get(3)), (Some(20), Some(30), Some(30)));
    apply_pairs(&mut table, &pairs);
    assert_eq!((table.get(1), table.get(2), table.get(3)), (Some(30), Some(30), Some(30)));
}

#[test]
fn archive_gives_file_numbers_and_links() {
    let arc = archive_index(&[("a/x", 5), ("a/y", 6), ("a/z", 5)]);
    assert_eq!(arc.file_path_index(h("a/y")), Some(1));
    assert_eq!(arc.file_link(h("a/z")), Some(5));
    assert_eq!(arc.file_path_index(h("a/w")), None);
    assert_eq!(arc.file_link(h("a/w")), None);
    let mut short = archive_index(&[("a/x", 5)]);
    short.file_links.clear();
    assert_eq!(short.file_path_index(h("a/x")), Some(0));
    assert_eq!(short.file_link(h("a/x")), None);
}

#[test]
fn sharing_base_holds_the_files_that_share_their_data() {
    let search = search_index(&TREE);
    let arc = tree_archive();
    let folders = folders_of(&[
        (h("stage/battlefield/normal/model"), h("stage/battlefield/normal_s01/model")),
        (h("stage/battlefield/normal/param"), h("stage/battlefield/normal_s01/param")),
    ]);
    let sharing = collect_sharing_base(&arc, &search, &folders);
    assert_eq!(sharing.len(), 1);
    assert_eq!(sharing.get(&h("stage/battlefield/normal/model/a.nutexb").0), Some(&(7, 7)));
}

#[test]
fn stage_folders_are_probed() {
    let search = search_index(&TREE);
    let stage = entry(&search, "stage/battlefield");
    assert_eq!(
        probe_stage(&search, stage),
        Ok(StageProbe { stage, normal: 4, battle: Some(26) })
    );
    let sparse = entry(&search, "stage/sparse");
    assert_eq!(
        probe_stage(&search, sparse),
        Ok(StageProbe { stage: sparse, normal: 36, battle: None })
    );
    assert_eq!(probe_stage(&search, entry(&search, "stage/common")), Err(Unfit::Common));
    assert_eq!(
        probe_stage(&search, entry(&search, "stage/nonormal")),
        Err(Unfit::NoNormalFolder)
    );
    assert_eq!(probe_stage(&search, entry(&search, "stage/loose.txt")), Err(Unfit::NotAFolder));
    assert_eq!(probe_stage(&search, 5000), Err(Unfit::NotAFolder));
}

#[test]
fn one_form_of_an_alt_is_taken_in() {
    let mut search = search_index(&TREE);
    let mut map = HashMap::new();
    let base = entry(&search, "stage/battlefield/normal");
    let variant = entry(&search, "stage/battlefield/normal_s02");
    assert_eq!(take_form(&mut search, &mut map, base, variant), (false, true));
    assert_eq!(
        map,
        folders_of(&[
            (h("stage/battlefield/normal/model"), h("stage/battlefield/normal_s02/model")),
            (h("stage/battlefield/normal/model/sub"), h("stage/battlefield/normal_s02/model/sub")),
            (h("stage/battlefield/normal/param"), h("stage/battlefield/normal_s02/param")),
        ])
    );
    let kids = search.children(h("stage/battlefield/normal_s02"));
    assert_eq!(names(&search, &kids), texts(&["model", "wifi-ignore.flag"]));
}

#[test]
fn an_alt_is_built_from_its_folders() {
    let mut search = search_index(&TREE);
    let arc = tree_archive();
    let probe = probe_stage(&search, entry(&search, "stage/battlefield")).unwrap();
    let alt = build_alt(&mut search, &arc, probe, 1).unwrap();
    assert!(alt.is_normal_ws);
    assert!(!alt.is_normal_ignore);
    assert!(alt.is_battle_ws);
    assert!(!alt.is_battle_ignore);
    assert_eq!(
        alt.alt_folders,
        folders_of(&[
            (h("effect/stage/battlefield"), h("effect/stage/battlefield_s01")),
            (h("stage/battlefield/normal/model"), h("stage/battlefield/normal_s01/model")),
            (h("stage/battlefield/normal/model/sub"), h("stage/battlefield/normal_s01/model/sub")),
            (h("stage/battlefield/normal/param"), h("stage/battlefield/normal_s01/param")),
            (h("stage/battlefield/battle/model"), h("stage/battlefield/battle_s01/model")),
        ])
    );
    assert_eq!(
        alt.ui_paths[2],
        h("ui/replace/stage/stage_2/stage_2_battlefield_s01.bntx")
    );
    assert_eq!(alt.sharing_base.len(), 1);
    assert_eq!(
        alt.sharing_base.get(&h("stage/battlefield/normal/model/a.nutexb").0),
        Some(&(7, 7))
    );
    assert!(build_alt(&mut search, &arc, probe, 3).is_none());
    assert!(build_alt(&mut search, &arc, probe, 0).is_none());
}

#[test]
fn an_alt_without_battle_folder_has_no_battle_marks() {
    let mut search = search_index(&TREE);
    let arc = tree_archive();
    let probe = probe_stage(&search, entry(&search, "stage/battlefield")).unwrap();
    let alt = build_alt(&mut search, &arc, probe, 2).unwrap();
    assert!(!alt.is_normal_ws);
    assert!(alt.is_normal_ignore);
    assert!(!alt.is_battle_ws);
    assert!(!alt.is_battle_ignore);
    assert_eq!(alt.alt_folders.len(), 4);
    assert_eq!(
        alt.alt_folders.get(&h("effect/stage/battlefield").0),
        Some(&h("effect/stage/battlefield_s02"))
    );
    assert!(alt.sharing_base.is_empty());
}

#[test]
fn alts_are_probed_up_to_the_first_missing_ordinal() {
    let mut search = search_index(&TREE);
    let arc = tree_archive();
    let probe = probe_stage(&search, entry(&search, "stage/battlefield")).unwrap();
    assert_eq!(stage_alts(&mut search, &arc, probe).len(), 2);
    let sparse = probe_stage(&search, entry(&search, "stage/sparse")).unwrap();
    assert!(stage_alts(&mut search, &arc, sparse).is_empty());
    assert_eq!(MAX_ALTS, 99);
}

#[test]
fn alt_zero_leads_every_folder_to_itself() {
    let search = search_index(&TREE);
    let probe = probe_stage(&search, entry(&search, "stage/battlefield")).unwrap();
    let alt = vanilla_alt(&search, probe);
    assert!(alt.is_normal_ws && alt.is_battle_ws);
    assert!(!alt.is_normal_ignore && !alt.is_battle_ignore);
    assert!(alt.sharing_base.is_empty());
    assert_eq!(
        alt.alt_folders,
        folders_of(&[
            (h("effect/stage/battlefield"), h("effect/stage/battlefield")),
            (h("stage/battlefield/normal/model"), h("stage/battlefield/normal/model")),
            (h("stage/battlefield/normal/model/sub"), h("stage/battlefield/normal/model/sub")),
            (h("stage/battlefield/normal/param"), h("stage/battlefield/normal/param")),
            (h("stage/battlefield/battle/model"), h("stage/battlefield/battle/model")),
        ])
    );
    assert_eq!(alt.ui_paths[4], h("ui/replace/stage/stage_4/stage_4_battlefield.bntx"));
}

#[test]
fn stage_info_names_the_stage_and_its_folders() {
    let mut search = search_index(&TREE);
    let arc = tree_archive();
    let probe = probe_stage(&search, entry(&search, "stage/battlefield")).unwrap();
    let info = stage_info(&mut search, &arc, probe);
    assert_eq!(info.stage_name, h("battlefield"));
    assert_eq!(info.stage_folder, h("stage/battlefield"));
    assert_eq!(info.normal_folder, h("stage/battlefield/normal"));
    assert_eq!(info.battle_folder, h("stage/battlefield/battle"));
    assert_eq!(info.alts_found.len(), 3);
    assert_eq!(
        info.alts_found[0].alt_folders.get(&h("effect/stage/battlefield").0),
        Some(&h("effect/stage/battlefield"))
    );
}

#[test]
fn catalog_holds_every_stage_with_a_normal_folder() {
    let (search, _arc, manager) = built();
    assert_eq!(manager.alt_infos.len(), 2);
    let info = manager.alt_infos.get(&h("battlefield").0).unwrap();
    assert_eq!(info.alts_found.len(), 3);
    assert!(info.alts_found[1].is_normal_ws);
    assert!(info.alts_found[2].is_normal_ignore);
    let sparse = manager.alt_infos.get(&h("sparse").0).unwrap();
    assert_eq!(sparse.alts_found.len(), 1);
    assert_eq!(sparse.stage_folder, h("stage/sparse"));
    assert!(manager.alt_infos.get(&h("common").0).is_none());
    assert!(manager.alt_infos.get(&h("nonormal").0).is_none());
    let kids = search.children(h("stage/battlefield/normal_s01"));
    assert_eq!(names(&search, &kids), texts(&["model", "param", "wifi-safe.flag"]));
    let kids = search.children(h("stage/battlefield/battle_s01"));
    assert_eq!(names(&search, &kids), texts(&["model", "wifi-safe.flag"]));
}

#[test]
fn a_stage_without_variants_has_alt_zero_alone() {
    let (_search, _arc, manager) = built();
    let sparse = manager.alt_infos.get(&h("sparse").0).unwrap();
    assert_eq!(sparse.alts_found.len(), 1);
    let alt = &sparse.alts_found[0];
    assert_eq!(
        alt.alt_folders,
        folders_of(&[(h("effect/stage/sparse"), h("effect/stage/sparse"))])
    );
    assert!(alt.sharing_base.is_empty());
    assert!(alt.is_normal_ws && alt.is_battle_ws);
    assert!(!alt.is_normal_ignore && !alt.is_battle_ignore);
    assert_eq!(alt.ui_paths[2], h("ui/replace/stage/stage_2/stage_2_sparse.bntx"));
    assert_eq!(manager.get_next_alt(h("sparse"), 0, false), 0);
    assert_eq!(manager.get_prev_alt(h("sparse"), 0, false), 0);
    assert_eq!(manager.get_random_alt(h("sparse"), false), 0);
}

#[test]
fn catalog_reports_what_gave_no_stage() {
    let mut search = search_index(&TREE);
    let arc = tree_archive();
    let catalog = collect_alts(&mut search, &arc);
    assert_eq!(
        catalog.unfit,
        vec![
            (entry(&search, "stage/common"), Unfit::Common),
            (entry(&search, "stage/nonormal"), Unfit::NoNormalFolder),
            (entry(&search, "stage/loose.txt"), Unfit::NotAFolder),
        ]
    );
}

#[test]
fn catalog_of_an_index_without_stages_is_empty() {
    let mut search = search_index(&[("fighter", true), ("fighter/mario", true)]);
    let arc = archive_index(&[]);
    let catalog = collect_alts(&mut search, &arc);
    assert!(catalog.infos.is_empty());
    assert!(catalog.unfit.is_empty());
}

#[test]
fn advancing_to_an_alt_patches_it_in_and_the_next_one_takes_it_out() {
    let (mut search, mut arc, mut manager) = built();
    let pristine_arc = arc.path_slots.snapshot();
    let pristine_search = search.path_slots.snapshot();
    let stage = h("battlefield");
    manager.set_stage_use_count(2);
    manager.set_stage_selection(0, Selection::Regular { name: stage, alt: 1 });
    manager.set_stage_selection(1, Selection::Regular { name: stage, alt: 0 });
    let done = manager.advance_alt(stage, false, &mut search, &mut arc);
    assert_eq!(done.alt, Some(AltRef { stage, ordinal: 1 }));
    assert_eq!(done.note, AdvanceNote::Applied);
    assert!(!done.mismatch);
    let base = h("stage/battlefield/normal/model/b.nutexb");
    let variant = h("stage/battlefield/normal_s01/model/b.nutexb");
    assert_eq!(arc.file_path_index(base), pristine_arc.get(variant.0));
    assert_eq!(search.entry(base), pristine_search.get(variant.0));
    assert_ne!(arc.file_path_index(base), pristine_arc.get(base.0));
    let base = h("stage/battlefield/battle/model/c.nutexb");
    let variant = h("stage/battlefield/battle_s01/model/c.nutexb");
    assert_eq!(arc.file_path_index(base), pristine_arc.get(variant.0));
    // a file that only the base has keeps its own link
    let lone = h("stage/battlefield/normal/model/sub/x.bin");
    assert_eq!(arc.file_path_index(lone), pristine_arc.get(lone.0));
    assert!(manager.does_current_alt_have_folder(h("stage/battlefield/normal/param")));
    assert!(!manager.does_current_alt_have_folder(h("stage/battlefield/normal")));

    let done = manager.advance_alt(stage, false, &mut search, &mut arc);
    assert_eq!(done.alt, None);
    assert_eq!(done.note, AdvanceNote::NoAlt);
    assert_eq!(arc.path_slots.slots, pristine_arc.slots);
    assert_eq!(search.path_slots.slots, pristine_search.slots);
    assert!(!manager.does_current_alt_have_folder(h("stage/battlefield/normal/param")));
}

#[test]
fn patching_in_twice_is_patching_in_once() {
    let (mut search, mut arc, mut manager) = built();
    let stage = h("battlefield");
    manager.change_alt(Some(AltRef { stage, ordinal: 1 }), &mut search, &mut arc);
    let once_arc = arc.path_slots.slots.clone();
    let once_search = search.path_slots.slots.clone();
    manager.hack_lookups_for_alt(&mut search, &mut arc);
    assert_eq!(arc.path_slots.slots, once_arc);
    assert_eq!(search.path_slots.slots, once_search);
    manager.unhack_lookups_for_alt(&mut search, &mut arc);
    assert_eq!(held(&arc.path_slots), manager.filepath_backup);
    assert_eq!(held(&search.path_slots), manager.path_backup);
    manager.unhack_lookups_for_alt(&mut search, &mut arc);
    assert_eq!(held(&arc.path_slots), manager.filepath_backup);
}

#[test]
fn patching_without_an_alt_changes_nothing() {
    let (mut search, mut arc, manager) = built();
    manager.hack_lookups_for_alt(&mut search, &mut arc);
    manager.unhack_lookups_for_alt(&mut search, &mut arc);
    assert_eq!(held(&arc.path_slots), manager.filepath_backup);
    assert_eq!(held(&search.path_slots), manager.path_backup);
    assert!(manager.current_stage_alt().is_none());
    assert!(manager.get_sharing_base_for_alt_folder(h("stage")).is_none());
}

#[test]
fn changing_from_one_alt_to_another_leaves_only_the_new_one() {
    let (mut search, mut arc, mut manager) = built();
    let stage = h("battlefield");
    manager.change_alt(Some(AltRef { stage, ordinal: 1 }), &mut search, &mut arc);
    manager.change_alt(Some(AltRef { stage, ordinal: 2 }), &mut search, &mut arc);
    let a = h("stage/battlefield/normal/model/a.nutexb");
    let b = h("stage/battlefield/normal/model/b.nutexb");
    assert_eq!(
        arc.file_path_index(a),
        manager.filepath_backup.get(&h("stage/battlefield/normal_s02/model/a.nutexb").0).copied()
    );
    assert_eq!(arc.file_path_index(b), manager.filepath_backup.get(&b.0).copied());
    assert_eq!(manager.current_alt, Some(AltRef { stage, ordinal: 2 }));
    assert!(manager.current_stage_alt().unwrap().is_normal_ignore);
    manager.change_alt(None, &mut search, &mut arc);
    assert_eq!(held(&arc.path_slots), manager.filepath_backup);
    assert_eq!(held(&search.path_slots), manager.path_backup);
}

#[test]
fn an_unsafe_alt_is_applied_offline_and_never_drawn_online() {
    let (mut search, mut arc, mut manager) = built();
    let stage = h("battlefield");
    manager.set_stage_use_count(1);
    manager.set_stage_selection(0, Selection::Regular { name: stage, alt: 2 });
    let done = manager.advance_alt(stage, false, &mut search, &mut arc);
    assert_eq!(done.alt, Some(AltRef { stage, ordinal: 2 }));
    assert_eq!(manager.current_alt, Some(AltRef { stage, ordinal: 2 }));
    assert_eq!(manager.get_next_alt(stage, 2, false), 0);
    manager.is_online = true;
    for _ in 0..300 {
        assert_ne!(manager.get_random_alt(stage, false), 2);
    }
}

#[test]
fn three_slots_are_taken_in_turn_and_then_the_first_again() {
    let (mut search, mut arc, mut manager) = built();
    let stage = h("battlefield");
    manager.set_stage_use_count(3);
    manager.set_stage_selection(0, Selection::Random);
    manager.set_stage_selection(1, Selection::Regular { name: stage, alt: 0 });
    let first = manager.advance_alt(stage, false, &mut search, &mut arc);
    assert_eq!(first.selection, Selection::Random);
    assert_eq!(first.alt, Some(AltRef { stage, ordinal: 1 }));
    assert_eq!(first.note, AdvanceNote::Applied);
    let second = manager.advance_alt(stage, false, &mut search, &mut arc);
    assert_eq!(second.selection, Selection::Regular { name: stage, alt: 0 });
    assert_eq!(second.alt, None);
    assert_eq!(second.note, AdvanceNote::NoAlt);
    let third = manager.advance_alt(stage, false, &mut search, &mut arc);
    assert_eq!(third.selection, Selection::Invalid);
    assert_eq!(third.alt, None);
    assert_eq!(third.note, AdvanceNote::InvalidSelection);
    assert_eq!(manager.current_alt, None);
    let fourth = manager.advance_alt(stage, false, &mut search, &mut arc);
    assert_eq!(fourth.selection, Selection::Random);
    assert_eq!(fourth.alt, Some(AltRef { stage, ordinal: 1 }));
    assert_eq!(manager.current_index, 1);
}

#[test]
fn advance_with_a_draw_picks_among_the_eligible_alts() {
    let (mut search, mut arc, mut manager) = built();
    let stage = h("battlefield");
    // in the normal form alt 2 is marked to be ignored
    let done = manager.advance_alt_with(stage, false, 1, &mut search, &mut arc);
    assert_eq!(done.selection, Selection::Random);
    assert_eq!(done.alt, Some(AltRef { stage, ordinal: 1 }));
    // in the battle form both alts qualify offline
    let done = manager.advance_alt_with(stage, true, 1, &mut search, &mut arc);
    assert_eq!(done.alt, Some(AltRef { stage, ordinal: 2 }));
    let done = manager.advance_alt_with(h("sparse"), false, 1, &mut search, &mut arc);
    assert_eq!(done.alt, None);
    assert_eq!(done.note, AdvanceNote::NoAlt);
    let done = manager.advance_alt_with(h("unknown"), false, 1, &mut search, &mut arc);
    assert_eq!(done.alt, None);
}

#[test]
fn advance_reports_a_mismatch_and_a_missing_alt() {
    let (mut search, mut arc, mut manager) = built();
    let stage = h("battlefield");
    manager.set_stage_use_count(3);
    manager.set_stage_selection(0, Selection::Regular { name: stage, alt: 1 });
    manager.set_stage_selection(1, Selection::Regular { name: stage, alt: 7 });
    manager.set_stage_selection(2, Selection::Regular { name: h("unknown"), alt: 1 });
    let done = manager.advance_alt(h("sparse"), false, &mut search, &mut arc);
    assert!(done.mismatch);
    assert_eq!(done.alt, Some(AltRef { stage, ordinal: 1 }));
    let done = manager.advance_alt(stage, false, &mut search, &mut arc);
    assert!(!done.mismatch);
    assert_eq!(done.note, AdvanceNote::MissingAlt);
    assert_eq!(done.alt, None);
    let done = manager.advance_alt(stage, false, &mut search, &mut arc);
    assert!(done.mismatch);
    assert_eq!(done.note, AdvanceNote::MissingAlt);
    assert_eq!(manager.current_alt, None);
}

#[test]
fn the_results_stage_gets_a_random_alt_and_keeps_the_turn() {
    let (mut search, mut arc, mut manager) = built();
    manager.set_stage_use_count(2);
    manager.set_stage_selection(0, Selection::Regular { name: h("battlefield"), alt: 1 });
    let done = manager.advance_alt(h("resultstage"), false, &mut search, &mut arc);
    assert_eq!(done.selection, Selection::Random);
    assert_eq!(done.alt, None);
    assert_eq!(manager.current_index, 0);
}

#[test]
fn files_of_an_alt_folder_leave_out_markers_and_unknown_files() {
    let (mut search, mut arc, mut manager) = built();
    let stage = h("battlefield");
    assert_eq!(
        manager.get_files_for_alt_folder(h("stage/battlefield/normal/param"), &search, &arc),
        None
    );
    manager.change_alt(Some(AltRef { stage, ordinal: 1 }), &mut search, &mut arc);
    let files = manager
        .get_files_for_alt_folder(h("stage/battlefield/normal/param"), &search, &arc)
        .unwrap();
    let number = |path: &str| *manager.filepath_backup.get(&h(path).0).unwrap();
    assert_eq!(
        files,
        vec![
            number("stage/battlefield/normal_s01/param/bf_00.lvd"),
            number("stage/battlefield/normal_s01/param/bf_01.lvd"),
            number("stage/battlefield/normal_s01/param/extra.lvd"),
        ]
    );
    assert_eq!(
        manager.get_files_for_alt_folder(h("stage/battlefield/normal/model/sub"), &search, &arc),
        None
    );
    assert_eq!(manager.get_files_for_alt_folder(h("stage/battlefield"), &search, &arc), None);
    let sharing = manager.get_sharing_base_for_alt_folder(h("stage/battlefield/normal")).unwrap();
    assert_eq!(sharing.len(), 1);
}

#[test]
fn files_of_an_alt_folder_skip_the_marker_files() {
    let mut search = search_index(&TREE);
    let arc = tree_archive();
    let mut manager = StageAltManager::new(&search, &arc);
    let mut catalog = collect_alts(&mut search, &arc).infos;
    let info = catalog.get_mut(&h("battlefield").0).unwrap();
    info.alts_found[1]
        .alt_folders
        .insert(h("stage/battlefield/normal").0, h("stage/battlefield/normal_s01"));
    manager.install_catalog(catalog);
    manager.current_alt = Some(AltRef { stage: h("battlefield"), ordinal: 1 });
    let files =
        manager.get_files_for_alt_folder(h("stage/battlefield/normal"), &search, &arc).unwrap();
    assert!(files.is_empty());
}

#[test]
fn a_loaded_directory_of_the_alt_swaps_its_files() {
    let (mut search, mut arc, mut manager) = built();
    let stage = h("battlefield");
    let dir = h("stage/battlefield/normal/model");
    let children = vec![3, 4, 5];
    assert!(init_loaded_dir(&manager, &search, &arc, dir, &children).is_none());
    manager.change_alt(Some(AltRef { stage, ordinal: 1 }), &mut search, &mut arc);
    let swap = init_loaded_dir(&manager, &search, &arc, dir, &children).unwrap();
    assert_eq!(swap.release, children);
    let number = |path: &str| *manager.filepath_backup.get(&h(path).0).unwrap();
    assert_eq!(
        swap.acquire,
        vec![
            number("stage/battlefield/normal_s01/model/a.nutexb"),
            number("stage/battlefield/normal_s01/model/b.nutexb"),
        ]
    );
    assert!(init_loaded_dir(&manager, &search, &arc, h("stage/common"), &children).is_none());
    let sub = h("stage/battlefield/normal/model/sub");
    assert!(init_loaded_dir(&manager, &search, &arc, sub, &children).is_none());
}

#[test]
fn a_load_names_its_stage_and_form() {
    let search = search_index(&[
        ("stage", true),
        ("stage/zelda_tower", true),
        ("stage/zelda_tower/normal", true),
        ("stage/zelda_tower/battle", true),
        ("stage/end", true),
        ("stage/end/battle", true),
    ]);
    assert_eq!(
        prepare_for_load(&search, h("stage/zelda_tower/normal")),
        Some((h("zelda_tower"), false))
    );
    assert_eq!(
        prepare_for_load(&search, h("stage/zelda_tower/battle")),
        Some((h("zelda_tower"), true))
    );
    assert_eq!(prepare_for_load(&search, h("stage/end/battle")), Some((h("end"), false)));
    assert_eq!(prepare_for_load(&search, h("stage/zelda_tower")), Some((h("stage"), true)));
    assert_eq!(prepare_for_load(&search, h("stage")), None);
    assert_eq!(prepare_for_load(&search, h("stage/missing")), None);
}

fn screen() -> (HashMap<usize, PathHash>, HashMap<u64, PathHash>) {
    let mut panels = HashMap::new();
    panels.insert(0, h("ui_stage_battlefield"));
    panels.insert(1, h("ui_stage_random"));
    panels.insert(2, h("ui_stage_unlisted"));
    panels.insert(3, h("ui_stage_random_battle"));
    let mut stages = HashMap::new();
    stages.insert(h("ui_stage_battlefield").0, h("battlefield"));
    (panels, stages)
}

#[test]
fn registering_an_alt_sets_the_slot() {
    let (_search, _arc, mut manager) = built();
    let (panels, stages) = screen();
    manager.set_stage_use_count(2);
    let done = register_alt(&mut manager, &panels, &stages, 2, 0, 1);
    assert_eq!(done.selection, Some(Selection::Regular { name: h("battlefield"), alt: 2 }));
    assert!(done.stored);
    let done = register_alt(&mut manager, &panels, &stages, 2, 3, 0);
    assert_eq!(done.selection, Some(Selection::Random));
    assert!(done.stored);
    assert_eq!(
        manager.selection,
        vec![Selection::Random, Selection::Regular { name: h("battlefield"), alt: 2 }]
    );
    let done = register_alt(&mut manager, &panels, &stages, 2, 0, 2);
    assert_eq!(done.selection, Some(Selection::Regular { name: h("battlefield"), alt: 2 }));
    assert!(!done.stored);
    let done = register_alt(&mut manager, &panels, &stages, 1, 2, 0);
    assert_eq!(done.selection, None);
    assert!(!done.stored);
    let done = register_alt(&mut manager, &panels, &stages, 1, 9, 0);
    assert_eq!(done.selection, None);
    assert_eq!(manager.selection[0], Selection::Random);
    assert!(is_random_panel(h("ui_stage_random_normal")));
    assert!(is_random_panel(h("ui_stage_random_end")));
    assert!(!is_random_panel(h("ui_stage_battlefield")));
}

#[test]
fn the_screen_steps_through_the_alts_of_a_panel() {
    let (_search, _arc, mut manager) = built();
    let (panels, stages) = screen();
    assert_eq!(panel_stage(&panels, &stages, 0), Some(h("battlefield")));
    assert_eq!(panel_stage(&panels, &stages, 1), None);
    assert_eq!(panel_stage(&panels, &stages, 9), None);
    assert_eq!(get_next_alt(&manager, &panels, &stages, 0, 0, 0), 1);
    assert_eq!(get_next_alt(&manager, &panels, &stages, 0, 2, 0), 0);
    assert_eq!(get_next_alt(&manager, &panels, &stages, 2, 0, 0), 0);
    assert_eq!(get_next_alt(&manager, &panels, &stages, 9, 0, 0), 0);
    assert_eq!(get_prev_alt(&manager, &panels, &stages, 0, 0, 0), 2);
    assert_eq!(get_prev_alt(&manager, &panels, &stages, 0, 2, 1), 1);
    assert_eq!(get_prev_alt(&manager, &panels, &stages, 9, 2, 0), 0);
    manager.is_online = true;
    assert_eq!(get_next_alt(&manager, &panels, &stages, 0, 1, 0), 0);
    assert_eq!(get_next_alt(&manager, &panels, &stages, 0, 0, 1), 1);
    assert_eq!(get_next_alt(&manager, &panels, &stages, 0, 1, 7), 0);
    assert_eq!(get_prev_alt(&manager, &panels, &stages, 0, 0, 0), 1);
}

#[test]
fn the_texture_of_an_alt_falls_back_to_the_default() {
    let (_search, _arc, manager) = built();
    let (panels, stages) = screen();
    let arc = archive_index(&[
        ("ui/replace/chara/chara_1/chara_1_wario_04.bntx", 0),
        ("ui/replace/stage/stage_2/stage_2_battlefield_s01.bntx", 0),
        ("ui/replace/stage/stage_4/stage_4_battlefield.bntx", 0),
        ("ui/replace/stage/stage_3/stage_3_battlefield_s02.bntx", 0),
    ]);
    assert_eq!(get_index_for_texture(&manager, &arc, &panels, &stages, 0, 0, 1), Some(1));
    assert_eq!(get_index_for_texture(&manager, &arc, &panels, &stages, 0, 1, 0), Some(2));
    assert_eq!(get_index_for_texture(&manager, &arc, &panels, &stages, 0, 2, 2), Some(3));
    // the archive lacks the texture
    assert_eq!(get_index_for_texture(&manager, &arc, &panels, &stages, 0, 0, 2), Some(0));
    // no such form, no such panel, no stage for the panel
    assert_eq!(get_index_for_texture(&manager, &arc, &panels, &stages, 0, 3, 1), Some(0));
    assert_eq!(get_index_for_texture(&manager, &arc, &panels, &stages, 9, 0, 1), Some(0));
    assert_eq!(get_index_for_texture(&manager, &arc, &panels, &stages, 2, 0, 1), Some(0));
    let bare = archive_index(&[]);
    assert_eq!(get_index_for_texture(&manager, &bare, &panels, &stages, 0, 0, 1), None);
}

#[test]
fn the_stage_table_is_read_from_the_records() {
    let id = h("ui_stage_id").0;
    let place = h("stage_place_id").0;
    let records = vec![
        vec![(id, Some(11)), (h("name_id").0, Some(5)), (place, Some(21))],
        vec![(place, Some(22)), (id, None), (id, Some(12)), (id, Some(13))],
        vec![(id, Some(14))],
        vec![],
    ];
    let table = stage_table(&records);
    assert_eq!(table.len(), 4);
    assert_eq!(table.get(&11), Some(&PathHash(21)));
    assert_eq!(table.get(&13), Some(&PathHash(22)));
    assert_eq!(table.get(&14), Some(&PathHash(u64::MAX)));
    assert_eq!(table.get(&u64::MAX), Some(&PathHash(u64::MAX)));
    assert_eq!(record_field(&records[1], h("ui_stage_id")), 13);
    assert_eq!(record_field(&records[3], h("ui_stage_id")), u64::MAX);
}

#[test]
fn panels_are_entered_under_their_numbers() {
    let mut panels = HashMap::new();
    panels.insert(5, PathHash(1));
    panels.insert(0, PathHash(1));
    enter_panels(&mut panels, &vec![0xAB_12_3456_789A, 0xFFFF_FFFF_0000_0001]);
    assert_eq!(panels.len(), 3);
    assert_eq!(panels.get(&0), Some(&PathHash(0x12_3456_789A)));
    assert_eq!(panels.get(&1), Some(&PathHash(0xFF_0000_0001)));
    assert_eq!(panels.get(&5), Some(&PathHash(1)));
}

#[test]
fn files_with_a_load_flag_are_asked_for() {
    let children = vec![(10, 0), (11, 1), (12, 2), (13, 4), (14, 5), (15, 0x3FA), (16, 8)];
    assert_eq!(res_loop_start(&children), vec![11, 13, 14]);
    assert!(res_loop_start(&Vec::new()).is_empty());
}

#[test]
fn the_tables_hold_the_alt_that_is_patched_in() {
    let (mut search, mut arc, mut manager) = built();
    assert!(manager.holds_current_alt(&search, &arc));
    let stage = h("battlefield");
    manager.change_alt(Some(AltRef { stage, ordinal: 1 }), &mut search, &mut arc);
    assert!(manager.holds_current_alt(&search, &arc));
    manager.current_alt = None;
    assert!(!manager.holds_current_alt(&search, &arc));
    manager.current_alt = Some(AltRef { stage, ordinal: 1 });
    let base = h("stage/battlefield/normal/model/b.nutexb");
    let own = manager.filepath_backup.get(&base.0).copied().unwrap();
    let redirected = arc.path_slots.get(base.0).unwrap();
    assert_ne!(own, redirected);
    arc.path_slots.set(base.0, own);
    assert!(!manager.holds_current_alt(&search, &arc));
    arc.path_slots.set(base.0, redirected);
    assert!(manager.holds_current_alt(&search, &arc));
    manager.change_alt(None, &mut search, &mut arc);
    assert!(manager.holds_current_alt(&search, &arc));
}

#[test]
fn a_backup_with_an_index_out_of_range_does_not_fit() {
    let mut backup = BTreeMap::new();
    assert!(values_in_range(&backup, 0));
    backup.insert(1u64, 4u32);
    backup.insert(2u64, NO_LINK);
    assert!(values_in_range(&backup, 5));
    assert!(!values_in_range(&backup, 4));
}

#[test]
fn one_map_covers_another_that_has_no_more() {
    let mut small = BTreeMap::new();
    small.insert(1u64, 10u32);
    let mut large = small.clone();
    large.insert(2u64, 20u32);
    assert!(covers(&small, &large));
    assert!(!covers(&large, &small));
    assert!(covers(&small, &small));
    small.insert(2u64, 21u32);
    assert!(!covers(&small, &large));
    assert!(covers(&BTreeMap::new(), &small));
}

#[test]
fn a_table_is_tested_against_its_backup_and_the_pairs() {
    let table = sorted_table(vec![
        HashSlot { hash: 1, index: 10 },
        HashSlot { hash: 2, index: 20 },
        HashSlot { hash: 3, index: 30 },
    ]);
    let backup = table.backup();
    assert!(is_patched(&table, &backup, &Vec::new()));
    let pairs = vec![(PathHash(1), PathHash(2)), (PathHash(3), PathHash(9))];
    assert!(!is_patched(&table, &backup, &pairs));
    let mut patched = sorted_table(table.slots.clone());
    apply_pairs(&mut patched, &pairs);
    assert!(is_patched(&patched, &backup, &pairs));
    assert!(!is_patched(&patched, &backup, &Vec::new()));
    assert_eq!(patched.get(1), Some(20));
    assert_eq!(patched.get(3), Some(30));
}

#[test]
fn the_order_of_independent_pairs_does_not_matter() {
    let slots = vec![
        HashSlot { hash: 1, index: 10 },
        HashSlot { hash: 2, index: 20 },
        HashSlot { hash: 3, index: 30 },
        HashSlot { hash: 4, index: 40 },
    ];
    let forward = vec![(PathHash(1), PathHash(2)), (PathHash(3), PathHash(4))];
    let backward = vec![(PathHash(3), PathHash(4)), (PathHash(1), PathHash(2))];
    let mut one = sorted_table(slots.clone());
    let mut two = sorted_table(slots.clone());
    apply_pairs(&mut one, &forward);
    apply_pairs(&mut two, &backward);
    assert_eq!(one.slots, two.slots);
    assert_eq!(one.get(1), Some(20));
    assert_eq!(one.get(3), Some(40));
    // pairs that read what another one writes depend on their order
    let chained = vec![(PathHash(1), PathHash(2)), (PathHash(2), PathHash(3))];
    let unchained = vec![(PathHash(2), PathHash(3)), (PathHash(1), PathHash(2))];
    let mut one = sorted_table(slots.clone());
    let mut two = sorted_table(slots);
    apply_pairs(&mut one, &chained);
    apply_pairs(&mut two, &unchained);
    assert_eq!(one.get(1), Some(20));
    assert_eq!(two.get(1), Some(30));
}

#[test]
fn restoring_undoes_redirections_made_in_another_order() {
    let slots = vec![
        HashSlot { hash: 1, index: 10 },
        HashSlot { hash: 2, index: 20 },
        HashSlot { hash: 3, index: 30 },
    ];
    let mut table = sorted_table(slots.clone());
    let backup = table.backup();
    apply_pairs(&mut table, &vec![(PathHash(1), PathHash(2)), (PathHash(2), PathHash(3))]);
    assert_eq!(table.get(1), Some(20));
    assert_eq!(table.get(2), Some(30));
    restore_pairs(&mut table, &vec![(PathHash(2), PathHash(3)), (PathHash(1), PathHash(2))], &backup);
    assert_eq!(table.slots, sorted_table(slots).slots);
}

#[test]
fn order_fix_of_a_folder_against_a_folder_inside_it_does_not_settle() {
    // the base lies in the variant: going down reorders the base's own children
    let mut search = search_index(&[
        ("s", true),
        ("s/b", true),
        ("s/a", false),
        ("s/b/a", false),
        ("s/b/b", true),
        ("s/b/b/b", false),
    ]);
    file_order_fix(&mut search, h("s/b"), h("s"));
    let top = search.children(h("s"));
    assert_eq!(names(&search, &top), texts(&["a", "b"]));
    let inner = search.children(h("s/b"));
    assert_eq!(names(&search, &inner), texts(&["b", "a"]));
    file_order_fix(&mut search, h("s/b"), h("s"));
    let top = search.children(h("s"));
    assert_eq!(names(&search, &top), texts(&["b", "a"]));
    let inner = search.children(h("s/b"));
    assert_eq!(names(&search, &inner), texts(&["b", "a"]));
}

#[test]
fn a_new_manager_backs_up_all_three_tables() {
    let search = search_index(&TREE);
    let arc = tree_archive();
    let manager = StageAltManager::new(&search, &arc);
    assert_eq!(manager.filepath_backup, held(&arc.path_slots));
    assert_eq!(manager.path_backup, held(&search.path_slots));
    assert_eq!(manager.folder_backup, held(&search.folder_slots));
    assert_eq!(manager.folder_backup.len(), TREE.iter().filter(|item| item.1).count());
    assert!(manager.alts.is_empty());
    assert!(manager.alt_infos.is_empty());
    assert!(manager.holds_current_alt(&search, &arc));
}
