use tui_journal::entry::{Entry, Timestamp};
use tui_journal::tag_tree::TagTree;

fn make_entry(id: u32, folder: &str) -> Entry {
    Entry::new(
        id,
        Timestamp { secs: 1_704_067_200, nanos: 0 },
        format!("Entry {id}"),
        String::new(),
        vec![],
        None,
        folder.to_string(),
    )
}

#[test]
fn no_folder_entry_goes_to_root() {
    let entry = make_entry(1, "");
    let tree = TagTree::build(&vec![&entry]);

    assert_eq!(tree.entry_ids, vec![1]);
    assert!(tree.subfolders.is_empty());
}

#[test]
fn single_segment_folder_creates_top_level_folder() {
    let entry = make_entry(1, "rust");
    let tree = TagTree::build(&vec![&entry]);

    assert!(tree.entry_ids.is_empty());
    let rust = tree.subfolder("rust").unwrap();
    assert_eq!(rust.entry_ids, vec![1]);
}

#[test]
fn nested_folder_places_entry_at_deepest_level_only() {
    let entry = make_entry(1, "linux/ubuntu");
    let tree = TagTree::build(&vec![&entry]);

    assert!(tree.entry_ids.is_empty());
    let linux = tree.subfolder("linux").unwrap();
    assert!(linux.entry_ids.is_empty());
    let ubuntu = linux.subfolder("ubuntu").unwrap();
    assert_eq!(ubuntu.entry_ids, vec![1]);
}

#[test]
fn entries_in_different_folders_are_separated() {
    let entry1 = make_entry(1, "rust");
    let entry2 = make_entry(2, "linux/ubuntu");
    let tree = TagTree::build(&vec![&entry1, &entry2]);

    assert_eq!(tree.subfolder("rust").unwrap().entry_ids, vec![1]);
    assert_eq!(
        tree.subfolder("linux")
            .unwrap()
            .subfolder("ubuntu")
            .unwrap()
            .entry_ids,
        vec![2]
    );
}

#[test]
fn get_node_returns_correct_subtree() {
    let entry = make_entry(42, "a/b/c");
    let tree = TagTree::build(&vec![&entry]);

    let node = tree.get_node(&["a".into(), "b".into(), "c".into()]);
    assert!(node.is_some());
    assert_eq!(node.unwrap().entry_ids, vec![42]);

    assert!(tree.get_node(&["a".into(), "b".into()]).is_some());
    assert!(
        tree.get_node(&["a".into(), "b".into()])
            .unwrap()
            .entry_ids
            .is_empty()
    );
}

#[test]
fn empty_tree_from_no_entries() {
    let tree = TagTree::build(&vec![]);
    assert!(tree.entry_ids.is_empty());
    assert!(tree.subfolders.is_empty());
}

#[test]
fn slashes_only_folder_goes_to_root_and_empty_segments_are_skipped() {
    let e1 = make_entry(1, "///");
    let e2 = make_entry(2, "/a//b/");
    let tree = TagTree::build(&vec![&e1, &e2]);
    assert_eq!(tree.entry_ids, vec![1]);
    let b = tree.get_node(&["a".into(), "b".into()]).unwrap();
    assert_eq!(b.entry_ids, vec![2]);
}

#[test]
fn subfolder_names_are_sorted_and_unique() {
    let e1 = make_entry(1, "b");
    let e2 = make_entry(2, "a/x");
    let e3 = make_entry(3, "b/y");
    let e4 = make_entry(4, "a");
    let tree = TagTree::build(&vec![&e1, &e2, &e3, &e4]);
    assert_eq!(tree.subfolder_names(), vec!["a", "b"]);
    assert_eq!(tree.subfolder("a").unwrap().entry_ids, vec![4]);
    assert_eq!(tree.subfolder("b").unwrap().subfolder_names(), vec!["y"]);
}

#[test]
fn ids_at_a_node_keep_the_order_of_the_entries() {
    let e1 = make_entry(5, "x");
    let e2 = make_entry(3, "x");
    let e3 = make_entry(9, "x");
    let tree = TagTree::build(&vec![&e1, &e2, &e3]);
    assert_eq!(tree.subfolder("x").unwrap().entry_ids, vec![5, 3, 9]);
}

#[test]
fn missing_path_gives_no_node() {
    let e1 = make_entry(1, "a/b");
    let tree = TagTree::build(&vec![&e1]);
    assert!(tree.get_node(&["a".into(), "c".into()]).is_none());
    assert!(tree.get_node(&["b".into()]).is_none());
    assert!(tree.subfolder("zzz").is_none());
    assert!(tree.get_node(&[]).is_some());
}
