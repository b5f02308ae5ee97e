use rdu::order::{compare_bytes, compare_nodes, listing_order, SortMode};
use rdu::scan::{classify_entry, name_or_path, node_name, EntryAction, EntryKind, EntryMeta, LinkTracker};
use rdu::tree::{totals_fit, DirNode};

fn names(nodes: &[DirNode]) -> Vec<&str> {
    nodes.iter().map(|n| n.name.as_str()).collect()
}

#[test]
fn file_node_counts_one_item() {
    let f = DirNode::file("a.txt".to_string(), 42);
    assert_eq!(f.name, "a.txt");
    assert_eq!(f.size, 42);
    assert_eq!(f.items, 1);
    assert!(f.children.is_empty());
    assert!(!f.is_dir);
}

#[test]
fn directory_sums_and_sorts_largest_first() {
    let sub = DirNode::directory(
        "sub".to_string(),
        vec![],
        vec![DirNode::file("x".to_string(), 10), DirNode::file("y".to_string(), 5)],
    );
    assert_eq!(sub.size, 15);
    assert_eq!(sub.items, 3);
    let root = DirNode::directory(
        "root".to_string(),
        vec![sub],
        vec![DirNode::file("big".to_string(), 100), DirNode::file("tiny".to_string(), 1)],
    );
    assert!(root.is_dir);
    assert_eq!(root.size, 116);
    assert_eq!(root.items, 6);
    assert_eq!(names(&root.children), vec!["big", "sub", "tiny"]);
}

#[test]
fn directory_keeps_equal_sizes_in_their_order() {
    let root = DirNode::directory(
        "r".to_string(),
        vec![DirNode::directory("d".to_string(), vec![], vec![DirNode::file("in".to_string(), 7)])],
        vec![DirNode::file("f1".to_string(), 7), DirNode::file("f2".to_string(), 9), DirNode::file("f3".to_string(), 7)],
    );
    assert_eq!(names(&root.children), vec!["f2", "d", "f1", "f3"]);
}

#[test]
fn empty_directory_has_one_item() {
    let e = DirNode::directory("empty".to_string(), vec![], vec![]);
    assert_eq!(e.size, 0);
    assert_eq!(e.items, 1);
    assert!(e.is_dir);
}

#[test]
fn totals_fit_detects_overflow() {
    let ok = vec![DirNode::file("a".to_string(), 1), DirNode::file("b".to_string(), 2)];
    assert!(totals_fit(&ok, &vec![]));
    let big = vec![DirNode::file("a".to_string(), u64::MAX), DirNode::file("b".to_string(), 1)];
    assert!(!totals_fit(&vec![], &big));
    assert!(totals_fit(&vec![], &vec![DirNode::file("c".to_string(), u64::MAX)]));
}

#[test]
fn compare_bytes_is_lexicographic() {
    assert_eq!(compare_bytes(b"abc", b"abd"), -1);
    assert_eq!(compare_bytes(b"abc", b"abc"), 0);
    assert_eq!(compare_bytes(b"abc", b"ab"), 1);
    assert_eq!(compare_bytes(b"", b"a"), -1);
    assert_eq!(compare_bytes(b"B", b"a"), -1);
}

#[test]
fn compare_nodes_follows_the_mode() {
    let a = DirNode::file("alpha".to_string(), 5);
    let b = DirNode::file("beta".to_string(), 9);
    assert_eq!(compare_nodes(SortMode::SizeDesc, &a, &b), 1);
    assert_eq!(compare_nodes(SortMode::SizeAsc, &a, &b), -1);
    assert_eq!(compare_nodes(SortMode::NameAsc, &a, &b), -1);
    assert_eq!(compare_nodes(SortMode::NameDesc, &a, &b), 1);
}

#[test]
fn listing_order_in_every_mode() {
    let items = vec![
        DirNode::file("b".to_string(), 20),
        DirNode::file("a".to_string(), 30),
        DirNode::file("c".to_string(), 20),
        DirNode::file("A".to_string(), 10),
    ];
    assert_eq!(listing_order(&items, SortMode::SizeDesc), vec![1, 0, 2, 3]);
    assert_eq!(listing_order(&items, SortMode::SizeAsc), vec![3, 0, 2, 1]);
    assert_eq!(listing_order(&items, SortMode::NameAsc), vec![3, 1, 0, 2]);
    assert_eq!(listing_order(&items, SortMode::NameDesc), vec![2, 0, 1, 3]);
    assert_eq!(listing_order(&vec![], SortMode::NameAsc), Vec::<usize>::new());
}

#[test]
fn sort_mode_cycles_through_four_modes() {
    let m = SortMode::SizeDesc;
    assert_eq!(m.label(), "size desc");
    let m = m.next();
    assert_eq!(m, SortMode::SizeAsc);
    assert_eq!(m.label(), "size asc");
    let m = m.next();
    assert_eq!(m, SortMode::NameAsc);
    assert_eq!(m.label(), "name asc");
    let m = m.next();
    assert_eq!(m, SortMode::NameDesc);
    assert_eq!(m.label(), "name desc");
    assert_eq!(m.next(), SortMode::SizeDesc);
}

fn meta(kind: EntryKind, dev: u64, ino: u64, len: u64, blocks: u64, nlink: u64) -> EntryMeta {
    EntryMeta { kind, dev, ino, len, blocks, nlink }
}

#[test]
fn classify_entries() {
    let mut links = LinkTracker::new();
    assert_eq!(classify_entry(&meta(EntryKind::Other, 2, 1, 100, 8, 1), 1, &mut links), EntryAction::Skip);
    assert_eq!(classify_entry(&meta(EntryKind::Symlink, 1, 2, 17, 0, 1), 1, &mut links), EntryAction::File(17));
    assert_eq!(classify_entry(&meta(EntryKind::Dir, 1, 3, 4096, 8, 2), 1, &mut links), EntryAction::Subdir);
    assert_eq!(classify_entry(&meta(EntryKind::Other, 1, 4, 100, 8, 1), 1, &mut links), EntryAction::File(4096));
}

#[test]
fn hard_links_count_once() {
    let mut links = LinkTracker::new();
    let m = meta(EntryKind::Other, 1, 77, 10, 2, 2);
    assert_eq!(classify_entry(&m, 1, &mut links), EntryAction::File(1024));
    assert_eq!(classify_entry(&m, 1, &mut links), EntryAction::File(0));
    let other = meta(EntryKind::Other, 1, 78, 10, 2, 2);
    assert_eq!(classify_entry(&other, 1, &mut links), EntryAction::File(1024));
    // A single-link file is never recorded.
    let single = meta(EntryKind::Other, 1, 77, 10, 2, 1);
    assert_eq!(classify_entry(&single, 1, &mut links), EntryAction::File(1024));
}

#[test]
fn link_tracker_tells_new_pairs() {
    let mut t = LinkTracker::new();
    assert!(t.first_sighting(1, 2));
    assert!(!t.first_sighting(1, 2));
    assert!(t.first_sighting(2, 1));
    assert!(t.first_sighting(0, u64::MAX));
    assert!(t.first_sighting(u64::MAX, 0));
    assert!(!t.first_sighting(0, u64::MAX));
}

#[test]
fn node_names_come_from_the_last_component() {
    assert_eq!(node_name("/tmp/proj"), "proj");
    assert_eq!(node_name("/tmp/proj/"), "proj");
    assert_eq!(node_name("notes.txt"), "notes.txt");
    assert_eq!(node_name("/"), "/");
    assert_eq!(node_name(".."), "..");
    assert_eq!(node_name("."), ".");
}

#[test]
fn name_or_path_prefers_the_component() {
    assert_eq!(name_or_path(Some("x".to_string()), "/a/x"), "x");
    assert_eq!(name_or_path(None, "/"), "/");
}
