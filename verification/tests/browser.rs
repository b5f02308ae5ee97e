use rdu::input::{Effect, InputEvent, Key};
use rdu::order::SortMode;
use rdu::state::App;
use rdu::tree::DirNode;

fn sample_tree() -> DirNode {
    let src = DirNode::directory(
        "src".to_string(),
        vec![],
        vec![DirNode::file("main.rs".to_string(), 200), DirNode::file("lib.rs".to_string(), 100)],
    );
    let empty = DirNode::directory("empty".to_string(), vec![], vec![]);
    DirNode::directory(
        "proj".to_string(),
        vec![src, empty],
        vec![DirNode::file("README.md".to_string(), 50), DirNode::file("zz".to_string(), 400)],
    )
}

fn scanned_app(root: &str, no_delete: bool) -> App {
    let mut app = App::new(root.to_string(), no_delete);
    app.start_scan();
    app.poll_scan(Some(sample_tree()));
    app
}

fn listing(app: &App) -> Vec<String> {
    app.current_children().iter().map(|c| c.name.clone()).collect()
}

fn key(c: char) -> InputEvent {
    InputEvent::Key { key: Key::Char(c), press: true, ctrl: false }
}

#[test]
fn new_app_is_idle() {
    let app = App::new("/data".to_string(), false);
    assert_eq!(app.root_path, "/data");
    assert!(app.tree.is_none());
    assert!(!app.scanning);
    assert!(!app.show_help);
    assert_eq!(app.selected, 0);
    assert!(app.current_node().is_none());
    assert!(app.current_children().is_empty());
    assert_eq!(app.current_path_display(), "/data");
    assert_eq!(app.sort_mode, SortMode::SizeDesc);
}

#[test]
fn scan_result_arrives_only_when_awaited() {
    let mut app = App::new("/data".to_string(), false);
    app.poll_scan(Some(sample_tree()));
    assert!(app.tree.is_none());
    app.start_scan();
    assert!(app.scanning);
    app.poll_scan(None);
    assert!(app.scanning);
    app.poll_scan(Some(sample_tree()));
    assert!(!app.scanning);
    assert_eq!(app.tree.as_ref().unwrap().size, 750);
    assert_eq!(app.current_node().unwrap().name, "proj");
}

#[test]
fn children_are_listed_largest_first() {
    let app = scanned_app("/tmp/proj", false);
    assert_eq!(listing(&app), vec!["zz", "src", "README.md", "empty"]);
}

#[test]
fn cycling_the_sort_mode_reorders_the_list() {
    let mut app = scanned_app("/tmp/proj", false);
    app.cycle_sort_mode();
    assert_eq!(listing(&app), vec!["empty", "README.md", "src", "zz"]);
    app.cycle_sort_mode();
    assert_eq!(listing(&app), vec!["README.md", "empty", "src", "zz"]);
    app.cycle_sort_mode();
    assert_eq!(listing(&app), vec!["zz", "src", "empty", "README.md"]);
    app.cycle_sort_mode();
    assert_eq!(app.sort_mode, SortMode::SizeDesc);
    assert_eq!(listing(&app), vec!["zz", "src", "README.md", "empty"]);
}

#[test]
fn selection_stays_in_the_list() {
    let mut app = scanned_app("/tmp/proj", false);
    app.select_prev();
    assert_eq!(app.selected, 0);
    for _ in 0..10 {
        app.select_next();
    }
    assert_eq!(app.selected, 3);
    app.select_prev();
    assert_eq!(app.selected, 2);
}

#[test]
fn enter_and_go_up() {
    let mut app = scanned_app("/tmp/proj", false);
    app.select_next();
    app.enter_selected();
    assert_eq!(app.current_node_path, vec![1]);
    assert_eq!(app.selected, 0);
    assert_eq!(app.current_node().unwrap().name, "src");
    assert_eq!(listing(&app), vec!["main.rs", "lib.rs"]);
    assert_eq!(app.current_path_display(), "proj/src");
    app.go_up();
    assert!(app.current_node_path.is_empty());
    assert_eq!(app.current_path_display(), "proj");
    app.go_up();
    assert!(app.current_node_path.is_empty());
}

#[test]
fn files_and_empty_directories_are_not_entered() {
    let mut app = scanned_app("/tmp/proj", false);
    app.enter_selected();
    assert!(app.current_node_path.is_empty());
    app.selected = 3;
    app.enter_selected();
    assert!(app.current_node_path.is_empty());
    app.selected = 9;
    app.enter_selected();
    assert!(app.current_node_path.is_empty());
}

#[test]
fn path_display_skips_missing_positions() {
    let mut app = scanned_app("/tmp/proj", false);
    app.current_node_path = vec![7, 1];
    assert_eq!(app.current_path_display(), "proj/src");
    assert!(app.current_node().is_none());
}

#[test]
fn toggle_help_twice() {
    let mut app = scanned_app("/tmp/proj", false);
    app.toggle_help();
    assert!(app.show_help);
    app.toggle_help();
    assert!(!app.show_help);
}

#[test]
fn marking_toggles() {
    let mut app = scanned_app("/tmp/proj", false);
    app.toggle_mark();
    assert_eq!(app.marked, vec![vec![0]]);
    app.select_next();
    app.toggle_mark();
    assert_eq!(app.marked, vec![vec![0], vec![1]]);
    app.select_prev();
    app.toggle_mark();
    assert_eq!(app.marked, vec![vec![1]]);
}

#[test]
fn deleting_the_selected_entry() {
    let mut app = scanned_app("/tmp/proj", false);
    app.prompt_delete();
    assert!(app.show_delete_confirm);
    let paths = app.delete_marked();
    assert_eq!(paths, vec!["/tmp/proj/zz".to_string()]);
    assert!(!app.show_delete_confirm);
    assert!(app.scanning);
    assert!(app.tree.is_none());
}

#[test]
fn deleting_marked_entries_across_directories() {
    let mut app = scanned_app("/tmp/proj/", false);
    app.select_next();
    app.enter_selected();
    app.select_next();
    app.toggle_mark();
    app.go_up();
    app.toggle_mark();
    app.prompt_delete();
    let paths = app.delete_marked();
    assert_eq!(paths, vec!["/tmp/proj/src/lib.rs".to_string(), "/tmp/proj/zz".to_string()]);
    assert!(app.marked.is_empty());
}

#[test]
fn deletion_paths_from_an_empty_root_path() {
    let mut app = scanned_app("", false);
    let paths = app.delete_marked();
    assert_eq!(paths, vec!["zz".to_string()]);
}

#[test]
fn no_delete_switches_marking_and_deleting_off() {
    let mut app = scanned_app("/tmp/proj", true);
    app.toggle_mark();
    assert!(app.marked.is_empty());
    app.prompt_delete();
    assert!(!app.show_delete_confirm);
    assert!(app.delete_marked().is_empty());
    assert!(app.tree.is_some());
}

#[test]
fn clicking_a_row_drills_into_it() {
    let mut app = scanned_app("/tmp/proj", false);
    // Row 0 is the border; rows 1.. are the list.
    app.handle_click(0, 10);
    assert_eq!(app.selected, 0);
    app.handle_click(3, 10);
    assert_eq!(app.selected, 2);
    assert!(app.current_node_path.is_empty());
    app.handle_click(2, 10);
    assert_eq!(app.current_node_path, vec![1]);
    assert_eq!(app.selected, 0);
    // Below the list, nothing happens.
    app.handle_click(8, 10);
    assert_eq!(app.current_node_path, vec![1]);
}

#[test]
fn events_drive_the_browser() {
    let mut app = scanned_app("/tmp/proj", false);
    assert!(matches!(app.handle_event(InputEvent::Key { key: Key::Down, press: true, ctrl: false }), Effect::Continue));
    assert_eq!(app.selected, 1);
    assert!(matches!(app.handle_event(InputEvent::Key { key: Key::Down, press: false, ctrl: false }), Effect::Continue));
    assert_eq!(app.selected, 1);
    app.handle_event(InputEvent::Key { key: Key::Enter, press: true, ctrl: false });
    assert_eq!(app.current_node_path, vec![1]);
    app.handle_event(InputEvent::Key { key: Key::Esc, press: true, ctrl: false });
    assert!(app.current_node_path.is_empty());
    app.handle_event(InputEvent::ScrollDown);
    assert_eq!(app.selected, 1);
    app.handle_event(InputEvent::ScrollUp);
    assert_eq!(app.selected, 0);
    app.handle_event(key('s'));
    assert_eq!(app.sort_mode, SortMode::SizeAsc);
    assert!(matches!(app.handle_event(key('q')), Effect::Quit));
}

#[test]
fn help_closes_on_any_key_or_mouse_event() {
    let mut app = scanned_app("/tmp/proj", false);
    app.handle_event(key('?'));
    assert!(app.show_help);
    app.handle_event(InputEvent::Other);
    assert!(app.show_help);
    app.handle_event(InputEvent::Key { key: Key::Char('j'), press: false, ctrl: false });
    assert!(!app.show_help);
    assert_eq!(app.selected, 0);
}

#[test]
fn control_c_always_quits() {
    let mut app = scanned_app("/tmp/proj", false);
    app.handle_event(key('d'));
    assert!(app.show_delete_confirm);
    let ctrl_c = InputEvent::Key { key: Key::Char('c'), press: true, ctrl: true };
    assert!(matches!(app.handle_event(ctrl_c), Effect::Quit));
    assert!(app.show_delete_confirm);
}

#[test]
fn confirmation_dialog() {
    let mut app = scanned_app("/tmp/proj", false);
    app.handle_event(key('d'));
    assert!(app.show_delete_confirm);
    assert!(matches!(app.handle_event(key('x')), Effect::Continue));
    assert!(app.show_delete_confirm);
    app.handle_event(key('n'));
    assert!(!app.show_delete_confirm);
    app.handle_event(key('D'));
    app.handle_event(InputEvent::Key { key: Key::Esc, press: true, ctrl: false });
    assert!(!app.show_delete_confirm);
    assert!(app.tree.is_some());
    app.handle_event(key(' '));
    app.handle_event(key('d'));
    match app.handle_event(key('Y')) {
        Effect::Delete(paths) => assert_eq!(paths, vec!["/tmp/proj/zz".to_string()]),
        other => panic!("expected a deletion, got {:?}", other),
    }
    assert!(app.scanning);
}

#[test]
fn rescan_key() {
    let mut app = scanned_app("/tmp/proj", false);
    assert!(matches!(app.handle_event(key('r')), Effect::Rescan));
    assert!(app.scanning);
    assert!(app.tree.is_none());
}

#[test]
fn marking_twice_restores_the_marks() {
    let mut app = scanned_app("/tmp/proj", false);
    app.select_next();
    app.toggle_mark();
    app.select_next();
    app.toggle_mark();
    let before = app.marked.clone();
    app.select_next();
    app.toggle_mark();
    app.toggle_mark();
    assert_eq!(app.marked, before);
}

#[test]
fn marked_entries_are_shown_by_path() {
    let mut app = scanned_app("/tmp/proj", false);
    assert!(app.marked_display().is_empty());
    app.select_next();
    app.enter_selected();
    app.toggle_mark();
    app.go_up();
    app.select_next();
    app.select_next();
    app.toggle_mark();
    assert_eq!(app.marked_display(), vec!["proj/src/main.rs".to_string(), "proj/README.md".to_string()]);
    assert_eq!(app.deletion_count(), 2);
}

#[test]
fn deletion_count_falls_back_to_the_selection() {
    let mut app = scanned_app("/tmp/proj", false);
    assert_eq!(app.deletion_count(), 1);
    app.selected = 10;
    assert_eq!(app.deletion_count(), 0);
    app.prompt_delete();
    assert!(!app.show_delete_confirm);
}

#[test]
fn nothing_is_deleted_without_confirmation() {
    let mut app = scanned_app("/tmp/proj", false);
    assert!(matches!(app.handle_event(key('y')), Effect::Continue));
    assert!(app.tree.is_some());
    assert!(!app.scanning);
}

#[test]
fn no_delete_ignores_the_deletion_keys() {
    let mut app = scanned_app("/tmp/proj", true);
    for c in [' ', 'd', 'D', 'y'] {
        assert!(matches!(app.handle_event(key(c)), Effect::Continue));
    }
    assert!(app.marked.is_empty());
    assert!(!app.show_delete_confirm);
    assert!(app.tree.is_some());
}

#[test]
fn going_up_after_entering_returns_to_the_same_directory() {
    let mut app = scanned_app("/tmp/proj", false);
    app.select_next();
    let before = app.current_node_path.clone();
    app.enter_selected();
    assert_ne!(app.current_node_path, before);
    app.go_up();
    assert_eq!(app.current_node_path, before);
    assert_eq!(app.current_node().unwrap().name, "proj");
}

#[test]
fn entering_finds_the_first_child_of_that_name() {
    let twin_dir = DirNode::directory("twin".to_string(), vec![], vec![DirNode::file("x".to_string(), 1)]);
    let twin_file = DirNode::file("twin".to_string(), 5);
    let root = DirNode::directory("r".to_string(), vec![twin_dir], vec![twin_file]);
    // Largest first: the file (5 bytes) comes before the directory (1 byte).
    assert!(!root.children[0].is_dir);
    let mut app = App::new("/r".to_string(), false);
    app.start_scan();
    app.poll_scan(Some(root));
    app.selected = 1;
    app.enter_selected();
    // The selected row is a non-empty directory, but its name leads to the file first.
    assert_eq!(app.current_node_path, vec![0]);
    assert_eq!(app.current_node().unwrap().name, "twin");
    assert!(!app.current_node().unwrap().is_dir);
}

#[test]
fn every_directory_shows_the_totals_of_its_children() {
    let mut app = scanned_app("/tmp/proj", false);
    let root = app.current_node().unwrap();
    assert_eq!(root.size, root.children.iter().map(|c| c.size).sum::<u64>());
    assert_eq!(root.items, 1 + root.children.iter().map(|c| c.items).sum::<u64>());
    app.select_next();
    app.enter_selected();
    let src = app.current_node().unwrap();
    assert_eq!(src.size, 300);
    assert_eq!(src.items, 3);
}

#[test]
fn the_state_hangs_together_through_a_session() {
    let mut app = App::new("/tmp/proj".to_string(), false);
    app.start_scan();
    assert!(app.scanning && app.tree.is_none());
    for ev in [key('j'), key('k'), InputEvent::Key { key: Key::Enter, press: true, ctrl: false }, InputEvent::LeftClick { row: 2, height: 10 }] {
        app.handle_event(ev);
        assert_eq!(app.selected, 0);
        assert!(app.current_node_path.is_empty());
    }
    app.poll_scan(Some(sample_tree()));
    let events = [key('j'), key('j'), key('j'), key('j'), key('s'), InputEvent::Key { key: Key::Enter, press: true, ctrl: false },
        key('k'), InputEvent::ScrollDown, InputEvent::Key { key: Key::Right, press: true, ctrl: false }, key('s'), key('s'),
        InputEvent::Key { key: Key::Left, press: true, ctrl: false }, InputEvent::LeftClick { row: 2, height: 10 }, key('j')];
    for ev in events {
        app.handle_event(ev);
        assert!(app.tree.is_some() && !app.scanning);
        assert!(app.current_node().is_some());
        let count = app.current_children().len();
        assert!(app.selected == 0 || app.selected < count);
    }
}
