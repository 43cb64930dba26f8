use slint_omarchy::tree::TreeState;

#[test]
fn expansion_and_keyboard_navigation_preserve_selection() {
    let mut tree = TreeState::default();
    assert_eq!(tree.visible().len(), 6);
    tree.activate(4);
    assert_eq!(tree.selected_label(), Some("Website"));
    assert_eq!(tree.visible().len(), 8);
    tree.right();
    assert_eq!(tree.cursor_index(), 5);
    tree.left();
    assert_eq!(tree.cursor_index(), 4);
    tree.move_cursor(1);
    assert_eq!(tree.cursor_index(), 5);
    tree.activate(5);
    assert_eq!(tree.selected_label(), Some("Homepage.md"));
}

#[test]
fn disabled_archive_is_skipped() {
    let mut tree = TreeState::default();
    tree.activate(4);
    tree.move_cursor(1);
    tree.move_cursor(1);
    tree.move_cursor(1);
    assert_eq!(tree.cursor_index(), 6);
    tree.move_cursor(1);
    assert_eq!(tree.cursor_index(), 6);
    tree.activate(7);
    assert_eq!(tree.selected_label(), Some("Website"));
}

#[test]
fn fresh_tree_shows_top_folders_expanded() {
    let tree = TreeState::new();
    let rows = tree.visible();
    let ids: Vec<&str> = rows.iter().map(|row| row.id).collect();
    assert_eq!(ids, ["documents", "brief", "notes", "projects", "website", "archive"]);
    assert!(rows[0].expanded && rows[0].folder);
    assert!(!rows[4].expanded && rows[4].folder);
    assert!(rows[5].disabled);
    assert_eq!(rows[4].depth, 1);
    assert_eq!(tree.cursor_index(), 0);
    assert_eq!(tree.selected_id(), None);
    assert_eq!(tree.selected_label(), None);
}

#[test]
fn activating_a_folder_twice_restores_it() {
    let mut tree = TreeState::new();
    tree.activate(3);
    assert_eq!(tree.visible().len(), 5);
    assert_eq!(tree.selected_id(), Some("projects"));
    tree.activate(3);
    assert_eq!(tree.visible().len(), 6);
    assert_eq!(tree.cursor_index(), 3);
}

#[test]
fn left_collapses_then_climbs() {
    let mut tree = TreeState::new();
    tree.move_cursor(1);
    assert_eq!(tree.cursor_index(), 1);
    tree.left();
    assert_eq!(tree.cursor_index(), 0);
    tree.left();
    assert_eq!(tree.visible().len(), 4);
    assert_eq!(tree.cursor_index(), 0);
    tree.left();
    assert_eq!(tree.cursor_index(), 0);
    tree.right();
    assert_eq!(tree.visible().len(), 6);
    tree.right();
    assert_eq!(tree.cursor_index(), 1);
}

#[test]
fn cursor_stops_at_both_ends() {
    let mut tree = TreeState::new();
    tree.move_cursor(-1);
    assert_eq!(tree.cursor_index(), 0);
    tree.move_cursor(0);
    assert_eq!(tree.cursor_index(), 0);
    for _ in 0..10 {
        tree.move_cursor(5);
    }
    assert_eq!(tree.cursor_index(), 4);
}

#[test]
fn out_of_range_and_disabled_rows_change_nothing() {
    let mut tree = TreeState::new();
    tree.activate(99);
    tree.activate(5);
    assert_eq!(tree.selected_id(), None);
    assert_eq!(tree.cursor_index(), 0);
}
