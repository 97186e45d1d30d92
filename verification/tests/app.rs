use treeview::app::{Action, App};
use treeview::preview::PreviewContent;
use treeview::tree::{RawEntry, Snapshot};

fn raw(dir: &str, name: &str, is_directory: bool) -> RawEntry {
    RawEntry {
        name: name.to_string(),
        path: format!("{}/{}", dir, name),
        is_directory,
        is_symlink: false,
    }
}

fn roots() -> Vec<RawEntry> {
    vec![raw("/r", "b.txt", false), raw("/r", ".hidden", false), raw("/r", "a", true), raw("/r", "c.txt", false)]
}

fn disk() -> Snapshot {
    let mut fs = Snapshot::new();
    fs.record("/r/a".to_string(), vec![raw("/r/a", "x.txt", false), raw("/r/a", "sub", true)]);
    fs.record("/r/a/sub".to_string(), vec![raw("/r/a/sub", "deep.txt", false)]);
    fs
}

fn started() -> App {
    let mut app = App::new("/r".to_string());
    let action = app.refresh(&roots(), &disk());
    assert!(matches!(action, Action::LoadPreview(ref p) if p == "/r/a"));
    app.set_preview((PreviewContent::Directory("Directory: 2 items (1 dirs, 1 files)".to_string()), 1));
    app
}

fn row_names(app: &App) -> Vec<String> {
    app.visible_rows.iter().map(|r| r.name.clone()).collect()
}

fn path_of(action: Action) -> String {
    match action {
        Action::LoadPreview(path) => path,
        other => panic!("no preview asked for: {:?}", other),
    }
}

#[test]
fn new_browser_is_empty() {
    let app = App::new("/r".to_string());
    assert_eq!(app.root_path, "/r");
    assert!(app.tree.is_empty() && app.visible_rows.is_empty());
    assert_eq!(app.selected_index, 0);
    assert_eq!(app.preview_scroll, 0);
    assert!(!app.show_hidden && !app.should_quit);
    assert_eq!(app.preview_cache, (PreviewContent::Empty, 0));
    assert!(app.last_preview_path.is_none());
    assert!(app.selected_path().is_none());
}

#[test]
fn refresh_reads_the_root() {
    let app = started();
    assert_eq!(row_names(&app), vec!["a", "b.txt", "c.txt"]);
    assert_eq!(app.tree.len(), 4);
    assert_eq!(app.selected_index, 0);
    assert_eq!(app.selected_path().map(|p| p.as_str()), Some("/r/a"));
    assert_eq!(app.last_preview_path.as_deref(), Some("/r/a"));
}

#[test]
fn refresh_of_an_empty_root_empties_the_preview() {
    let mut app = started();
    let action = app.refresh(&Vec::new(), &Snapshot::new());
    assert!(matches!(action, Action::Nothing));
    assert!(app.visible_rows.is_empty());
    assert_eq!(app.selected_index, 0);
    assert_eq!(app.preview_cache, (PreviewContent::Empty, 0));
    assert!(app.last_preview_path.is_none());
}

#[test]
fn refresh_keeps_the_selection_inside_the_rows() {
    let mut app = started();
    app.jump_bottom();
    assert_eq!(app.selected_index, 2);
    let action = app.refresh(&vec![raw("/r", "only.txt", false)], &Snapshot::new());
    assert_eq!(app.selected_index, 0);
    assert_eq!(path_of(action), "/r/only.txt");
}

#[test]
fn preview_is_loaded_only_for_another_path() {
    let mut app = started();
    // The same rows again: the selected path is the one of the last preview.
    assert!(matches!(app.refresh(&roots(), &disk()), Action::Nothing));
    assert!(matches!(app.update_preview(), Action::Nothing));
    assert_eq!(
        app.preview_cache,
        (PreviewContent::Directory("Directory: 2 items (1 dirs, 1 files)".to_string()), 1)
    );
    assert_eq!(path_of(app.move_down()), "/r/b.txt");
    assert!(matches!(app.update_preview(), Action::Nothing));
}

#[test]
fn moving_the_selection() {
    let mut app = started();
    app.scroll_preview_down(5);
    assert_eq!(path_of(app.move_down()), "/r/b.txt");
    assert_eq!(app.selected_index, 1);
    assert_eq!(app.preview_scroll, 0);
    assert_eq!(path_of(app.move_down()), "/r/c.txt");
    app.scroll_preview_down(5);
    assert!(matches!(app.move_down(), Action::Nothing));
    assert_eq!(app.selected_index, 2);
    assert_eq!(app.preview_scroll, 5);
    assert_eq!(path_of(app.move_up()), "/r/b.txt");
    assert_eq!(path_of(app.jump_top()), "/r/a");
    app.scroll_preview_down(5);
    assert!(matches!(app.move_up(), Action::Nothing));
    assert_eq!(app.preview_scroll, 5);
    assert!(matches!(app.jump_top(), Action::Nothing));
    assert_eq!(app.preview_scroll, 0);
    assert_eq!(path_of(app.jump_bottom()), "/r/c.txt");
    assert_eq!(app.selected_index, 2);
}

#[test]
fn moving_in_an_empty_browser() {
    let mut app = App::new("/r".to_string());
    assert!(matches!(app.move_down(), Action::Nothing));
    assert!(matches!(app.move_up(), Action::Nothing));
    assert!(matches!(app.jump_top(), Action::Nothing));
    assert!(matches!(app.jump_bottom(), Action::Nothing));
    assert!(matches!(app.toggle_expand(), Action::Nothing));
    assert!(matches!(app.collapse_or_parent(), Action::Nothing));
    assert!(matches!(app.click_tree(2, 20), Action::Nothing));
    assert_eq!(app.selected_index, 0);
}

#[test]
fn opening_and_closing_a_directory() {
    let mut app = started();
    app.scroll_preview_down(3);
    assert!(matches!(app.toggle_expand(), Action::Reload));
    assert_eq!(app.preview_scroll, 0);
    assert!(app.expanded.contains(&"/r/a".to_string()));
    assert!(matches!(app.refresh(&roots(), &disk()), Action::Nothing));
    assert_eq!(row_names(&app), vec!["a", "sub", "x.txt", "b.txt", "c.txt"]);
    assert!(app.visible_rows[0].is_expanded);
    assert_eq!(app.visible_rows[1].depth, 1);

    assert!(matches!(app.toggle_expand(), Action::Reload));
    assert!(!app.expanded.contains(&"/r/a".to_string()));
    app.refresh(&roots(), &disk());
    assert_eq!(row_names(&app), vec!["a", "b.txt", "c.txt"]);

    // A file is not opened.
    app.move_down();
    assert!(matches!(app.toggle_expand(), Action::Nothing));
    assert!(!app.expanded.contains(&"/r/b.txt".to_string()));
}

#[test]
fn collapsing_or_going_to_the_parent() {
    let mut app = started();
    app.toggle_expand();
    app.refresh(&roots(), &disk());
    app.move_down();
    app.toggle_expand();
    app.refresh(&roots(), &disk());
    assert_eq!(row_names(&app), vec!["a", "sub", "deep.txt", "x.txt", "b.txt", "c.txt"]);

    // From a file to its directory.
    app.move_down();
    app.scroll_preview_down(2);
    assert_eq!(app.selected_index, 2);
    assert_eq!(path_of(app.collapse_or_parent()), "/r/a/sub");
    assert_eq!(app.selected_index, 1);
    assert_eq!(app.preview_scroll, 0);

    // An open directory is closed.
    assert!(matches!(app.collapse_or_parent(), Action::Reload));
    assert!(!app.expanded.contains(&"/r/a/sub".to_string()));
    assert!(app.expanded.contains(&"/r/a".to_string()));
    app.refresh(&roots(), &disk());
    assert_eq!(row_names(&app), vec!["a", "sub", "x.txt", "b.txt", "c.txt"]);
    assert_eq!(app.selected_index, 1);

    // A closed directory goes to its parent.
    assert_eq!(path_of(app.collapse_or_parent()), "/r/a");
    assert_eq!(app.selected_index, 0);

    // At depth 0 there is nowhere to go.
    app.jump_bottom();
    app.scroll_preview_down(2);
    assert!(matches!(app.collapse_or_parent(), Action::Nothing));
    assert_eq!(app.selected_index, 4);
    assert_eq!(app.preview_scroll, 2);
}

#[test]
fn showing_hidden_entries() {
    let mut app = started();
    app.jump_bottom();
    app.scroll_preview_down(2);
    assert!(matches!(app.toggle_hidden(), Action::Reload));
    assert!(app.show_hidden);
    assert_eq!(app.selected_index, 0);
    assert_eq!(app.preview_scroll, 0);
    app.refresh(&roots(), &disk());
    assert_eq!(row_names(&app), vec!["a", ".hidden", "b.txt", "c.txt"]);
    assert!(matches!(app.toggle_hidden(), Action::Reload));
    app.refresh(&roots(), &disk());
    assert_eq!(row_names(&app), vec!["a", "b.txt", "c.txt"]);
}

#[test]
fn scrolling_the_preview() {
    let mut app = started();
    app.scroll_preview_down(3);
    app.scroll_preview_down(4);
    assert_eq!(app.preview_scroll, 7);
    app.scroll_preview_up(2);
    assert_eq!(app.preview_scroll, 5);
    app.scroll_preview_up(9);
    assert_eq!(app.preview_scroll, 0);
    app.scroll_preview_down(usize::MAX);
    app.scroll_preview_down(1);
    assert_eq!(app.preview_scroll, usize::MAX);
}

#[test]
fn clicking_in_the_tree() {
    let mut app = started();
    // The header, the separator and the rows below the entries hit nothing.
    assert!(matches!(app.click_tree(0, 20), Action::Nothing));
    assert!(matches!(app.click_tree(1, 20), Action::Nothing));
    assert!(matches!(app.click_tree(5, 20), Action::Nothing));
    assert!(matches!(app.click_tree(19, 20), Action::Nothing));
    assert_eq!(app.selected_index, 0);

    app.scroll_preview_down(2);
    assert_eq!(path_of(app.click_tree(3, 20)), "/r/b.txt");
    assert_eq!(app.selected_index, 1);
    assert_eq!(app.preview_scroll, 0);

    // A click on a directory selects and opens it.
    app.move_down();
    assert!(matches!(app.click_tree(2, 20), Action::Reload));
    assert_eq!(app.selected_index, 0);
    assert!(app.expanded.contains(&"/r/a".to_string()));
    assert_eq!(path_of(app.refresh(&roots(), &disk())), "/r/a");
    assert_eq!(row_names(&app), vec!["a", "sub", "x.txt", "b.txt", "c.txt"]);
    // And closes it again.
    assert!(matches!(app.click_tree(2, 20), Action::Reload));
    assert!(!app.expanded.contains(&"/r/a".to_string()));
}

#[test]
fn clicking_in_a_long_list_counts_from_the_first_row_on_screen() {
    let mut app = App::new("/r".to_string());
    let many: Vec<RawEntry> = (0..100).map(|i| raw("/r", &format!("f{:03}", i), false)).collect();
    app.refresh(&many, &Snapshot::new());
    for _ in 0..50 {
        app.move_down();
    }
    assert_eq!(app.selected_index, 50);
    // Height 13: rows 45 to 54 are on screen, on the rows 2 to 11 of the panel.
    assert_eq!(path_of(app.click_tree(2, 13)), "/r/f045");
    assert_eq!(app.selected_index, 45);
    assert!(matches!(app.click_tree(12, 13), Action::Nothing));
}

#[test]
fn root_as_it_is_shown() {
    let shown = |root: &str, home: Option<&str>| App::new(root.to_string()).display_root(home);
    assert_eq!(shown("/home/u", Some("/home/u")), "~");
    assert_eq!(shown("/home/u/proj/x", Some("/home/u")), "~/proj/x");
    assert_eq!(shown("/home/user", Some("/home/u")), "/home/user");
    assert_eq!(shown("/etc", Some("/home/u")), "/etc");
    assert_eq!(shown("/home", Some("/home/u")), "/home");
    assert_eq!(shown("/etc", None), "/etc");
    assert_eq!(shown("/etc", Some("")), "/etc");
    assert_eq!(shown("/etc", Some("/")), "~/etc");
    assert_eq!(shown("/home/u/", Some("/home/u")), "~/");
}
