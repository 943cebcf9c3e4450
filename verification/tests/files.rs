use marten::action::Action;
use marten::diff_panel::DiffPanel;
use marten::files_panel::FilesPanel;
use marten::git::repository::{FileChange, FileEntry, FileStatus};
use marten::state::files::Files;
use marten::state::focus::Focus;
use marten::state::tree::TreeRow;
use marten::store::DiffStore;
use marten::view::get_selected_row;

fn entry(path: &str) -> FileEntry {
    FileEntry {
        path: path.to_string(),
        previous_path: None,
        status: FileStatus::Unstaged,
        change: Some(FileChange::Modified),
        type_change: None,
        insertions: 1,
        deletions: 0,
    }
}

#[test]
fn select_first_clears_selection_when_there_are_no_rows() {
    let mut files = Files {
        selected: Some(0),
        tree_row_count: 0,
    };

    files.select_first();

    assert_eq!(files.selected, None);
}

#[test]
fn select_first_selects_the_first_available_row() {
    let mut files = Files {
        selected: None,
        tree_row_count: 2,
    };

    files.select_first();

    assert_eq!(files.selected, Some(0));
}

#[test]
fn next_and_previous_wrap_around() {
    let mut files = Files {
        selected: Some(2),
        tree_row_count: 3,
    };
    files.select_next();
    assert_eq!(files.selected, Some(0));
    files.select_previous();
    assert_eq!(files.selected, Some(2));
    files.select_last();
    assert_eq!(files.selected, Some(2));
}

#[test]
fn empty_tree_does_not_select_the_status_message() {
    assert_eq!(get_selected_row(&[], Some(0)), None);
}

#[test]
fn selection_is_limited_to_tree_rows() {
    let rows = [TreeRow::File(0, 0)];

    assert_eq!(get_selected_row(&rows, Some(0)), Some(0));
    assert_eq!(get_selected_row(&rows, Some(1)), None);
}

#[test]
fn match_selected_file_expands_collapsed_dir() {
    let mut store = DiffStore::new(vec![entry("src/main.rs")], Vec::new(), false);
    store.continuous_diff.rebuild_index();
    let mut files = FilesPanel::new();
    files.ensure_rows(&store);
    files.select_first();
    let mut diff = DiffPanel::new(4);

    assert_eq!(store.continuous_diff.files.len(), 1);
    assert_eq!(store.continuous_diff.files[0].entry.path, "src/main.rs");
    assert!(files
        .cached_rows()
        .iter()
        .any(|r| matches!(r, TreeRow::File(..))));

    files.collapse_dir_for_test("src".to_string());
    files.ensure_rows(&store);
    assert!(!files
        .cached_rows()
        .iter()
        .any(|r| matches!(r, TreeRow::File(..))));
    assert!(files.collapsed().iter().any(|k| k == "src"));

    diff.set_continuous_scroll(store.continuous_diff.index.file_starts[0]);
    let scroll = diff.continuous_scroll();
    files.match_selected_file(&store, scroll);
    assert!(!files.collapsed().iter().any(|k| k == "src"));
    assert!(files
        .cached_rows()
        .iter()
        .any(|r| matches!(r, TreeRow::File(..))));
    assert_eq!(files.state().selected, Some(1));
}

#[test]
fn directories_come_before_files_in_the_tree() {
    let store = DiffStore::new(
        vec![entry("z.rs"), entry("a/b.rs"), entry("a.rs")],
        Vec::new(),
        false,
    );
    let paths: Vec<&str> = store
        .continuous_diff
        .files
        .iter()
        .map(|f| f.entry.path.as_str())
        .collect();
    assert_eq!(paths, vec!["a/b.rs", "a.rs", "z.rs"]);
}

#[test]
fn ignored_files_are_marked() {
    let store = DiffStore::new(
        vec![entry("Cargo.lock"), entry("src/lib.rs")],
        vec!["*.lock".to_string()],
        false,
    );
    let ignored: Vec<(&str, bool)> = store
        .continuous_diff
        .files
        .iter()
        .map(|f| (f.entry.path.as_str(), f.ignored))
        .collect();
    assert_eq!(ignored, vec![("src/lib.rs", false), ("Cargo.lock", true)]);
}

#[test]
fn next_file_then_previous_file_comes_back() {
    let store = DiffStore::new(
        vec![entry("a/one.rs"), entry("b/two.rs"), entry("three.rs")],
        Vec::new(),
        false,
    );
    let mut files = FilesPanel::new();
    files.ensure_rows(&store);
    // Rows: a/, one.rs, b/, two.rs, three.rs.
    assert_eq!(files.cached_rows().len(), 5);
    files.select_first();
    files.select_next_file();
    assert_eq!(files.state().selected, Some(1));
    files.select_next_file();
    assert_eq!(files.state().selected, Some(3));
    files.select_previous_file();
    assert_eq!(files.state().selected, Some(1));
    files.select_next_file();
    files.select_next_file();
    assert_eq!(files.state().selected, Some(4));
    files.select_next_file();
    assert_eq!(files.state().selected, Some(4));
}

#[test]
fn toggling_a_directory_hides_and_shows_its_files() {
    let store = DiffStore::new(
        vec![entry("a/one.rs"), entry("three.rs")],
        Vec::new(),
        false,
    );
    let mut files = FilesPanel::new();
    files.ensure_rows(&store);
    assert_eq!(files.cached_rows().len(), 3);
    files.select_first();
    files.select_last();
    assert_eq!(files.state().selected, Some(2));
    // A file row: toggling does nothing.
    assert!(!files.update(Action::ToggleCollapsed, Focus::Files, &store));
    assert_eq!(files.cached_rows().len(), 3);
    files.select_first();
    assert!(!files.update(Action::ToggleCollapsed, Focus::Files, &store));
    assert_eq!(files.cached_rows().len(), 2);
    assert_eq!(files.state().selected, Some(0));
    assert!(files.collapsed().iter().any(|k| k == "a"));
    assert!(!files.update(Action::ToggleCollapsed, Focus::Files, &store));
    assert_eq!(files.cached_rows().len(), 3);
    assert!(files.collapsed().is_empty());
    // Row moves only count when the panel has the focus.
    assert!(!files.update(Action::MoveDown, Focus::Diff, &store));
    assert_eq!(files.state().selected, Some(0));
    assert!(files.update(Action::MoveDown, Focus::Files, &store));
    assert_eq!(files.state().selected, Some(1));
}
