use marten::git::repository::{FileEntry, FileStatus};
use marten::state::review::{DiffLoadState, FileSlot};
use marten::state::tree::{tree_rows, TreeRow};

fn file_entry(path: &str) -> FileSlot {
    FileSlot {
        entry: FileEntry {
            path: path.to_string(),
            previous_path: None,
            status: FileStatus::Untracked,
            change: None,
            type_change: None,
            insertions: 0,
            deletions: 0,
        },
        load: DiffLoadState::NotLoaded,
        reviewed: false,
        ignored: false,
    }
}

fn dir_keys(rows: &[TreeRow]) -> Vec<&str> {
    rows.iter()
        .filter_map(|row| match row {
            TreeRow::Dir(key, _) => Some(key.as_str()),
            TreeRow::File(_, _) => None,
        })
        .collect()
}

#[test]
fn nested_dir_uses_full_path_as_key() {
    let files = vec![
        file_entry(".marten-dev/src/app.rs"),
        file_entry(".marten-dev/src/helper/common/common.rs"),
    ];

    let rows = tree_rows(&files, &Vec::new());
    let keys = dir_keys(&rows);
    assert!(keys.contains(&".marten-dev/src"));
    assert!(keys.contains(&".marten-dev/src/helper/common"));
}

#[test]
fn single_child_dir_compression_uses_full_path() {
    let files = vec![
        file_entry(".marten-dev/tests/fixtures/fixtures.rs"),
        file_entry(".marten-dev/tests/fixtures/helpers.rs"),
    ];

    let rows = tree_rows(&files, &Vec::new());
    let keys = dir_keys(&rows);
    assert!(keys.contains(&".marten-dev/tests/fixtures"));
}

#[test]
fn collapsing_a_nested_dir_hides_its_children() {
    let files = vec![
        file_entry(".marten-dev/src/app.rs"),
        file_entry(".marten-dev/src/lib.rs"),
    ];

    let rows = tree_rows(&files, &vec![".marten-dev/src".to_string()]);
    let file_count = rows
        .iter()
        .filter(|row| matches!(row, TreeRow::File(..)))
        .count();
    assert_eq!(file_count, 0);
}

#[test]
fn top_level_dir_collapses_correctly() {
    let files = vec![
        file_entry(".marten-dev/src/app.rs"),
        file_entry(".marten-dev/src/state/file.rs"),
        file_entry(".marten-dev/tests/fixtures.rs"),
    ];
    let rows = tree_rows(&files, &vec![".marten-dev".to_string()]);
    let file_count = rows
        .iter()
        .filter(|row| matches!(row, TreeRow::File(..)))
        .count();
    assert_eq!(file_count, 0);
}

#[test]
fn directories_are_listed_before_files_with_depths() {
    let files = vec![file_entry("b.rs"), file_entry("a/x.rs"), file_entry("a/y.rs")];
    let rows = tree_rows(&files, &Vec::new());
    let shape: Vec<String> = rows
        .iter()
        .map(|row| match row {
            TreeRow::Dir(key, depth) => format!("d:{key}:{depth}"),
            TreeRow::File(idx, depth) => format!("f:{idx}:{depth}"),
        })
        .collect();
    assert_eq!(shape, vec!["d:a:1", "f:1:2", "f:2:2", "f:0:1"]);
}
