use marten::git::repository::{FileEntry, FileStatus};
use marten::sidebar::{fit_name, sidebar_lines, status_letter, SidebarItem};
use marten::state::review::{DiffLoadState, FileSlot};
use marten::state::tree::{tree_rows, TreeRow};

fn slot(path: &str, ignored: bool, reviewed: bool) -> FileSlot {
    FileSlot {
        entry: FileEntry {
            path: path.to_string(),
            previous_path: None,
            status: FileStatus::Unstaged,
            change: None,
            type_change: None,
            insertions: 0,
            deletions: 0,
        },
        load: DiffLoadState::NotLoaded,
        reviewed,
        ignored,
    }
}

#[test]
fn sidebar_marks_ignored_and_reviewed_files() {
    let files = vec![
        slot("src/a.lock", true, false),
        slot("src/b.rs", false, true),
        slot("c.rs", false, false),
    ];
    let rows = tree_rows(&files, &Vec::new());
    let lines = sidebar_lines(&rows, &files, &Vec::new(), Some(1), 40, 10);
    assert_eq!(lines.len(), rows.len());
    assert!(matches!(&lines[0].item, SidebarItem::Dir { collapsed: false, label, .. } if label == "src"));
    let marks: Vec<(String, bool, bool)> = lines
        .iter()
        .filter_map(|line| match &line.item {
            SidebarItem::File { name, ignored, reviewed, .. } => {
                Some((name.clone(), *ignored, *reviewed))
            }
            _ => None,
        })
        .collect();
    assert_eq!(
        marks,
        vec![
            ("a.lock".to_string(), true, false),
            ("b.rs".to_string(), false, true),
            ("c.rs".to_string(), false, false),
        ]
    );
    assert!(lines[1].selected);
    assert!(!lines[0].selected);
}

#[test]
fn sidebar_scrolls_to_show_the_selection() {
    let files: Vec<FileSlot> = (0..6).map(|i| slot(&format!("f{i}.rs"), false, false)).collect();
    let rows = tree_rows(&files, &Vec::new());
    assert_eq!(rows.len(), 6);
    let lines = sidebar_lines(&rows, &files, &Vec::new(), Some(4), 40, 3);
    assert_eq!(lines.len(), 3);
    assert!(matches!(&lines[0].item, SidebarItem::File { name, .. } if name == "f2.rs"));
    assert!(lines[2].selected);
    let top = sidebar_lines(&rows, &files, &Vec::new(), Some(1), 40, 3);
    assert!(matches!(&top[0].item, SidebarItem::File { name, .. } if name == "f0.rs"));
}

#[test]
fn sidebar_shows_collapsed_directories_and_a_clean_tree() {
    let files = vec![slot("src/a.rs", false, false)];
    let collapsed = vec!["src".to_string()];
    let rows = tree_rows(&files, &collapsed);
    assert!(matches!(rows[0], TreeRow::Dir(..)));
    let lines = sidebar_lines(&rows, &files, &collapsed, None, 40, 5);
    assert!(matches!(&lines[0].item, SidebarItem::Dir { collapsed: true, .. }));

    let none: Vec<FileSlot> = Vec::new();
    let lines = sidebar_lines(&Vec::new(), &none, &Vec::new(), None, 40, 5);
    assert_eq!(lines.len(), 1);
    assert!(matches!(lines[0].item, SidebarItem::Clean));
}

#[test]
fn long_names_are_cut_to_the_sidebar() {
    // Room = 14 - (2 * 1 + 4) = 8 columns.
    assert_eq!(fit_name(&"short.rs".to_string(), 1, 14), "short.rs");
    assert_eq!(fit_name(&"a_long_name.rs".to_string(), 1, 14), "a_long_…");
    assert_eq!(fit_name(&"name.rs".to_string(), 3, 4), "…");

    let files = vec![slot("src/a_very_long_file_name.rs", false, false)];
    let rows = tree_rows(&files, &Vec::new());
    let lines = sidebar_lines(&rows, &files, &Vec::new(), None, 12, 5);
    match &lines[1].item {
        SidebarItem::File { name, depth, .. } => {
            let room = 12 - (2 * depth + 4);
            let expected: String = "a_very_long_file_name.rs".chars().take(room - 1).collect();
            assert_eq!(*name, format!("{expected}…"));
        }
        _ => panic!("expected a file row"),
    }
}

#[test]
fn status_letters_match_the_sidebar() {
    assert_eq!(status_letter(FileStatus::Conflicted), "! ");
    assert_eq!(status_letter(FileStatus::Staged), "S ");
    assert_eq!(status_letter(FileStatus::Partial), "P ");
    assert_eq!(status_letter(FileStatus::Unstaged), "M ");
    assert_eq!(status_letter(FileStatus::Untracked), "U ");
}
