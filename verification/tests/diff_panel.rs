use marten::config::DEFAULT_TAB_WIDTH;
use marten::diff_panel::{
    display_width, line_number_width, split_prefix_width, unified_prefix_width, DiffPanel,
};
use marten::git::repository::{
    DiffHunk, DiffLine, DiffSection, DiffSectionKind, FileChange, FileEntry, FileStatus,
};
use marten::state::line_index::LineIndex;
use marten::state::review::{DiffLoadState, RenderedRow};
use marten::review_rows::{review_rows, ReviewRow};
use marten::state::review::ReviewState;
use marten::store::DiffStore;

fn store_with_hunks(line_counts: &[usize]) -> DiffStore {
    let total_lines = line_counts.iter().sum();
    let entry = FileEntry {
        path: "src/main.rs".to_string(),
        previous_path: None,
        status: FileStatus::Unstaged,
        change: Some(FileChange::Modified),
        type_change: None,
        insertions: total_lines,
        deletions: 0,
    };
    let mut next_line = 1;
    let hunks: Vec<DiffHunk> = line_counts
        .iter()
        .map(|&line_count| {
            let lines = (0..line_count)
                .map(|_| {
                    let line = DiffLine {
                        old_lineno: None,
                        new_lineno: Some(next_line),
                        origin: '+',
                        content: format!("line {next_line}\n"),
                    };
                    next_line += 1;
                    line
                })
                .collect();
            DiffHunk::new("@@ hunk @@\n".to_string(), lines, &Vec::new())
        })
        .collect();
    let sections = vec![DiffSection {
        kind: DiffSectionKind::Unstaged,
        hunks: hunks.clone(),
    }];
    let index = LineIndex::new(&sections);
    let mut store = DiffStore::new(vec![entry], Vec::new(), false);
    store.continuous_diff.files[0].load = DiffLoadState::Loaded { hunks, index };
    store.continuous_diff.rebuild_index();
    store
}

fn store_with_lines(line_count: usize) -> DiffStore {
    store_with_hunks(&[line_count])
}

#[test]
fn line_navigation_skips_headers_and_scrolls_near_the_viewport_edge() {
    let store = store_with_lines(6);
    let mut panel = DiffPanel::new(DEFAULT_TAB_WIDTH);
    panel.set_viewport_height(8);
    panel.sync_continuous_scroll_to_file(Some(0), &store);

    assert!(matches!(
        store
            .continuous_diff
            .lookup_row(panel.review().selected_row),
        Some(RenderedRow::DiffRow { row_idx: 0, .. })
    ));
    assert_eq!(panel.review().continuous_scroll, 0);

    let first_row = panel.review().selected_row;
    panel.select_next_line(&store);
    assert_eq!(panel.review().selected_row, first_row + 1);
    assert_eq!(panel.review().continuous_scroll, 0);

    panel.select_next_line(&store);
    assert_eq!(panel.review().selected_row, first_row + 2);
    assert_eq!(panel.review().continuous_scroll, 0);

    panel.select_next_line(&store);
    assert_eq!(panel.review().selected_row, first_row + 3);
    assert_eq!(panel.review().continuous_scroll, 1);

    panel.select_previous_line(&store);
    assert_eq!(panel.review().selected_row, first_row + 2);
}

#[test]
fn hunk_navigation_anchors_the_hunk_header_at_the_viewport_top() {
    let store = store_with_hunks(&[2, 2]);
    let mut panel = DiffPanel::new(DEFAULT_TAB_WIDTH);
    panel.set_viewport_height(8);
    panel.sync_continuous_scroll_to_file(Some(0), &store);

    panel.select_next_hunk(&store);

    assert!(matches!(
        store
            .continuous_diff
            .lookup_row(panel.review().continuous_scroll),
        Some(RenderedRow::HunkHeader { hunk_idx: 1, .. })
    ));
    assert!(matches!(
        store
            .continuous_diff
            .lookup_row(panel.review().selected_row),
        Some(RenderedRow::DiffRow {
            hunk_idx: 1,
            row_idx: 0,
            ..
        })
    ));
}

#[test]
fn previous_hunk_returns_to_the_first_hunk() {
    let store = store_with_hunks(&[2, 2]);
    let mut panel = DiffPanel::new(DEFAULT_TAB_WIDTH);
    panel.set_viewport_height(8);
    panel.sync_continuous_scroll_to_file(Some(0), &store);
    let first = panel.review().selected_row;

    panel.select_next_hunk(&store);
    panel.select_previous_hunk(&store);

    assert_eq!(panel.review().selected_row, first);
}

#[test]
fn line_number_columns_are_at_least_four() {
    assert_eq!(line_number_width(None), 4);
    assert_eq!(line_number_width(Some(7)), 4);
    assert_eq!(line_number_width(Some(12345)), 5);
    assert_eq!(line_number_width(Some(u32::MAX)), 10);
}

#[test]
fn prefix_widths_count_numbers_and_markers() {
    assert_eq!(unified_prefix_width(Some(1), Some(123456), true), 4 + 6 + 4);
    assert_eq!(unified_prefix_width(Some(1), Some(2), false), 2);
    assert_eq!(split_prefix_width(Some(1), true), 7);
    assert_eq!(split_prefix_width(None, false), 2);
}

#[test]
fn display_width_expands_tabs_and_ignores_trailing_whitespace() {
    assert_eq!(display_width("ab\tc  \n", 4), 7);
    assert_eq!(display_width("日本", 4), 4);
    assert_eq!(display_width("", 8), 0);
}

#[test]
fn next_hunk_after_previous_returns_to_the_hunk() {
    let store = store_with_hunks(&[2, 3, 1]);
    let mut panel = DiffPanel::new(DEFAULT_TAB_WIDTH);
    panel.set_viewport_height(8);
    panel.sync_continuous_scroll_to_file(Some(0), &store);
    panel.select_next_hunk(&store);
    panel.select_next_hunk(&store);
    let third = (panel.review().continuous_scroll, panel.review().selected_row);

    panel.select_previous_hunk(&store);
    assert_ne!(panel.review().continuous_scroll, third.0);
    panel.select_next_hunk(&store);

    assert_eq!(
        (panel.review().continuous_scroll, panel.review().selected_row),
        third
    );
}

#[test]
fn review_rows_pin_the_file_header_and_number_the_hunks() {
    let store = store_with_hunks(&[2, 2]);
    let doc = &store.continuous_diff;
    let top = ReviewState { continuous_scroll: 0, selected_row: 2 };
    let rows = review_rows(doc, &top, 4);
    assert_eq!(rows.len(), 4);
    assert_eq!(rows[0], ReviewRow::FileHeader { file_idx: 0, pinned: true });
    assert_eq!(
        rows[1],
        ReviewRow::HunkHeader {
            file_idx: 0,
            hunk_idx: 0,
            hunk_count: 2,
            insertions: 2,
            deletions: 0,
            selected: false,
        }
    );
    assert!(matches!(rows[2], ReviewRow::Line { row_idx: 0, cursor: true, .. }));
    assert!(matches!(rows[3], ReviewRow::Line { row_idx: 1, cursor: false, .. }));

    let second = ReviewState { continuous_scroll: 4, selected_row: 5 };
    let rows = review_rows(doc, &second, 4);
    assert_eq!(rows.len(), 4);
    assert_eq!(rows[0], ReviewRow::FileHeader { file_idx: 0, pinned: true });
    assert!(matches!(
        rows[1],
        ReviewRow::HunkHeader { hunk_idx: 1, hunk_count: 2, selected: true, .. }
    ));
    assert!(matches!(rows[2], ReviewRow::Line { hunk_idx: 1, selected: true, cursor: true, .. }));
}
