use marten::git::repository::{
    build_comparison_rows, change_runs, classify_status, entry_counts, normalized_line, parse_range, short_oid,
    ChangeCounts, ComparisonRow, DiffHunk, DiffLine, FileStatus, RangeKind,
};

fn diff_line(origin: char, content: &str) -> DiffLine {
    DiffLine {
        old_lineno: None,
        new_lineno: None,
        origin,
        content: content.to_string(),
    }
}

fn row(old: Option<usize>, new: Option<usize>) -> ComparisonRow {
    ComparisonRow {
        old_line_idx: old,
        new_line_idx: new,
    }
}

#[test]
fn comparison_rows_pair_a_deletion_with_the_similar_later_addition() {
    let lines = vec![
        diff_line('-', " return total(items, tax_rate);\n"),
        diff_line('+', " let items = get_items();\n"),
        diff_line('+', " let tax_rate = get_tax_rate();\n"),
        diff_line('+', " return total(items, tax_rate, discount);\n"),
    ];

    let rows = build_comparison_rows(&lines, &vec![2]);

    assert_eq!(
        rows,
        vec![
            ComparisonRow {
                old_line_idx: None,
                new_line_idx: Some(1),
            },
            ComparisonRow {
                old_line_idx: None,
                new_line_idx: Some(2),
            },
            ComparisonRow {
                old_line_idx: Some(0),
                new_line_idx: Some(3),
            },
        ]
    );
}

#[test]
fn realigns_when_deletions_are_longer() {
    let lines = vec![
        diff_line('-', "assert_ready(order);\n"),
        diff_line('-', "return compute_total(items, tax_rate);\n"),
        diff_line('-', "record_total(order);\n"),
        diff_line('+', "return compute_total(items, tax_rate, discount);\n"),
    ];

    assert_eq!(
        build_comparison_rows(&lines, &vec![1]),
        vec![
            ComparisonRow {
                old_line_idx: Some(0),
                new_line_idx: None,
            },
            ComparisonRow {
                old_line_idx: Some(1),
                new_line_idx: Some(3),
            },
            ComparisonRow {
                old_line_idx: Some(2),
                new_line_idx: None,
            },
        ]
    );
}

#[test]
fn runs_without_an_offset_start_side_by_side() {
    let lines = vec![
        diff_line(' ', "a\n"),
        diff_line('-', "b\n"),
        diff_line('+', "c\n"),
        diff_line('+', "d\n"),
        diff_line(' ', "e\n"),
    ];
    assert_eq!(
        build_comparison_rows(&lines, &Vec::new()),
        vec![
            row(Some(0), Some(0)),
            row(Some(1), Some(2)),
            row(None, Some(3)),
            row(Some(4), Some(4)),
        ]
    );
}

#[test]
fn offsets_past_the_surplus_are_capped() {
    let lines = vec![diff_line('-', "x\n"), diff_line('+', "y\n"), diff_line('+', "z\n")];
    assert_eq!(
        build_comparison_rows(&lines, &vec![9]),
        vec![row(None, Some(1)), row(Some(0), Some(2))]
    );
}

#[test]
fn no_newline_markers_stand_on_their_own_side() {
    let lines = vec![diff_line('<', "\n"), diff_line('>', "\n")];
    assert_eq!(
        build_comparison_rows(&lines, &Vec::new()),
        vec![row(Some(0), None), row(None, Some(1))]
    );
}

#[test]
fn change_runs_split_removed_and_added_lines() {
    let lines = vec![
        diff_line('-', "a\n"),
        diff_line('+', "b\n"),
        diff_line(' ', "c\n"),
        diff_line('+', "d\n"),
    ];
    let runs = change_runs(&lines);
    assert_eq!(runs, vec![(vec![0], vec![1]), (vec![], vec![3])]);
}

#[test]
fn hunk_counts_insertions_and_deletions() {
    let lines = vec![
        diff_line('-', "a\n"),
        diff_line('+', "b\n"),
        diff_line('+', "c\n"),
        diff_line(' ', "d\n"),
    ];
    let hunk = DiffHunk::new("@@ -1,2 +1,3 @@".to_string(), lines, &Vec::new());
    assert_eq!(hunk.insertions, 2);
    assert_eq!(hunk.deletions, 1);
    assert_eq!(hunk.comparison_rows.len(), 3);
}

#[test]
fn normalized_lines_drop_all_whitespace() {
    assert_eq!(
        normalized_line(" let x = 1;\n").iter().collect::<String>(),
        "letx=1;"
    );
}

#[test]
fn status_flags_classify_an_entry() {
    assert_eq!(classify_status(true, true, true, true), Some(FileStatus::Conflicted));
    assert_eq!(classify_status(false, true, false, false), Some(FileStatus::Untracked));
    assert_eq!(classify_status(false, false, true, true), Some(FileStatus::Partial));
    assert_eq!(classify_status(false, false, true, false), Some(FileStatus::Staged));
    assert_eq!(classify_status(false, false, false, true), Some(FileStatus::Unstaged));
    assert_eq!(classify_status(false, false, false, false), None);
}

#[test]
fn change_counts_record_entries() {
    let mut counts = ChangeCounts::default();
    counts.record(false, true, false, false);
    counts.record(false, false, true, true);
    counts.record(true, false, true, true);
    assert_eq!(counts.untracked, 1);
    assert_eq!(counts.staged, 1);
    assert_eq!(counts.unstaged, 1);
    assert_eq!(counts.conflicted, 1);
    assert!(counts.is_dirty());
    assert!(!ChangeCounts::default().is_dirty());
}

#[test]
fn ranges_split_on_dots() {
    let (from, to, kind) = parse_range("main...feature").unwrap();
    assert_eq!((from.as_str(), to.as_str(), kind), ("main", "feature", RangeKind::MergeBase));
    let (from, to, kind) = parse_range("v1..v2").unwrap();
    assert_eq!((from.as_str(), to.as_str(), kind), ("v1", "v2", RangeKind::Direct));
    assert_eq!(parse_range("main").unwrap_err().range, "main");
    assert_eq!(parse_range("..v2").unwrap_err().range, "..v2");
    assert_eq!(parse_range("a...").unwrap_err().range, "a...");
}

#[test]
fn short_oid_keeps_seven_characters() {
    assert_eq!(short_oid("0123456789abcdef"), "0123456");
    assert_eq!(short_oid("abc"), "abc");
}

#[test]
fn entry_counts_follow_the_status() {
    assert_eq!(entry_counts(FileStatus::Staged, (3, 1), (5, 2), 9), (3, 1));
    assert_eq!(entry_counts(FileStatus::Unstaged, (3, 1), (5, 2), 9), (5, 2));
    assert_eq!(entry_counts(FileStatus::Partial, (3, 1), (5, 2), 9), (8, 3));
    assert_eq!(entry_counts(FileStatus::Untracked, (3, 1), (5, 2), 9), (9, 0));
    assert_eq!(entry_counts(FileStatus::Conflicted, (3, 1), (5, 2), 9), (0, 0));
}
