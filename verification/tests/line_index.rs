use marten::git::repository::{DiffHunk, DiffLine, DiffSection, DiffSectionKind};
use marten::state::diff::DiffLayout;
use marten::state::line_index::{IndexRow, LineIndex};

fn line(content: &str) -> DiffLine {
    DiffLine {
        old_lineno: None,
        new_lineno: None,
        origin: ' ',
        content: content.to_string(),
    }
}

fn hunk_with_lines(count: usize) -> DiffHunk {
    DiffHunk::new(
        "@@ -1,1 +1,1 @@".to_string(),
        (0..count).map(|i| line(&format!("line {i}"))).collect(),
        &Vec::new(),
    )
}

fn single_section(hunks: Vec<DiffHunk>) -> Vec<DiffSection> {
    vec![DiffSection {
        kind: DiffSectionKind::Staged,
        hunks,
    }]
}

#[test]
fn empty_hunks() {
    let index = LineIndex::new(&Vec::new());
    assert_eq!(
        index.total_rows, 0,
        "empty diff should have zero total rows"
    );
    assert_eq!(
        index.lookup(0),
        None,
        "lookup on empty diff should return None"
    );
    assert_eq!(
        index.lookup(999),
        None,
        "out-of-bounds on empty diff should return None"
    );
}

#[test]
fn single_hunk_no_lines() {
    const HEADER_COUNT: usize = 1;

    let sections = single_section(vec![DiffHunk::new("@@ -1,1 +1,1 @@".to_string(), vec![], &Vec::new())]);
    let index = LineIndex::new(&sections);

    assert_eq!(
        index.total_rows, HEADER_COUNT,
        "header-only hunk should have {HEADER_COUNT} total row"
    );
    assert_eq!(
        index.lookup(0),
        Some(IndexRow::HunkHeader(0)),
        "row 0 should be the hunk header"
    );
    assert_eq!(
        index.lookup(1),
        None,
        "row 1 should be out of bounds for header-only hunk"
    );
}

#[test]
fn single_hunk_three_lines() {
    const HEADER_WITH_LINES: usize = 4;

    let sections = single_section(vec![hunk_with_lines(3)]);
    let index = LineIndex::new(&sections);

    assert_eq!(
        index.total_rows, HEADER_WITH_LINES,
        "header + 3 lines should have {HEADER_WITH_LINES} total rows"
    );
    assert_eq!(
        index.lookup(0),
        Some(IndexRow::HunkHeader(0)),
        "row 0 should be the hunk header"
    );
    assert_eq!(
        index.lookup(1),
        Some(IndexRow::DiffLine(0, 0)),
        "row 1 should be hunk 0, line 0"
    );
    assert_eq!(
        index.lookup(2),
        Some(IndexRow::DiffLine(0, 1)),
        "row 2 should be hunk 0, line 1"
    );
    assert_eq!(
        index.lookup(3),
        Some(IndexRow::DiffLine(0, 2)),
        "row 3 should be hunk 0, line 2"
    );
    assert_eq!(index.lookup(4), None, "row 4 should be out of bounds");
}

#[test]
fn multiple_hunks() {
    const TOTAL_ROWS: usize = 7;

    // Hunk 0: header + 2 lines → rows 0, 1, 2
    // Hunk 1: header + 3 lines → rows 3, 4, 5, 6
    let sections = single_section(vec![hunk_with_lines(2), hunk_with_lines(3)]);
    let index = LineIndex::new(&sections);

    assert_eq!(
        index.total_rows, TOTAL_ROWS,
        "two hunks with 2 and 3 lines should have {TOTAL_ROWS} total rows"
    );
    assert_eq!(
        index.lookup(2),
        Some(IndexRow::DiffLine(0, 1)),
        "row 2 should be the last line of hunk 0"
    );
    assert_eq!(
        index.lookup(3),
        Some(IndexRow::HunkHeader(1)),
        "row 3 should be the header of hunk 1"
    );
    assert_eq!(
        index.lookup(5),
        Some(IndexRow::DiffLine(1, 1)),
        "row 5 should be a middle line of hunk 1"
    );
}

#[test]
fn out_of_bounds() {
    const PAST_THE_END: usize = 2;
    const FAR_PAST_THE_END: usize = 1000;

    // Hunk 0: header + 1 line -> rows 0, 1
    let sections = single_section(vec![hunk_with_lines(1)]);
    let index = LineIndex::new(&sections);

    assert_eq!(
        index.lookup(PAST_THE_END),
        None,
        "row just past the end should return None"
    );
    assert_eq!(
        index.lookup(FAR_PAST_THE_END),
        None,
        "row far past the end should return None"
    );
}

#[test]
fn two_sections_insert_headers() {
    // Section 0 (Staged): 1 hunk with 2 lines  → header@0, hunk_header@1, lines@2,3
    // Section 1 (Unstaged): 1 hunk with 1 line → header@4, hunk_header@5, line@6
    let sections = vec![
        DiffSection {
            kind: DiffSectionKind::Staged,
            hunks: vec![hunk_with_lines(2)],
        },
        DiffSection {
            kind: DiffSectionKind::Unstaged,
            hunks: vec![hunk_with_lines(1)],
        },
    ];
    let index = LineIndex::new(&sections);

    assert_eq!(index.total_rows, 7, "two sections should have 7 total rows");
    assert_eq!(
        index.lookup(0),
        Some(IndexRow::SectionHeader(0)),
        "row 0 should be section header 0"
    );
    assert_eq!(
        index.lookup(1),
        Some(IndexRow::HunkHeader(0)),
        "row 1 should be hunk header 0"
    );
    assert_eq!(
        index.lookup(2),
        Some(IndexRow::DiffLine(0, 0)),
        "row 2 should be hunk 0, line 0"
    );
    assert_eq!(
        index.lookup(3),
        Some(IndexRow::DiffLine(0, 1)),
        "row 3 should be hunk 0, line 1"
    );
    assert_eq!(
        index.lookup(4),
        Some(IndexRow::SectionHeader(1)),
        "row 4 should be section header 1"
    );
    assert_eq!(
        index.lookup(5),
        Some(IndexRow::HunkHeader(1)),
        "row 5 should be hunk header 1"
    );
    assert_eq!(
        index.lookup(6),
        Some(IndexRow::DiffLine(1, 0)),
        "row 6 should be hunk 1, line 0"
    );
}

#[test]
fn side_by_side_rows_pair_deletions_with_additions() {
    let lines = vec![
        DiffLine { old_lineno: Some(1), new_lineno: None, origin: '-', content: "a".to_string() },
        DiffLine { old_lineno: Some(2), new_lineno: None, origin: '-', content: "b".to_string() },
        DiffLine { old_lineno: None, new_lineno: Some(1), origin: '+', content: "c".to_string() },
    ];
    let sections = single_section(vec![DiffHunk::new("@@ -1,2 +1,1 @@".to_string(), lines, &Vec::new())]);
    let index = LineIndex::new(&sections);

    assert_eq!(index.total_rows_for(DiffLayout::Unified), 4);
    assert_eq!(index.total_rows_for(DiffLayout::SideBySide), 3);
    assert_eq!(index.lookup_for(2, DiffLayout::SideBySide), Some(IndexRow::DiffLine(0, 1)));
    assert_eq!(index.lookup_for(3, DiffLayout::SideBySide), None);
    assert_eq!(index.hunk_starts_for(DiffLayout::Unified), &vec![0]);
}
