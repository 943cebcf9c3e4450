//! What the review panel shows in its viewport: the header of the file the view is in,
//! pinned on top, then the rows of the review from the scroll position on, with the hunk
//! the view is in marked and each hunk header numbered among its file's hunks.
use vstd::prelude::*;

use crate::git::repository::DiffSectionKind;
use crate::state::review::{
    file_at_row_spec, lookup_row_spec, ContinuousDiff, DiffLoadState, RenderedRow, ReviewState,
};

verus! {

/// A line of the review panel.
#[derive(Debug, PartialEq, Eq)]
pub enum ReviewRow {
    /// The header of a file: pinned on top, or where the file starts.
    FileHeader { file_idx: usize, pinned: bool },
    /// The header of a binary file.
    Binary { file_idx: usize },
    /// The header of the staged or unstaged part of a file.
    SectionHeader { kind: DiffSectionKind },
    /// A hunk header: the hunk's place among its file's hunks, the count of those hunks,
    /// the hunk's added and removed lines, and whether the view is in this hunk.
    HunkHeader {
        file_idx: usize,
        hunk_idx: usize,
        hunk_count: usize,
        insertions: usize,
        deletions: usize,
        selected: bool,
    },
    /// A row of a hunk, whether the view is in its hunk, and whether the cursor is on it.
    Line { file_idx: usize, hunk_idx: usize, row_idx: usize, selected: bool, cursor: bool },
    /// A file whose diff is still loading.
    Loading,
    /// A file whose diff could not be loaded.
    Error { msg: String },
}

/// The hunk the view is in: the one whose header or row is at the top.
pub open spec fn selected_hunk_spec(doc: ContinuousDiff, scroll: int) -> Option<(usize, usize)> {
    match lookup_row_spec(doc, scroll) {
        Some(RenderedRow::HunkHeader { file_idx, hunk_idx }) => Some((file_idx, hunk_idx)),
        Some(RenderedRow::DiffRow { file_idx, hunk_idx, .. }) => Some((file_idx, hunk_idx)),
        _ => None,
    }
}

/// The file holding the top row.
pub open spec fn pinned_file(doc: ContinuousDiff, scroll: int) -> Option<usize> {
    match file_at_row_spec(doc.index.file_starts@, doc.index.total_rows, scroll) {
        Some((f, _)) => Some(f),
        None => None,
    }
}

/// What row `row` of the review adds to the panel: nothing for the header of the pinned
/// file or for a row past the end.
pub open spec fn row_item(doc: ContinuousDiff, row: int, scroll: int, cursor: int) -> Seq<
    ReviewRow,
> {
    let sel = selected_hunk_spec(doc, scroll);
    match lookup_row_spec(doc, row) {
        Some(RenderedRow::FileHeader { file_idx }) => if pinned_file(doc, scroll) == Some(
            file_idx,
        ) {
            Seq::empty()
        } else {
            seq![ReviewRow::FileHeader { file_idx, pinned: false }]
        },
        Some(RenderedRow::SectionHeader { kind }) => seq![ReviewRow::SectionHeader { kind }],
        Some(RenderedRow::HunkHeader { file_idx, hunk_idx }) => match doc.files@[file_idx as int].load {
            DiffLoadState::Loaded { hunks, .. } => seq![
                ReviewRow::HunkHeader {
                    file_idx,
                    hunk_idx,
                    hunk_count: hunks@.len() as usize,
                    insertions: hunks@[hunk_idx as int].insertions,
                    deletions: hunks@[hunk_idx as int].deletions,
                    selected: sel == Some((file_idx, hunk_idx)),
                },
            ],
            _ => Seq::empty(),
        },
        Some(RenderedRow::DiffRow { file_idx, hunk_idx, row_idx }) => match doc.files@[
            file_idx as int
        ].load {
            DiffLoadState::Loaded { .. } => seq![
                ReviewRow::Line {
                    file_idx,
                    hunk_idx,
                    row_idx,
                    selected: sel == Some((file_idx, hunk_idx)),
                    cursor: row == cursor,
                },
            ],
            _ => Seq::empty(),
        },
        Some(RenderedRow::Loading) => seq![ReviewRow::Loading],
        Some(RenderedRow::Binary { file_idx }) => seq![ReviewRow::Binary { file_idx }],
        Some(RenderedRow::Error { msg }) => seq![ReviewRow::Error { msg }],
        None => Seq::empty(),
    }
}

/// What rows `from` up to `to` of the review add to the panel, in order.
pub open spec fn rows_between(doc: ContinuousDiff, from: int, to: int, scroll: int, cursor: int) -> Seq<
    ReviewRow,
>
    decreases to - from,
{
    if to <= from {
        Seq::empty()
    } else {
        rows_between(doc, from, to - 1, scroll, cursor) + row_item(doc, to - 1, scroll, cursor)
    }
}

/// The panel's lines for a viewport of `height` rows from `scroll`: the pinned header of
/// the file holding the top row (none for a binary file), then the viewport's rows.
pub open spec fn review_rows_spec(doc: ContinuousDiff, scroll: int, cursor: int, height: int) -> Seq<
    ReviewRow,
> {
    let pinned = match pinned_file(doc, scroll) {
        Some(f) => if doc.files@[f as int].load is Binary {
            Seq::empty()
        } else {
            seq![ReviewRow::FileHeader { file_idx: f, pinned: true }]
        },
        None => Seq::empty(),
    };
    pinned + rows_between(doc, scroll, scroll + height, scroll, cursor)
}

/// The lines of the review panel for a viewport of `height` rows at the review's scroll
/// position.
pub fn review_rows(doc: &ContinuousDiff, review: &ReviewState, height: usize) -> (rows: Vec<
    ReviewRow,
>)
    requires
        doc.wf(),
        review.continuous_scroll + height <= usize::MAX,
    ensures
        rows@ == review_rows_spec(
            *doc,
            review.continuous_scroll as int,
            review.selected_row as int,
            height as int,
        ),
{
    let scroll = review.continuous_scroll;
    let cursor = review.selected_row;
    let selected = match doc.lookup_row(scroll) {
        Some(RenderedRow::HunkHeader { file_idx, hunk_idx }) => Some((file_idx, hunk_idx)),
        Some(RenderedRow::DiffRow { file_idx, hunk_idx, .. }) => Some((file_idx, hunk_idx)),
        _ => None,
    };
    let pinned = match doc.index.file_at_row(scroll) {
        Some((f, _)) => Some(f),
        None => None,
    };
    let mut rows: Vec<ReviewRow> = Vec::new();
    if let Some(f) = pinned {
        proof {
            assert(f < doc.files@.len());
        }
        match &doc.files[f].load {
            DiffLoadState::Binary => {},
            _ => rows.push(ReviewRow::FileHeader { file_idx: f, pinned: true }),
        }
    }
    let ghost pinned_rows = rows@;
    assert(pinned_rows + rows_between(*doc, scroll as int, scroll as int, scroll as int, cursor as int)
        =~= rows@);
    let end = scroll + height;
    let mut row = scroll;
    while row < end
        invariant
            doc.wf(),
            scroll <= row <= end,
            selected == selected_hunk_spec(*doc, scroll as int),
            pinned == pinned_file(*doc, scroll as int),
            rows@ == pinned_rows + rows_between(
                *doc,
                scroll as int,
                row as int,
                scroll as int,
                cursor as int,
            ),
        decreases end - row,
    {
        let ghost before = rows@;
        match doc.lookup_row(row) {
            Some(RenderedRow::FileHeader { file_idx }) => {
                if pinned != Some(file_idx) {
                    rows.push(ReviewRow::FileHeader { file_idx, pinned: false });
                }
            },
            Some(RenderedRow::SectionHeader { kind }) => {
                rows.push(ReviewRow::SectionHeader { kind });
            },
            Some(RenderedRow::HunkHeader { file_idx, hunk_idx }) => {
                if let DiffLoadState::Loaded { hunks, .. } = &doc.files[file_idx].load {
                    rows.push(
                        ReviewRow::HunkHeader {
                            file_idx,
                            hunk_idx,
                            hunk_count: hunks.len(),
                            insertions: hunks[hunk_idx].insertions,
                            deletions: hunks[hunk_idx].deletions,
                            selected: selected == Some((file_idx, hunk_idx)),
                        },
                    );
                }
            },
            Some(RenderedRow::DiffRow { file_idx, hunk_idx, row_idx }) => {
                if let DiffLoadState::Loaded { .. } = &doc.files[file_idx].load {
                    rows.push(
                        ReviewRow::Line {
                            file_idx,
                            hunk_idx,
                            row_idx,
                            selected: selected == Some((file_idx, hunk_idx)),
                            cursor: row == cursor,
                        },
                    );
                }
            },
            Some(RenderedRow::Loading) => {
                rows.push(ReviewRow::Loading);
            },
            Some(RenderedRow::Binary { file_idx }) => {
                rows.push(ReviewRow::Binary { file_idx });
            },
            Some(RenderedRow::Error { msg }) => {
                rows.push(ReviewRow::Error { msg });
            },
            None => {},
        }
        assert(rows@ =~= before + row_item(*doc, row as int, scroll as int, cursor as int));
        row = row + 1;
    }
    rows
}

} // verus!
