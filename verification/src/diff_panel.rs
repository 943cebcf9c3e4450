//! The diff panel: the cursor and the scroll position in the review document.
//!
//! The cursor stops only on lines of diffs.  Moving it keeps it away from the
//! edges of the viewport by a small margin, scrolling as needed; scrolling the
//! view moves the cursor back into it.  Hunk navigation puts the hunk's header
//! at the top of the viewport with the cursor on its first line.
use vstd::prelude::*;

use crate::state::diff::{next_layout_override, Diff, DiffLayout};
use crate::state::line_index::body_rows;
use crate::state::review::{
    capacity_before, file_at_row_spec, is_diff_row, lemma_rows_within_capacity, lookup_row_spec,
    rows_refer_to_lines, slot_capacity, ContinuousDiff, DiffLoadState, FileSlot, RenderedRow,
    ReviewState,
};
use crate::action::{Action, ScrollDirection};
use crate::files_panel::{file_at, keys_not_hiding, row_of_file, FilesPanel};
use crate::git::repository::{ComparisonRow, DiffHunk, DiffLine, FileEntry};
use crate::state::diff::layout_for_width_spec;
use crate::state::focus::Focus;
use crate::state::review::{key_matches, next_unreviewed_spec, slot_of_spec, toggled, FileKey};
use crate::state::tree::{keys_model, rows_model, tree_rows_spec};
use crate::store::DiffStore;
use crate::text::{chars_of, lemma_trailing_end_bound, trim_end_len, trim_end_spec};

verus! {

/// Rows moved per line of a scroll.
pub const SCROLL_STEP: usize = 1;

/// Columns moved per horizontal scroll.
pub const HORIZONTAL_SCROLL_STEP: usize = 4;

/// Columns of the change marker in front of each line.
pub const GUTTER_WIDTH: usize = 1;

/// Rows kept between the cursor and the edges of the viewport.
pub const VERTICAL_SCROLL_MARGIN: usize = 2;

/// The diff panel: its display settings and where it is in the review.
#[derive(Debug)]
pub struct DiffPanel {
    pub state: Diff,
    pub review: ReviewState,
}

/// The first row of `[from, to)` the cursor can stop on.
pub open spec fn first_selectable(doc: ContinuousDiff, from: int, to: int) -> Option<int>
    decreases to - from,
{
    if from >= to {
        None
    } else if is_diff_row(doc, from) {
        Some(from)
    } else {
        first_selectable(doc, from + 1, to)
    }
}

/// The last row of `[from, to)` the cursor can stop on.
pub open spec fn last_selectable(doc: ContinuousDiff, from: int, to: int) -> Option<int>
    decreases to - from,
{
    if to <= from {
        None
    } else if is_diff_row(doc, to - 1) {
        Some(to - 1)
    } else {
        last_selectable(doc, from, to - 1)
    }
}

/// `a - b`, or 0 when `b` is larger.
pub open spec fn sat_sub(a: int, b: int) -> int {
    if a >= b {
        a - b
    } else {
        0
    }
}

/// `a + b`, or `usize::MAX` when that is larger.
pub open spec fn sat_add(a: int, b: int) -> int {
    if a + b <= usize::MAX {
        a + b
    } else {
        usize::MAX as int
    }
}

/// The rows the viewport shows below the pinned file header: at least one.
pub open spec fn visible_rows(viewport_height: int) -> int {
    if viewport_height >= 2 {
        viewport_height - 1
    } else {
        1
    }
}

/// The margin kept between the cursor and the edges: two rows, or less in a small viewport.
pub open spec fn scroll_margin(visible: int) -> int {
    let half = sat_sub(visible, 1) / 2;
    if half < 2 {
        half
    } else {
        2
    }
}

/// The scroll position that shows the cursor at `selected` from `scroll`: moved only as far
/// as needed to keep the margin, and never past the last full viewport.
pub open spec fn scroll_to_show(scroll: int, selected: int, viewport_height: int, total: int) -> int {
    let visible = visible_rows(viewport_height);
    let margin = scroll_margin(visible);
    let bottom = sat_add(scroll, visible - 1);
    let upper_edge = sat_add(scroll, margin);
    let lower_edge = sat_sub(bottom, margin);
    let moved = if selected < upper_edge {
        sat_sub(selected, margin)
    } else if selected > lower_edge {
        sat_sub(selected, visible - 1 - margin)
    } else {
        scroll
    };
    let max_scroll = sat_sub(total, visible);
    if moved < max_scroll {
        moved
    } else {
        max_scroll
    }
}

/// The last row the review can scroll to.
pub open spec fn max_scroll_offset(doc: ContinuousDiff) -> int {
    sat_sub(doc.index.total_rows as int, 1)
}

/// Where the panel stands at a file: the file's first row at the top, the cursor on its
/// first diff line, or on its header when it shows none.
pub open spec fn position_at_file(doc: ContinuousDiff, file_idx: int) -> (int, int) {
    let starts = doc.index.file_starts@;
    let start = starts[file_idx] as int;
    let end = if file_idx + 1 < starts.len() {
        starts[file_idx + 1] as int
    } else {
        doc.index.total_rows as int
    };
    let selected = match first_selectable(doc, start, end) {
        Some(r) => r,
        None => start,
    };
    (start, selected)
}

/// Where the panel stands after moving to a file, when one is given and it exists; else the
/// position kept, brought back within the review's rows.
pub open spec fn synced(doc: ContinuousDiff, review: ReviewState, file_idx: Option<usize>) -> (
    int,
    int,
) {
    match file_idx {
        Some(f) if f < doc.files@.len() => position_at_file(doc, f as int),
        _ => {
            let max = max_scroll_offset(doc);
            (
                if review.continuous_scroll < max {
                    review.continuous_scroll as int
                } else {
                    max
                },
                if review.selected_row < max {
                    review.selected_row as int
                } else {
                    max
                },
            )
        },
    }
}

proof fn lemma_first_cap(doc: ContinuousDiff, from: int, to: int)
    ensures
        first_selectable(doc, from, to) == first_selectable(
            doc,
            from,
            if to < doc.index.total_rows {
                to
            } else {
                doc.index.total_rows as int
            },
        ),
    decreases to - from,
{
    let total = doc.index.total_rows as int;
    let cap = if to < total {
        to
    } else {
        total
    };
    if from < to {
        lemma_first_cap(doc, from + 1, to);
        if from >= total {
            assert(file_at_row_spec(doc.index.file_starts@, doc.index.total_rows, from) is None);
            assert(!is_diff_row(doc, from));
        }
    }
}

proof fn lemma_last_cap(doc: ContinuousDiff, from: int, to: int)
    ensures
        last_selectable(doc, from, to) == last_selectable(
            doc,
            from,
            if to < doc.index.total_rows {
                to
            } else {
                doc.index.total_rows as int
            },
        ),
    decreases to - from,
{
    let total = doc.index.total_rows as int;
    if to > from && to > total {
        assert(file_at_row_spec(doc.index.file_starts@, doc.index.total_rows, to - 1) is None);
        assert(!is_diff_row(doc, to - 1));
        lemma_last_cap(doc, from, to - 1);
    }
}

/// The first row of `[from, to)` the cursor can stop on.
fn find_first_selectable(doc: &ContinuousDiff, from: usize, to: usize) -> (r: Option<usize>)
    requires
        doc.wf(),
    ensures
        match r {
            Some(row) => first_selectable(*doc, from as int, to as int) == Some(row as int),
            None => first_selectable(*doc, from as int, to as int) is None,
        },
{
    proof {
        lemma_first_cap(*doc, from as int, to as int);
    }
    let end = if to < doc.index.total_rows {
        to
    } else {
        doc.index.total_rows
    };
    let mut row = from;
    while row < end
        invariant
            doc.wf(),
            from <= row,
            first_selectable(*doc, from as int, end as int) == first_selectable(
                *doc,
                row as int,
                end as int,
            ),
            first_selectable(*doc, from as int, to as int) == first_selectable(
                *doc,
                from as int,
                end as int,
            ),
        decreases end - row,
    {
        if doc.is_selectable_row(row) {
            assert(first_selectable(*doc, row as int, end as int) == Some(row as int));
            return Some(row);
        }
        row = row + 1;
    }
    None
}

/// The last row of `[from, to)` the cursor can stop on.
fn find_last_selectable(doc: &ContinuousDiff, from: usize, to: usize) -> (r: Option<usize>)
    requires
        doc.wf(),
    ensures
        match r {
            Some(row) => last_selectable(*doc, from as int, to as int) == Some(row as int),
            None => last_selectable(*doc, from as int, to as int) is None,
        },
{
    proof {
        lemma_last_cap(*doc, from as int, to as int);
    }
    let mut row = if to < doc.index.total_rows {
        to
    } else {
        doc.index.total_rows
    };
    let ghost end = row as int;
    while row > from
        invariant
            doc.wf(),
            last_selectable(*doc, from as int, end) == last_selectable(*doc, from as int, row as int),
            last_selectable(*doc, from as int, to as int) == last_selectable(*doc, from as int, end),
        decreases row,
    {
        if doc.is_selectable_row(row - 1) {
            assert(last_selectable(*doc, from as int, row as int) == Some(row - 1));
            return Some(row - 1);
        }
        row = row - 1;
    }
    None
}

impl DiffPanel {
    /// A panel at the top of the review, with tabs `tab_width` columns wide.
    pub fn new(tab_width: usize) -> (panel: DiffPanel)
        ensures
            panel.state.viewport_width == 1,
            panel.state.viewport_height == 1,
            panel.state.show_line_numbers,
            panel.state.horizontal_scroll == 0,
            panel.state.tab_width == tab_width,
            panel.state.max_horizontal_scroll == 0,
            panel.state.layout_override is None,
            panel.review.continuous_scroll == 0,
            panel.review.selected_row == 0,
    {
        DiffPanel {
            state: Diff::new(tab_width),
            review: ReviewState { continuous_scroll: 0, selected_row: 0 },
        }
    }

    /// The display settings.
    pub fn state(&self) -> (r: &Diff)
        ensures
            *r == self.state,
    {
        &self.state
    }

    /// The scroll position and the cursor.
    pub fn review(&self) -> (r: &ReviewState)
        ensures
            *r == self.review,
    {
        &self.review
    }

    /// Sets the viewport height.
    pub fn set_viewport_height(&mut self, height: usize)
        ensures
            final(self).state.viewport_height == if height >= 1 {
                height
            } else {
                1
            },
            final(self).state.viewport_width == old(self).state.viewport_width,
            final(self).state.show_line_numbers == old(self).state.show_line_numbers,
            final(self).state.tab_width == old(self).state.tab_width,
            final(self).state.horizontal_scroll == old(self).state.horizontal_scroll,
            final(self).state.max_horizontal_scroll == old(self).state.max_horizontal_scroll,
            final(self).state.layout_override == old(self).state.layout_override,
            final(self).review == old(self).review,
    {
        self.state.set_viewport_height(height);
    }

    /// The file the cursor is in.
    pub fn current_continuous_file_idx(&self, store: &DiffStore) -> (r: Option<usize>)
        requires
            store.wf(),
        ensures
            r == match file_at_row_spec(
                store.continuous_diff.index.file_starts@,
                store.continuous_diff.index.total_rows,
                self.review.selected_row as int,
            ) {
                Some((f, _)) => Some(f),
                None => None::<usize>,
            },
            r matches Some(f) ==> f < store.continuous_diff.files@.len(),
    {
        match store.continuous_diff.index.file_at_row(self.review.selected_row) {
            Some((file_idx, _)) => Some(file_idx),
            None => None,
        }
    }

    /// Puts the file's first row at the top and the cursor on its first diff line, or on its
    /// header when it shows none.
    fn set_position_to_file(&mut self, file_idx: usize, store: &DiffStore)
        requires
            store.wf(),
            file_idx < store.continuous_diff.index.file_starts@.len(),
        ensures
            (final(self).review.continuous_scroll as int, final(self).review.selected_row as int)
                == position_at_file(store.continuous_diff, file_idx as int),
            final(self).state == old(self).state,
    {
        let doc = &store.continuous_diff;
        assert(file_idx < doc.index.file_starts.len());
        let file_start = doc.index.file_starts[file_idx];
        let file_end = if file_idx + 1 < doc.index.file_starts.len() {
            doc.index.file_starts[file_idx + 1]
        } else {
            doc.index.total_rows
        };
        let selected_row = match find_first_selectable(doc, file_start, file_end) {
            Some(row) => row,
            None => file_start,
        };
        self.review.continuous_scroll = file_start;
        self.review.selected_row = selected_row;
    }

    /// Moves to a file of the review when one is given and it exists; otherwise keeps the
    /// position, brought back within the review's rows.
    pub fn sync_continuous_scroll_to_file(&mut self, file_idx: Option<usize>, store: &DiffStore)
        requires
            store.wf(),
            store.continuous_diff.index.file_starts@.len() == store.continuous_diff.files@.len(),
        ensures
            (final(self).review.continuous_scroll as int, final(self).review.selected_row as int)
                == synced(store.continuous_diff, old(self).review, file_idx),
            final(self).state == old(self).state,
    {
        if let Some(f) = file_idx {
            if f < store.continuous_diff.files.len() {
                self.set_position_to_file(f, store);
                return;
            }
        }
        let max_offset = self.max_continuous_scroll_offset(store);
        if self.review.continuous_scroll > max_offset {
            self.review.continuous_scroll = max_offset;
        }
        if self.review.selected_row > max_offset {
            self.review.selected_row = max_offset;
        }
    }

    /// The last row the review can scroll to.
    fn max_continuous_scroll_offset(&self, store: &DiffStore) -> (r: usize)
        ensures
            r == max_scroll_offset(store.continuous_diff),
    {
        store.continuous_diff.index.total_rows.saturating_sub(1)
    }

    /// Scrolls so that the cursor shows with a margin from the edges.
    fn ensure_selection_visible(&mut self, store: &DiffStore)
        ensures
            final(self).review.continuous_scroll as int == scroll_to_show(
                old(self).review.continuous_scroll as int,
                old(self).review.selected_row as int,
                old(self).state.viewport_height as int,
                store.continuous_diff.index.total_rows as int,
            ),
            final(self).review.selected_row == old(self).review.selected_row,
            final(self).state == old(self).state,
    {
        let below_header = self.state.viewport_height.saturating_sub(1);
        let visible_height = if below_header > 1 {
            below_header
        } else {
            1
        };
        let half = (visible_height - 1) / 2;
        let margin = if VERTICAL_SCROLL_MARGIN < half {
            VERTICAL_SCROLL_MARGIN
        } else {
            half
        };
        let selected = self.review.selected_row;
        let top = self.review.continuous_scroll;
        let bottom = top.saturating_add(visible_height - 1);
        let upper_edge = top.saturating_add(margin);
        let lower_edge = bottom.saturating_sub(margin);
        if selected < upper_edge {
            self.review.continuous_scroll = selected.saturating_sub(margin);
        } else if selected > lower_edge {
            self.review.continuous_scroll = selected.saturating_sub(visible_height - 1 - margin);
        }
        let max_scroll = store.continuous_diff.index.total_rows.saturating_sub(visible_height);
        if self.review.continuous_scroll > max_scroll {
            self.review.continuous_scroll = max_scroll;
        }
    }

    /// Moves the cursor to the next diff line, scrolling to show it; stays when there is none.
    pub fn select_next_line(&mut self, store: &DiffStore)
        requires
            store.wf(),
        ensures
            line_moved_down(
                old(self).review,
                final(self).review,
                store.continuous_diff,
                old(self).state.viewport_height as int,
            ),
            final(self).state == old(self).state,
    {
        let start = self.review.selected_row.saturating_add(1);
        if let Some(row) = find_first_selectable(
            &store.continuous_diff,
            start,
            store.continuous_diff.index.total_rows,
        ) {
            self.review.selected_row = row;
            self.ensure_selection_visible(store);
        }
    }

    /// Moves the cursor to the previous diff line, scrolling to show it; stays when there is
    /// none.
    pub fn select_previous_line(&mut self, store: &DiffStore)
        requires
            store.wf(),
        ensures
            line_moved_up(
                old(self).review,
                final(self).review,
                store.continuous_diff,
                old(self).state.viewport_height as int,
            ),
            final(self).state == old(self).state,
    {
        if let Some(row) = find_last_selectable(&store.continuous_diff, 0, self.review.selected_row)
        {
            self.review.selected_row = row;
            self.ensure_selection_visible(store);
        }
    }

    /// After a scroll, brings the cursor back into the viewport: to its first diff line when
    /// the cursor is above it, to its last when below; it stays when there is none.
    fn keep_selection_in_view(&mut self, store: &DiffStore)
        requires
            store.wf(),
        ensures
            selection_kept_in_view(
                old(self).review,
                final(self).review,
                store.continuous_diff,
                old(self).state.viewport_height as int,
            ),
            final(self).review.continuous_scroll == old(self).review.continuous_scroll,
            final(self).state == old(self).state,
    {
        let below_header = self.state.viewport_height.saturating_sub(1);
        let visible_height = if below_header > 1 {
            below_header
        } else {
            1
        };
        let top = self.review.continuous_scroll;
        let bottom = top.saturating_add(visible_height - 1);
        let total = store.continuous_diff.index.total_rows;
        let end = if bottom < total {
            bottom + 1
        } else {
            total
        };
        proof {
            lemma_first_cap(store.continuous_diff, top as int, bottom as int + 1);
            lemma_first_cap(store.continuous_diff, top as int, end as int);
            lemma_last_cap(store.continuous_diff, top as int, bottom as int + 1);
            lemma_last_cap(store.continuous_diff, top as int, end as int);
        }
        if self.review.selected_row < top {
            if let Some(row) = find_first_selectable(&store.continuous_diff, top, end) {
                self.review.selected_row = row;
            }
        } else if self.review.selected_row > bottom {
            if let Some(row) = find_last_selectable(&store.continuous_diff, top, end) {
                self.review.selected_row = row;
            }
        }
    }
}

/// Where a file starts in the index, or row 0 when the index does not hold it.
pub open spec fn file_start_or_zero(doc: ContinuousDiff, f: int) -> int {
    if f < doc.index.file_starts@.len() {
        doc.index.file_starts@[f] as int
    } else {
        0
    }
}

/// The header rows of a file's hunks in the review, unless the file is reviewed or its diff
/// is not loaded.
pub open spec fn file_hunk_rows(doc: ContinuousDiff, f: int) -> Seq<int> {
    let slot = doc.files@[f];
    if slot.reviewed {
        Seq::<int>::empty()
    } else {
        match slot.load {
            DiffLoadState::Loaded { index, .. } => index.starts_of(doc.layout).map_values(
                |h: usize| file_start_or_zero(doc, f) + 1 + h,
            ),
            _ => Seq::<int>::empty(),
        }
    }
}

/// The hunk header rows of the first `n` files, in order.
pub open spec fn hunk_rows_upto(doc: ContinuousDiff, n: int) -> Seq<int>
    decreases n,
{
    if n <= 0 {
        Seq::<int>::empty()
    } else {
        hunk_rows_upto(doc, n - 1) + file_hunk_rows(doc, n - 1)
    }
}

/// The hunk header rows of the review, in order.
pub open spec fn hunk_rows(doc: ContinuousDiff) -> Seq<int> {
    hunk_rows_upto(doc, doc.files@.len() as int)
}

/// The first entry of `rows` greater than `x`.
pub open spec fn first_after(rows: Seq<int>, x: int) -> Option<int>
    decreases rows.len(),
{
    if rows.len() == 0 {
        None
    } else if rows[0] > x {
        Some(rows[0])
    } else {
        first_after(rows.drop_first(), x)
    }
}

/// The last entry of `rows` less than `x`.
pub open spec fn last_before(rows: Seq<int>, x: int) -> Option<int>
    decreases rows.len(),
{
    if rows.len() == 0 {
        None
    } else if rows.last() < x {
        Some(rows.last())
    } else {
        last_before(rows.drop_last(), x)
    }
}

/// The header row of the hunk the cursor is in, when the cursor is on a hunk header or line.
pub open spec fn selected_header_spec(doc: ContinuousDiff, selected: int) -> Option<int> {
    let target = match lookup_row_spec(doc, selected) {
        Some(RenderedRow::HunkHeader { file_idx, hunk_idx }) => Some((file_idx, hunk_idx)),
        Some(RenderedRow::DiffRow { file_idx, hunk_idx, .. }) => Some((file_idx, hunk_idx)),
        _ => None,
    };
    match target {
        None => None,
        Some((f, h)) => if f < doc.index.file_starts@.len() {
            match doc.files@[f as int].load {
                DiffLoadState::Loaded { index, .. } => if h < index.starts_of(doc.layout).len() {
                    Some(doc.index.file_starts@[f as int] + 1 + index.starts_of(doc.layout)[h as int])
                } else {
                    None
                },
                _ => None,
            }
        } else {
            None
        },
    }
}

/// Where a hunk header puts the panel: the header at the top, the cursor on the row after it
/// when that is a diff line, else on the header.
pub open spec fn at_hunk(doc: ContinuousDiff, header: int) -> (int, int) {
    if header < usize::MAX && is_diff_row(doc, header + 1) {
        (header, header + 1)
    } else {
        (header, header)
    }
}

/// A row of the review from a file start and a row of that file's diff fits in `usize`.
proof fn lemma_hunk_row_bound(doc: ContinuousDiff, f: int, h: int, layout: DiffLayout)
    requires
        doc.wf(),
        0 <= f < doc.files@.len(),
        doc.files@[f].load is Loaded,
        0 <= h < doc.files@[f].load->index.starts_of(layout).len(),
    ensures
        ({
            let index = doc.files@[f].load->index;
            let hunks = doc.files@[f].load->hunks;
            &&& file_start_or_zero(doc, f) + 1 + index.starts_of(layout)[h] < usize::MAX
            &&& h < hunks@.len() ==> file_start_or_zero(doc, f) + 1 + index.starts_of(layout)[h]
                + body_rows(hunks@[h], layout) < usize::MAX
        }),
{
    let files = doc.files@;
    let index = files[f].load->index;
    let hunks = files[f].load->hunks;
    assert(files[f].wf());
    assert(index.starts_of(layout)[h] < index.total_of(layout));
    lemma_rows_within_capacity(files, doc.layout, files.len() as int);
    assert(capacity_before(files, f + 1) == capacity_before(files, f) + slot_capacity(files[f]));
    assert(capacity_before(files, f + 1) <= capacity_before(files, files.len() as int));
    if f < doc.index.file_starts@.len() {
        assert(doc.index.file_starts@[f] <= capacity_before(files, f));
    }
    if h < hunks@.len() {
        assert(index.starts_of(layout)[h] + 1 + body_rows(hunks@[h], layout) <= index.total_of(
            layout,
        ));
    }
}

/// The first entry of `rows` greater than `x`.
fn find_first_after(rows: &Vec<usize>, x: usize) -> (r: Option<usize>)
    ensures
        match r {
            Some(v) => first_after(ints(rows@), x as int) == Some(v as int),
            None => first_after(ints(rows@), x as int) is None,
        },
{
    let ghost rm = ints(rows@);
    let mut i: usize = 0;
    assert(rm.skip(0) =~= rm);
    while i < rows.len()
        invariant
            i <= rows.len(),
            rm == ints(rows@),
            first_after(rm, x as int) == first_after(rm.skip(i as int), x as int),
        decreases rows.len() - i,
    {
        assert(rm.skip(i as int)[0] == rows@[i as int] as int);
        if rows[i] > x {
            return Some(rows[i]);
        }
        assert(rm.skip(i as int).drop_first() =~= rm.skip(i as int + 1));
        i = i + 1;
    }
    None
}

/// The last entry of `rows` less than `x`.
fn find_last_before(rows: &Vec<usize>, x: usize) -> (r: Option<usize>)
    ensures
        match r {
            Some(v) => last_before(ints(rows@), x as int) == Some(v as int),
            None => last_before(ints(rows@), x as int) is None,
        },
{
    let ghost rm = ints(rows@);
    let mut j: usize = rows.len();
    assert(rm.take(rows.len() as int) =~= rm);
    while j > 0
        invariant
            j <= rows.len(),
            rm == ints(rows@),
            last_before(rm, x as int) == last_before(rm.take(j as int), x as int),
        decreases j,
    {
        assert(rm.take(j as int).last() == rows@[j - 1] as int);
        if rows[j - 1] < x {
            return Some(rows[j - 1]);
        }
        assert(rm.take(j as int).drop_last() =~= rm.take(j as int - 1));
        j = j - 1;
    }
    None
}

/// Row numbers as integers.
pub open spec fn ints(rows: Seq<usize>) -> Seq<int> {
    rows.map_values(|r: usize| r as int)
}

impl DiffPanel {
    /// Whether the cursor can stop on a row.
    fn is_selectable_row(store: &DiffStore, row: usize) -> (r: bool)
        requires
            store.wf(),
        ensures
            r == is_diff_row(store.continuous_diff, row as int),
    {
        store.continuous_diff.is_selectable_row(row)
    }

    /// The hunk header rows of the review, in order, skipping reviewed files.
    fn continuous_hunk_rows(&self, store: &DiffStore) -> (rows: Vec<usize>)
        requires
            store.wf(),
        ensures
            ints(rows@) == hunk_rows(store.continuous_diff),
    {
        let doc = &store.continuous_diff;
        let mut rows: Vec<usize> = Vec::new();
        let mut f: usize = 0;
        while f < doc.files.len()
            invariant
                doc.wf(),
                f <= doc.files.len(),
                ints(rows@) == hunk_rows_upto(*doc, f as int),
            decreases doc.files.len() - f,
        {
            let slot = &doc.files[f];
            let ghost before = ints(rows@);
            if !slot.reviewed {
                if let DiffLoadState::Loaded { index, .. } = &slot.load {
                    let file_start = if f < doc.index.file_starts.len() {
                        doc.index.file_starts[f]
                    } else {
                        0
                    };
                    let starts = index.hunk_starts_for(doc.layout);
                    let mut k: usize = 0;
                    while k < starts.len()
                        invariant
                            doc.wf(),
                            f < doc.files.len(),
                            doc.files@[f as int].load is Loaded,
                            *index == doc.files@[f as int].load->index,
                            starts@ == index.starts_of(doc.layout),
                            file_start == file_start_or_zero(*doc, f as int),
                            k <= starts.len(),
                            ints(rows@) == before + index.starts_of(doc.layout).take(
                                k as int,
                            ).map_values(|h: usize| file_start_or_zero(*doc, f as int) + 1 + h),
                        decreases starts.len() - k,
                    {
                        proof {
                            lemma_hunk_row_bound(*doc, f as int, k as int, doc.layout);
                        }
                        let ghost prev = ints(rows@);
                        rows.push(file_start + 1 + starts[k]);
                        assert(index.starts_of(doc.layout).take(k as int + 1).map_values(
                            |h: usize| file_start_or_zero(*doc, f as int) + 1 + h,
                        ) =~= index.starts_of(doc.layout).take(k as int).map_values(
                            |h: usize| file_start_or_zero(*doc, f as int) + 1 + h,
                        ).push(file_start_or_zero(*doc, f as int) + 1 + starts@[k as int]));
                        assert(ints(rows@) =~= prev.push(file_start + 1 + starts@[k as int]));
                        k = k + 1;
                    }
                    assert(index.starts_of(doc.layout).take(k as int) =~= index.starts_of(
                        doc.layout,
                    ));
                } else {
                    assert(file_hunk_rows(*doc, f as int) =~= Seq::<int>::empty());
                }
            } else {
                assert(file_hunk_rows(*doc, f as int) =~= Seq::<int>::empty());
            }
            assert(ints(rows@) =~= hunk_rows_upto(*doc, f as int + 1));
            f = f + 1;
        }
        rows
    }

    /// The header row of the hunk the cursor is in, when it is on a hunk header or line.
    fn selected_hunk_header_row(&self, store: &DiffStore) -> (r: Option<usize>)
        requires
            store.wf(),
        ensures
            match r {
                Some(row) => selected_header_spec(store.continuous_diff, self.review.selected_row as int)
                    == Some(row as int),
                None => selected_header_spec(store.continuous_diff, self.review.selected_row as int)
                    is None,
            },
    {
        let doc = &store.continuous_diff;
        let (file_idx, hunk_idx) = match doc.lookup_row(self.review.selected_row) {
            Some(RenderedRow::HunkHeader { file_idx, hunk_idx }) => (file_idx, hunk_idx),
            Some(RenderedRow::DiffRow { file_idx, hunk_idx, .. }) => (file_idx, hunk_idx),
            _ => {
                return None;
            },
        };
        if file_idx >= doc.index.file_starts.len() {
            return None;
        }
        let file_start = doc.index.file_starts[file_idx];
        let index = match &doc.files[file_idx].load {
            DiffLoadState::Loaded { index, .. } => index,
            _ => {
                return None;
            },
        };
        let starts = index.hunk_starts_for(doc.layout);
        if hunk_idx >= starts.len() {
            return None;
        }
        proof {
            lemma_hunk_row_bound(*doc, file_idx as int, hunk_idx as int, doc.layout);
        }
        Some(file_start + 1 + starts[hunk_idx])
    }

    /// Puts a hunk header at the top with the cursor on the hunk's first line.
    fn select_hunk_at_row(&mut self, hunk_header: usize, store: &DiffStore)
        requires
            store.wf(),
        ensures
            (final(self).review.continuous_scroll as int, final(self).review.selected_row as int)
                == at_hunk(store.continuous_diff, hunk_header as int),
            final(self).state == old(self).state,
    {
        self.review.continuous_scroll = hunk_header;
        self.review.selected_row = if hunk_header < usize::MAX && Self::is_selectable_row(
            store,
            hunk_header + 1,
        ) {
            hunk_header + 1
        } else {
            hunk_header
        };
    }

    /// Moves to the next hunk after the one the cursor is in (or after the cursor), if any.
    pub fn select_next_hunk(&mut self, store: &DiffStore)
        requires
            store.wf(),
        ensures
            hunk_moved_next(old(self).review, final(self).review, store.continuous_diff),
            final(self).state == old(self).state,
    {
        let current = match self.selected_hunk_header_row(store) {
            Some(row) => row,
            None => self.review.selected_row,
        };
        let rows = self.continuous_hunk_rows(store);
        if let Some(row) = find_first_after(&rows, current) {
            self.select_hunk_at_row(row, store);
        }
    }

    /// Moves to the hunk before the one the cursor is in (or before the cursor), if any.
    pub fn select_previous_hunk(&mut self, store: &DiffStore)
        requires
            store.wf(),
        ensures
            hunk_moved_previous(old(self).review, final(self).review, store.continuous_diff),
            final(self).state == old(self).state,
    {
        let current = match self.selected_hunk_header_row(store) {
            Some(row) => row,
            None => self.review.selected_row,
        };
        let rows = self.continuous_hunk_rows(store);
        if let Some(row) = find_last_before(&rows, current) {
            self.select_hunk_at_row(row, store);
        }
    }
}

/// The columns `unicode_width` gives a character: `None` for a control character.
pub uninterp spec fn unicode_char_width(c: char) -> Option<usize>;

/// Calls `unicode_width::UnicodeWidthChar::width`.  Its answer is a fixed function of the
/// character, named here; the contract also states what the crate's source shows for the
/// first code points: printable ASCII takes one column, the C0 and C1 control characters
/// have no width, and no answer exceeds 255.
#[verifier::external_body]
fn char_width(c: char) -> (r: Option<usize>)
    ensures
        r == unicode_char_width(c),
        0x20 <= (c as u32) < 0x7f ==> r == Some(1usize),
        (c as u32) < 0x20 || (0x7f <= (c as u32) < 0xa0) ==> r is None,
        r matches Some(w) ==> w <= 255,
{
    unicode_width::UnicodeWidthChar::width(c)
}

/// The columns a character takes on screen: a tab its width, others as `unicode_width`
/// says, control characters none.
pub open spec fn char_columns(c: char, tab_width: usize) -> int {
    if c == '\t' {
        tab_width as int
    } else {
        match unicode_char_width(c) {
            Some(w) => w as int,
            None => 0,
        }
    }
}

/// The columns the characters take on screen.
pub open spec fn columns(s: Seq<char>, tab_width: usize) -> int
    decreases s.len(),
{
    if s.len() == 0 {
        0
    } else {
        columns(s.drop_last(), tab_width) + char_columns(s.last(), tab_width)
    }
}

/// The columns a line's content takes without its trailing whitespace, saturated at
/// `usize::MAX`.
pub open spec fn display_width_spec(s: Seq<char>, tab_width: usize) -> int {
    let w = columns(trim_end_spec(s), tab_width);
    if w <= usize::MAX {
        w
    } else {
        usize::MAX as int
    }
}

proof fn lemma_columns_nonneg(s: Seq<char>, tab_width: usize)
    ensures
        columns(s, tab_width) >= 0,
    decreases s.len(),
{
    if s.len() > 0 {
        lemma_columns_nonneg(s.drop_last(), tab_width);
    }
}

/// The columns a line's content takes without its trailing whitespace: tabs `tab_width`
/// each, other characters their display width; saturated at `usize::MAX`.
pub fn display_width(content: &str, tab_width: usize) -> (r: usize)
    ensures
        r == display_width_spec(content@, tab_width),
{
    let chars = chars_of(content);
    let end = trim_end_len(&chars);
    proof {
        lemma_trailing_end_bound(chars@);
    }
    let ghost t = chars@.take(end as int);
    let mut total: usize = 0;
    let mut i: usize = 0;
    assert(t.take(0) =~= Seq::<char>::empty());
    while i < end
        invariant
            i <= end <= chars.len(),
            t == chars@.take(end as int),
            total as int == if columns(t.take(i as int), tab_width) <= usize::MAX {
                columns(t.take(i as int), tab_width)
            } else {
                usize::MAX as int
            },
        decreases end - i,
    {
        let c = chars[i];
        let add = if c == '\t' {
            tab_width
        } else {
            match char_width(c) {
                Some(w) => w,
                None => 0,
            }
        };
        proof {
            assert(t.take(i as int + 1).drop_last() =~= t.take(i as int));
            assert(t.take(i as int + 1).last() == c);
            lemma_columns_nonneg(t.take(i as int), tab_width);
        }
        total = if add > usize::MAX - total {
            usize::MAX
        } else {
            total + add
        };
        i = i + 1;
    }
    assert(t.take(end as int) =~= t);
    total
}

/// The number of decimal digits of `n`.
pub open spec fn decimal_digits(n: nat) -> nat
    decreases n,
{
    if n < 10 {
        1
    } else {
        1 + decimal_digits(n / 10)
    }
}

/// `10` to the power `k`.
pub open spec fn pow10(k: nat) -> nat
    decreases k,
{
    if k == 0 {
        1
    } else {
        10 * pow10((k - 1) as nat)
    }
}

proof fn lemma_digits_le(n: nat, k: nat)
    requires
        k >= 1,
        n < pow10(k),
    ensures
        1 <= decimal_digits(n) <= k,
    decreases k,
{
    if n >= 10 {
        let p = pow10((k - 1) as nat);
        if k == 1 {
            assert(pow10(1) == 10);
        } else {
            assert(n / 10 < p) by (nonlinear_arith)
                requires
                    n < 10 * p,
            ;
            lemma_digits_le(n / 10, (k - 1) as nat);
        }
    }
}

proof fn lemma_pow10_ten()
    ensures
        pow10(10) == 10000000000,
{
    reveal_with_fuel(pow10, 11);
}

/// The columns a line number takes: its digits, at least four; four when there is none.
pub open spec fn number_columns(n: Option<u32>) -> int {
    match n {
        None => 4,
        Some(v) => if decimal_digits(v as nat) > 4 {
            decimal_digits(v as nat) as int
        } else {
            4
        },
    }
}

/// The digits of `n`.
fn digit_count(n: u32) -> (r: usize)
    ensures
        r == decimal_digits(n as nat),
        r <= 10,
{
    proof {
        lemma_pow10_ten();
        lemma_digits_le(n as nat, 10);
    }
    let mut count: usize = 1;
    let mut m = n;
    while m >= 10
        invariant
            decimal_digits(n as nat) == count - 1 + decimal_digits(m as nat),
            decimal_digits(n as nat) <= 10,
            1 <= count,
        decreases m,
    {
        proof {
            lemma_pow10_ten();
            lemma_digits_le((m / 10) as nat, 10);
        }
        m = m / 10;
        count = count + 1;
    }
    count
}

/// The columns a line number takes: its digits, at least four; four when there is none.
pub fn line_number_width(line_number: Option<u32>) -> (r: usize)
    ensures
        r == number_columns(line_number),
        4 <= r <= 10,
{
    match line_number {
        None => 4,
        Some(number) => {
            let digits = digit_count(number);
            if digits > 4 {
                digits
            } else {
                4
            }
        },
    }
}

/// The columns before a line's content in the unified layout.
pub open spec fn unified_prefix_spec(old: Option<u32>, new: Option<u32>, show: bool) -> int {
    if show {
        number_columns(old) + number_columns(new) + 4
    } else {
        2
    }
}

/// The columns before a line's content on one side of the side-by-side layout.
pub open spec fn split_prefix_spec(n: Option<u32>, show: bool) -> int {
    if show {
        number_columns(n) + 3
    } else {
        2
    }
}

/// The columns before a line's content in the unified layout: both line numbers and their
/// separators when numbers are shown, else two.
pub fn unified_prefix_width(old_lineno: Option<u32>, new_lineno: Option<u32>, show_line_numbers: bool) -> (r:
    usize)
    ensures
        r == unified_prefix_spec(old_lineno, new_lineno, show_line_numbers),
        r <= 24,
{
    if show_line_numbers {
        line_number_width(old_lineno) + line_number_width(new_lineno) + 4
    } else {
        2
    }
}

/// The columns before a line's content on one side of the side-by-side layout: its line
/// number and separators when numbers are shown, else two.
pub fn split_prefix_width(line_number: Option<u32>, show_line_numbers: bool) -> (r: usize)
    ensures
        r == split_prefix_spec(line_number, show_line_numbers),
        r <= 13,
{
    if show_line_numbers {
        line_number_width(line_number) + 3
    } else {
        2
    }
}

/// The largest of the values, or 0 when there are none.
pub open spec fn seq_max(s: Seq<int>) -> int
    decreases s.len(),
{
    if s.len() == 0 {
        0
    } else {
        let m = seq_max(s.drop_last());
        if s.last() > m {
            s.last()
        } else {
            m
        }
    }
}

/// How far a line's content runs past the columns available to it.
pub open spec fn line_overflow(content: Seq<char>, tab_width: usize, available: int) -> int {
    sat_sub(display_width_spec(content, tab_width), available)
}

/// The settings that decide how far lines run past the viewport: its width in columns,
/// the width of a tab, and whether line numbers are shown.
pub struct WidthSettings {
    pub viewport_width: usize,
    pub tab_width: usize,
    pub show_line_numbers: bool,
}

/// The width settings of a panel's display settings.
pub open spec fn widths(state: Diff) -> WidthSettings {
    WidthSettings {
        viewport_width: state.viewport_width,
        tab_width: state.tab_width,
        show_line_numbers: state.show_line_numbers,
    }
}

/// How far each line of a hunk runs past the viewport in the unified layout.
pub open spec fn unified_overflows(hunk: DiffHunk, state: WidthSettings) -> Seq<int> {
    hunk.lines@.map_values(
        |line: DiffLine|
            line_overflow(
                line.content@,
                state.tab_width,
                sat_sub(
                    state.viewport_width as int,
                    GUTTER_WIDTH + unified_prefix_spec(
                        line.old_lineno,
                        line.new_lineno,
                        state.show_line_numbers,
                    ),
                ),
            ),
    )
}

/// How far the line on one side of a side-by-side row runs past that side's columns.
pub open spec fn side_overflow(
    hunk: DiffHunk,
    idx: Option<usize>,
    old_side: bool,
    width: int,
    state: WidthSettings,
) -> int {
    match idx {
        Some(i) => {
            let line = hunk.lines@[i as int];
            let number = if old_side {
                line.old_lineno
            } else {
                line.new_lineno
            };
            line_overflow(
                line.content@,
                state.tab_width,
                sat_sub(width, GUTTER_WIDTH + split_prefix_spec(number, state.show_line_numbers)),
            )
        },
        None => 0,
    }
}

/// How far each side-by-side row of a hunk runs past its side, the larger of its two sides.
pub open spec fn split_overflows(hunk: DiffHunk, state: WidthSettings) -> Seq<int> {
    let left = (state.viewport_width / 2) as int;
    let right = sat_sub(state.viewport_width as int, left);
    hunk.comparison_rows@.map_values(
        |row: ComparisonRow|
            {
                let a = side_overflow(hunk, row.old_line_idx, true, left, state);
                let b = side_overflow(hunk, row.new_line_idx, false, right, state);
                if a > b {
                    a
                } else {
                    b
                }
            },
    )
}

/// How far the widest line of a hunk runs past the viewport in a layout.
pub open spec fn hunk_overflow(hunk: DiffHunk, layout: DiffLayout, state: WidthSettings) -> int {
    match layout {
        DiffLayout::Unified => seq_max(unified_overflows(hunk, state)),
        DiffLayout::SideBySide => seq_max(split_overflows(hunk, state)),
    }
}

/// How far the widest line of a file's loaded diff runs past the viewport.
pub open spec fn slot_overflow(slot: FileSlot, layout: DiffLayout, state: WidthSettings) -> int {
    match slot.load {
        DiffLoadState::Loaded { hunks, .. } => seq_max(
            hunks@.map_values(|h: DiffHunk| hunk_overflow(h, layout, state)),
        ),
        _ => 0,
    }
}

/// How far the widest loaded line of the review runs past the viewport: the largest
/// horizontal scroll.
pub open spec fn review_overflow(doc: ContinuousDiff, state: WidthSettings) -> int {
    seq_max(doc.files@.map_values(|s: FileSlot| slot_overflow(s, doc.layout, state)))
}

proof fn lemma_seq_max_step(s: Seq<int>, k: int)
    requires
        0 <= k < s.len(),
    ensures
        seq_max(s.take(k + 1)) == if s[k] > seq_max(s.take(k)) {
            s[k]
        } else {
            seq_max(s.take(k))
        },
{
    assert(s.take(k + 1).drop_last() =~= s.take(k));
    assert(s.take(k + 1).last() == s[k]);
}

proof fn lemma_seq_max_nonneg(s: Seq<int>)
    ensures
        seq_max(s) >= 0,
    decreases s.len(),
{
    if s.len() > 0 {
        lemma_seq_max_nonneg(s.drop_last());
    }
}

impl DiffPanel {
    /// How far the widest line of a hunk runs past the viewport in a layout.
    fn hunk_max_overflow(&self, hunk: &DiffHunk, layout: DiffLayout) -> (r: usize)
        requires
            rows_refer_to_lines(seq![*hunk]),
        ensures
            r == hunk_overflow(*hunk, layout, widths(self.state)),
    {
        assert(seq![*hunk][0] == *hunk);
        let state = &self.state;
        let mut max_scroll: usize = 0;
        match layout {
            DiffLayout::Unified => {
                let ghost all = unified_overflows(*hunk, widths(*state));
                let mut i: usize = 0;
                assert(all.take(0) =~= Seq::<int>::empty());
                while i < hunk.lines.len()
                    invariant
                        i <= hunk.lines.len(),
                        all == unified_overflows(*hunk, widths(*state)),
                        max_scroll as int == seq_max(all.take(i as int)),
                    decreases hunk.lines.len() - i,
                {
                    let line = &hunk.lines[i];
                    let prefix_width = unified_prefix_width(
                        line.old_lineno,
                        line.new_lineno,
                        state.show_line_numbers,
                    );
                    let available = state.viewport_width.saturating_sub(GUTTER_WIDTH + prefix_width);
                    let overflow = display_width(line.content.as_str(), state.tab_width).saturating_sub(
                        available,
                    );
                    proof {
                        lemma_seq_max_step(all, i as int);
                        assert(all[i as int] == overflow);
                    }
                    if overflow > max_scroll {
                        max_scroll = overflow;
                    }
                    i = i + 1;
                }
                assert(all.take(i as int) =~= all);
            },
            DiffLayout::SideBySide => {
                let left_width = state.viewport_width / 2;
                let right_width = state.viewport_width.saturating_sub(left_width);
                let ghost all = split_overflows(*hunk, widths(*state));
                let mut i: usize = 0;
                assert(all.take(0) =~= Seq::<int>::empty());
                while i < hunk.comparison_rows.len()
                    invariant
                        i <= hunk.comparison_rows.len(),
                        all == split_overflows(*hunk, widths(*state)),
                        rows_refer_to_lines(seq![*hunk]),
                        seq![*hunk][0] == *hunk,
                        left_width == state.viewport_width / 2,
                        right_width as int == sat_sub(state.viewport_width as int, left_width as int),
                        max_scroll as int == seq_max(all.take(i as int)),
                    decreases hunk.comparison_rows.len() - i,
                {
                    let row = hunk.comparison_rows[i];
                    assert(seq![*hunk][0].comparison_rows@[i as int] == row);
                    let mut row_max: usize = 0;
                    if let Some(line_idx) = row.old_line_idx {
                        let line = &hunk.lines[line_idx];
                        let prefix_width = split_prefix_width(line.old_lineno, state.show_line_numbers);
                        let available = left_width.saturating_sub(GUTTER_WIDTH + prefix_width);
                        row_max = display_width(line.content.as_str(), state.tab_width).saturating_sub(
                            available,
                        );
                    }
                    if let Some(line_idx) = row.new_line_idx {
                        let line = &hunk.lines[line_idx];
                        let prefix_width = split_prefix_width(line.new_lineno, state.show_line_numbers);
                        let available = right_width.saturating_sub(GUTTER_WIDTH + prefix_width);
                        let overflow = display_width(line.content.as_str(), state.tab_width).saturating_sub(
                            available,
                        );
                        if overflow > row_max {
                            row_max = overflow;
                        }
                    }
                    proof {
                        lemma_seq_max_step(all, i as int);
                        assert(all[i as int] == row_max);
                    }
                    if row_max > max_scroll {
                        max_scroll = row_max;
                    }
                    i = i + 1;
                }
                assert(all.take(i as int) =~= all);
            },
        }
        max_scroll
    }

    /// The largest horizontal scroll: how far the widest line of any loaded diff runs past
    /// the columns available to it in the current layout.
    fn max_horizontal_scroll(&self, store: &DiffStore) -> (r: usize)
        requires
            store.wf(),
        ensures
            r == review_overflow(store.continuous_diff, widths(self.state)),
    {
        let doc = &store.continuous_diff;
        let layout = doc.layout;
        let ghost all = doc.files@.map_values(|s: FileSlot| slot_overflow(s, layout, widths(self.state)));
        let mut max_scroll: usize = 0;
        let mut f: usize = 0;
        assert(all.take(0) =~= Seq::<int>::empty());
        while f < doc.files.len()
            invariant
                doc.wf(),
                layout == doc.layout,
                f <= doc.files.len(),
                all == doc.files@.map_values(|s: FileSlot| slot_overflow(s, layout, widths(self.state))),
                max_scroll as int == seq_max(all.take(f as int)),
            decreases doc.files.len() - f,
        {
            let mut slot_max: usize = 0;
            if let DiffLoadState::Loaded { hunks, .. } = &doc.files[f].load {
                assert(doc.files@[f as int].wf());
                let ghost per = hunks@.map_values(|h: DiffHunk| hunk_overflow(h, layout, widths(self.state)));
                let mut h: usize = 0;
                assert(per.take(0) =~= Seq::<int>::empty());
                while h < hunks.len()
                    invariant
                        h <= hunks.len(),
                        rows_refer_to_lines(hunks@),
                        per == hunks@.map_values(|x: DiffHunk| hunk_overflow(x, layout, widths(self.state))),
                        slot_max as int == seq_max(per.take(h as int)),
                    decreases hunks.len() - h,
                {
                    assert(rows_refer_to_lines(seq![hunks@[h as int]])) by {
                        assert forall|a: int, b: int|
                            0 <= a < 1 && 0 <= b < seq![hunks@[h as int]][a].comparison_rows@.len()
                                implies {
                                let row = #[trigger] seq![hunks@[h as int]][a].comparison_rows@[b];
                                &&& row.old_line_idx matches Some(i) ==> i < seq![
                                    hunks@[h as int],
                                ][a].lines@.len()
                                &&& row.new_line_idx matches Some(i) ==> i < seq![
                                    hunks@[h as int],
                                ][a].lines@.len()
                            } by {
                            assert(seq![hunks@[h as int]][a] == hunks@[h as int]);
                            assert(hunks@[h as int].comparison_rows@[b]
                                == seq![hunks@[h as int]][a].comparison_rows@[b]);
                        }
                    }
                    let overflow = self.hunk_max_overflow(&hunks[h], layout);
                    proof {
                        lemma_seq_max_step(per, h as int);
                    }
                    if overflow > slot_max {
                        slot_max = overflow;
                    }
                    h = h + 1;
                }
                assert(per.take(h as int) =~= per);
            }
            proof {
                lemma_seq_max_step(all, f as int);
            }
            if slot_max > max_scroll {
                max_scroll = slot_max;
            }
            f = f + 1;
        }
        assert(all.take(f as int) =~= all);
        max_scroll
    }

    /// Bounds the horizontal scroll by the widest line of the loaded diffs.
    pub fn refresh_horizontal_scroll_bounds(&mut self, store: &DiffStore)
        requires
            store.wf(),
        ensures
            final(self).state.max_horizontal_scroll == review_overflow(
                store.continuous_diff,
                widths(old(self).state),
            ),
            final(self).state.horizontal_scroll == if old(self).state.horizontal_scroll
                <= final(self).state.max_horizontal_scroll {
                old(self).state.horizontal_scroll
            } else {
                final(self).state.max_horizontal_scroll
            },
            final(self).state.viewport_width == old(self).state.viewport_width,
            final(self).state.viewport_height == old(self).state.viewport_height,
            final(self).state.show_line_numbers == old(self).state.show_line_numbers,
            final(self).state.tab_width == old(self).state.tab_width,
            final(self).state.layout_override == old(self).state.layout_override,
            final(self).review == old(self).review,
    {
        let max = self.max_horizontal_scroll(store);
        self.state.set_max_horizontal_scroll(max);
    }
}


/// The cursor moved to the next diff line, scrolled into view, or stayed when there is none.
pub open spec fn line_moved_down(
    before: ReviewState,
    after: ReviewState,
    doc: ContinuousDiff,
    viewport_height: int,
) -> bool {
    match first_selectable(
        doc,
        sat_add(before.selected_row as int, 1),
        doc.index.total_rows as int,
    ) {
        Some(row) => after.selected_row == row && after.continuous_scroll == scroll_to_show(
            before.continuous_scroll as int,
            row,
            viewport_height,
            doc.index.total_rows as int,
        ),
        None => after == before,
    }
}

/// The cursor moved to the previous diff line, scrolled into view, or stayed when there is
/// none.
pub open spec fn line_moved_up(
    before: ReviewState,
    after: ReviewState,
    doc: ContinuousDiff,
    viewport_height: int,
) -> bool {
    match last_selectable(doc, 0, before.selected_row as int) {
        Some(row) => after.selected_row == row && after.continuous_scroll == scroll_to_show(
            before.continuous_scroll as int,
            row,
            viewport_height,
            doc.index.total_rows as int,
        ),
        None => after == before,
    }
}

proof fn lemma_first_selectable(doc: ContinuousDiff, from: int, to: int)
    ensures
        match first_selectable(doc, from, to) {
            Some(r) => from <= r < to && is_diff_row(doc, r) && forall|k: int|
                from <= k < r ==> !is_diff_row(doc, k),
            None => forall|k: int| from <= k < to ==> !is_diff_row(doc, k),
        },
    decreases to - from,
{
    if from < to && !is_diff_row(doc, from) {
        lemma_first_selectable(doc, from + 1, to);
    }
}

proof fn lemma_last_selectable(doc: ContinuousDiff, from: int, to: int)
    ensures
        match last_selectable(doc, from, to) {
            Some(r) => from <= r < to && is_diff_row(doc, r) && forall|k: int|
                r < k < to ==> !is_diff_row(doc, k),
            None => forall|k: int| from <= k < to ==> !is_diff_row(doc, k),
        },
    decreases to - from,
{
    if from < to && !is_diff_row(doc, to - 1) {
        lemma_last_selectable(doc, from, to - 1);
    }
}

/// Moving the cursor down a line and back up brings it back to the line it was on, when it
/// was on a line of a diff and there was a line below to move to.
pub proof fn lemma_line_down_then_up(
    start: ReviewState,
    down: ReviewState,
    back: ReviewState,
    doc: ContinuousDiff,
    viewport_height: int,
)
    requires
        is_diff_row(doc, start.selected_row as int),
        line_moved_down(start, down, doc, viewport_height),
        down.selected_row != start.selected_row,
        line_moved_up(down, back, doc, viewport_height),
    ensures
        back.selected_row == start.selected_row,
{
    let from = sat_add(start.selected_row as int, 1);
    lemma_first_selectable(doc, from, doc.index.total_rows as int);
    let s1 = down.selected_row as int;
    lemma_last_selectable(doc, 0, s1);
    if let Some(r) = last_selectable(doc, 0, s1) {
        if r < start.selected_row as int {
            assert(!is_diff_row(doc, start.selected_row as int));
        } else if r > start.selected_row as int {
            assert(!is_diff_row(doc, r));
        }
    } else {
        assert(!is_diff_row(doc, start.selected_row as int));
    }
}

/// Moving the cursor up a line and back down brings it back to the line it was on, when it
/// was on a line of a diff and there was a line above to move to.
pub proof fn lemma_line_up_then_down(
    start: ReviewState,
    up: ReviewState,
    back: ReviewState,
    doc: ContinuousDiff,
    viewport_height: int,
)
    requires
        is_diff_row(doc, start.selected_row as int),
        line_moved_up(start, up, doc, viewport_height),
        up.selected_row != start.selected_row,
        line_moved_down(up, back, doc, viewport_height),
    ensures
        back.selected_row == start.selected_row,
{
    lemma_last_selectable(doc, 0, start.selected_row as int);
    assert(start.selected_row < doc.index.total_rows);
    let s1 = up.selected_row as int;
    let from = sat_add(s1, 1);
    assert(from == s1 + 1);
    lemma_first_selectable(doc, from, doc.index.total_rows as int);
    if let Some(r) = first_selectable(doc, from, doc.index.total_rows as int) {
        if r < start.selected_row as int {
            assert(!is_diff_row(doc, r));
        } else if r > start.selected_row as int {
            assert(!is_diff_row(doc, start.selected_row as int));
        }
    } else {
        assert(!is_diff_row(doc, start.selected_row as int));
    }
}

/// The header row of the hunk the cursor is in, or the cursor's row.
pub open spec fn hunk_origin(doc: ContinuousDiff, before: ReviewState) -> int {
    match selected_header_spec(doc, before.selected_row as int) {
        Some(row) => row,
        None => before.selected_row as int,
    }
}

/// The panel moved to the next hunk, or stayed when there is none.
pub open spec fn hunk_moved_next(before: ReviewState, after: ReviewState, doc: ContinuousDiff) -> bool {
    match first_after(hunk_rows(doc), hunk_origin(doc, before)) {
        Some(row) => (after.continuous_scroll as int, after.selected_row as int) == at_hunk(
            doc,
            row,
        ),
        None => after == before,
    }
}

/// The panel moved to the previous hunk, or stayed when there is none.
pub open spec fn hunk_moved_previous(before: ReviewState, after: ReviewState, doc: ContinuousDiff) -> bool {
    match last_before(hunk_rows(doc), hunk_origin(doc, before)) {
        Some(row) => (after.continuous_scroll as int, after.selected_row as int) == at_hunk(
            doc,
            row,
        ),
        None => after == before,
    }
}

/// After a scroll, the cursor came back into the viewport when it had left it: to the first
/// diff line shown when it was above, the last when below; unchanged when none is shown.
pub open spec fn selection_kept_in_view(
    before: ReviewState,
    after: ReviewState,
    doc: ContinuousDiff,
    viewport_height: int,
) -> bool {
    let top = before.continuous_scroll as int;
    let bottom = sat_add(top, visible_rows(viewport_height) - 1);
    let selected = before.selected_row as int;
    let found = if selected < top {
        first_selectable(doc, top, bottom + 1)
    } else if selected > bottom {
        last_selectable(doc, top, bottom + 1)
    } else {
        None
    };
    &&& after.selected_row as int == match found {
        Some(row) => row,
        None => selected,
    }
    &&& after.continuous_scroll == before.continuous_scroll
}

/// The panel after the review switched layout: on the same hunk line or header when the
/// cursor was on one, else on the same file; the horizontal scroll bounded again.
pub open spec fn layout_switched(
    before: DiffPanel,
    after: DiffPanel,
    old_doc: ContinuousDiff,
    doc: ContinuousDiff,
) -> bool {
    let anchor = layout_anchor(old_doc, before.review.selected_row as int);
    let file_anchor = file_of_row(old_doc, before.review.selected_row as int);
    &&& doc.index_current()
    &&& match anchored_row(doc, anchor) {
        Some(row) => after.review.selected_row == row && after.review.continuous_scroll
            == scroll_to_show(
            row,
            row,
            before.state.viewport_height as int,
            doc.index.total_rows as int,
        ),
        None => (after.review.continuous_scroll as int, after.review.selected_row as int) == synced(
            doc,
            before.review,
            file_anchor,
        ),
    }
    &&& after.state.max_horizontal_scroll == review_overflow(doc, widths(before.state))
    &&& after.state.horizontal_scroll == if before.state.horizontal_scroll
        <= after.state.max_horizontal_scroll {
        before.state.horizontal_scroll
    } else {
        after.state.max_horizontal_scroll
    }
    &&& after.state.viewport_width == before.state.viewport_width
    &&& after.state.viewport_height == before.state.viewport_height
    &&& after.state.show_line_numbers == before.state.show_line_numbers
    &&& after.state.tab_width == before.state.tab_width
    &&& after.state.layout_override == before.state.layout_override
}

/// The hunk position the cursor is at before the layout changes: file, hunk and, on a
/// diff line, the row within the hunk.
pub open spec fn layout_anchor(doc: ContinuousDiff, selected: int) -> Option<(usize, usize, Option<usize>)> {
    match lookup_row_spec(doc, selected) {
        Some(RenderedRow::HunkHeader { file_idx, hunk_idx }) => Some((file_idx, hunk_idx, None)),
        Some(RenderedRow::DiffRow { file_idx, hunk_idx, row_idx }) => Some(
            (file_idx, hunk_idx, Some(row_idx)),
        ),
        _ => None,
    }
}

/// The row of the review, in its current layout, that a hunk position falls on: the hunk's
/// header, or the given row of the hunk kept within the hunk's rows.
pub open spec fn anchored_row(doc: ContinuousDiff, anchor: Option<(usize, usize, Option<usize>)>) -> Option<int> {
    match anchor {
        None => None,
        Some((f, h, r)) => if f < doc.index.file_starts@.len() && f < doc.files@.len() {
            match doc.files@[f as int].load {
                DiffLoadState::Loaded { hunks, index } => if h < index.starts_of(doc.layout).len()
                    && h < hunks@.len() {
                    let header = doc.index.file_starts@[f as int] + 1 + index.starts_of(
                        doc.layout,
                    )[h as int];
                    let count = body_rows(hunks@[h as int], doc.layout) as int;
                    let offset = match r {
                        Some(row) => if count > 0 {
                            1 + if row < count - 1 {
                                row as int
                            } else {
                                count - 1
                            }
                        } else {
                            0
                        },
                        None => 0,
                    };
                    Some(header + offset)
                } else {
                    None
                },
                _ => None,
            }
        } else {
            None
        },
    }
}

/// The file holding a row of the review.
pub open spec fn file_of_row(doc: ContinuousDiff, row: int) -> Option<usize> {
    match file_at_row_spec(doc.index.file_starts@, doc.index.total_rows, row) {
        Some((f, _)) => Some(f),
        None => None,
    }
}

/// The panel after going to the file selected in the files panel: to the review's file with
/// its path and status, when the selected row shows a file; unchanged otherwise.
pub open spec fn jumped_to_selected(before: DiffPanel, after: DiffPanel, files: FilesPanel, store: DiffStore) -> bool {
    &&& after.state == before.state
    &&& match file_at(files.cached_rows@, files.state.selected) {
        Some(f) => if f < store.continuous_diff.files@.len() {
            let entry = store.continuous_diff.files@[f as int].entry;
            match slot_of_spec(
                store.continuous_diff.files@,
                FileKey { path: entry.path, status: entry.status },
            ) {
                Some(g) => (after.review.continuous_scroll as int, after.review.selected_row as int)
                    == position_at_file(store.continuous_diff, g),
                None => after.review == before.review,
            }
        } else {
            after.review == before.review
        },
        None => after.review == before.review,
    }
}

impl DiffPanel {
    /// Leaves the horizontal scroll bound at zero.
    pub fn reset(&mut self)
        ensures
            final(self).state.max_horizontal_scroll == 0,
            final(self).state.horizontal_scroll == 0,
            final(self).state.viewport_width == old(self).state.viewport_width,
            final(self).state.viewport_height == old(self).state.viewport_height,
            final(self).state.show_line_numbers == old(self).state.show_line_numbers,
            final(self).state.tab_width == old(self).state.tab_width,
            final(self).state.layout_override == old(self).state.layout_override,
            final(self).review == old(self).review,
    {
        self.state.set_max_horizontal_scroll(0);
    }

    /// Sets the viewport width; when it changed, bounds the horizontal scroll again.
    pub fn set_viewport_width(&mut self, width: usize, store: &DiffStore)
        requires
            store.wf(),
        ensures
            final(self).state.viewport_width == if width >= 1 {
                width
            } else {
                1
            },
            final(self).state.viewport_width != old(self).state.viewport_width
                ==> final(self).state.max_horizontal_scroll == review_overflow(
                store.continuous_diff,
                widths(final(self).state),
            ),
            final(self).state.viewport_width == old(self).state.viewport_width
                ==> final(self).state.max_horizontal_scroll == old(
                self).state.max_horizontal_scroll && final(self).state.horizontal_scroll == old(
                self).state.horizontal_scroll,
            final(self).state.viewport_height == old(self).state.viewport_height,
            final(self).state.show_line_numbers == old(self).state.show_line_numbers,
            final(self).state.tab_width == old(self).state.tab_width,
            final(self).state.layout_override == old(self).state.layout_override,
            final(self).review == old(self).review,
    {
        if self.state.set_viewport_width(width) {
            self.refresh_horizontal_scroll_bounds(store);
        }
    }

    /// The forced layout if there is one, else the one the width calls for.
    pub fn layout_for_width(&self, width: usize) -> (r: DiffLayout)
        ensures
            r == match self.state.layout_override {
                Some(l) => l,
                None => layout_for_width_spec(width as int),
            },
    {
        self.state.layout_for_width(width)
    }

    /// Scrolls the review by `lines` rows, down no further than its last row.
    fn continuous_scroll_by(&mut self, direction: ScrollDirection, lines: usize, store: &DiffStore)
        ensures
            final(self).review.continuous_scroll as int == match direction {
                ScrollDirection::Down => {
                    let moved = sat_add(old(self).review.continuous_scroll as int, lines as int);
                    if moved < max_scroll_offset(store.continuous_diff) {
                        moved
                    } else {
                        max_scroll_offset(store.continuous_diff)
                    }
                },
                ScrollDirection::Up => sat_sub(old(self).review.continuous_scroll as int, lines as int),
            },
            final(self).review.selected_row == old(self).review.selected_row,
            final(self).state == old(self).state,
    {
        let distance = if lines <= usize::MAX / SCROLL_STEP {
            lines * SCROLL_STEP
        } else {
            usize::MAX
        };
        self.review.continuous_scroll = match direction {
            ScrollDirection::Down => {
                let moved = self.review.continuous_scroll.saturating_add(distance);
                let max = self.max_continuous_scroll_offset(store);
                if moved < max {
                    moved
                } else {
                    max
                }
            },
            ScrollDirection::Up => self.review.continuous_scroll.saturating_sub(distance),
        };
    }

    /// Moves to the file of an entry: its first row at the top, the cursor on its first diff
    /// line.  Nothing changes when no file of the review has the entry's path and status.
    pub fn jump_to_file(&mut self, file: &FileEntry, store: &DiffStore)
        requires
            store.wf(),
            store.continuous_diff.index.file_starts@.len() == store.continuous_diff.files@.len(),
        ensures
            match slot_of_spec(
                store.continuous_diff.files@,
                FileKey { path: file.path, status: file.status },
            ) {
                Some(f) => (
                    final(self).review.continuous_scroll as int,
                    final(self).review.selected_row as int,
                ) == position_at_file(store.continuous_diff, f) && (
                    final(self).review.continuous_scroll as int,
                    final(self).review.selected_row as int,
                ) == synced(store.continuous_diff, old(self).review, Some(f as usize)),
                None => final(self).review == old(self).review,
            },
            final(self).state == old(self).state,
    {
        let key = FileKey { path: file.path.clone(), status: file.status };
        proof {
            assert(slot_of_spec(store.continuous_diff.files@, key) == slot_of_spec(
                store.continuous_diff.files@,
                FileKey { path: file.path, status: file.status },
            )) by {
                assert forall|i: int| #[trigger] key_matches(store.continuous_diff.files@[i], key)
                    == key_matches(
                    store.continuous_diff.files@[i],
                    FileKey { path: file.path, status: file.status },
                ) by {}
            }
        }
        if let Some(file_idx) = store.continuous_diff.slot_of(&key) {
            self.set_position_to_file(file_idx, store);
        }
    }

    /// Moves to the file selected in the files panel, if a file is selected.
    pub fn jump_to_selected_file(&mut self, files: &FilesPanel, store: &DiffStore)
        requires
            store.wf(),
            store.continuous_diff.index.file_starts@.len() == store.continuous_diff.files@.len(),
        ensures
            jumped_to_selected(*old(self), *final(self), *files, *store),
    {
        if let Some(file) = files.selected_file(store) {
            self.jump_to_file(file, store);
        }
    }

    /// Selects in the files panel the file the cursor is in.
    fn sync_files_to_selection(&self, files: &mut FilesPanel, store: &DiffStore)
        requires
            store.wf(),
        ensures
            files_synced(*old(files), *final(files), store.continuous_diff, self.review.selected_row),
    {
        files.match_selected_file(store, self.review.selected_row);
    }

    /// Switches the review to a layout, keeping the cursor on the same hunk line (or hunk
    /// header) when it was on one, else on the same file; the horizontal scroll is bounded
    /// again.  Nothing changes when the review already has that layout.
    pub fn set_layout(&mut self, layout: DiffLayout, store: &mut DiffStore)
        requires
            old(store).wf(),
        ensures
            final(store).wf(),
            final(store).continuous_diff.files@ == old(store).continuous_diff.files@,
            final(store).continuous_diff.generation == old(store).continuous_diff.generation,
            final(store).continuous_diff.index_dirty == old(store).continuous_diff.index_dirty,
            final(store).ignore_patterns@ == old(store).ignore_patterns@,
            final(store).ignore_whitespace == old(store).ignore_whitespace,
            final(store).continuous_diff.layout == layout,
            old(store).continuous_diff.layout == layout ==> *final(self) == *old(self)
                && final(store).continuous_diff.index == old(store).continuous_diff.index,
            old(store).continuous_diff.layout != layout ==> layout_switched(
                *old(self),
                *final(self),
                old(store).continuous_diff,
                final(store).continuous_diff,
            ),
    {
        if store.continuous_diff.layout == layout {
            return;
        }
        let file_anchor = self.current_continuous_file_idx(store);
        let hunk_anchor = match store.continuous_diff.lookup_row(self.review.selected_row) {
            Some(RenderedRow::HunkHeader { file_idx, hunk_idx }) => Some((file_idx, hunk_idx, None)),
            Some(RenderedRow::DiffRow { file_idx, hunk_idx, row_idx }) => Some(
                (file_idx, hunk_idx, Some(row_idx)),
            ),
            _ => None,
        };
        store.continuous_diff.layout = layout;
        store.continuous_diff.rebuild_index();
        let target = self.anchor_row(hunk_anchor, &*store);
        match target {
            Some(row) => {
                self.review.selected_row = row;
                self.review.continuous_scroll = row;
                self.ensure_selection_visible(&*store);
            },
            None => {
                self.sync_continuous_scroll_to_file(file_anchor, &*store);
            },
        }
        self.refresh_horizontal_scroll_bounds(&*store);
    }

    /// The row of the review a hunk position falls on in the current layout.
    fn anchor_row(&self, anchor: Option<(usize, usize, Option<usize>)>, store: &DiffStore) -> (r:
        Option<usize>)
        requires
            store.wf(),
        ensures
            match anchored_row(store.continuous_diff, anchor) {
                Some(row) => r matches Some(x) && x as int == row,
                None => r is None,
            },
    {
        let doc = &store.continuous_diff;
        let (file_idx, hunk_idx, row_idx) = match anchor {
            Some(a) => a,
            None => {
                return None;
            },
        };
        if file_idx >= doc.index.file_starts.len() || file_idx >= doc.files.len() {
            return None;
        }
        let file_start = doc.index.file_starts[file_idx];
        let (hunks, index) = match &doc.files[file_idx].load {
            DiffLoadState::Loaded { hunks, index } => (hunks, index),
            _ => {
                return None;
            },
        };
        let starts = index.hunk_starts_for(doc.layout);
        if hunk_idx >= starts.len() || hunk_idx >= hunks.len() {
            return None;
        }
        proof {
            lemma_hunk_row_bound(*doc, file_idx as int, hunk_idx as int, doc.layout);
        }
        let hunk_header = file_start + 1 + starts[hunk_idx];
        let row_count = match doc.layout {
            DiffLayout::Unified => hunks[hunk_idx].lines.len(),
            DiffLayout::SideBySide => hunks[hunk_idx].comparison_rows.len(),
        };
        let row_offset = match row_idx {
            Some(row) => {
                if row_count > 0 {
                    1 + if row < row_count - 1 {
                        row
                    } else {
                        row_count - 1
                    }
                } else {
                    0
                }
            },
            None => 0,
        };
        Some(hunk_header + row_offset)
    }
}

/// The files panel after selecting the file shown at a row of the review, as
/// `FilesPanel::match_selected_file` does it.
pub open spec fn files_synced(before: FilesPanel, after: FilesPanel, doc: ContinuousDiff, row: usize) -> bool {
    let unchanged_rows = after.cached_rows@ == before.cached_rows@ && after.collapsed@
        == before.collapsed@ && after.dirty == before.dirty;
    match file_at_row_spec(doc.index.file_starts@, doc.index.total_rows, row as int) {
        None => after.state == before.state && unchanged_rows,
        Some((f, _)) => match row_of_file(before.cached_rows@, f) {
            Some(r) => after.state.selected == Some(r as usize) && after.state.tree_row_count
                == before.state.tree_row_count && unchanged_rows,
            None => {
                let path = doc.files@[f as int].entry.path@;
                let kept = keys_not_hiding(keys_model(before.collapsed@), path);
                &&& keys_model(after.collapsed@) == kept
                &&& rows_model(after.cached_rows@) == tree_rows_spec(doc.files@, kept)
                &&& after.state.tree_row_count == after.cached_rows@.len()
                &&& !after.dirty
                &&& after.state.selected == match row_of_file(after.cached_rows@, f) {
                    Some(r) => Some(r as usize),
                    None => None,
                }
            },
        },
    }
}

/// Where the panel goes after the review mark of file `f` changed: when the file became
/// reviewed, to the next file not reviewed (or the file itself when there is none); else to
/// the file itself.
pub open spec fn review_anchor(before: ContinuousDiff, after: ContinuousDiff, f: int) -> Option<usize> {
    if !before.files@[f].reviewed {
        match next_unreviewed_spec(after.files@, f) {
            Some(j) => Some(j as usize),
            None => Some(f as usize),
        }
    } else {
        Some(f as usize)
    }
}

/// The effect of toggling the review mark of the file the cursor is in.
pub open spec fn review_mark_toggled(
    before: DiffPanel,
    after: DiffPanel,
    old_doc: ContinuousDiff,
    doc: ContinuousDiff,
    old_files: FilesPanel,
    files: FilesPanel,
) -> bool {
    let unchanged = after == before && doc == old_doc && files == old_files;
    match file_of_row(old_doc, before.review.selected_row as int) {
        None => unchanged,
        Some(f) => if old_doc.files@[f as int].ignored {
            unchanged
        } else {
            &&& doc.files@ == toggled(old_doc.files@, f as int)
            &&& doc.index_current()
            &&& !doc.index_dirty
            &&& doc.layout == old_doc.layout
            &&& doc.generation == old_doc.generation
            &&& (after.review.continuous_scroll as int, after.review.selected_row as int) == synced(
                doc,
                before.review,
                review_anchor(old_doc, doc, f as int),
            )
            &&& after.state == before.state
            &&& files_synced(old_files, files, doc, after.review.selected_row)
        },
    }
}

/// What an action does to the diff panel, the files panel and the review, by action; see
/// [`DiffPanel::update`].
pub open spec fn panel_updated(
    before: DiffPanel,
    after: DiffPanel,
    old_store: DiffStore,
    new_store: DiffStore,
    old_files: FilesPanel,
    new_files: FilesPanel,
    action: Action,
    focus: Focus,
) -> bool {
    let vh = before.state.viewport_height as int;
    let doc = old_store.continuous_diff;
    let same_store = new_store == old_store;
    let same_files = new_files == old_files;
    match action {
        Action::MoveDown if focus == Focus::Diff => same_store && after.state
            == before.state && line_moved_down(
            before.review,
            after.review,
            doc,
            vh,
        ) && files_synced(old_files, new_files, doc, after.review.selected_row),
        Action::MoveUp if focus == Focus::Diff => same_store && after.state
            == before.state && line_moved_up(
            before.review,
            after.review,
            doc,
            vh,
        ) && files_synced(old_files, new_files, doc, after.review.selected_row),
        Action::NextHunk => same_store && after.state == before.state
            && hunk_moved_next(before.review, after.review, doc) && files_synced(
            old_files,
            new_files,
            doc,
            after.review.selected_row,
        ),
        Action::PreviousHunk => same_store && after.state == before.state
            && hunk_moved_previous(before.review, after.review, doc)
            && files_synced(old_files, new_files, doc, after.review.selected_row),
        Action::ScrollDiffLeft => same_store && same_files && after.review == before.review && after.state.horizontal_scroll == sat_sub(
            before.state.horizontal_scroll as int,
            HORIZONTAL_SCROLL_STEP as int,
        ) && after.state.max_horizontal_scroll == before.state.max_horizontal_scroll,
        Action::ScrollDiffRight => same_store && same_files && after.review == before.review && after.state.horizontal_scroll == if before.state.horizontal_scroll + HORIZONTAL_SCROLL_STEP <= before.state.max_horizontal_scroll {
            before.state.horizontal_scroll + HORIZONTAL_SCROLL_STEP
        } else {
            before.state.max_horizontal_scroll as int
        } && after.state.max_horizontal_scroll == before.state.max_horizontal_scroll,
        Action::ToggleDiffLineNumbers => same_store && same_files && after.review
            == before.review && after.state.show_line_numbers == !before.state.show_line_numbers && after.state.max_horizontal_scroll
            == review_overflow(doc, widths(after.state)),
        Action::ToggleDiffLayout => {
            let forced = next_layout_override(before.state.layout_override);
            let cycled = DiffPanel {
                state: Diff { layout_override: forced, ..before.state },
                review: before.review,
            };
            let layout = match forced {
                Some(l) => l,
                None => layout_for_width_spec(before.state.viewport_width as int),
            };
            &&& same_files
            &&& after.state.layout_override == forced
            &&& new_store.continuous_diff.layout == layout
            &&& new_store.continuous_diff.files@ == doc.files@
            &&& if doc.layout == layout {
                after == cycled && new_store.continuous_diff.index
                    == doc.index
            } else {
                layout_switched(cycled, after, doc, new_store.continuous_diff)
            }
        },
        Action::ScrollDiff { direction, lines } => {
            let scrolled = ReviewState {
                continuous_scroll: match direction {
                    ScrollDirection::Down => {
                        let moved = sat_add(
                            before.review.continuous_scroll as int,
                            lines as int,
                        );
                        if moved < max_scroll_offset(doc) {
                            moved
                        } else {
                            max_scroll_offset(doc)
                        }
                    },
                    ScrollDirection::Up => sat_sub(
                        before.review.continuous_scroll as int,
                        lines as int,
                    ),
                } as usize,
                selected_row: before.review.selected_row,
            };
            &&& same_store
            &&& after.state == before.state
            &&& selection_kept_in_view(scrolled, after.review, doc, vh)
            &&& files_synced(old_files, new_files, doc, after.review.selected_row)
        },
        Action::ToggleReviewed => review_mark_toggled(
            before,
            after,
            doc,
            new_store.continuous_diff,
            old_files,
            new_files,
        ) && new_store.ignore_patterns@ == old_store.ignore_patterns@,
        _ => same_store && same_files && after == before,
    }
}

impl DiffPanel {
    /// Applies an action to the panel.  With the focus on the diff, line moves step the
    /// cursor; hunk moves go to the next or previous hunk; horizontal scrolls move four
    /// columns; scrolling the view keeps the cursor in it; the line numbers and the layout
    /// can be toggled; and the file the cursor is in can be marked reviewed or not, unless it
    /// is ignored.  Moves of the cursor select its file in the files panel.
    pub fn update(
        &mut self,
        action: Action,
        focus: Focus,
        files: &mut FilesPanel,
        store: &mut DiffStore,
    )
        requires
            old(store).wf(),
            old(store).continuous_diff.index.file_starts@.len()
                == old(store).continuous_diff.files@.len(),
        ensures
            final(store).wf(),
            final(store).continuous_diff.index.file_starts@.len()
                == final(store).continuous_diff.files@.len(),
            final(store).ignore_patterns@ == old(store).ignore_patterns@,
            final(store).ignore_whitespace == old(store).ignore_whitespace,
            panel_updated(
                *old(self),
                *final(self),
                *old(store),
                *final(store),
                *old(files),
                *final(files),
                action,
                focus,
            ),
    {
        match action {
            Action::MoveDown => {
                if focus == Focus::Diff {
                    self.select_next_line(store);
                    self.sync_files_to_selection(files, store);
                }
            },
            Action::MoveUp => {
                if focus == Focus::Diff {
                    self.select_previous_line(store);
                    self.sync_files_to_selection(files, store);
                }
            },
            Action::ScrollDiffLeft => {
                self.state.scroll_left(HORIZONTAL_SCROLL_STEP);
            },
            Action::ScrollDiffRight => {
                self.state.scroll_right(HORIZONTAL_SCROLL_STEP);
            },
            Action::NextHunk => {
                self.select_next_hunk(store);
                self.sync_files_to_selection(files, store);
            },
            Action::PreviousHunk => {
                self.select_previous_hunk(store);
                self.sync_files_to_selection(files, store);
            },
            Action::ToggleDiffLineNumbers => {
                self.state.toggle_line_numbers();
                self.refresh_horizontal_scroll_bounds(store);
            },
            Action::ToggleDiffLayout => {
                let width = self.state.viewport_width;
                let layout = self.state.toggle_layout_override(width);
                self.set_layout(layout, store);
            },
            Action::ScrollDiff { direction, lines } => {
                self.continuous_scroll_by(direction, lines, store);
                self.keep_selection_in_view(store);
                self.sync_files_to_selection(files, store);
            },
            Action::ToggleReviewed => {
                self.toggle_reviewed(files, store);
            },
            _ => {},
        }
    }

    /// Toggles the review mark of the file the cursor is in, unless it is ignored, and moves
    /// on from it.
    #[verifier::rlimit(40)]
    fn toggle_reviewed(&mut self, files: &mut FilesPanel, store: &mut DiffStore)
        requires
            old(store).wf(),
        ensures
            final(store).wf(),
            final(store).continuous_diff.index.file_starts@.len()
                == final(store).continuous_diff.files@.len() || *final(store) == *old(store),
            final(store).ignore_patterns@ == old(store).ignore_patterns@,
            final(store).ignore_whitespace == old(store).ignore_whitespace,
            review_mark_toggled(
                *old(self),
                *final(self),
                old(store).continuous_diff,
                final(store).continuous_diff,
                *old(files),
                *final(files),
            ),
    {
        let file_idx = match self.current_continuous_file_idx(store) {
            Some(f) => f,
            None => {
                return;
            },
        };
        if store.continuous_diff.files[file_idx].ignored {
            return;
        }
        let will_be_reviewed = !store.continuous_diff.files[file_idx].reviewed;
        store.continuous_diff.toggle_reviewed(file_idx);
        store.continuous_diff.rebuild_index();
        store.continuous_diff.index_dirty = false;
        let anchor = if will_be_reviewed {
            match store.continuous_diff.next_unreviewed_after(file_idx) {
                Some(j) => Some(j),
                None => Some(file_idx),
            }
        } else {
            Some(file_idx)
        };
        self.sync_continuous_scroll_to_file(anchor, store);
        self.sync_files_to_selection(files, store);
    }
}

impl DiffPanel {
    /// The row at the top of the view.
    pub fn continuous_scroll(&self) -> (r: usize)
        ensures
            r == self.review.continuous_scroll,
    {
        self.review.continuous_scroll
    }

    /// Puts a row at the top of the view with the cursor on it.
    pub fn set_continuous_scroll(&mut self, scroll: usize)
        ensures
            final(self).review.continuous_scroll == scroll,
            final(self).review.selected_row == scroll,
            final(self).state == old(self).state,
    {
        self.review.continuous_scroll = scroll;
        self.review.selected_row = scroll;
    }
}

} // verus!
