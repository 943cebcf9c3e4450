//! The continuous review document: every changed file one after another, each
//! with a header row and, unless reviewed or ignored, its diff.
use vstd::prelude::*;

use crate::git::repository::{DiffHunk, DiffLine, DiffSectionKind, FileEntry, FileStatus};
use crate::state::diff::DiffLayout;
use crate::state::line_index::{body_rows, lookup_spec, IndexRow, LineIndex};
use crate::text::{chars_eq, chars_of};
use crate::state::sorted::{
    ascending, count_le_prefix, lemma_count_le_prefix, lemma_count_le_prefix_unique, partition_point_le,
};

verus! {

/// A row of the file header.
pub const HEADER_ROW: usize = 1;

/// The row that stands for content not shown (loading, error).
pub const CONTENT_ROW: usize = 1;

/// Identifies a file of the review across reloads.
#[derive(Debug, Clone)]
pub struct FileKey {
    pub path: String,
    pub status: FileStatus,
}

/// How far a file's diff has been loaded.
#[derive(Debug)]
pub enum DiffLoadState {
    NotLoaded,
    Loading,
    Loaded { hunks: Vec<DiffHunk>, index: LineIndex },
    Binary,
    Error(String),
}

/// One file of the review.
#[derive(Debug)]
pub struct FileSlot {
    pub entry: FileEntry,
    pub load: DiffLoadState,
    pub reviewed: bool,
    pub ignored: bool,
}

/// Where each file starts in the review document.
#[derive(Debug, Default)]
pub struct ReviewIndex {
    pub file_starts: Vec<usize>,
    pub total_rows: usize,
}

/// The review document.
#[derive(Debug)]
pub struct ContinuousDiff {
    pub files: Vec<FileSlot>,
    pub index: ReviewIndex,
    pub index_dirty: bool,
    pub generation: u64,
    pub layout: DiffLayout,
}

/// The scroll position and the selected row of the review document.
#[derive(Debug, Default)]
pub struct ReviewState {
    pub continuous_scroll: usize,
    pub selected_row: usize,
}

/// What a row of the review document shows.
#[derive(Debug, PartialEq, Eq)]
pub enum RenderedRow {
    FileHeader { file_idx: usize },
    SectionHeader { kind: DiffSectionKind },
    HunkHeader { file_idx: usize, hunk_idx: usize },
    DiffRow { file_idx: usize, hunk_idx: usize, row_idx: usize },
    Loading,
    Binary { file_idx: usize },
    Error { msg: String },
}

/// A diff loaded in the background for one file of one generation of the review.
#[derive(Debug)]
pub struct WorkerResult {
    pub generation: u64,
    pub file_idx: usize,
    pub result: Result<Option<(Vec<DiffHunk>, LineIndex)>, String>,
}

/// The rows a file takes in a layout.
pub open spec fn slot_rows(slot: FileSlot, layout: DiffLayout) -> nat {
    if slot.reviewed || slot.ignored {
        1
    } else {
        match slot.load {
            DiffLoadState::Binary => 1,
            DiffLoadState::Loaded { index, .. } => (index.total_of(layout) + 1) as nat,
            _ => 2,
        }
    }
}

/// The most rows a file may take, whatever its layout and review mark.
pub open spec fn slot_capacity(slot: FileSlot) -> nat {
    match slot.load {
        DiffLoadState::Loaded { index, .. } => (2 + index.total_rows + index.split_total_rows) as nat,
        _ => 2,
    }
}

/// The rows taken by the first `n` files.
pub open spec fn rows_before(files: Seq<FileSlot>, layout: DiffLayout, n: int) -> nat
    decreases n,
{
    if n <= 0 || files.len() == 0 {
        0
    } else if n > files.len() {
        rows_before(files, layout, files.len() as int)
    } else {
        rows_before(files, layout, n - 1) + slot_rows(files[n - 1], layout)
    }
}

/// The capacity of the first `n` files.
pub open spec fn capacity_before(files: Seq<FileSlot>, n: int) -> nat
    decreases n,
{
    if n <= 0 || files.len() == 0 {
        0
    } else if n > files.len() {
        capacity_before(files, files.len() as int)
    } else {
        capacity_before(files, n - 1) + slot_capacity(files[n - 1])
    }
}

pub proof fn lemma_rows_within_capacity(files: Seq<FileSlot>, layout: DiffLayout, n: int)
    requires
        0 <= n <= files.len(),
    ensures
        rows_before(files, layout, n) <= capacity_before(files, n),
        forall|m: int| 0 <= m <= n ==> #[trigger] capacity_before(files, m) <= capacity_before(
            files,
            n,
        ),
        forall|m: int| 0 <= m <= n ==> #[trigger] rows_before(files, layout, m) <= rows_before(
            files,
            layout,
            n,
        ),
    decreases n,
{
    if n > 0 {
        lemma_rows_within_capacity(files, layout, n - 1);
    }
}

/// The file holding `row` and the row within it, from a table of file starts.
pub open spec fn file_at_row_spec(starts: Seq<usize>, total: usize, row: int) -> Option<(usize, usize)> {
    if starts.len() == 0 || row >= total {
        None
    } else {
        let pp = count_le_prefix(starts, row);
        let f = if pp == 0 {
            0
        } else {
            pp - 1
        };
        Some((f as usize, (row - starts[f as int]) as usize))
    }
}

/// A row at or past a file's start and before the next file's start (or the last row)
/// belongs to that file, at its distance from the start.
pub proof fn lemma_file_at_row_inverts_starts(starts: Seq<usize>, total: usize, f: int, row: int)
    requires
        ascending(starts),
        0 <= f < starts.len(),
        starts[f] <= row < total,
        f + 1 < starts.len() ==> row < starts[f + 1],
    ensures
        file_at_row_spec(starts, total, row) == Some((f as usize, (row - starts[f]) as usize)),
{
    lemma_count_le_prefix_unique(starts, row, f + 1);
}

impl ReviewIndex {
    /// Starts ascend from row 0.
    pub open spec fn wf(&self) -> bool {
        &&& ascending(self.file_starts@)
        &&& self.file_starts@.len() > 0 ==> self.file_starts@[0] == 0
    }

    /// The file holding `global_row` and the row within that file: the last file starting
    /// at or before the row; `None` past the last row or when nothing is indexed.
    pub fn file_at_row(&self, global_row: usize) -> (r: Option<(usize, usize)>)
        requires
            self.wf(),
        ensures
            r == file_at_row_spec(self.file_starts@, self.total_rows, global_row as int),
            r matches Some((f, _)) ==> f < self.file_starts@.len(),
    {
        if self.file_starts.len() == 0 || global_row >= self.total_rows {
            return None;
        }
        let pp = partition_point_le(&self.file_starts, global_row);
        proof {
            lemma_count_le_prefix(self.file_starts@, global_row as int);
        }
        let file_idx = if pp == 0 {
            0
        } else {
            pp - 1
        };
        let local_row = global_row - self.file_starts[file_idx];
        Some((file_idx, local_row))
    }
}

/// Whether each hunk's rows, from its start row on, fall within the rows of a layout.
pub open spec fn hunks_fit(hunks: Seq<DiffHunk>, index: LineIndex, layout: DiffLayout) -> bool {
    forall|h: int|
        0 <= h < index.starts_of(layout).len() && h < hunks.len() ==> #[trigger] index.starts_of(
            layout,
        )[h] + 1 + body_rows(hunks[h], layout) <= index.total_of(layout)
}

/// Whether every side-by-side row of the hunks names lines of its own hunk.
pub open spec fn rows_refer_to_lines(hunks: Seq<DiffHunk>) -> bool {
    forall|h: int, r: int|
        0 <= h < hunks.len() && 0 <= r < hunks[h].comparison_rows@.len() ==> {
            let row = #[trigger] hunks[h].comparison_rows@[r];
            &&& row.old_line_idx matches Some(i) ==> i < hunks[h].lines@.len()
            &&& row.new_line_idx matches Some(i) ==> i < hunks[h].lines@.len()
        }
}

impl FileSlot {
    /// A loaded diff has well-formed tables that hold its hunks in both layouts, and its
    /// side-by-side rows name lines of their hunks.
    pub open spec fn wf(&self) -> bool {
        match self.load {
            DiffLoadState::Loaded { hunks, index } => {
                &&& index.wf()
                &&& hunks_fit(hunks@, index, DiffLayout::Unified)
                &&& hunks_fit(hunks@, index, DiffLayout::SideBySide)
                &&& rows_refer_to_lines(hunks@)
            },
            _ => true,
        }
    }

    /// The rows this file takes: its header alone when reviewed, ignored or binary; a header
    /// and a placeholder row while not loaded, loading or failed; else the header and its
    /// diff's rows in the layout.
    pub fn row_count(&self, layout: DiffLayout) -> (r: usize)
        requires
            slot_capacity(*self) <= usize::MAX,
        ensures
            r == slot_rows(*self, layout),
    {
        if self.reviewed || self.ignored {
            return HEADER_ROW;
        }
        match &self.load {
            DiffLoadState::Binary => HEADER_ROW,
            DiffLoadState::NotLoaded | DiffLoadState::Loading | DiffLoadState::Error(_) => {
                CONTENT_ROW + HEADER_ROW
            },
            DiffLoadState::Loaded { index, .. } => index.total_rows_for(layout) + HEADER_ROW,
        }
    }
}

/// What a row of the review document shows.
pub open spec fn lookup_row_spec(doc: ContinuousDiff, global_row: int) -> Option<RenderedRow> {
    match file_at_row_spec(doc.index.file_starts@, doc.index.total_rows, global_row) {
        None => None,
        Some((f, local)) => {
            let slot = doc.files@[f as int];
            if local == 0 {
                if slot.load is Binary {
                    Some(RenderedRow::Binary { file_idx: f })
                } else {
                    Some(RenderedRow::FileHeader { file_idx: f })
                }
            } else {
                match slot.load {
                    DiffLoadState::Loaded { hunks, index } => {
                        match lookup_spec(
                            index.starts_of(doc.layout),
                            index.headers_of(doc.layout),
                            index.total_of(doc.layout),
                            local - 1,
                        ) {
                            None => None,
                            Some(IndexRow::SectionHeader(s)) => Some(
                                RenderedRow::SectionHeader {
                                    kind: index.headers_of(doc.layout)[s as int].1,
                                },
                            ),
                            Some(IndexRow::HunkHeader(h)) => if h < hunks@.len() {
                                Some(RenderedRow::HunkHeader { file_idx: f, hunk_idx: h })
                            } else {
                                None
                            },
                            Some(IndexRow::DiffLine(h, r)) => if h < hunks@.len() && r < body_rows(
                                hunks@[h as int],
                                doc.layout,
                            ) {
                                Some(RenderedRow::DiffRow { file_idx: f, hunk_idx: h, row_idx: r })
                            } else {
                                None
                            },
                        }
                    },
                    DiffLoadState::Loading => Some(RenderedRow::Loading),
                    DiffLoadState::NotLoaded => Some(RenderedRow::Loading),
                    DiffLoadState::Binary => None,
                    DiffLoadState::Error(msg) => Some(RenderedRow::Error { msg }),
                }
            }
        },
    }
}

/// Whether a row is a line of a diff, the rows the cursor can stop on.
pub open spec fn is_diff_row(doc: ContinuousDiff, row: int) -> bool {
    lookup_row_spec(doc, row) matches Some(RenderedRow::DiffRow { .. })
}

/// The index of the first line of `lines` added by the hunk, if any.
pub open spec fn first_added(lines: Seq<DiffLine>) -> Option<int>
    decreases lines.len(),
{
    if lines.len() == 0 {
        None
    } else if lines[0].origin == '+' {
        Some(0)
    } else {
        match first_added(lines.drop_first()) {
            Some(i) => Some(i + 1),
            None => None,
        }
    }
}

/// The new-side line number shown at a row of a hunk, if any.
pub open spec fn row_new_lineno(hunk: DiffHunk, layout: DiffLayout, row: Option<usize>) -> Option<u32> {
    match row {
        Some(r) => match layout {
            DiffLayout::Unified => if r < hunk.lines@.len() {
                hunk.lines@[r as int].new_lineno
            } else {
                None
            },
            DiffLayout::SideBySide => if r < hunk.comparison_rows@.len() {
                match hunk.comparison_rows@[r as int].new_line_idx {
                    Some(i) => if i < hunk.lines@.len() {
                        hunk.lines@[i as int].new_lineno
                    } else {
                        None
                    },
                    None => None,
                }
            } else {
                None
            },
        },
        None => match first_added(hunk.lines@) {
            Some(i) => hunk.lines@[i].new_lineno,
            None => None,
        },
    }
}

/// The path and new-side line number to open an editor at for a row.
pub open spec fn selected_line_spec(doc: ContinuousDiff, scroll: int) -> Option<(Seq<char>, u32)> {
    let target = match lookup_row_spec(doc, scroll) {
        Some(RenderedRow::DiffRow { file_idx, hunk_idx, row_idx }) => Some(
            (file_idx, hunk_idx, Some(row_idx)),
        ),
        Some(RenderedRow::HunkHeader { file_idx, hunk_idx }) => Some(
            (file_idx, hunk_idx, None::<usize>),
        ),
        _ => None,
    };
    match target {
        None => None,
        Some((f, h, r)) => match doc.files@[f as int].load {
            DiffLoadState::Loaded { hunks, .. } => if h < hunks@.len() {
                match row_new_lineno(hunks@[h as int], doc.layout, r) {
                    Some(n) => Some((doc.files@[f as int].entry.path@, n)),
                    None => None,
                }
            } else {
                None
            },
            _ => None,
        },
    }
}

/// The editor opens at the line shown on the cursor's row: side by side, the new-side
/// number of the line on the row's right half; unified, that of the row's own line; on a
/// side-by-side row whose right half is empty, at no line.
pub proof fn lemma_editor_line_is_the_shown_line(
    doc: ContinuousDiff,
    scroll: int,
    f: usize,
    h: usize,
    r: usize,
)
    requires
        lookup_row_spec(doc, scroll) == Some(
            RenderedRow::DiffRow { file_idx: f, hunk_idx: h, row_idx: r },
        ),
        doc.files@[f as int].load is Loaded,
        h < doc.files@[f as int].load->hunks@.len(),
    ensures
        ({
            let hunk = doc.files@[f as int].load->hunks@[h as int];
            let path = doc.files@[f as int].entry.path@;
            &&& doc.layout == DiffLayout::SideBySide && r < hunk.comparison_rows@.len() ==> {
                match hunk.comparison_rows@[r as int].new_line_idx {
                    Some(i) => i < hunk.lines@.len() ==> selected_line_spec(doc, scroll) == match hunk.lines@[i as int].new_lineno {
                        Some(n) => Some((path, n)),
                        None => None,
                    },
                    None => selected_line_spec(doc, scroll) is None,
                }
            }
            &&& doc.layout == DiffLayout::Unified && r < hunk.lines@.len() ==> selected_line_spec(
                doc,
                scroll,
            ) == match hunk.lines@[r as int].new_lineno {
                Some(n) => Some((path, n)),
                None => None,
            }
        }),
{
}

proof fn lemma_first_added_is_first(lines: Seq<DiffLine>, i: int)
    requires
        0 <= i < lines.len(),
        lines[i].origin == '+',
        forall|y: int| 0 <= y < i ==> lines[y].origin != '+',
    ensures
        first_added(lines) == Some(i),
    decreases i,
{
    if i > 0 {
        assert(lines[0].origin != '+');
        assert forall|y: int| 0 <= y < i - 1 implies lines.drop_first()[y].origin != '+' by {
            assert(lines.drop_first()[y] == lines[y + 1]);
        }
        lemma_first_added_is_first(lines.drop_first(), i - 1);
    }
}

proof fn lemma_no_added(lines: Seq<DiffLine>)
    requires
        forall|y: int| 0 <= y < lines.len() ==> lines[y].origin != '+',
    ensures
        first_added(lines) is None,
    decreases lines.len(),
{
    if lines.len() > 0 {
        assert forall|y: int| 0 <= y < lines.len() - 1 implies lines.drop_first()[y].origin != '+' by {
            assert(lines.drop_first()[y] == lines[y + 1]);
        }
        lemma_no_added(lines.drop_first());
    }
}

/// On a hunk's header the editor opens at the first line the hunk adds, in either layout;
/// at no line when the hunk adds none.
pub proof fn lemma_editor_line_on_a_hunk_header(doc: ContinuousDiff, scroll: int, f: usize, h: usize)
    requires
        lookup_row_spec(doc, scroll) == Some(RenderedRow::HunkHeader { file_idx: f, hunk_idx: h }),
        doc.files@[f as int].load is Loaded,
        h < doc.files@[f as int].load->hunks@.len(),
    ensures
        ({
            let lines = doc.files@[f as int].load->hunks@[h as int].lines@;
            let path = doc.files@[f as int].entry.path@;
            &&& forall|i: int|
                0 <= i < lines.len() && lines[i].origin == '+' && (forall|y: int|
                    0 <= y < i ==> lines[y].origin != '+') ==> selected_line_spec(doc, scroll)
                    == match #[trigger] lines[i].new_lineno {
                    Some(n) => Some((path, n)),
                    None => None,
                }
            &&& (forall|y: int| 0 <= y < lines.len() ==> lines[y].origin != '+')
                ==> selected_line_spec(doc, scroll) is None
        }),
{
    let lines = doc.files@[f as int].load->hunks@[h as int].lines@;
    assert forall|i: int|
        0 <= i < lines.len() && lines[i].origin == '+' && (forall|y: int|
            0 <= y < i ==> lines[y].origin != '+') implies selected_line_spec(doc, scroll)
        == match #[trigger] lines[i].new_lineno {
        Some(n) => Some((doc.files@[f as int].entry.path@, n)),
        None => None,
    } by {
        lemma_first_added_is_first(lines, i);
    }
    if forall|y: int| 0 <= y < lines.len() ==> lines[y].origin != '+' {
        lemma_no_added(lines);
    }
}

/// The files with the review mark of file `i` flipped; an index past the last file changes
/// nothing.
pub open spec fn toggled(files: Seq<FileSlot>, i: int) -> Seq<FileSlot> {
    if 0 <= i < files.len() {
        files.update(i, FileSlot { reviewed: !files[i].reviewed, ..files[i] })
    } else {
        files
    }
}

/// Flipping a file's review mark twice gives the files back.
pub proof fn lemma_toggle_twice(files: Seq<FileSlot>, i: int)
    ensures
        toggled(toggled(files, i), i) == files,
{
    if 0 <= i < files.len() {
        assert(toggled(toggled(files, i), i) =~= files);
    }
}

/// The first file after `file_idx` not yet reviewed.
pub open spec fn next_unreviewed_spec(files: Seq<FileSlot>, file_idx: int) -> Option<int> {
    if exists|j: int| file_idx < j < files.len() && !(#[trigger] files[j]).reviewed {
        Some(
            choose|j: int|
                file_idx < j < files.len() && !(#[trigger] files[j]).reviewed && forall|k: int|
                    file_idx < k < j ==> (#[trigger] files[k]).reviewed,
        )
    } else {
        None
    }
}

/// Whether a file of the review is the one a key names.
pub open spec fn key_matches(slot: FileSlot, key: FileKey) -> bool {
    slot.entry.path@ == key.path@ && slot.entry.status == key.status
}

/// The last file of the review that a key names, if any.
pub open spec fn slot_of_spec(files: Seq<FileSlot>, key: FileKey) -> Option<int> {
    if exists|i: int| 0 <= i < files.len() && key_matches(#[trigger] files[i], key) {
        Some(
            choose|i: int|
                0 <= i < files.len() && key_matches(#[trigger] files[i], key) && forall|k: int|
                    i < k < files.len() ==> !key_matches(#[trigger] files[k], key),
        )
    } else {
        None
    }
}

impl ContinuousDiff {
    /// The shape every operation keeps: row counts fit in `usize`, the index is either empty or
    /// has one ascending start per file from row 0, and loaded indexes are well formed.
    pub open spec fn wf(&self) -> bool {
        &&& capacity_before(self.files@, self.files@.len() as int) <= usize::MAX
        &&& self.index.wf()
        &&& self.index.file_starts@.len() == 0 || self.index.file_starts@.len()
            == self.files@.len()
        &&& forall|i: int| 0 <= i < self.files@.len() ==> (#[trigger] self.files@[i]).wf()
        &&& forall|f: int|
            0 <= f < self.index.file_starts@.len() ==> #[trigger] self.index.file_starts@[f]
                <= capacity_before(self.files@, f)
        &&& self.index.total_rows <= capacity_before(self.files@, self.files@.len() as int)
    }

    /// Whether the index matches the files' current row counts in the current layout.
    pub open spec fn index_current(&self) -> bool {
        &&& self.index.file_starts@.len() == self.files@.len()
        &&& forall|i: int|
            0 <= i < self.files@.len() ==> #[trigger] self.index.file_starts@[i] == rows_before(
                self.files@,
                self.layout,
                i,
            )
        &&& self.index.total_rows == rows_before(
            self.files@,
            self.layout,
            self.files@.len() as int,
        )
    }

    /// Recomputes where each file starts and how many rows the document has.
    pub fn rebuild_index(&mut self)
        requires
            old(self).wf(),
        ensures
            final(self).wf(),
            final(self).index_current(),
            final(self).files@ == old(self).files@,
            final(self).layout == old(self).layout,
            final(self).index_dirty == old(self).index_dirty,
            final(self).generation == old(self).generation,
    {
        let ghost files = self.files@;
        let layout = self.layout;
        proof {
            lemma_rows_within_capacity(files, layout, files.len() as int);
        }
        let mut file_starts: Vec<usize> = Vec::new();
        let mut offset: usize = 0;
        let mut i: usize = 0;
        while i < self.files.len()
            invariant
                i <= self.files.len(),
                self.files@ == files,
                layout == self.layout,
                capacity_before(files, files.len() as int) <= usize::MAX,
                forall|m: int|
                    0 <= m <= files.len() ==> #[trigger] rows_before(files, layout, m)
                        <= rows_before(files, layout, files.len() as int),
                rows_before(files, layout, files.len() as int) <= capacity_before(
                    files,
                    files.len() as int,
                ),
                forall|m: int|
                    0 <= m <= files.len() ==> #[trigger] capacity_before(files, m)
                        <= capacity_before(files, files.len() as int),
                offset == rows_before(files, layout, i as int),
                file_starts@.len() == i,
                forall|k: int| 0 <= k < i ==> #[trigger] file_starts@[k] == rows_before(files, layout, k),
            decreases self.files.len() - i,
        {
            file_starts.push(offset);
            proof {
                assert(capacity_before(files, i as int + 1) == capacity_before(files, i as int)
                    + slot_capacity(files[i as int]));
                assert(rows_before(files, layout, i as int + 1) == rows_before(files, layout, i as int)
                    + slot_rows(files[i as int], layout));
            }
            let rows = self.files[i].row_count(layout);
            offset = offset + rows;
            i = i + 1;
        }
        proof {
            assert forall|a: int, b: int| 0 <= a <= b < file_starts@.len() implies file_starts@[a]
                <= file_starts@[b] by {
                lemma_rows_within_capacity(files, layout, b);
            }
            assert forall|f: int| 0 <= f < file_starts@.len() implies #[trigger] file_starts@[f]
                <= capacity_before(files, f) by {
                lemma_rows_within_capacity(files, layout, f);
            }
        }
        self.index = ReviewIndex { file_starts, total_rows: offset };
    }

    /// What `global_row` shows: the header (or binary notice) of the file at its first row,
    /// then the rows of the file's diff, a loading notice or an error.
    pub fn lookup_row(&self, global_row: usize) -> (r: Option<RenderedRow>)
        requires
            self.wf(),
        ensures
            r == lookup_row_spec(*self, global_row as int),
            r matches Some(RenderedRow::DiffRow { file_idx, .. }) ==> file_idx < self.files@.len(),
            r matches Some(RenderedRow::HunkHeader { file_idx, .. }) ==> file_idx
                < self.files@.len(),
    {
        let (file_idx, local_row) = match self.index.file_at_row(global_row) {
            Some(found) => found,
            None => {
                return None;
            },
        };
        let slot = &self.files[file_idx];
        if local_row == 0 {
            return match slot.load {
                DiffLoadState::Binary => Some(RenderedRow::Binary { file_idx }),
                _ => Some(RenderedRow::FileHeader { file_idx }),
            };
        }
        let diff_row = local_row - 1;
        assert(slot.wf());
        match &slot.load {
            DiffLoadState::Loaded { hunks, index } => {
                match index.lookup_for(diff_row, self.layout) {
                    None => None,
                    Some(IndexRow::SectionHeader(section_idx)) => {
                        let kind = match self.layout {
                            DiffLayout::Unified => index.section_header_rows[section_idx].1,
                            DiffLayout::SideBySide => index.split_section_header_rows[section_idx].1,
                        };
                        Some(RenderedRow::SectionHeader { kind })
                    },
                    Some(IndexRow::HunkHeader(hunk_idx)) => {
                        if hunk_idx < hunks.len() {
                            Some(RenderedRow::HunkHeader { file_idx, hunk_idx })
                        } else {
                            None
                        }
                    },
                    Some(IndexRow::DiffLine(hunk_idx, row_idx)) => {
                        if hunk_idx >= hunks.len() {
                            return None;
                        }
                        let hunk = &hunks[hunk_idx];
                        let row_count = match self.layout {
                            DiffLayout::Unified => hunk.lines.len(),
                            DiffLayout::SideBySide => hunk.comparison_rows.len(),
                        };
                        if row_idx < row_count {
                            Some(RenderedRow::DiffRow { file_idx, hunk_idx, row_idx })
                        } else {
                            None
                        }
                    },
                }
            },
            DiffLoadState::Loading | DiffLoadState::NotLoaded => Some(RenderedRow::Loading),
            DiffLoadState::Binary => None,
            DiffLoadState::Error(msg) => Some(RenderedRow::Error { msg: msg.clone() }),
        }
    }

    /// Whether the cursor can stop on a row: it shows a line of a diff.
    pub fn is_selectable_row(&self, row: usize) -> (r: bool)
        requires
            self.wf(),
        ensures
            r == is_diff_row(*self, row as int),
    {
        match self.lookup_row(row) {
            Some(RenderedRow::DiffRow { .. }) => true,
            _ => false,
        }
    }

    /// The path and new-side line number to open an editor at for the row `scroll`: the line
    /// shown there, or for a hunk header the first line the hunk adds; `None` when there is none.
    pub fn selected_line(&self, scroll: usize) -> (r: Option<(&str, u32)>)
        requires
            self.wf(),
        ensures
            match r {
                Some((path, n)) => selected_line_spec(*self, scroll as int) == Some((path@, n)),
                None => selected_line_spec(*self, scroll as int) is None,
            },
    {
        let (file_idx, hunk_idx, row_idx) = match self.lookup_row(scroll) {
            Some(RenderedRow::DiffRow { file_idx, hunk_idx, row_idx }) => (
                file_idx,
                hunk_idx,
                Some(row_idx),
            ),
            Some(RenderedRow::HunkHeader { file_idx, hunk_idx }) => (file_idx, hunk_idx, None),
            _ => {
                return None;
            },
        };
        let hunks = match &self.files[file_idx].load {
            DiffLoadState::Loaded { hunks, .. } => hunks,
            _ => {
                return None;
            },
        };
        if hunk_idx >= hunks.len() {
            return None;
        }
        let hunk = &hunks[hunk_idx];
        let new_lineno = match row_idx {
            Some(row_idx) => match self.layout {
                DiffLayout::Unified => {
                    if row_idx >= hunk.lines.len() {
                        return None;
                    }
                    hunk.lines[row_idx].new_lineno
                },
                DiffLayout::SideBySide => {
                    if row_idx >= hunk.comparison_rows.len() {
                        return None;
                    }
                    match hunk.comparison_rows[row_idx].new_line_idx {
                        Some(idx) => {
                            if idx >= hunk.lines.len() {
                                return None;
                            }
                            hunk.lines[idx].new_lineno
                        },
                        None => None,
                    }
                },
            },
            None => match first_added_line(&hunk.lines) {
                Some(i) => hunk.lines[i].new_lineno,
                None => None,
            },
        };
        match new_lineno {
            Some(n) => Some((self.files[file_idx].entry.path.as_str(), n)),
            None => None,
        }
    }

    /// Marks a file reviewed if it was not, and not reviewed if it was; an index past the
    /// last file changes nothing.
    pub fn toggle_reviewed(&mut self, file_idx: usize)
        requires
            old(self).wf(),
        ensures
            final(self).wf(),
            final(self).files@ == toggled(old(self).files@, file_idx as int),
            final(self).index == old(self).index,
            final(self).layout == old(self).layout,
            final(self).index_dirty == old(self).index_dirty,
            final(self).generation == old(self).generation,
    {
        if file_idx < self.files.len() {
            let ghost before = self.files@;
            let mut slot = self.files.remove(file_idx);
            slot.reviewed = !slot.reviewed;
            self.files.insert(file_idx, slot);
            proof {
                assert forall|m: int| 0 <= m <= self.files@.len() implies #[trigger] capacity_before(
                    self.files@,
                    m,
                ) == capacity_before(before, m) by {
                    lemma_capacity_same(self.files@, before, m);
                }
                assert forall|i: int| 0 <= i < self.files@.len() implies (
                #[trigger] self.files@[i]).wf() by {
                    if i != file_idx {
                        assert(self.files@[i] == before[i]);
                    }
                }
            }
        }
    }

    /// The first file after `file_idx` that is not reviewed.
    pub fn next_unreviewed_after(&self, file_idx: usize) -> (r: Option<usize>)
        ensures
            match r {
                Some(j) => next_unreviewed_spec(self.files@, file_idx as int) == Some(j as int),
                None => next_unreviewed_spec(self.files@, file_idx as int) is None,
            },
    {
        if file_idx >= self.files.len() {
            return None;
        }
        let mut j = file_idx + 1;
        while j < self.files.len()
            invariant
                file_idx < j <= self.files.len(),
                forall|k: int| file_idx < k < j ==> (#[trigger] self.files@[k]).reviewed,
            decreases self.files.len() - j,
        {
            if !self.files[j].reviewed {
                proof {
                    let w = choose|w: int|
                        file_idx < w < self.files@.len() && !(#[trigger] self.files@[w]).reviewed
                            && forall|k: int| file_idx < k < w ==> (#[trigger] self.files@[k]).reviewed;
                    assert(file_idx < j < self.files@.len() && !self.files@[j as int].reviewed
                        && forall|k: int| file_idx < k < j ==> (#[trigger] self.files@[k]).reviewed);
                    if w < j {
                        assert(self.files@[w].reviewed);
                    } else if w > j {
                        assert(self.files@[j as int].reviewed);
                    }
                }
                return Some(j);
            }
            j = j + 1;
        }
        None
    }

    /// The file of the review that a key names: the last one with that path and status.
    pub fn slot_of(&self, key: &FileKey) -> (r: Option<usize>)
        ensures
            match r {
                Some(i) => slot_of_spec(self.files@, *key) == Some(i as int) && i
                    < self.files@.len(),
                None => slot_of_spec(self.files@, *key) is None,
            },
    {
        let key_path = chars_of(key.path.as_str());
        let mut j: usize = self.files.len();
        while j > 0
            invariant
                j <= self.files.len(),
                key_path@ == key.path@,
                forall|k: int| j <= k < self.files@.len() ==> !key_matches(
                    #[trigger] self.files@[k],
                    *key,
                ),
            decreases j,
        {
            let slot = &self.files[j - 1];
            let path = chars_of(slot.entry.path.as_str());
            if slot.entry.status == key.status && chars_eq(&path, &key_path) {
                proof {
                    let i = j as int - 1;
                    assert(key_matches(self.files@[i], *key));
                    let w = choose|w: int|
                        0 <= w < self.files@.len() && key_matches(#[trigger] self.files@[w], *key)
                            && forall|k: int|
                            w < k < self.files@.len() ==> !key_matches(
                                #[trigger] self.files@[k],
                                *key,
                            );
                    if w < i {
                        assert(!key_matches(self.files@[i], *key));
                    } else if w > i {
                        assert(!key_matches(self.files@[w], *key));
                    }
                }
                return Some(j - 1);
            }
            j = j - 1;
        }
        None
    }
}

proof fn lemma_capacity_same(a: Seq<FileSlot>, b: Seq<FileSlot>, m: int)
    requires
        a.len() == b.len(),
        forall|i: int| 0 <= i < a.len() ==> slot_capacity(#[trigger] a[i]) == slot_capacity(b[i]),
    ensures
        capacity_before(a, m) == capacity_before(b, m),
    decreases m,
{
    if m > 0 {
        lemma_capacity_same(a, b, m - 1);
    }
}

fn first_added_line(lines: &Vec<DiffLine>) -> (r: Option<usize>)
    ensures
        match r {
            Some(i) => first_added(lines@) == Some(i as int) && i < lines.len(),
            None => first_added(lines@) is None,
        },
{
    let mut i: usize = 0;
    assert(lines@.skip(0) == lines@);
    while i < lines.len()
        invariant
            i <= lines.len(),
            first_added(lines@) == match first_added(lines@.skip(i as int)) {
                Some(k) => Some(k + i),
                None => None::<int>,
            },
        decreases lines.len() - i,
    {
        assert(lines@.skip(i as int)[0] == lines@[i as int]);
        if lines[i].origin == '+' {
            return Some(i);
        }
        assert(lines@.skip(i as int).drop_first() == lines@.skip(i as int + 1));
        i = i + 1;
    }
    None
}

} // verus!
