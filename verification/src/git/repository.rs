//! The shapes a repository's changes take once read: file entries, hunks and
//! the side-by-side pairing of a hunk's lines.
use vstd::prelude::*;

use crate::text::{chars_of, is_whitespace, string_from_chars, unicode_white_space};

verus! {

/// How many files carry each kind of change.
#[derive(Debug, Clone, Copy, Default)]
pub struct ChangeCounts {
    pub staged: usize,
    pub unstaged: usize,
    pub untracked: usize,
    pub conflicted: usize,
}

impl ChangeCounts {
    /// Whether the working tree holds any change at all.
    pub fn is_dirty(&self) -> (r: bool)
        ensures
            r == (self.staged + self.unstaged + self.untracked + self.conflicted > 0),
    {
        self.staged > 0 || self.unstaged > 0 || self.untracked > 0 || self.conflicted > 0
    }
}

/// A commit of the history: its id in hexadecimal, its subject line and when it was made,
/// in seconds since the Unix epoch.
#[derive(Debug, Clone)]
pub struct CommitInfo {
    pub oid: String,
    pub subject: String,
    pub committed_at: i64,
}

/// Where `HEAD` points.
#[derive(Debug, Clone)]
pub enum Head {
    Branch(String),
    Detached(String),
    Unknown,
}

/// What the top bar shows of the repository.
#[derive(Debug, Clone)]
pub struct RepositoryStatus {
    pub name: String,
    pub head: Head,
    pub ahead: usize,
    pub behind: usize,
    pub changes: ChangeCounts,
}

/// Where a changed file stands between the index and the working tree.
#[derive(Debug, Clone, Copy, PartialEq, Eq, Structural, Hash)]
pub enum FileStatus {
    Staged,
    Partial,
    Unstaged,
    Untracked,
    Conflicted,
}

/// How a file changed between two commits.
#[derive(Debug, Clone, Copy, PartialEq, Eq, Structural)]
pub enum FileChange {
    Added,
    Modified,
    Deleted,
    Renamed,
    TypeChanged,
}

/// The kind of object a path names.
#[derive(Debug, Clone, Copy, PartialEq, Eq, Structural)]
pub enum FileKind {
    File,
    Executable,
    Symlink,
    Submodule,
    Directory,
    Unknown,
}

/// A change of a path from one kind of object to another.
#[derive(Debug, Clone, Copy, PartialEq, Eq, Structural)]
pub struct FileTypeChange {
    pub from: FileKind,
    pub to: FileKind,
}

/// One changed file.
#[derive(Debug, Clone)]
pub struct FileEntry {
    pub path: String,
    pub previous_path: Option<String>,
    pub status: FileStatus,
    pub change: Option<FileChange>,
    pub type_change: Option<FileTypeChange>,
    pub insertions: usize,
    pub deletions: usize,
}

pub open spec fn file_change_label(c: FileChange) -> Seq<char> {
    match c {
        FileChange::Added => "ADDED"@,
        FileChange::Modified => "MODIFIED"@,
        FileChange::Deleted => "DELETED"@,
        FileChange::Renamed => "RENAMED"@,
        FileChange::TypeChanged => "TYPE CHANGED"@,
    }
}

pub open spec fn file_kind_label(k: FileKind) -> Seq<char> {
    match k {
        FileKind::File => "file"@,
        FileKind::Executable => "executable file"@,
        FileKind::Symlink => "symlink"@,
        FileKind::Submodule => "submodule"@,
        FileKind::Directory => "directory"@,
        FileKind::Unknown => "unknown"@,
    }
}

pub open spec fn file_status_label(s: FileStatus) -> Seq<char> {
    match s {
        FileStatus::Staged => "STAGED"@,
        FileStatus::Partial => "PARTIAL"@,
        FileStatus::Conflicted => "CONFLICTED"@,
        FileStatus::Unstaged => "UNSTAGED"@,
        FileStatus::Untracked => "UNTRACKED"@,
    }
}

impl FileChange {
    /// The upper-case word shown for the change.
    pub fn label(self) -> (r: &'static str)
        ensures
            r@ == file_change_label(self),
    {
        match self {
            FileChange::Added => "ADDED",
            FileChange::Modified => "MODIFIED",
            FileChange::Deleted => "DELETED",
            FileChange::Renamed => "RENAMED",
            FileChange::TypeChanged => "TYPE CHANGED",
        }
    }
}

impl FileKind {
    /// The words shown for the kind of object.
    pub fn label(self) -> (r: &'static str)
        ensures
            r@ == file_kind_label(self),
    {
        match self {
            FileKind::File => "file",
            FileKind::Executable => "executable file",
            FileKind::Symlink => "symlink",
            FileKind::Submodule => "submodule",
            FileKind::Directory => "directory",
            FileKind::Unknown => "unknown",
        }
    }
}

impl FileStatus {
    /// The upper-case word shown for the status.
    pub fn label(self) -> (r: &'static str)
        ensures
            r@ == file_status_label(self),
    {
        match self {
            FileStatus::Staged => "STAGED",
            FileStatus::Partial => "PARTIAL",
            FileStatus::Conflicted => "CONFLICTED",
            FileStatus::Unstaged => "UNSTAGED",
            FileStatus::Untracked => "UNTRACKED",
        }
    }
}

/// The status of a file from what the index and the working tree say of it, or `None`
/// when neither holds a change.
pub open spec fn status_from_flags(
    conflicted: bool,
    worktree_new: bool,
    index_changed: bool,
    worktree_changed: bool,
) -> Option<FileStatus> {
    if conflicted {
        Some(FileStatus::Conflicted)
    } else if worktree_new {
        Some(FileStatus::Untracked)
    } else if index_changed && worktree_changed {
        Some(FileStatus::Partial)
    } else if index_changed {
        Some(FileStatus::Staged)
    } else if worktree_changed {
        Some(FileStatus::Unstaged)
    } else {
        None
    }
}

/// Classifies a status entry: conflicts first, then untracked files, then staged,
/// unstaged or both.
pub fn classify_status(
    conflicted: bool,
    worktree_new: bool,
    index_changed: bool,
    worktree_changed: bool,
) -> (r: Option<FileStatus>)
    ensures
        r == status_from_flags(conflicted, worktree_new, index_changed, worktree_changed),
{
    if conflicted {
        Some(FileStatus::Conflicted)
    } else if worktree_new {
        Some(FileStatus::Untracked)
    } else {
        match (index_changed, worktree_changed) {
            (true, true) => Some(FileStatus::Partial),
            (true, false) => Some(FileStatus::Staged),
            (false, true) => Some(FileStatus::Unstaged),
            (false, false) => None,
        }
    }
}

/// The lines a working-tree file adds and removes, from the staged and unstaged counts of
/// its path and, for an untracked file, its line count.
pub open spec fn entry_counts_spec(
    status: FileStatus,
    staged: (usize, usize),
    unstaged: (usize, usize),
    untracked_lines: usize,
) -> (int, int) {
    match status {
        FileStatus::Staged => (staged.0 as int, staged.1 as int),
        FileStatus::Unstaged => (unstaged.0 as int, unstaged.1 as int),
        FileStatus::Partial => (staged.0 + unstaged.0, staged.1 + unstaged.1),
        FileStatus::Untracked => (untracked_lines as int, 0),
        FileStatus::Conflicted => (0, 0),
    }
}

/// The lines a working-tree file adds and removes.  For a partly staged file both counts
/// must fit in `usize`.
pub fn entry_counts(
    status: FileStatus,
    staged: (usize, usize),
    unstaged: (usize, usize),
    untracked_lines: usize,
) -> (r: (usize, usize))
    requires
        status == FileStatus::Partial ==> staged.0 + unstaged.0 <= usize::MAX && staged.1
            + unstaged.1 <= usize::MAX,
    ensures
        (r.0 as int, r.1 as int) == entry_counts_spec(status, staged, unstaged, untracked_lines),
{
    match status {
        FileStatus::Staged => staged,
        FileStatus::Unstaged => unstaged,
        FileStatus::Partial => (staged.0 + unstaged.0, staged.1 + unstaged.1),
        FileStatus::Untracked => (untracked_lines, 0),
        FileStatus::Conflicted => (0, 0),
    }
}

impl ChangeCounts {
    /// Adds one status entry to the counts: a conflict counts only as a conflict;
    /// otherwise an entry may count as staged, untracked and unstaged at once.
    pub fn record(
        &mut self,
        conflicted: bool,
        worktree_new: bool,
        index_changed: bool,
        worktree_changed: bool,
    )
        requires
            old(self).staged < usize::MAX,
            old(self).unstaged < usize::MAX,
            old(self).untracked < usize::MAX,
            old(self).conflicted < usize::MAX,
        ensures
            final(self).conflicted == old(self).conflicted + (if conflicted { 1int } else { 0 }),
            final(self).staged == old(self).staged + (if !conflicted && index_changed {
                1int
            } else {
                0
            }),
            final(self).untracked == old(self).untracked + (if !conflicted && worktree_new {
                1int
            } else {
                0
            }),
            final(self).unstaged == old(self).unstaged + (if !conflicted && worktree_changed {
                1int
            } else {
                0
            }),
    {
        if conflicted {
            self.conflicted = self.conflicted + 1;
        } else {
            if index_changed {
                self.staged = self.staged + 1;
            }
            if worktree_new {
                self.untracked = self.untracked + 1;
            }
            if worktree_changed {
                self.unstaged = self.unstaged + 1;
            }
        }
    }
}

/// One line of a hunk.
#[derive(Debug, Clone)]
pub struct DiffLine {
    pub old_lineno: Option<u32>,
    pub new_lineno: Option<u32>,
    pub origin: char,
    pub content: String,
}

/// A row of the side-by-side view: the line shown on each side, by index into the hunk.
#[derive(Debug, Clone, Copy, PartialEq, Eq, Structural)]
pub struct ComparisonRow {
    pub old_line_idx: Option<usize>,
    pub new_line_idx: Option<usize>,
}

/// One hunk of a file's diff.
#[derive(Debug, Clone)]
pub struct DiffHunk {
    pub header: String,
    pub lines: Vec<DiffLine>,
    pub comparison_rows: Vec<ComparisonRow>,
    pub insertions: usize,
    pub deletions: usize,
}

/// Whether the staged or the unstaged part of a file's change is shown.
#[derive(Debug, Clone, Copy, PartialEq, Eq, Structural)]
pub enum DiffSectionKind {
    Staged,
    Unstaged,
}

/// The hunks of one part of a file's change.
#[derive(Debug, Clone)]
pub struct DiffSection {
    pub kind: DiffSectionKind,
    pub hunks: Vec<DiffHunk>,
}

/// How a revision range picks its old side.
#[derive(Debug, Clone, Copy, PartialEq, Eq, Structural)]
pub enum RangeKind {
    Direct,
    MergeBase,
}

/// The origin characters of a hunk's lines.
pub open spec fn origins(lines: Seq<DiffLine>) -> Seq<char> {
    lines.map_values(|l: DiffLine| l.origin)
}

/// How many times `c` occurs in `o`.
pub open spec fn count_char(o: Seq<char>, c: char) -> nat
    decreases o.len(),
{
    if o.len() == 0 {
        0
    } else {
        count_char(o.drop_last(), c) + (if o.last() == c {
            1nat
        } else {
            0nat
        })
    }
}

proof fn lemma_count_char_bound(o: Seq<char>, c: char)
    ensures
        count_char(o, c) <= o.len(),
    decreases o.len(),
{
    if o.len() > 0 {
        lemma_count_char_bound(o.drop_last(), c);
    }
}

/// Lines that take part in a change run.
pub open spec fn is_change(c: char) -> bool {
    c == '+' || c == '-'
}

/// The end of the run of added and removed lines that starts at `i`.
pub open spec fn run_end(o: Seq<char>, i: int) -> int
    decreases o.len() - i,
{
    if i < 0 || i >= o.len() || !is_change(o[i]) {
        i
    } else {
        run_end(o, i + 1)
    }
}

pub proof fn lemma_run_end(o: Seq<char>, i: int)
    requires
        0 <= i <= o.len(),
    ensures
        i <= run_end(o, i) <= o.len(),
        i < o.len() && is_change(o[i]) ==> i < run_end(o, i),
        forall|k: int| i <= k < run_end(o, i) ==> is_change(#[trigger] o[k]),
        run_end(o, i) < o.len() ==> !is_change(o[run_end(o, i)]),
    decreases o.len() - i,
{
    if i < o.len() && is_change(o[i]) {
        lemma_run_end(o, i + 1);
    }
}

/// The indices in `from..to` whose origin is `ch`, in order.
pub open spec fn indices_with(o: Seq<char>, from: int, to: int, ch: char) -> Seq<usize>
    decreases to - from,
{
    if to <= from {
        Seq::<usize>::empty()
    } else {
        let rest = indices_with(o, from, to - 1, ch);
        if o[to - 1] == ch {
            rest.push((to - 1) as usize)
        } else {
            rest
        }
    }
}

/// The side-by-side rows of one run: removed lines on the left, added lines on the
/// right, the shorter side shifted down by `offset` rows.
pub open spec fn rows_at_offset(old: Seq<usize>, new: Seq<usize>, offset: int) -> Seq<
    ComparisonRow,
> {
    let n = if old.len() >= new.len() {
        old.len()
    } else {
        new.len()
    };
    let old_start = if new.len() > old.len() {
        offset
    } else {
        0
    };
    let new_start = if old.len() > new.len() {
        offset
    } else {
        0
    };
    Seq::new(
        n,
        |r: int|
            ComparisonRow {
                old_line_idx: if old_start <= r && r - old_start < old.len() {
                    Some(old[r - old_start])
                } else {
                    None
                },
                new_line_idx: if new_start <= r && r - new_start < new.len() {
                    Some(new[r - new_start])
                } else {
                    None
                },
            },
    )
}

/// The difference in length of the two sides of a run.
pub open spec fn surplus(old_len: int, new_len: int) -> int {
    if old_len >= new_len {
        old_len - new_len
    } else {
        new_len - old_len
    }
}

/// The offset used for run `k`: the one given, at most the run's surplus; 0 when none is given.
pub open spec fn offset_for(alignment: Seq<usize>, k: int, surplus: int) -> int {
    if 0 <= k < alignment.len() {
        if alignment[k] <= surplus {
            alignment[k] as int
        } else {
            surplus
        }
    } else {
        0
    }
}

/// The row of a line outside any change run.
pub open spec fn single_row(c: char, i: usize) -> ComparisonRow {
    if c == '<' {
        ComparisonRow { old_line_idx: Some(i), new_line_idx: None }
    } else if c == '>' {
        ComparisonRow { old_line_idx: None, new_line_idx: Some(i) }
    } else {
        ComparisonRow { old_line_idx: Some(i), new_line_idx: Some(i) }
    }
}

/// The side-by-side rows of the lines from `i` on, `k` being the number of change runs
/// before `i`.
pub open spec fn rows_from(o: Seq<char>, i: int, k: int, alignment: Seq<usize>) -> Seq<
    ComparisonRow,
>
    decreases o.len() - i,
{
    if i < 0 || i >= o.len() {
        Seq::<ComparisonRow>::empty()
    } else if is_change(o[i]) {
        let j = run_end(o, i);
        proof {
            lemma_run_end(o, i);
        }
        let old = indices_with(o, i, j, '-');
        let new = indices_with(o, i, j, '+');
        rows_at_offset(
            old,
            new,
            offset_for(alignment, k, surplus(old.len() as int, new.len() as int)),
        ) + rows_from(o, j, k + 1, alignment)
    } else {
        seq![single_row(o[i], i as usize)] + rows_from(o, i + 1, k, alignment)
    }
}

/// The change runs of the lines from `i` on: for each, its removed and its added lines.
pub open spec fn runs_from(o: Seq<char>, i: int) -> Seq<(Seq<usize>, Seq<usize>)>
    decreases o.len() - i,
{
    if i < 0 || i >= o.len() {
        Seq::<(Seq<usize>, Seq<usize>)>::empty()
    } else if is_change(o[i]) {
        let j = run_end(o, i);
        proof {
            lemma_run_end(o, i);
        }
        seq![(indices_with(o, i, j, '-'), indices_with(o, i, j, '+'))] + runs_from(o, j)
    } else {
        runs_from(o, i + 1)
    }
}

/// The side-by-side rows of a hunk's lines, given the offset chosen for each change run.
pub open spec fn comparison_rows_spec(lines: Seq<DiffLine>, alignment: Seq<usize>) -> Seq<
    ComparisonRow,
> {
    rows_from(origins(lines), 0, 0, alignment)
}

/// The lines with every origin made a context line, so that none takes part in a change run.
pub open spec fn as_context(lines: Seq<DiffLine>) -> Seq<DiffLine> {
    lines.map_values(|l: DiffLine| DiffLine { origin: ' ', ..l })
}

/// Runs end at the same place in a sequence and in its first `m` entries when no run
/// crosses position `m`.
proof fn lemma_run_end_prefix(o: Seq<char>, m: int, x: int)
    requires
        0 <= x < m <= o.len(),
        !(0 < m < o.len() && is_change(o[m - 1]) && is_change(o[m])),
    ensures
        run_end(o, x) == run_end(o.take(m), x),
        run_end(o, x) <= m,
    decreases m - x,
{
    let oh = o.take(m);
    assert(oh[x] == o[x]);
    if is_change(o[x]) {
        if x + 1 < m {
            lemma_run_end_prefix(o, m, x + 1);
        } else {
            assert(run_end(oh, m) == m);
            assert(run_end(o, m) == m);
        }
    }
}

/// Runs from `x` on end at the same place in two sequences that agree from `m` on.
proof fn lemma_run_end_suffix(o1: Seq<char>, o2: Seq<char>, m: int, x: int)
    requires
        o1.len() == o2.len(),
        0 <= m <= x <= o1.len(),
        forall|y: int| m <= y < o1.len() ==> o1[y] == o2[y],
    ensures
        run_end(o1, x) == run_end(o2, x),
    decreases o1.len() - x,
{
    if x < o1.len() {
        assert(o1[x] == o2[x]);
        lemma_run_end_suffix(o1, o2, m, x + 1);
    }
}

/// The indices taken from entries that two sequences share are the same.
proof fn lemma_indices_agree(o1: Seq<char>, o2: Seq<char>, from: int, to: int, ch: char)
    requires
        0 <= from,
        to <= o1.len(),
        to <= o2.len(),
        forall|y: int| from <= y < to ==> o1[y] == o2[y],
    ensures
        indices_with(o1, from, to, ch) == indices_with(o2, from, to, ch),
    decreases to - from,
{
    if to > from {
        lemma_indices_agree(o1, o2, from, to - 1, ch);
        assert(o1[to - 1] == o2[to - 1]);
    }
}

/// The rows of a sequence from `i` are those of its first `m` entries followed by the rows
/// from `m`, laid out with the runs counted on.
proof fn lemma_rows_prefix(o: Seq<char>, m: int, i: int, k: int, alignment: Seq<usize>)
    requires
        0 <= i <= m <= o.len(),
        !(0 < m < o.len() && is_change(o[m - 1]) && is_change(o[m])),
    ensures
        rows_from(o, i, k, alignment) == rows_from(o.take(m), i, k, alignment) + rows_from(
            o,
            m,
            k + runs_from(o.take(m), i).len(),
            alignment,
        ),
    decreases m - i,
{
    let oh = o.take(m);
    if i == m {
        assert(rows_from(oh, i, k, alignment) =~= Seq::<ComparisonRow>::empty());
        assert(runs_from(oh, i).len() == 0);
        assert(rows_from(oh, i, k, alignment) + rows_from(o, m, k, alignment) =~= rows_from(
            o,
            m,
            k,
            alignment,
        ));
    } else {
        assert(oh[i] == o[i]);
        if is_change(o[i]) {
            lemma_run_end_prefix(o, m, i);
            lemma_run_end(o, i);
            let j = run_end(o, i);
            lemma_indices_agree(o, oh, i, j, '-');
            lemma_indices_agree(o, oh, i, j, '+');
            lemma_rows_prefix(o, m, j, k + 1, alignment);
            let head_rows = rows_at_offset(
                indices_with(o, i, j, '-'),
                indices_with(o, i, j, '+'),
                offset_for(
                    alignment,
                    k,
                    surplus(
                        indices_with(o, i, j, '-').len() as int,
                        indices_with(o, i, j, '+').len() as int,
                    ),
                ),
            );
            assert(runs_from(oh, i).len() == 1 + runs_from(oh, j).len());
            assert(rows_from(o, i, k, alignment) == head_rows + rows_from(o, j, k + 1, alignment));
            assert(rows_from(oh, i, k, alignment) == head_rows + rows_from(
                oh,
                j,
                k + 1,
                alignment,
            ));
            assert(rows_from(o, i, k, alignment) =~= rows_from(oh, i, k, alignment) + rows_from(
                o,
                m,
                k + runs_from(oh, i).len(),
                alignment,
            ));
        } else {
            lemma_rows_prefix(o, m, i + 1, k, alignment);
            assert(runs_from(oh, i) == runs_from(oh, i + 1));
            assert(rows_from(o, i, k, alignment) =~= rows_from(oh, i, k, alignment) + rows_from(
                o,
                m,
                k + runs_from(oh, i).len(),
                alignment,
            ));
        }
    }
}

/// From position `m` on, two sequences that agree there give the same rows when their
/// runs are given the same offsets.
proof fn lemma_rows_suffix(
    o1: Seq<char>,
    o2: Seq<char>,
    m: int,
    i: int,
    k1: int,
    a1: Seq<usize>,
    k2: int,
    a2: Seq<usize>,
)
    requires
        o1.len() == o2.len(),
        0 <= m <= i,
        forall|y: int| m <= y < o1.len() ==> o1[y] == o2[y],
        forall|t: int, sp: int| t >= 0 ==> #[trigger] offset_for(a1, k1 + t, sp) == offset_for(
            a2,
            k2 + t,
            sp,
        ),
    ensures
        rows_from(o1, i, k1, a1) == rows_from(o2, i, k2, a2),
    decreases o1.len() - i,
{
    if i < o1.len() {
        assert(o1[i] == o2[i]);
        if is_change(o1[i]) {
            lemma_run_end_suffix(o1, o2, m, i);
            lemma_run_end(o1, i);
            let j = run_end(o1, i);
            lemma_indices_agree(o1, o2, i, j, '-');
            lemma_indices_agree(o1, o2, i, j, '+');
            let sp = surplus(
                indices_with(o1, i, j, '-').len() as int,
                indices_with(o1, i, j, '+').len() as int,
            );
            assert(offset_for(a1, k1 + 0, sp) == offset_for(a2, k2 + 0, sp));
            assert forall|t: int, sp2: int| t >= 0 implies #[trigger] offset_for(
                a1,
                (k1 + 1) + t,
                sp2,
            ) == offset_for(a2, (k2 + 1) + t, sp2) by {
                assert(offset_for(a1, k1 + (t + 1), sp2) == offset_for(a2, k2 + (t + 1), sp2));
            }
            lemma_rows_suffix(o1, o2, m, j, k1 + 1, a1, k2 + 1, a2);
        } else {
            lemma_rows_suffix(o1, o2, m, i + 1, k1, a1, k2, a2);
        }
    }
}

/// Context lines up to `m` each give one row, so the rows from `m` on follow the first `m`.
proof fn lemma_rows_after_context(o: Seq<char>, m: int, i: int, alignment: Seq<usize>)
    requires
        0 <= i <= m <= o.len(),
        forall|y: int| 0 <= y < m ==> o[y] == ' ',
    ensures
        rows_from(o, i, 0, alignment).len() >= m - i,
        rows_from(o, i, 0, alignment).skip(m - i) == rows_from(o, m, 0, alignment),
    decreases m - i,
{
    if i == m {
        assert(rows_from(o, i, 0, alignment).skip(0) =~= rows_from(o, i, 0, alignment));
    } else {
        assert(o[i] == ' ');
        lemma_rows_after_context(o, m, i + 1, alignment);
        let rest = rows_from(o, i + 1, 0, alignment);
        assert(rows_from(o, i, 0, alignment) == seq![single_row(o[i], i as usize)] + rest);
        assert((seq![single_row(o[i], i as usize)] + rest).skip(m - i) =~= rest.skip(
            m - (i + 1),
        ));
    }
}

/// A hunk cut where no change run crosses lays out as its first part followed by the rest:
/// the rest's change runs are laid out with the alignment entries after those the first
/// part's runs used, each run with its own entry.  The rest is read in place, after the
/// first part's lines made context lines.
pub proof fn lemma_rows_split_between_runs(lines: Seq<DiffLine>, m: int, alignment: Seq<usize>)
    requires
        0 <= m <= lines.len(),
        !(0 < m < lines.len() && is_change(lines[m - 1].origin) && is_change(lines[m].origin)),
    ensures
        ({
            let head = lines.take(m);
            let used = runs_from(origins(head), 0).len();
            let later = if used <= alignment.len() {
                alignment.skip(used as int)
            } else {
                Seq::<usize>::empty()
            };
            comparison_rows_spec(lines, alignment) == comparison_rows_spec(head, alignment)
                + comparison_rows_spec(as_context(head) + lines.skip(m), later).skip(m)
        }),
{
    let o = origins(lines);
    let head = lines.take(m);
    assert(origins(head) =~= o.take(m));
    let used = runs_from(o.take(m), 0).len();
    let later = if used <= alignment.len() {
        alignment.skip(used as int)
    } else {
        Seq::<usize>::empty()
    };
    let o2 = origins(as_context(head) + lines.skip(m));
    assert(o2.len() == o.len());
    assert forall|y: int| m <= y < o.len() implies o[y] == o2[y] by {
        assert((as_context(head) + lines.skip(m))[y] == lines[y]);
    }
    assert forall|y: int| 0 <= y < m implies o2[y] == ' ' by {
        assert((as_context(head) + lines.skip(m))[y] == as_context(head)[y]);
    }
    lemma_rows_prefix(o, m, 0, 0, alignment);
    assert forall|t: int, sp: int| t >= 0 implies #[trigger] offset_for(
        alignment,
        used + t,
        sp,
    ) == offset_for(later, 0 + t, sp) by {
        if used <= alignment.len() && used + t < alignment.len() {
            assert(later[t] == alignment[used + t]);
        }
    }
    lemma_rows_suffix(o, o2, m, m, used as int, alignment, 0, later);
    lemma_rows_after_context(o2, m, 0, later);
    assert(rows_from(o2, 0, 0, later).skip(m - 0) =~= rows_from(o2, 0, 0, later).skip(m));
}

proof fn lemma_run_to_end(o: Seq<char>, i: int)
    requires
        0 <= i <= o.len(),
        forall|y: int| i <= y < o.len() ==> is_change(#[trigger] o[y]),
    ensures
        run_end(o, i) == o.len(),
    decreases o.len() - i,
{
    if i < o.len() {
        lemma_run_to_end(o, i + 1);
    }
}

/// A hunk that is one change run lays out as that run: its removed lines on the left and
/// its added lines on the right, the shorter side shifted down by the first alignment
/// entry, at most the difference in length of the sides, or not at all when there is none.
pub proof fn lemma_one_run_rows(lines: Seq<DiffLine>, alignment: Seq<usize>)
    requires
        lines.len() > 0,
        forall|y: int| 0 <= y < lines.len() ==> is_change(#[trigger] lines[y].origin),
    ensures
        ({
            let o = origins(lines);
            let removed = indices_with(o, 0, lines.len() as int, '-');
            let added = indices_with(o, 0, lines.len() as int, '+');
            let longer = if removed.len() >= added.len() {
                removed.len() - added.len()
            } else {
                added.len() - removed.len()
            };
            let offset = if alignment.len() > 0 {
                if alignment[0] <= longer {
                    alignment[0] as int
                } else {
                    longer as int
                }
            } else {
                0
            };
            comparison_rows_spec(lines, alignment) == rows_at_offset(removed, added, offset)
        }),
{
    let o = origins(lines);
    assert forall|y: int| 0 <= y < o.len() implies is_change(#[trigger] o[y]) by {
        assert(o[y] == lines[y].origin);
    }
    lemma_run_to_end(o, 0);
    assert(o[0] == lines[0].origin);
    let removed = indices_with(o, 0, lines.len() as int, '-');
    let added = indices_with(o, 0, lines.len() as int, '+');
    let head = rows_at_offset(
        removed,
        added,
        offset_for(alignment, 0, surplus(removed.len() as int, added.len() as int)),
    );
    assert(rows_from(o, 0, 0, alignment) == head + rows_from(o, o.len() as int, 1, alignment));
    assert(head + rows_from(o, o.len() as int, 1, alignment) =~= head);
}

/// The rows of lines that take part in no change run from `i` on: one per line.
proof fn lemma_rows_of_context(o: Seq<char>, i: int, k: int, alignment: Seq<usize>)
    requires
        0 <= i <= o.len(),
        forall|y: int| i <= y < o.len() ==> !is_change(#[trigger] o[y]),
    ensures
        rows_from(o, i, k, alignment) == Seq::new(
            (o.len() - i) as nat,
            |t: int| single_row(o[i + t], (i + t) as usize),
        ),
    decreases o.len() - i,
{
    if i < o.len() {
        lemma_rows_of_context(o, i + 1, k, alignment);
        assert(!is_change(o[i]));
        assert(rows_from(o, i, k, alignment) =~= Seq::new(
            (o.len() - i) as nat,
            |t: int| single_row(o[i + t], (i + t) as usize),
        ));
    } else {
        assert(rows_from(o, i, k, alignment) =~= Seq::new(
            (o.len() - i) as nat,
            |t: int| single_row(o[i + t], (i + t) as usize),
        ));
    }
}

/// Lines that take part in no change run stand one per row, in order: a `<` line on the left
/// only, a `>` line on the right only, any other line on both sides.
pub proof fn lemma_context_rows(lines: Seq<DiffLine>, alignment: Seq<usize>)
    requires
        forall|y: int| 0 <= y < lines.len() ==> !is_change(#[trigger] lines[y].origin),
    ensures
        comparison_rows_spec(lines, alignment).len() == lines.len(),
        forall|y: int|
            0 <= y < lines.len() ==> #[trigger] comparison_rows_spec(lines, alignment)[y] == if lines[y].origin
                == '<' {
                ComparisonRow { old_line_idx: Some(y as usize), new_line_idx: None }
            } else if lines[y].origin == '>' {
                ComparisonRow { old_line_idx: None, new_line_idx: Some(y as usize) }
            } else {
                ComparisonRow { old_line_idx: Some(y as usize), new_line_idx: Some(y as usize) }
            },
{
    let o = origins(lines);
    assert forall|y: int| 0 <= y < o.len() implies !is_change(#[trigger] o[y]) by {
        assert(o[y] == lines[y].origin);
    }
    lemma_rows_of_context(o, 0, 0, alignment);
    assert forall|y: int| 0 <= y < lines.len() implies o[0 + y] == lines[y].origin by {}
}

/// The indices in `from..to` whose origin is `ch`.
fn collect_indices(lines: &Vec<DiffLine>, from: usize, to: usize, ch: char) -> (r: Vec<usize>)
    requires
        from <= to <= lines.len(),
    ensures
        r@ == indices_with(origins(lines@), from as int, to as int, ch),
{
    let ghost o = origins(lines@);
    let mut r: Vec<usize> = Vec::new();
    let mut i = from;
    while i < to
        invariant
            from <= i <= to <= lines.len(),
            o == origins(lines@),
            r@ == indices_with(o, from as int, i as int, ch),
        decreases to - i,
    {
        assert(o[i as int] == lines@[i as int].origin);
        if lines[i].origin == ch {
            r.push(i);
        }
        i = i + 1;
    }
    r
}

proof fn lemma_indices_with_len(o: Seq<char>, from: int, to: int, ch: char)
    requires
        0 <= from,
        to <= usize::MAX,
    ensures
        indices_with(o, from, to, ch).len() <= if to <= from {
            0
        } else {
            to - from
        },
        forall|m: int|
            0 <= m < indices_with(o, from, to, ch).len() ==> from <= #[trigger] indices_with(
                o,
                from,
                to,
                ch,
            )[m] < to,
    decreases to - from,
{
    if to > from {
        lemma_indices_with_len(o, from, to - 1, ch);
        let s = indices_with(o, from, to, ch);
        let rest = indices_with(o, from, to - 1, ch);
        assert forall|m: int| 0 <= m < s.len() implies from <= #[trigger] s[m] < to by {
            if m < rest.len() {
                assert(s[m] == rest[m]);
            }
        }
    }
}

/// The side-by-side rows of one change run shifted by `offset`.
pub fn comparison_rows_at_offset(old_lines: &Vec<usize>, new_lines: &Vec<usize>, offset: usize) -> (r:
    Vec<ComparisonRow>)
    ensures
        r@ == rows_at_offset(old_lines@, new_lines@, offset as int),
{
    let row_count = if old_lines.len() >= new_lines.len() {
        old_lines.len()
    } else {
        new_lines.len()
    };
    let old_start = if new_lines.len() > old_lines.len() {
        offset
    } else {
        0
    };
    let new_start = if old_lines.len() > new_lines.len() {
        offset
    } else {
        0
    };
    let ghost target = rows_at_offset(old_lines@, new_lines@, offset as int);
    let mut rows: Vec<ComparisonRow> = Vec::new();
    let mut row_idx: usize = 0;
    while row_idx < row_count
        invariant
            row_idx <= row_count,
            row_count == target.len(),
            target == rows_at_offset(old_lines@, new_lines@, offset as int),
            old_start == (if new_lines.len() > old_lines.len() { offset } else { 0 }),
            new_start == (if old_lines.len() > new_lines.len() { offset } else { 0 }),
            rows@ == target.take(row_idx as int),
        decreases row_count - row_idx,
    {
        let old_line_idx = if old_start <= row_idx && row_idx - old_start < old_lines.len() {
            Some(old_lines[row_idx - old_start])
        } else {
            None
        };
        let new_line_idx = if new_start <= row_idx && row_idx - new_start < new_lines.len() {
            Some(new_lines[row_idx - new_start])
        } else {
            None
        };
        rows.push(ComparisonRow { old_line_idx, new_line_idx });
        assert(rows@ =~= target.take(row_idx as int + 1));
        row_idx = row_idx + 1;
    }
    assert(target.take(row_count as int) =~= target);
    rows
}

/// The removed and added lines of each change run, in order: for the choice of how
/// each run is aligned.
pub fn change_runs(lines: &Vec<DiffLine>) -> (runs: Vec<(Vec<usize>, Vec<usize>)>)
    ensures
        runs@.map_values(|r: (Vec<usize>, Vec<usize>)| (r.0@, r.1@)) == runs_from(
            origins(lines@),
            0,
        ),
{
    let ghost o = origins(lines@);
    let mut runs: Vec<(Vec<usize>, Vec<usize>)> = Vec::new();
    let mut line_idx: usize = 0;
    while line_idx < lines.len()
        invariant
            line_idx <= lines.len(),
            o == origins(lines@),
            runs@.map_values(|r: (Vec<usize>, Vec<usize>)| (r.0@, r.1@)) + runs_from(
                o,
                line_idx as int,
            ) == runs_from(o, 0),
        decreases lines.len() - line_idx,
    {
        let ghost before = runs@.map_values(|r: (Vec<usize>, Vec<usize>)| (r.0@, r.1@));
        assert(o[line_idx as int] == lines@[line_idx as int].origin);
        if lines[line_idx].origin == '+' || lines[line_idx].origin == '-' {
            let start = line_idx;
            let mut end = line_idx;
            proof {
                lemma_run_end(o, start as int);
            }
            while end < lines.len() && (lines[end].origin == '+' || lines[end].origin == '-')
                invariant
                    start <= end <= run_end(o, start as int) <= lines.len(),
                    o == origins(lines@),
                    run_end(o, start as int) == run_end(o, end as int),
                decreases lines.len() - end,
            {
                assert(o[end as int] == lines@[end as int].origin);
                proof {
                    lemma_run_end(o, end as int + 1);
                }
                end = end + 1;
            }
            proof {
                if end < lines.len() {
                    assert(o[end as int] == lines@[end as int].origin);
                }
            }
            let old_lines = collect_indices(lines, start, end, '-');
            let new_lines = collect_indices(lines, start, end, '+');
            runs.push((old_lines, new_lines));
            assert(runs@.map_values(|r: (Vec<usize>, Vec<usize>)| (r.0@, r.1@)) =~= before.push(
                (
                    indices_with(o, start as int, end as int, '-'),
                    indices_with(o, start as int, end as int, '+'),
                ),
            ));
            line_idx = end;
        } else {
            line_idx = line_idx + 1;
        }
    }
    runs
}

/// The side-by-side rows of a hunk's lines: each run of removed and added lines is laid
/// out by [`comparison_rows_at_offset`] with the offset `alignment` gives it (at most the
/// run's surplus; 0 when `alignment` has none); every other line stands on a row of its own,
/// `<` lines on the left only and `>` lines on the right only.
pub fn build_comparison_rows(lines: &Vec<DiffLine>, alignment: &Vec<usize>) -> (rows: Vec<
    ComparisonRow,
>)
    ensures
        rows@ == comparison_rows_spec(lines@, alignment@),
{
    let ghost o = origins(lines@);
    let mut rows: Vec<ComparisonRow> = Vec::new();
    let mut line_idx: usize = 0;
    let mut run: usize = 0;
    while line_idx < lines.len()
        invariant
            line_idx <= lines.len(),
            run <= line_idx,
            o == origins(lines@),
            rows@ + rows_from(o, line_idx as int, run as int, alignment@) == rows_from(
                o,
                0,
                0,
                alignment@,
            ),
        decreases lines.len() - line_idx,
    {
        let ghost before = rows@;
        let c = lines[line_idx].origin;
        assert(o[line_idx as int] == c);
        if c == '+' || c == '-' {
            let start = line_idx;
            let mut end = line_idx;
            proof {
                lemma_run_end(o, start as int);
            }
            while end < lines.len() && (lines[end].origin == '+' || lines[end].origin == '-')
                invariant
                    start <= end <= run_end(o, start as int) <= lines.len(),
                    o == origins(lines@),
                    run_end(o, start as int) == run_end(o, end as int),
                decreases lines.len() - end,
            {
                assert(o[end as int] == lines@[end as int].origin);
                proof {
                    lemma_run_end(o, end as int + 1);
                }
                end = end + 1;
            }
            proof {
                if end < lines.len() {
                    assert(o[end as int] == lines@[end as int].origin);
                }
            }
            let old_lines = collect_indices(lines, start, end, '-');
            let new_lines = collect_indices(lines, start, end, '+');
            proof {
                lemma_indices_with_len(o, start as int, end as int, '-');
                lemma_indices_with_len(o, start as int, end as int, '+');
            }
            let surplus_len = if old_lines.len() >= new_lines.len() {
                old_lines.len() - new_lines.len()
            } else {
                new_lines.len() - old_lines.len()
            };
            let offset = if run < alignment.len() {
                if alignment[run] <= surplus_len {
                    alignment[run]
                } else {
                    surplus_len
                }
            } else {
                0
            };
            let mut run_rows = comparison_rows_at_offset(&old_lines, &new_lines, offset);
            rows.append(&mut run_rows);
            line_idx = end;
            run = run + 1;
        } else {
            let row = if c == '<' {
                ComparisonRow { old_line_idx: Some(line_idx), new_line_idx: None }
            } else if c == '>' {
                ComparisonRow { old_line_idx: None, new_line_idx: Some(line_idx) }
            } else {
                ComparisonRow { old_line_idx: Some(line_idx), new_line_idx: Some(line_idx) }
            };
            rows.push(row);
            assert(rows@ + rows_from(o, line_idx as int + 1, run as int, alignment@) =~= before
                + rows_from(o, line_idx as int, run as int, alignment@));
            line_idx = line_idx + 1;
        }
    }
    rows
}

impl DiffHunk {
    /// A hunk from its header and lines: counts the added and removed lines and lays the
    /// lines out side by side, each change run shifted by the offset `alignment` gives it.
    pub fn new(header: String, lines: Vec<DiffLine>, alignment: &Vec<usize>) -> (hunk: DiffHunk)
        ensures
            hunk.header == header,
            hunk.lines@ == lines@,
            hunk.comparison_rows@ == comparison_rows_spec(lines@, alignment@),
            hunk.insertions == count_char(origins(lines@), '+'),
            hunk.deletions == count_char(origins(lines@), '-'),
    {
        let ghost o = origins(lines@);
        let mut insertions: usize = 0;
        let mut deletions: usize = 0;
        let mut i: usize = 0;
        while i < lines.len()
            invariant
                i <= lines.len(),
                o == origins(lines@),
                insertions == count_char(o.take(i as int), '+'),
                deletions == count_char(o.take(i as int), '-'),
            decreases lines.len() - i,
        {
            proof {
                lemma_count_char_bound(o.take(i as int), '+');
                lemma_count_char_bound(o.take(i as int), '-');
                assert(o.take(i as int + 1).drop_last() == o.take(i as int));
                assert(o.take(i as int + 1).last() == lines@[i as int].origin);
            }
            if lines[i].origin == '+' {
                insertions = insertions + 1;
            } else if lines[i].origin == '-' {
                deletions = deletions + 1;
            }
            i = i + 1;
        }
        assert(o.take(lines.len() as int) == o);
        let comparison_rows = build_comparison_rows(&lines, alignment);
        DiffHunk { header, lines, comparison_rows, insertions, deletions }
    }
}

/// `s` with every whitespace character removed.
pub open spec fn without_whitespace(s: Seq<char>) -> Seq<char>
    decreases s.len(),
{
    if s.len() == 0 {
        s
    } else if unicode_white_space(s.last()) {
        without_whitespace(s.drop_last())
    } else {
        without_whitespace(s.drop_last()).push(s.last())
    }
}

/// The characters of a line with all whitespace removed, the form in which removed and
/// added lines are compared for alignment.
pub fn normalized_line(line: &str) -> (r: Vec<char>)
    ensures
        r@ == without_whitespace(line@),
{
    let v = crate::text::chars_of(line);
    let mut r: Vec<char> = Vec::new();
    let mut i: usize = 0;
    while i < v.len()
        invariant
            i <= v.len(),
            v@ == line@,
            r@ == without_whitespace(v@.take(i as int)),
        decreases v.len() - i,
    {
        assert(v@.take(i as int + 1).drop_last() == v@.take(i as int));
        assert(v@.take(i as int + 1).last() == v@[i as int]);
        if !is_whitespace(v[i]) {
            r.push(v[i]);
        }
        i = i + 1;
    }
    assert(v@.take(v.len() as int) == v@);
    r
}

/// The characters an abbreviated commit id keeps.
pub const SHORT_COMMIT_LEN: usize = 7;

/// A commit to review: its id in hexadecimal, abbreviated, and its subject.
#[derive(Debug, Clone)]
pub struct RevisionData {
    pub oid: String,
    pub short_oid: String,
    pub subject: String,
}

/// Two commits to compare: as typed, and their ids in hexadecimal.
#[derive(Debug, Clone)]
pub struct RangeData {
    pub from_label: String,
    pub to_label: String,
    pub old_oid: String,
    pub new_oid: String,
    pub kind: RangeKind,
}

/// What the review shows: the working tree, one commit, or a range of commits.
#[derive(Debug, Clone)]
pub enum DiffSource {
    Worktree,
    Revision(RevisionData),
    Range(RangeData),
}

/// A commit id cut to its first seven characters.
pub fn short_oid(oid: &str) -> (r: String)
    ensures
        r@ == if oid@.len() <= SHORT_COMMIT_LEN {
            oid@
        } else {
            oid@.take(SHORT_COMMIT_LEN as int)
        },
{
    let chars = chars_of(oid);
    let n = if chars.len() < SHORT_COMMIT_LEN {
        chars.len()
    } else {
        SHORT_COMMIT_LEN
    };
    let mut out: Vec<char> = Vec::new();
    let mut i: usize = 0;
    while i < n
        invariant
            i <= n <= chars.len(),
            chars@ == oid@,
            out@ == chars@.take(i as int),
        decreases n - i,
    {
        out.push(chars[i]);
        assert(chars@.take(i as int + 1) == chars@.take(i as int).push(chars@[i as int]));
        i = i + 1;
    }
    assert(chars@.take(chars@.len() as int) =~= chars@);
    string_from_chars(&out)
}

/// A range that does not read as `FROM..TO` or `FROM...TO` with both ends given.
#[derive(Debug, Clone, PartialEq, Eq)]
pub struct InvalidRange {
    pub range: String,
}

/// A run of `n` dots.
pub open spec fn dots(n: nat) -> Seq<char> {
    Seq::new(n, |i: int| '.')
}

/// Where `pat` first occurs in `s`.
pub open spec fn first_split(s: Seq<char>, pat: Seq<char>, i: int) -> Option<int>
    decreases s.len() + 1 - i,
{
    if i < 0 || i + pat.len() > s.len() {
        None
    } else if s.subrange(i, i + pat.len()) == pat {
        Some(i)
    } else {
        first_split(s, pat, i + 1)
    }
}

/// The two ends of a range and its kind: split at the first `...` (from the merge base) or
/// else at the first `..` (directly); `None` when there is no such separator or an end is
/// empty.
pub open spec fn parse_range_spec(input: Seq<char>) -> Option<(Seq<char>, Seq<char>, RangeKind)> {
    let parts = match first_split(input, dots(3), 0) {
        Some(i) => Some((input.take(i), input.skip(i + 3), RangeKind::MergeBase)),
        None => match first_split(input, dots(2), 0) {
            Some(i) => Some((input.take(i), input.skip(i + 2), RangeKind::Direct)),
            None => None,
        },
    };
    match parts {
        Some((from, to, kind)) => if from.len() == 0 || to.len() == 0 {
            None
        } else {
            Some((from, to, kind))
        },
        None => None,
    }
}

/// Where the first run of `n` dots starts in `s`.
fn find_dots(s: &Vec<char>, n: usize) -> (r: Option<usize>)
    requires
        n == 2 || n == 3,
    ensures
        match r {
            Some(x) => first_split(s@, dots(n as nat), 0) == Some(x as int) && x + n <= s@.len(),
            None => first_split(s@, dots(n as nat), 0) is None,
        },
{
    let ghost pat = dots(n as nat);
    if n > s.len() {
        return None;
    }
    let last = s.len() - n;
    let mut i: usize = 0;
    while i <= last
        invariant
            n <= s.len(),
            last == s.len() - n,
            pat == dots(n as nat),
            i <= last + 1,
            first_split(s@, pat, 0) == first_split(s@, pat, i as int),
        decreases last + 1 - i,
    {
        let mut k: usize = 0;
        let mut all_dots = true;
        while k < n
            invariant
                i + n <= s.len(),
                k <= n,
                all_dots == forall|j: int| i <= j < i + k ==> #[trigger] s@[j] == '.',
            decreases n - k,
        {
            if s[i + k] != '.' {
                all_dots = false;
            }
            k = k + 1;
        }
        if all_dots {
            assert(s@.subrange(i as int, i + n) =~= pat);
            return Some(i);
        } else {
            let ghost j = choose|j: int| i <= j < i + n && #[trigger] s@[j] != '.';
            assert(s@.subrange(i as int, i + n)[j - i] != pat[j - i]);
        }
        if i == last {
            assert(first_split(s@, pat, i + 1) is None);
            return None;
        }
        i = i + 1;
    }
    None
}

/// The characters of `s` from `a` to `b`.
fn slice_chars(s: &Vec<char>, a: usize, b: usize) -> (r: String)
    requires
        a <= b <= s.len(),
    ensures
        r@ == s@.subrange(a as int, b as int),
{
    let mut out: Vec<char> = Vec::new();
    let mut i = a;
    while i < b
        invariant
            a <= i <= b <= s.len(),
            out@ == s@.subrange(a as int, i as int),
        decreases b - i,
    {
        out.push(s[i]);
        assert(s@.subrange(a as int, i + 1) == s@.subrange(a as int, i as int).push(s@[i as int]));
        i = i + 1;
    }
    string_from_chars(&out)
}

/// The two ends of a range of commits and how to compare them: `FROM...TO` from their merge
/// base, `FROM..TO` directly.
#[verifier::spinoff_prover]
pub fn parse_range(input: &str) -> (r: Result<(String, String, RangeKind), InvalidRange>)
    ensures
        match parse_range_spec(input@) {
            Some((from, to, kind)) => r matches Ok((a, b, k)) && a@ == from && b@ == to && k
                == kind,
            None => r matches Err(e) && e.range@ == input@,
        },
{
    let chars = chars_of(input);
    let (from, to, kind) = match find_dots(&chars, 3) {
        Some(i) => (slice_chars(&chars, 0, i), slice_chars(&chars, i + 3, chars.len()), RangeKind::MergeBase),
        None => match find_dots(&chars, 2) {
            Some(i) => (slice_chars(&chars, 0, i), slice_chars(&chars, i + 2, chars.len()), RangeKind::Direct),
            None => {
                return Err(InvalidRange { range: input.to_owned() });
            },
        },
    };
    proof {
        assert(chars@.subrange(0, chars@.len() as int) =~= chars@);
    }
    if chars_of(from.as_str()).len() == 0 || chars_of(to.as_str()).len() == 0 {
        return Err(InvalidRange { range: input.to_owned() });
    }
    assert(from@ =~= chars@.take(from@.len() as int));
    Ok((from, to, kind))
}

} // verus!
