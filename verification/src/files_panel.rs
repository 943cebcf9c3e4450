//! The files panel: the review's files as a tree, with collapsible directories
//! and a selected row.
use vstd::prelude::*;

use crate::action::Action;
use crate::git::repository::FileEntry;
use crate::state::files::{wrap_next, wrap_previous, Files};
use crate::state::focus::Focus;
use crate::state::review::{file_at_row_spec, slot_of_spec, FileKey, FileSlot};
use crate::state::tree::{keys_model, rows_model, tree_rows, tree_rows_spec, TreeRow};
use crate::store::DiffStore;
use crate::text::{chars_eq, chars_of, starts_with_chars};

verus! {

/// The files panel: its selection, the rows last built, the collapsed directories by key,
/// and whether the rows must be built again.
#[derive(Debug)]
pub struct FilesPanel {
    pub state: Files,
    pub cached_rows: Vec<TreeRow>,
    pub collapsed: Vec<String>,
    pub dirty: bool,
}

/// The first file row at or after `i`.
pub open spec fn first_file_from(rows: Seq<TreeRow>, i: int) -> Option<int>
    decreases rows.len() - i,
{
    if i < 0 || i >= rows.len() {
        None
    } else if rows[i] is File {
        Some(i)
    } else {
        first_file_from(rows, i + 1)
    }
}

/// The last file row before `i`.
pub open spec fn last_file_before(rows: Seq<TreeRow>, i: int) -> Option<int>
    decreases i,
{
    if i <= 0 {
        None
    } else if i > rows.len() {
        last_file_before(rows, rows.len() as int)
    } else if rows[i - 1] is File {
        Some(i - 1)
    } else {
        last_file_before(rows, i - 1)
    }
}

proof fn lemma_first_file_from(rows: Seq<TreeRow>, k: int)
    requires
        0 <= k,
    ensures
        first_file_from(rows, k) matches Some(j) ==> {
            &&& k <= j < rows.len()
            &&& rows[j] is File
            &&& forall|m: int| k <= m < j ==> !(#[trigger] rows[m] is File)
        },
        first_file_from(rows, k) is None ==> forall|m: int|
            k <= m < rows.len() ==> !(#[trigger] rows[m] is File),
    decreases rows.len() - k,
{
    if k < rows.len() && !(rows[k] is File) {
        lemma_first_file_from(rows, k + 1);
    }
}

proof fn lemma_last_file_before(rows: Seq<TreeRow>, k: int)
    requires
        k <= rows.len(),
    ensures
        last_file_before(rows, k) matches Some(j) ==> {
            &&& 0 <= j < k
            &&& rows[j] is File
            &&& forall|m: int| j < m < k ==> !(#[trigger] rows[m] is File)
        },
        last_file_before(rows, k) is None ==> forall|m: int|
            0 <= m < k ==> !(#[trigger] rows[m] is File),
    decreases k,
{
    if k > 0 && !(rows[k - 1] is File) {
        lemma_last_file_before(rows, k - 1);
    }
}

proof fn lemma_first_file_at(rows: Seq<TreeRow>, k: int, j: int)
    requires
        0 <= k <= j < rows.len(),
        rows[j] is File,
        forall|m: int| k <= m < j ==> !(#[trigger] rows[m] is File),
    ensures
        first_file_from(rows, k) == Some(j),
    decreases j - k,
{
    if k < j {
        lemma_first_file_at(rows, k + 1, j);
    }
}

proof fn lemma_last_file_at(rows: Seq<TreeRow>, j: int, k: int)
    requires
        0 <= j < k <= rows.len(),
        rows[j] is File,
        forall|m: int| j < m < k ==> !(#[trigger] rows[m] is File),
    ensures
        last_file_before(rows, k) == Some(j),
    decreases k - j,
{
    if j + 1 < k {
        lemma_last_file_at(rows, j, k - 1);
    }
}

/// From a file row, going to the next file and then to the previous one comes back to the
/// row one started on, when there was a next file to go to.
pub proof fn lemma_next_file_then_previous(rows: Seq<TreeRow>, i: usize)
    requires
        rows.len() <= usize::MAX,
        i < rows.len(),
        rows[i as int] is File,
        first_file_from(rows, i + 1) is Some,
    ensures
        previous_file_selection(rows, next_file_selection(rows, Some(i))) == Some(i),
{
    lemma_first_file_from(rows, i + 1);
    let j = first_file_from(rows, i + 1)->0;
    assert(next_file_selection(rows, Some(i)) == Some(j as usize));
    lemma_last_file_at(rows, i as int, j);
}

/// From a file row, going to the previous file and then to the next one comes back to the
/// row one started on, when there was a previous file to go to.
pub proof fn lemma_previous_file_then_next(rows: Seq<TreeRow>, i: usize)
    requires
        rows.len() <= usize::MAX,
        i < rows.len(),
        rows[i as int] is File,
        last_file_before(rows, i as int) is Some,
    ensures
        next_file_selection(rows, previous_file_selection(rows, Some(i))) == Some(i),
{
    lemma_last_file_before(rows, i as int);
    let j = last_file_before(rows, i as int)->0;
    assert(previous_file_selection(rows, Some(i)) == Some(j as usize));
    lemma_first_file_at(rows, j + 1, i as int);
}

/// Whether a row shows file `f` of the review.
pub open spec fn shows_file(row: TreeRow, f: usize) -> bool {
    row matches TreeRow::File(idx, _) && idx == f
}

/// The first row showing file `f`, from row `i` on.
pub open spec fn row_of_file_from(rows: Seq<TreeRow>, f: usize, i: int) -> Option<int>
    decreases rows.len() - i,
{
    if i < 0 || i >= rows.len() {
        None
    } else if shows_file(rows[i], f) {
        Some(i)
    } else {
        row_of_file_from(rows, f, i + 1)
    }
}

/// The first row showing file `f`.
pub open spec fn row_of_file(rows: Seq<TreeRow>, f: usize) -> Option<int> {
    row_of_file_from(rows, f, 0)
}

/// The review file shown at a row, if that row shows a file.
pub open spec fn file_at(rows: Seq<TreeRow>, selected: Option<usize>) -> Option<usize> {
    match selected {
        Some(i) => if i < rows.len() {
            match rows[i as int] {
                TreeRow::File(idx, _) => Some(idx),
                TreeRow::Dir(..) => None,
            }
        } else {
            None
        },
        None => None,
    }
}

/// Whether collapsing directory `dir` hides the file at `path`: the path is the key itself
/// or lies below it.
pub open spec fn hides(path: Seq<char>, dir: Seq<char>) -> bool {
    path == dir || (path.len() > dir.len() && path.take(dir.len() as int) == dir && path[dir.len() as int] == '/')
}

/// The collapsed keys that do not hide `path`, in order.
pub open spec fn keys_not_hiding(keys: Seq<Seq<char>>, path: Seq<char>) -> Seq<Seq<char>>
    decreases keys.len(),
{
    if keys.len() == 0 {
        keys
    } else {
        let rest = keys_not_hiding(keys.drop_last(), path);
        if hides(path, keys.last()) {
            rest
        } else {
            rest.push(keys.last())
        }
    }
}

/// The keys without `key`, in order.
pub open spec fn keys_without(keys: Seq<Seq<char>>, key: Seq<char>) -> Seq<Seq<char>>
    decreases keys.len(),
{
    if keys.len() == 0 {
        keys
    } else {
        let rest = keys_without(keys.drop_last(), key);
        if keys.last() == key {
            rest
        } else {
            rest.push(keys.last())
        }
    }
}

proof fn lemma_keys_without(keys: Seq<Seq<char>>, key: Seq<char>)
    ensures
        keys_without(keys, key).to_set() == keys.to_set().remove(key),
    decreases keys.len(),
{
    if keys.len() > 0 {
        lemma_keys_without(keys.drop_last(), key);
        assert(keys.to_set() =~= keys.drop_last().to_set().insert(keys.last())) by {
            assert forall|x: Seq<char>| keys.to_set().contains(x) == keys.drop_last().to_set().insert(
                keys.last(),
            ).contains(x) by {
                if keys.contains(x) {
                    let i = choose|i: int| 0 <= i < keys.len() && keys[i] == x;
                    if i < keys.len() - 1 {
                        assert(keys.drop_last()[i] == x);
                    }
                }
                if keys.drop_last().contains(x) {
                    let i = choose|i: int| 0 <= i < keys.drop_last().len() && keys.drop_last()[i] == x;
                    assert(keys[i] == x);
                }
                if x == keys.last() {
                    assert(keys[keys.len() - 1] == x);
                }
            }
        }
        let rest = keys_without(keys.drop_last(), key);
        if keys.last() != key {
            assert(rest.push(keys.last()).to_set() =~= rest.to_set().insert(keys.last())) by {
                assert forall|x: Seq<char>| rest.push(keys.last()).to_set().contains(x) == rest.to_set().insert(
                    keys.last(),
                ).contains(x) by {
                    let p = rest.push(keys.last());
                    if p.contains(x) {
                        let i = choose|i: int| 0 <= i < p.len() && p[i] == x;
                        if i < rest.len() {
                            assert(rest[i] == x);
                        }
                    }
                    if rest.contains(x) {
                        let i = choose|i: int| 0 <= i < rest.len() && rest[i] == x;
                        assert(p[i] == x);
                    }
                    if x == keys.last() {
                        assert(p[rest.len() as int] == x);
                    }
                }
            }
        }
    } else {
        assert(keys.to_set() =~= Set::<Seq<char>>::empty());
        assert(keys_without(keys, key).to_set() =~= Set::<Seq<char>>::empty());
    }
}

/// Whether the file at `path` lies at or below the collapsed key `dir`.
fn hides_exec(path: &Vec<char>, dir: &Vec<char>) -> (r: bool)
    ensures
        r == hides(path@, dir@),
{
    if chars_eq(path, dir) {
        return true;
    }
    path.len() > dir.len() && starts_with_chars(path, dir) && path[dir.len()] == '/'
}

/// The first file row after row `current`.
fn next_file_row(rows: &Vec<TreeRow>, current: usize) -> (r: Option<usize>)
    ensures
        match first_file_from(rows@, current + 1) {
            Some(row) => r == Some(row as usize),
            None => r is None,
        },
{
    if current >= rows.len() {
        return None;
    }
    let mut i = current + 1;
    while i < rows.len()
        invariant
            current < i <= rows.len(),
            first_file_from(rows@, current + 1) == first_file_from(rows@, i as int),
        decreases rows.len() - i,
    {
        if let TreeRow::File(..) = rows[i] {
            return Some(i);
        }
        i = i + 1;
    }
    None
}

/// The last file row before row `current`.
fn previous_file_row(rows: &Vec<TreeRow>, current: usize) -> (r: Option<usize>)
    ensures
        match last_file_before(rows@, current as int) {
            Some(row) => r == Some(row as usize),
            None => r is None,
        },
{
    let mut i = if current < rows.len() {
        current
    } else {
        rows.len()
    };
    assert(last_file_before(rows@, current as int) == last_file_before(rows@, i as int));
    while i > 0
        invariant
            i <= rows.len(),
            last_file_before(rows@, current as int) == last_file_before(rows@, i as int),
        decreases i,
    {
        if let TreeRow::File(..) = rows[i - 1] {
            return Some(i - 1);
        }
        i = i - 1;
    }
    None
}

/// The selection after one step down (`forward`) or up through the rows, wrapping.
pub open spec fn stepped(state: Files, forward: bool) -> Option<usize> {
    if state.tree_row_count == 0 {
        None
    } else {
        match state.selected {
            None => Some(0usize),
            Some(i) => Some(
                (if forward {
                    wrap_next(i as int, state.tree_row_count as int)
                } else {
                    wrap_previous(i as int, state.tree_row_count as int)
                }) as usize,
            ),
        }
    }
}

/// The selection after going to the next file row, if there is one.
pub open spec fn next_file_selection(rows: Seq<TreeRow>, selected: Option<usize>) -> Option<usize> {
    let current = match selected {
        Some(i) => i as int,
        None => 0,
    };
    match first_file_from(rows, current + 1) {
        Some(row) => Some(row as usize),
        None => selected,
    }
}

/// The selection after going to the previous file row, if there is one.
pub open spec fn previous_file_selection(rows: Seq<TreeRow>, selected: Option<usize>) -> Option<
    usize,
> {
    let current = match selected {
        Some(i) => i as int,
        None => 0,
    };
    match last_file_before(rows, current) {
        Some(row) => Some(row as usize),
        None => selected,
    }
}

/// The selection brought back within `len` rows.
pub open spec fn clamped(selected: Option<usize>, len: int) -> Option<usize> {
    if len == 0 {
        None
    } else {
        match selected {
            Some(i) => Some(
                if i < len {
                    i
                } else {
                    (len - 1) as usize
                },
            ),
            None => None,
        }
    }
}

/// The key of the directory on the selected row, if that row shows a directory.
pub open spec fn dir_at(rows: Seq<TreeRow>, selected: Option<usize>) -> Option<Seq<char>> {
    match selected {
        Some(i) => if i < rows.len() {
            match rows[i as int] {
                TreeRow::Dir(path, _) => Some(path@),
                TreeRow::File(..) => None,
            }
        } else {
            None
        },
        None => None,
    }
}

/// What an action makes of the files panel: row moves step through the rows when the panel
/// has the focus, file moves go to the next or previous file row, the first and last rows
/// are selected outright, and toggling collapses or expands the selected directory, builds
/// the rows again and keeps the selection within them.  Anything else leaves it as it was.
pub open spec fn files_updated(
    before: FilesPanel,
    after: FilesPanel,
    action: Action,
    focus: Focus,
    files: Seq<FileSlot>,
) -> bool {
    let same_rows = after.cached_rows@ == before.cached_rows@ && after.collapsed@
        == before.collapsed@ && after.dirty == before.dirty;
    let only_selection = |sel: Option<usize>|
        after.state.selected == sel && after.state.tree_row_count == before.state.tree_row_count
            && same_rows;
    let unchanged = after.state == before.state && same_rows;
    match action {
        Action::MoveDown => if focus == Focus::Files {
            only_selection(stepped(before.state, true))
        } else {
            unchanged
        },
        Action::MoveUp => if focus == Focus::Files {
            only_selection(stepped(before.state, false))
        } else {
            unchanged
        },
        Action::NextFile => only_selection(
            next_file_selection(before.cached_rows@, before.state.selected),
        ),
        Action::PreviousFile => only_selection(
            previous_file_selection(before.cached_rows@, before.state.selected),
        ),
        Action::GoToFirst => only_selection(
            if before.state.tree_row_count == 0 {
                None
            } else {
                Some(0usize)
            },
        ),
        Action::GoToLast => only_selection(
            if before.state.tree_row_count == 0 {
                None
            } else if before.state.selected is None {
                Some(0usize)
            } else {
                Some((before.state.tree_row_count - 1) as usize)
            },
        ),
        Action::SelectTreeRow(row) => if row < before.cached_rows@.len() {
            only_selection(Some(row))
        } else {
            unchanged
        },
        Action::ToggleCollapsed => match dir_at(before.cached_rows@, before.state.selected) {
            None => unchanged,
            Some(key) => {
                &&& after.collapsed_set() == if before.collapsed_set().contains(key) {
                    before.collapsed_set().remove(key)
                } else {
                    before.collapsed_set().insert(key)
                }
                &&& rows_model(after.cached_rows@) == tree_rows_spec(
                    files,
                    keys_model(after.collapsed@),
                )
                &&& after.state.tree_row_count == after.cached_rows@.len()
                &&& !after.dirty
                &&& after.state.selected == clamped(
                    before.state.selected,
                    after.cached_rows@.len() as int,
                )
            },
        },
        _ => unchanged,
    }
}

impl FilesPanel {
    /// The collapsed keys as a set.
    pub open spec fn collapsed_set(&self) -> Set<Seq<char>> {
        keys_model(self.collapsed@).to_set()
    }

    /// Whether stepping the selection cannot overflow.
    pub open spec fn selection_fits(&self) -> bool {
        self.state.selected matches Some(i) ==> i + self.state.tree_row_count <= usize::MAX
    }

    /// A panel with no rows yet, nothing selected or collapsed, to be built.
    pub fn new() -> (panel: FilesPanel)
        ensures
            panel.state.selected is None,
            panel.state.tree_row_count == 0,
            panel.cached_rows@.len() == 0,
            panel.collapsed@.len() == 0,
            panel.dirty,
    {
        FilesPanel {
            state: Files { selected: None, tree_row_count: 0 },
            cached_rows: Vec::new(),
            collapsed: Vec::new(),
            dirty: true,
        }
    }

    /// Marks the rows to be built again.
    pub fn mark_dirty(&mut self)
        ensures
            final(self).dirty,
            final(self).state == old(self).state,
            final(self).cached_rows@ == old(self).cached_rows@,
            final(self).collapsed@ == old(self).collapsed@,
    {
        self.dirty = true;
    }

    /// The selection.
    pub fn state(&self) -> (r: &Files)
        ensures
            *r == self.state,
    {
        &self.state
    }

    /// Sets how many rows the selection moves over.
    pub fn set_tree_row_count(&mut self, len: usize)
        ensures
            final(self).state.tree_row_count == len,
            final(self).state.selected == old(self).state.selected,
            final(self).cached_rows@ == old(self).cached_rows@,
            final(self).collapsed@ == old(self).collapsed@,
            final(self).dirty == old(self).dirty,
    {
        self.state.tree_row_count = len;
    }

    /// The rows last built.
    pub fn cached_rows(&self) -> (r: &[TreeRow])
        ensures
            r@ == self.cached_rows@,
    {
        self.cached_rows.as_slice()
    }

    /// The collapsed directory keys.
    pub fn collapsed(&self) -> (r: &Vec<String>)
        ensures
            r@ == self.collapsed@,
    {
        &self.collapsed
    }

    /// Builds the rows again if they were marked to be.
    pub fn ensure_rows(&mut self, store: &DiffStore)
        ensures
            old(self).dirty ==> {
                &&& rows_model(final(self).cached_rows@) == tree_rows_spec(
                    store.continuous_diff.files@,
                    keys_model(old(self).collapsed@),
                )
                &&& final(self).state.tree_row_count == final(self).cached_rows@.len()
                &&& !final(self).dirty
            },
            !old(self).dirty ==> final(self).cached_rows@ == old(self).cached_rows@
                && final(self).state.tree_row_count == old(self).state.tree_row_count
                && final(self).dirty == old(self).dirty,
            final(self).state.selected == old(self).state.selected,
            final(self).collapsed@ == old(self).collapsed@,
    {
        if !self.dirty {
            return;
        }
        self.cached_rows = tree_rows(&store.continuous_diff.files, &self.collapsed);
        self.state.tree_row_count = self.cached_rows.len();
        self.dirty = false;
    }

    /// Selects the first row.
    pub fn select_first(&mut self)
        ensures
            final(self).state.selected == if old(self).state.tree_row_count == 0 {
                None
            } else {
                Some(0usize)
            },
            final(self).state.tree_row_count == old(self).state.tree_row_count,
            final(self).cached_rows@ == old(self).cached_rows@,
            final(self).collapsed@ == old(self).collapsed@,
            final(self).dirty == old(self).dirty,
    {
        self.state.select_first();
    }

    /// Selects the last row.
    pub fn select_last(&mut self)
        ensures
            final(self).state.selected == if old(self).state.tree_row_count == 0 {
                None
            } else if old(self).state.selected is None {
                Some(0usize)
            } else {
                Some((old(self).state.tree_row_count - 1) as usize)
            },
            final(self).state.tree_row_count == old(self).state.tree_row_count,
            final(self).cached_rows@ == old(self).cached_rows@,
            final(self).collapsed@ == old(self).collapsed@,
            final(self).dirty == old(self).dirty,
    {
        self.state.select_last();
    }

    /// Selects the next row, wrapping.
    pub fn select_next_row(&mut self)
        requires
            old(self).selection_fits(),
        ensures
            final(self).state.selected == if old(self).state.tree_row_count == 0 {
                None
            } else {
                match old(self).state.selected {
                    None => Some(0usize),
                    Some(i) => Some(
                        wrap_next(i as int, old(self).state.tree_row_count as int) as usize,
                    ),
                }
            },
            final(self).state.tree_row_count == old(self).state.tree_row_count,
            final(self).cached_rows@ == old(self).cached_rows@,
            final(self).collapsed@ == old(self).collapsed@,
            final(self).dirty == old(self).dirty,
    {
        self.state.select_next();
    }

    /// Selects the previous row, wrapping.
    pub fn select_previous_row(&mut self)
        requires
            old(self).selection_fits(),
        ensures
            final(self).state.selected == if old(self).state.tree_row_count == 0 {
                None
            } else {
                match old(self).state.selected {
                    None => Some(0usize),
                    Some(i) => Some(
                        wrap_previous(i as int, old(self).state.tree_row_count as int) as usize,
                    ),
                }
            },
            final(self).state.tree_row_count == old(self).state.tree_row_count,
            final(self).cached_rows@ == old(self).cached_rows@,
            final(self).collapsed@ == old(self).collapsed@,
            final(self).dirty == old(self).dirty,
    {
        self.state.select_previous();
    }

    /// Selects the next file row after the selection (or after the first row), if any.
    pub fn select_next_file(&mut self)
        ensures
            ({
                let current = match old(self).state.selected {
                    Some(i) => i as int,
                    None => 0,
                };
                final(self).state.selected == match first_file_from(
                    old(self).cached_rows@,
                    current + 1,
                ) {
                    Some(row) => Some(row as usize),
                    None => old(self).state.selected,
                }
            }),
            final(self).state.tree_row_count == old(self).state.tree_row_count,
            final(self).cached_rows@ == old(self).cached_rows@,
            final(self).collapsed@ == old(self).collapsed@,
            final(self).dirty == old(self).dirty,
    {
        let current = match self.state.selected {
            Some(i) => i,
            None => 0,
        };
        if let Some(row) = next_file_row(&self.cached_rows, current) {
            self.state.selected = Some(row);
        }
    }

    /// Selects the last file row before the selection, if any.
    pub fn select_previous_file(&mut self)
        ensures
            ({
                let current = match old(self).state.selected {
                    Some(i) => i as int,
                    None => 0,
                };
                final(self).state.selected == match last_file_before(
                    old(self).cached_rows@,
                    current,
                ) {
                    Some(row) => Some(row as usize),
                    None => old(self).state.selected,
                }
            }),
            final(self).state.tree_row_count == old(self).state.tree_row_count,
            final(self).cached_rows@ == old(self).cached_rows@,
            final(self).collapsed@ == old(self).collapsed@,
            final(self).dirty == old(self).dirty,
    {
        let current = match self.state.selected {
            Some(i) => i,
            None => 0,
        };
        if let Some(row) = previous_file_row(&self.cached_rows, current) {
            self.state.selected = Some(row);
        }
    }

    /// The review file on the selected row, if that row shows a file.
    pub fn selected_file_idx(&self) -> (r: Option<usize>)
        ensures
            r == file_at(self.cached_rows@, self.state.selected),
    {
        let idx = match self.state.selected {
            Some(i) => i,
            None => {
                return None;
            },
        };
        if idx >= self.cached_rows.len() {
            return None;
        }
        match self.cached_rows[idx] {
            TreeRow::File(entry_idx, _) => Some(entry_idx),
            TreeRow::Dir(..) => None,
        }
    }

    /// The entry of the file on the selected row, if that row shows a file of the review.
    pub fn selected_file<'a>(&self, store: &'a DiffStore) -> (r: Option<&'a FileEntry>)
        ensures
            match file_at(self.cached_rows@, self.state.selected) {
                Some(f) => if f < store.continuous_diff.files@.len() {
                    r == Some(&store.continuous_diff.files@[f as int].entry)
                } else {
                    r is None
                },
                None => r is None,
            },
    {
        match self.selected_file_idx() {
            Some(f) => {
                if f < store.continuous_diff.files.len() {
                    Some(&store.continuous_diff.files[f].entry)
                } else {
                    None
                }
            },
            None => None,
        }
    }

    /// The key of the directory on the selected row, if that row shows a directory.
    pub fn selected_dir(&self) -> (r: Option<String>)
        ensures
            match self.state.selected {
                Some(i) => if i < self.cached_rows@.len() {
                    match self.cached_rows@[i as int] {
                        TreeRow::Dir(path, _) => r matches Some(p) && p@ == path@,
                        TreeRow::File(..) => r is None,
                    }
                } else {
                    r is None
                },
                None => r is None,
            },
    {
        let idx = match self.state.selected {
            Some(i) => i,
            None => {
                return None;
            },
        };
        if idx >= self.cached_rows.len() {
            return None;
        }
        match &self.cached_rows[idx] {
            TreeRow::Dir(path, _) => Some(path.clone()),
            TreeRow::File(..) => None,
        }
    }

    /// Collapses the directory with this key if it is expanded, and expands it if it is
    /// collapsed; the rows are to be built again.
    pub fn toggle_collapsed(&mut self, path: String)
        ensures
            final(self).collapsed_set() == if old(self).collapsed_set().contains(path@) {
                old(self).collapsed_set().remove(path@)
            } else {
                old(self).collapsed_set().insert(path@)
            },
            final(self).dirty,
            final(self).state == old(self).state,
            final(self).cached_rows@ == old(self).cached_rows@,
    {
        let key = chars_of(path.as_str());
        let ghost keys = keys_model(self.collapsed@);
        let mut kept: Vec<String> = Vec::new();
        let mut found = false;
        let mut i: usize = 0;
        while i < self.collapsed.len()
            invariant
                i <= self.collapsed.len(),
                keys == keys_model(self.collapsed@),
                key@ == path@,
                keys_model(kept@) == keys_without(keys.take(i as int), key@),
                found == keys.take(i as int).contains(key@),
            decreases self.collapsed.len() - i,
        {
            let current = chars_of(self.collapsed[i].as_str());
            let ghost before = kept@;
            proof {
                assert(keys.take(i as int + 1).drop_last() =~= keys.take(i as int));
                assert(keys.take(i as int + 1).last() == keys[i as int]);
                assert(keys[i as int] == self.collapsed@[i as int]@);
            }
            if chars_eq(&current, &key) {
                found = true;
                assert(keys.take(i as int + 1)[i as int] == key@);
            } else {
                kept.push(self.collapsed[i].clone());
                assert(keys_model(kept@) =~= keys_model(before).push(keys[i as int]));
            }
            proof {
                if !found {
                    assert forall|j: int| 0 <= j < i + 1 implies #[trigger] keys.take(i as int + 1)[j] != key@ by {
                        if j < i {
                            assert(keys.take(i as int)[j] == keys.take(i as int + 1)[j]);
                        }
                    }
                } else if keys.take(i as int).contains(key@) {
                    let j = choose|j: int| 0 <= j < i && keys.take(i as int)[j] == key@;
                    assert(keys.take(i as int + 1)[j] == key@);
                }
            }
            i = i + 1;
        }
        proof {
            assert(keys.take(i as int) =~= keys);
            lemma_keys_without(keys, key@);
            assert(keys.to_set().contains(key@) == keys.contains(key@));
        }
        if found {
            self.collapsed = kept;
        } else {
            let ghost before = self.collapsed@;
            self.collapsed.push(path);
            proof {
                assert(keys_model(self.collapsed@) =~= keys.push(key@));
                assert(keys.push(key@).to_set() =~= keys.to_set().insert(key@)) by {
                    assert forall|x: Seq<char>| keys.push(key@).to_set().contains(x) == keys.to_set().insert(
                        key@,
                    ).contains(x) by {
                        let p = keys.push(key@);
                        if p.contains(x) {
                            let j = choose|j: int| 0 <= j < p.len() && p[j] == x;
                            if j < keys.len() {
                                assert(keys[j] == x);
                            }
                        }
                        if keys.contains(x) {
                            let j = choose|j: int| 0 <= j < keys.len() && keys[j] == x;
                            assert(p[j] == x);
                        }
                        if x == key@ {
                            assert(p[keys.len() as int] == x);
                        }
                    }
                }
            }
        }
        self.dirty = true;
    }

    /// Brings the selection back within the rows.
    pub fn clamp_selection(&mut self)
        ensures
            final(self).state.selected == if old(self).cached_rows@.len() == 0 {
                None
            } else {
                match old(self).state.selected {
                    Some(i) => Some(
                        if i < old(self).cached_rows@.len() {
                            i
                        } else {
                            (old(self).cached_rows@.len() - 1) as usize
                        },
                    ),
                    None => None,
                }
            },
            final(self).state.tree_row_count == old(self).state.tree_row_count,
            final(self).cached_rows@ == old(self).cached_rows@,
            final(self).collapsed@ == old(self).collapsed@,
            final(self).dirty == old(self).dirty,
    {
        let len = self.cached_rows.len();
        if len == 0 {
            self.state.selected = None;
        } else if let Some(sel) = self.state.selected {
            self.state.selected = Some(
                if sel < len {
                    sel
                } else {
                    len - 1
                },
            );
        }
    }

    /// The first row showing file `f`.
    fn find_file_row(&self, f: usize) -> (r: Option<usize>)
        ensures
            match r {
                Some(i) => row_of_file(self.cached_rows@, f) == Some(i as int),
                None => row_of_file(self.cached_rows@, f) is None,
            },
    {
        let mut i: usize = 0;
        while i < self.cached_rows.len()
            invariant
                i <= self.cached_rows.len(),
                row_of_file(self.cached_rows@, f) == row_of_file_from(self.cached_rows@, f, i as int),
            decreases self.cached_rows.len() - i,
        {
            if let TreeRow::File(entry_idx, _) = self.cached_rows[i] {
                if entry_idx == f {
                    return Some(i);
                }
            }
            i = i + 1;
        }
        None
    }

    /// Selects the row of the file shown at row `continuous_scroll` of the review, expanding
    /// the collapsed directories that hide it when no row shows it.
    pub fn match_selected_file(&mut self, store: &DiffStore, continuous_scroll: usize)
        requires
            store.wf(),
        ensures
            ({
                let before = *old(self);
                let after = *final(self);
                let unchanged_rows = after.cached_rows@ == before.cached_rows@ && after.collapsed@
                    == before.collapsed@ && after.dirty == before.dirty;
                match file_at_row_spec(
                    store.continuous_diff.index.file_starts@,
                    store.continuous_diff.index.total_rows,
                    continuous_scroll as int,
                ) {
                    None => after.state == before.state && unchanged_rows,
                    Some((f, _)) => match row_of_file(before.cached_rows@, f) {
                        Some(row) => after.state.selected == Some(row as usize)
                            && after.state.tree_row_count == before.state.tree_row_count
                            && unchanged_rows,
                        None => {
                            let path = store.continuous_diff.files@[f as int].entry.path@;
                            let kept = keys_not_hiding(keys_model(before.collapsed@), path);
                            &&& keys_model(after.collapsed@) == kept
                            &&& rows_model(after.cached_rows@) == tree_rows_spec(
                                store.continuous_diff.files@,
                                kept,
                            )
                            &&& after.state.tree_row_count == after.cached_rows@.len()
                            &&& !after.dirty
                            &&& after.state.selected == match row_of_file(after.cached_rows@, f) {
                                Some(row) => Some(row as usize),
                                None => None,
                            }
                        },
                    },
                }
            }),
    {
        let file_idx = match store.continuous_diff.index.file_at_row(continuous_scroll) {
            Some((f, _)) => f,
            None => {
                return;
            },
        };
        if let Some(pos) = self.find_file_row(file_idx) {
            self.state.selected = Some(pos);
            return;
        }
        let path = chars_of(store.continuous_diff.files[file_idx].entry.path.as_str());
        let ghost keys = keys_model(self.collapsed@);
        let mut kept: Vec<String> = Vec::new();
        let mut i: usize = 0;
        while i < self.collapsed.len()
            invariant
                i <= self.collapsed.len(),
                keys == keys_model(self.collapsed@),
                keys_model(kept@) == keys_not_hiding(keys.take(i as int), path@),
            decreases self.collapsed.len() - i,
        {
            let dir = chars_of(self.collapsed[i].as_str());
            let ghost before = kept@;
            proof {
                assert(keys.take(i as int + 1).drop_last() =~= keys.take(i as int));
                assert(keys.take(i as int + 1).last() == keys[i as int]);
                assert(keys[i as int] == self.collapsed@[i as int]@);
            }
            if !hides_exec(&path, &dir) {
                kept.push(self.collapsed[i].clone());
                assert(keys_model(kept@) =~= keys_model(before).push(keys[i as int]));
            }
            i = i + 1;
        }
        assert(keys.take(i as int) =~= keys);
        self.collapsed = kept;
        self.dirty = true;
        self.ensure_rows(store);
        self.state.selected = self.find_file_row(file_idx);
    }

    /// After the review was built again, selects the row of the file the key names when a
    /// row shows it, and returns that file; otherwise keeps the selection within the rows and
    /// returns the file on it, if any.  With no rows, selects nothing.
    pub fn restore_selection(&mut self, store: &DiffStore, selected_key: Option<FileKey>) -> (r:
        Option<usize>)
        ensures
            final(self).cached_rows@ == old(self).cached_rows@,
            final(self).collapsed@ == old(self).collapsed@,
            final(self).dirty == old(self).dirty,
            final(self).state.tree_row_count == old(self).state.tree_row_count,
            ({
                let rows = old(self).cached_rows@;
                let keyed = match selected_key {
                    Some(k) => match slot_of_spec(store.continuous_diff.files@, k) {
                        Some(f) => match row_of_file(rows, f as usize) {
                            Some(row) => Some((f as usize, row)),
                            None => None,
                        },
                        None => None,
                    },
                    None => None,
                };
                if rows.len() == 0 {
                    final(self).state.selected is None && r is None
                } else {
                    match keyed {
                        Some((f, row)) => final(self).state.selected == Some(row as usize) && r
                            == Some(f),
                        None => {
                            let sel = match old(self).state.selected {
                                Some(i) => i as int,
                                None => 0,
                            };
                            &&& final(self).state.selected == Some(
                                (if sel < rows.len() {
                                    sel
                                } else {
                                    rows.len() - 1
                                }) as usize,
                            )
                            &&& r == file_at(rows, final(self).state.selected)
                        },
                    }
                }
            }),
    {
        if self.cached_rows.len() == 0 {
            self.state.selected = None;
            return None;
        }
        if let Some(key) = selected_key {
            if let Some(file_idx) = store.continuous_diff.slot_of(&key) {
                if let Some(row_idx) = self.find_file_row(file_idx) {
                    self.state.selected = Some(row_idx);
                    return Some(file_idx);
                }
            }
        }
        let sel = match self.state.selected {
            Some(i) => i,
            None => 0,
        };
        let last = self.cached_rows.len() - 1;
        self.state.selected = Some(
            if sel < last {
                sel
            } else {
                last
            },
        );
        self.selected_file_idx()
    }

    /// Applies an action to the panel; returns whether it moved the selection.  Moves go
    /// through the rows when the panel has the focus; file moves, going to the first or last
    /// row, and selecting a row that exists (a click), always; toggling collapses or expands the selected directory.
    pub fn update(&mut self, action: Action, focus: Focus, store: &DiffStore) -> (moved: bool)
        requires
            old(self).selection_fits(),
        ensures
            moved == match action {
                Action::MoveDown => focus == Focus::Files,
                Action::MoveUp => focus == Focus::Files,
                Action::NextFile => true,
                Action::PreviousFile => true,
                Action::GoToFirst => true,
                Action::GoToLast => true,
                Action::SelectTreeRow(row) => row < old(self).cached_rows@.len(),
                _ => false,
            },
            files_updated(
                *old(self),
                *final(self),
                action,
                focus,
                store.continuous_diff.files@,
            ),
    {
        match action {
            Action::MoveDown => {
                if focus == Focus::Files {
                    self.select_next_row();
                    true
                } else {
                    false
                }
            },
            Action::MoveUp => {
                if focus == Focus::Files {
                    self.select_previous_row();
                    true
                } else {
                    false
                }
            },
            Action::NextFile => {
                self.select_next_file();
                true
            },
            Action::PreviousFile => {
                self.select_previous_file();
                true
            },
            Action::GoToFirst => {
                self.select_first();
                true
            },
            Action::GoToLast => {
                self.select_last();
                true
            },
            Action::SelectTreeRow(row) => {
                if row < self.cached_rows.len() {
                    self.state.selected = Some(row);
                    true
                } else {
                    false
                }
            },
            Action::ToggleCollapsed => {
                if let Some(path) = self.selected_dir() {
                    self.toggle_collapsed(path);
                    self.ensure_rows(store);
                    self.clamp_selection();
                }
                false
            },
            _ => false,
        }
    }
}

impl FilesPanel {
    /// Collapses a directory by its key; the rows are to be built again.
    pub fn collapse_dir_for_test(&mut self, path: String)
        ensures
            final(self).collapsed@ == old(self).collapsed@.push(path),
            final(self).dirty,
            final(self).state == old(self).state,
            final(self).cached_rows@ == old(self).cached_rows@,
    {
        self.collapsed.push(path);
        self.dirty = true;
    }
}

} // verus!
