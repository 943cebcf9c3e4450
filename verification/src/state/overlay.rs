//! The overlays drawn over the panels and what each remembers.
use vstd::prelude::*;

use crate::text::{pop_char, push_char};
use crate::theme::ThemeFilter;

verus! {

/// The overlay on screen, if any.
#[derive(Debug)]
pub enum Overlay {
    Closed,
    CommandPalette(CommandPaletteState),
    ThemeSelector(ThemeSelectorState),
    FileFinder(FileFinderState),
    CommitsFinder(CommitsFinderState),
}

/// The command palette: the selected command.
#[derive(Debug, Clone, Copy, Default)]
pub struct CommandPaletteState {
    pub selected: usize,
}

/// The theme selector: the selected theme, the theme shown before it opened, and which
/// themes it lists.
#[derive(Debug, Clone, Copy)]
pub struct ThemeSelectorState {
    pub selected: usize,
    pub original: usize,
    pub filter: ThemeFilter,
}

/// The file finder: the query typed and the selected result.
#[derive(Debug)]
pub struct FileFinderState {
    pub query: String,
    pub selected: usize,
}

/// The commits finder: the query typed, the selected commit and where the keys go.
#[derive(Debug)]
pub struct CommitsFinderState {
    pub query: String,
    pub selected: usize,
    pub focus: CommitsFinderFocus,
}

/// Whether the commits finder's keys move in the list or edit the query.
#[derive(Debug, Clone, Copy, PartialEq, Eq, Structural)]
pub enum CommitsFinderFocus {
    List,
    Search,
}

impl Default for ThemeSelectorState {
    /// The first theme, listing all themes.
    fn default() -> (r: ThemeSelectorState)
        ensures
            r.selected == 0,
            r.original == 0,
            r.filter == ThemeFilter::All,
    {
        ThemeSelectorState { selected: 0, original: 0, filter: ThemeFilter::All }
    }
}

impl Default for FileFinderState {
    /// An empty query, the first result.
    fn default() -> (r: FileFinderState)
        ensures
            r.query@ == Seq::<char>::empty(),
            r.selected == 0,
    {
        FileFinderState { query: String::new(), selected: 0 }
    }
}

impl Default for CommitsFinderState {
    /// An empty query, the first commit, keys in the list.
    fn default() -> (r: CommitsFinderState)
        ensures
            r.query@ == Seq::<char>::empty(),
            r.selected == 0,
            r.focus == CommitsFinderFocus::List,
    {
        CommitsFinderState { query: String::new(), selected: 0, focus: CommitsFinderFocus::List }
    }
}

impl Default for CommitsFinderFocus {
    /// In the list.
    fn default() -> (r: CommitsFinderFocus)
        ensures
            r == CommitsFinderFocus::List,
    {
        CommitsFinderFocus::List
    }
}

/// The selection after stepping forward through `len` items, wrapping; unchanged when
/// there are none.
pub open spec fn step_next(selected: int, len: int) -> int {
    if len == 0 {
        selected
    } else {
        (selected + 1) % len
    }
}

/// The selection after stepping back through `len` items, wrapping; unchanged when there
/// are none.
pub open spec fn step_previous(selected: int, len: int) -> int {
    if len == 0 {
        selected
    } else {
        (selected + len - 1) % len
    }
}

/// The query with its last character removed, if it has one.
pub open spec fn without_last(q: Seq<char>) -> Seq<char> {
    if q.len() == 0 {
        q
    } else {
        q.drop_last()
    }
}

/// Steps forward through `len` items, wrapping.
fn next_index(selected: usize, len: usize) -> (r: usize)
    requires
        len > 0 ==> selected < usize::MAX,
    ensures
        r == step_next(selected as int, len as int),
{
    if len == 0 {
        return selected;
    }
    (selected + 1) % len
}

/// Steps back through `len` items, wrapping.
fn previous_index(selected: usize, len: usize) -> (r: usize)
    requires
        selected + len <= usize::MAX,
    ensures
        r == step_previous(selected as int, len as int),
{
    if len == 0 {
        return selected;
    }
    (selected + len - 1) % len
}

impl CommandPaletteState {
    /// Selects the next of `len` commands, wrapping.
    pub fn select_next(&mut self, len: usize)
        requires
            len > 0 ==> old(self).selected < usize::MAX,
        ensures
            final(self).selected == step_next(old(self).selected as int, len as int),
    {
        self.selected = next_index(self.selected, len);
    }

    /// Selects the previous of `len` commands, wrapping.
    pub fn select_previous(&mut self, len: usize)
        requires
            old(self).selected + len <= usize::MAX,
        ensures
            final(self).selected == step_previous(old(self).selected as int, len as int),
    {
        self.selected = previous_index(self.selected, len);
    }
}

impl FileFinderState {
    /// Selects the next of `len` results, wrapping.
    pub fn select_next(&mut self, len: usize)
        requires
            len > 0 ==> old(self).selected < usize::MAX,
        ensures
            final(self).selected == step_next(old(self).selected as int, len as int),
            final(self).query@ == old(self).query@,
    {
        self.selected = next_index(self.selected, len);
    }

    /// Selects the previous of `len` results, wrapping.
    pub fn select_previous(&mut self, len: usize)
        requires
            old(self).selected + len <= usize::MAX,
        ensures
            final(self).selected == step_previous(old(self).selected as int, len as int),
            final(self).query@ == old(self).query@,
    {
        self.selected = previous_index(self.selected, len);
    }

    /// Types a character, going back to the first result.
    pub fn insert(&mut self, character: char)
        ensures
            final(self).query@ == old(self).query@.push(character),
            final(self).selected == 0,
    {
        push_char(&mut self.query, character);
        self.selected = 0;
    }

    /// Deletes the last character typed, going back to the first result.
    pub fn backspace(&mut self)
        ensures
            final(self).query@ == without_last(old(self).query@),
            final(self).selected == 0,
    {
        pop_char(&mut self.query);
        self.selected = 0;
    }

    /// Clears the query, going back to the first result.
    pub fn clear(&mut self)
        ensures
            final(self).query@ == Seq::<char>::empty(),
            final(self).selected == 0,
    {
        self.query = String::new();
        self.selected = 0;
    }
}

impl CommitsFinderState {
    /// Selects the next of `len` commits, wrapping.
    pub fn select_next(&mut self, len: usize)
        requires
            len > 0 ==> old(self).selected < usize::MAX,
        ensures
            final(self).selected == step_next(old(self).selected as int, len as int),
            final(self).query@ == old(self).query@,
            final(self).focus == old(self).focus,
    {
        self.selected = next_index(self.selected, len);
    }

    /// Selects the previous of `len` commits, wrapping.
    pub fn select_previous(&mut self, len: usize)
        requires
            old(self).selected + len <= usize::MAX,
        ensures
            final(self).selected == step_previous(old(self).selected as int, len as int),
            final(self).query@ == old(self).query@,
            final(self).focus == old(self).focus,
    {
        self.selected = previous_index(self.selected, len);
    }

    /// Types a character, going back to the first commit.
    pub fn insert(&mut self, character: char)
        ensures
            final(self).query@ == old(self).query@.push(character),
            final(self).selected == 0,
            final(self).focus == old(self).focus,
    {
        push_char(&mut self.query, character);
        self.selected = 0;
    }

    /// Deletes the last character typed, going back to the first commit.
    pub fn backspace(&mut self)
        ensures
            final(self).query@ == without_last(old(self).query@),
            final(self).selected == 0,
            final(self).focus == old(self).focus,
    {
        pop_char(&mut self.query);
        self.selected = 0;
    }

    /// Clears the query, going back to the first commit.
    pub fn clear(&mut self)
        ensures
            final(self).query@ == Seq::<char>::empty(),
            final(self).selected == 0,
            final(self).focus == old(self).focus,
    {
        self.query = String::new();
        self.selected = 0;
    }

    /// Moves the keys between the list and the query.
    pub fn toggle_focus(&mut self)
        ensures
            final(self).focus == match old(self).focus {
                CommitsFinderFocus::List => CommitsFinderFocus::Search,
                CommitsFinderFocus::Search => CommitsFinderFocus::List,
            },
            final(self).query@ == old(self).query@,
            final(self).selected == old(self).selected,
    {
        self.focus = match self.focus {
            CommitsFinderFocus::List => CommitsFinderFocus::Search,
            CommitsFinderFocus::Search => CommitsFinderFocus::List,
        };
    }
}

/// Typing a character and deleting it leaves the query as it was.
pub proof fn lemma_insert_then_backspace(q: Seq<char>, c: char)
    ensures
        without_last(q.push(c)) == q,
{
    assert(q.push(c).drop_last() =~= q);
}

/// In a list of items, stepping forward and back, or back and then forward, returns to the
/// item one started from.
pub proof fn lemma_step_round_trip(selected: int, len: int)
    requires
        0 <= selected < len,
    ensures
        step_previous(step_next(selected, len), len) == selected,
        step_next(step_previous(selected, len), len) == selected,
        0 <= step_next(selected, len) < len,
        0 <= step_previous(selected, len) < len,
{
    crate::state::files::lemma_wrap_round_trip(selected, len);
    crate::state::files::lemma_wrap_in_range(selected, len);
}

} // verus!
