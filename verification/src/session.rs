//! The application's state and the decisions it takes on each action.
//!
//! An action changes the focus, the sidebar or the panels; reloading the
//! repository is work done outside, after which the panels are brought back
//! in line.  Whenever a diff was loaded or a file's rows changed, the review is
//! indexed again and the view kept on the selected file.
use vstd::prelude::*;

use crate::action::Action;
use crate::command_palette::{palette_actions, palette_updated};
use crate::commits_finder::{commits_updated, matching_spec};
use crate::diff_panel::{
    file_of_row, files_synced, jumped_to_selected, panel_updated, synced, DiffPanel,
};
use crate::file_finder::{file_paths, finder_updated, matches_spec, utf8_len};
use crate::files_panel::{file_at, files_updated, FilesPanel};
use crate::sidebar::{clicked_row, clicked_row_spec};
use crate::git::repository::{CommitInfo, DiffHunk, FileEntry};
use crate::state::overlay::{
    CommandPaletteState, CommitsFinderFocus, CommitsFinderState, FileFinderState, Overlay,
    ThemeSelectorState,
};
use crate::theme::{selector_updated, ThemeFilter};
use crate::state::focus::{other_focus, Focus};
use crate::state::line_index::LineIndex;
use crate::state::review::{DiffLoadState, FileKey, WorkerResult};
use crate::state::tree::{keys_model, rows_model, tree_rows_spec};
use crate::store::{
    fresh_slot, job_for, loaded_files, patterns_model, payload_wf, poll_spec, result_applies, result_owed, sorted_entries,
    DiffJob, DiffStore,
};

verus! {

/// The state of a running review: which panel has the keys, whether the sidebar shows, the
/// two panels, the review itself, the overlay on screen, the theme (its catalog index) and
/// the commit history read for the commits finder.
#[derive(Debug)]
pub struct Session {
    pub focus: Focus,
    pub should_quit: bool,
    pub show_sidebar: bool,
    pub files: FilesPanel,
    pub diff: DiffPanel,
    pub store: DiffStore,
    pub overlay: Overlay,
    pub theme: usize,
    pub commits: Vec<CommitInfo>,
}

/// What is left to do after an action was taken in.
#[derive(Debug, Clone, Copy, PartialEq, Eq, Structural)]
pub enum Step {
    /// The action is fully handled.
    Done,
    /// The repository is to be read again and the review replaced.
    Reload,
    /// The panels are to take the action; when the files panel moved its selection, the
    /// selected file's diff is to be loaded first.
    Panels { moved: bool },
    /// The commit history is to be read for the commits finder, now open.
    LoadCommits,
    /// The commit at this index of the history is to be reviewed.
    ShowCommit(usize),
    /// This action, chosen in the command palette, is to be taken in.
    Run(Action),
    /// The theme at this index of the catalog was chosen and is to be saved.
    SaveTheme(usize),
    /// The line under the cursor is to be opened in the editor.
    OpenEditor,
}

/// The panel that has the keys and whether the sidebar shows when the review starts, for a
/// terminal `width` columns wide: the diff panel has the keys at 120 columns or less; the
/// sidebar shows as configured, else above 120 columns, and never when there are no changes.
pub fn initial_view(width: u16, configured_sidebar: Option<bool>, file_count: usize) -> (r: (
    Focus,
    bool,
))
    ensures
        r.0 == if width <= 120 {
            Focus::Diff
        } else {
            Focus::Files
        },
        r.1 == (file_count > 0 && match configured_sidebar {
            Some(shown) => shown,
            None => width > 120,
        }),
{
    let focus = if width <= 120 {
        Focus::Diff
    } else {
        Focus::Files
    };
    let shown = match configured_sidebar {
        Some(shown) => shown,
        None => width > 120,
    };
    (focus, file_count > 0 && shown)
}

/// The session after the review is settled: when the review's rows changed, it is indexed
/// again and the view goes back to the file selected in the files panel (or the file the
/// cursor is in); otherwise nothing changes but an index that was missing.  The files, the
/// settings and the rest of the session stay.
pub open spec fn settled(before: Session, after: Session) -> bool {
    &&& after.wf()
    &&& !after.store.continuous_diff.index_dirty
    &&& after.files == before.files
    &&& after.focus == before.focus
    &&& after.should_quit == before.should_quit
    &&& after.show_sidebar == before.show_sidebar
    &&& after.overlay == before.overlay
    &&& after.theme == before.theme
    &&& after.commits == before.commits
    &&& after.store.continuous_diff.files@ == before.store.continuous_diff.files@
    &&& after.store.ignore_patterns == before.store.ignore_patterns
    &&& after.store.ignore_whitespace == before.store.ignore_whitespace
    &&& after.store.continuous_diff.layout == before.store.continuous_diff.layout
    &&& after.store.continuous_diff.generation == before.store.continuous_diff.generation
    &&& after.diff.state == before.diff.state
    &&& if before.store.continuous_diff.index_dirty {
        &&& after.store.continuous_diff.index_current()
        &&& (after.diff.review.continuous_scroll as int, after.diff.review.selected_row as int)
            == synced(after.store.continuous_diff, before.diff.review, settle_anchor(before))
    } else {
        &&& after.diff == before.diff
        &&& before.wf() ==> after.store == before.store
    }
}

/// The file the view stays on when the review is indexed again: the one selected in the
/// files panel, else the one the cursor is in.
pub open spec fn settle_anchor(s: Session) -> Option<usize> {
    match file_at(s.files.cached_rows@, s.files.state.selected) {
        Some(f) => Some(f),
        None => file_of_row(s.store.continuous_diff, s.diff.review.selected_row as int),
    }
}

/// How the state changes when an action is taken in with no overlay open.
pub open spec fn began_closed(before: Session, after: Session, action: Action, step: Step) -> bool {
    let kept = after.store == before.store && after.diff == before.diff && after.theme
        == before.theme && after.commits == before.commits;
    let same_focus = after.focus == before.focus && after.should_quit == before.should_quit
        && after.show_sidebar == before.show_sidebar;
    &&& kept
    &&& match action {
        Action::Quit => step == Step::Done && after.should_quit && after.focus == before.focus
            && after.show_sidebar == before.show_sidebar && after.files == before.files
            && after.overlay == before.overlay,
        Action::NextFocus | Action::PreviousFocus => step == Step::Done && after.focus
            == other_focus(before.focus) && after.should_quit == before.should_quit
            && after.show_sidebar == before.show_sidebar && after.files == before.files
            && after.overlay == before.overlay,
        Action::FocusPanel(f) => step == Step::Done && after.focus == f && after.should_quit
            == before.should_quit && after.show_sidebar == before.show_sidebar && after.files
            == before.files && after.overlay == before.overlay,
        Action::ToggleSidebar => step == Step::Done && after.show_sidebar == !before.show_sidebar
            && after.focus == (if before.show_sidebar {
            Focus::Diff
        } else {
            other_focus(before.focus)
        }) && after.should_quit == before.should_quit && after.files == before.files
            && after.overlay == before.overlay,
        Action::Refresh => step == Step::Reload && after == before,
        Action::OpenEditor => step == Step::OpenEditor && after == before,
        Action::ToggleCommandPalette => step == Step::Done && same_focus && after.files
            == before.files && after.overlay == Overlay::CommandPalette(
            CommandPaletteState { selected: 0 },
        ),
        Action::ToggleThemeSelector => step == Step::Done && same_focus && after.files
            == before.files && after.overlay == Overlay::ThemeSelector(
            ThemeSelectorState {
                selected: before.theme,
                original: before.theme,
                filter: ThemeFilter::All,
            },
        ),
        Action::ToggleFileFinder => step == Step::Done && same_focus && after.files
            == before.files && (after.overlay matches Overlay::FileFinder(st) && st.query@.len()
            == 0 && st.selected == 0),
        Action::ToggleCommitsFinder => step == Step::LoadCommits && same_focus && after.files
            == before.files && (after.overlay matches Overlay::CommitsFinder(st)
            && st.query@.len() == 0 && st.selected == 0 && st.focus == CommitsFinderFocus::List),
        _ => step matches Step::Panels { moved } && moved == match action {
            Action::MoveDown => before.focus == Focus::Files,
            Action::MoveUp => before.focus == Focus::Files,
            Action::NextFile => true,
            Action::PreviousFile => true,
            Action::GoToFirst => true,
            Action::GoToLast => true,
            Action::SelectTreeRow(row) => row < before.files.cached_rows@.len(),
            _ => false,
        } && same_focus && after.overlay == before.overlay && files_updated(
            before.files,
            after.files,
            action,
            before.focus,
            before.store.continuous_diff.files@,
        ),
    }
}

/// How the state changes when an action is taken in with an overlay open: the overlay's own
/// toggle closes it; a choice closes it and hands on what was chosen (the command to run,
/// the theme to save, the commit to review) or goes to the file chosen; other actions move
/// through the overlay or edit its query.  The focus, the sidebar and the review stay.
pub open spec fn began_in_overlay(before: Session, after: Session, action: Action, step: Step) -> bool {
    let doc = before.store.continuous_diff;
    let panels_kept = after.files == before.files && after.diff == before.diff;
    &&& after.store == before.store
    &&& after.focus == before.focus
    &&& after.should_quit == before.should_quit
    &&& after.show_sidebar == before.show_sidebar
    &&& after.commits == before.commits
    &&& match (before.overlay, action) {
        (Overlay::CommandPalette(_), Action::ToggleCommandPalette)
        | (Overlay::ThemeSelector(_), Action::ToggleThemeSelector)
        | (Overlay::FileFinder(_), Action::ToggleFileFinder)
        | (Overlay::CommitsFinder(_), Action::ToggleCommitsFinder) => step == Step::Done
            && after.overlay is Closed && panels_kept && after.theme == before.theme,
        (Overlay::CommandPalette(st), Action::RunSelectedCommand) => after.overlay is Closed
            && panels_kept && after.theme == before.theme && step == if st.selected
            < palette_actions().len() {
            Step::Run(palette_actions()[st.selected as int])
        } else {
            Step::Done
        },
        (Overlay::ThemeSelector(st), Action::SelectTheme) => after.overlay is Closed
            && panels_kept && after.theme == st.selected && step == Step::SaveTheme(st.selected),
        (Overlay::FileFinder(st), Action::SelectFileFinderResult) => {
            let ms = matches_spec(file_paths(doc.files@), st.query@);
            &&& step == Step::Done
            &&& after.overlay is Closed
            &&& after.theme == before.theme
            &&& if st.selected < ms.len() {
                &&& (after.diff.review.continuous_scroll as int, after.diff.review.selected_row as int)
                    == synced(doc, before.diff.review, Some(ms[st.selected as int].0 as usize))
                &&& after.diff.state == before.diff.state
                &&& files_synced(before.files, after.files, doc, after.diff.review.continuous_scroll)
            } else {
                panels_kept
            }
        },
        (Overlay::CommitsFinder(st), Action::SelectCommitsFinderResult) => {
            let ms = matching_spec(before.commits@, st.query@);
            &&& after.overlay is Closed
            &&& panels_kept
            &&& after.theme == before.theme
            &&& step == if st.selected < ms.len() {
                Step::ShowCommit(ms[st.selected as int])
            } else {
                Step::Done
            }
        },
        _ => step == Step::Done && panels_kept && after.theme == before.theme && match before.overlay {
            Overlay::CommandPalette(_) => palette_updated(before.overlay, after.overlay, action),
            Overlay::ThemeSelector(_) => selector_updated(before.overlay, after.overlay, action),
            Overlay::FileFinder(_) => finder_updated(
                before.overlay,
                after.overlay,
                action,
                doc.files@,
            ),
            Overlay::CommitsFinder(_) => commits_updated(
                before.overlay,
                after.overlay,
                action,
                before.commits@,
            ),
            Overlay::Closed => true,
        },
    }
}

impl Session {
    /// The review is well formed and indexed for its files.
    pub open spec fn wf(&self) -> bool {
        &&& self.store.wf()
        &&& self.store.continuous_diff.index.file_starts@.len()
            == self.store.continuous_diff.files@.len()
    }

    /// What the open overlay needs to take in actions: selections and lengths within bounds.
    pub open spec fn overlay_fits(&self) -> bool {
        match self.overlay {
            Overlay::CommandPalette(st) => st.selected < usize::MAX - 16,
            Overlay::FileFinder(st) => {
                &&& utf8_len(st.query@) <= usize::MAX
                &&& st.selected < usize::MAX
                &&& st.selected + self.store.continuous_diff.files@.len() <= usize::MAX
                &&& forall|i: int|
                    0 <= i < self.store.continuous_diff.files@.len() ==> utf8_len(
                        #[trigger] self.store.continuous_diff.files@[i].entry.path@,
                    ) <= usize::MAX
            },
            Overlay::CommitsFinder(st) => st.selected < usize::MAX && st.selected
                + self.commits@.len() <= usize::MAX,
            _ => true,
        }
    }

    /// Takes in an action.  With an overlay open, the overlay takes it (see
    /// [`began_in_overlay`]); otherwise (see [`began_closed`]) the action quits, moves the
    /// focus, shows or hides the sidebar, opens an overlay, asks for a reload or the editor,
    /// or lets the files panel take it and asks for the panels to go on.
    pub fn begin(&mut self, action: Action) -> (step: Step)
        requires
            old(self).wf(),
            old(self).files.selection_fits(),
            old(self).overlay_fits(),
        ensures
            final(self).wf(),
            old(self).overlay is Closed ==> began_closed(*old(self), *final(self), action, step),
            !(old(self).overlay is Closed) ==> began_in_overlay(
                *old(self),
                *final(self),
                action,
                step,
            ),
    {
        let closed = match &self.overlay {
            Overlay::Closed => true,
            _ => false,
        };
        if closed {
            self.begin_closed(action)
        } else {
            self.begin_in_overlay(action)
        }
    }

    fn begin_closed(&mut self, action: Action) -> (step: Step)
        requires
            old(self).wf(),
            old(self).files.selection_fits(),
            old(self).overlay is Closed,
        ensures
            final(self).wf(),
            began_closed(*old(self), *final(self), action, step),
    {
        match action {
            Action::Quit => {
                self.should_quit = true;
                Step::Done
            },
            Action::NextFocus => {
                self.focus = self.focus.next();
                Step::Done
            },
            Action::PreviousFocus => {
                self.focus = self.focus.previous();
                Step::Done
            },
            Action::FocusPanel(f) => {
                self.focus = f;
                Step::Done
            },
            Action::ToggleSidebar => {
                self.show_sidebar = !self.show_sidebar;
                self.focus = if !self.show_sidebar {
                    Focus::Diff
                } else {
                    match self.focus {
                        Focus::Files => Focus::Diff,
                        Focus::Diff => Focus::Files,
                    }
                };
                Step::Done
            },
            Action::Refresh => Step::Reload,
            Action::OpenEditor => Step::OpenEditor,
            Action::ToggleCommandPalette => {
                self.overlay = Overlay::CommandPalette(CommandPaletteState { selected: 0 });
                Step::Done
            },
            Action::ToggleThemeSelector => {
                self.overlay = Overlay::ThemeSelector(
                    ThemeSelectorState {
                        selected: self.theme,
                        original: self.theme,
                        filter: ThemeFilter::All,
                    },
                );
                Step::Done
            },
            Action::ToggleFileFinder => {
                self.overlay = Overlay::FileFinder(FileFinderState::default());
                Step::Done
            },
            Action::ToggleCommitsFinder => {
                self.overlay = Overlay::CommitsFinder(CommitsFinderState::default());
                Step::LoadCommits
            },
            _ => {
                let moved = self.files.update(action, self.focus, &self.store);
                Step::Panels { moved }
            },
        }
    }

    fn begin_in_overlay(&mut self, action: Action) -> (step: Step)
        requires
            old(self).wf(),
            old(self).overlay_fits(),
            !(old(self).overlay is Closed),
        ensures
            final(self).wf(),
            began_in_overlay(*old(self), *final(self), action, step),
    {
        let closes = match (&self.overlay, action) {
            (Overlay::CommandPalette(_), Action::ToggleCommandPalette) => true,
            (Overlay::ThemeSelector(_), Action::ToggleThemeSelector) => true,
            (Overlay::FileFinder(_), Action::ToggleFileFinder) => true,
            (Overlay::CommitsFinder(_), Action::ToggleCommitsFinder) => true,
            _ => false,
        };
        if closes {
            self.overlay = Overlay::Closed;
            return Step::Done;
        }
        match action {
            Action::RunSelectedCommand => {
                let chosen = crate::command_palette::selected_action(&self.overlay);
                if let Overlay::CommandPalette(_) = &self.overlay {
                    self.overlay = Overlay::Closed;
                    return match chosen {
                        Some(a) => Step::Run(a),
                        None => Step::Done,
                    };
                }
                Step::Done
            },
            Action::SelectTheme => {
                let chosen = match &self.overlay {
                    Overlay::ThemeSelector(st) => Some(st.selected),
                    _ => None,
                };
                match chosen {
                    Some(t) => {
                        self.theme = t;
                        self.overlay = Overlay::Closed;
                        Step::SaveTheme(t)
                    },
                    None => Step::Done,
                }
            },
            Action::SelectFileFinderResult => {
                let is_finder = match &self.overlay {
                    Overlay::FileFinder(_) => true,
                    _ => false,
                };
                if is_finder {
                    let chosen = crate::file_finder::selected_file_index(
                        &self.overlay,
                        &self.store.continuous_diff.files,
                    );
                    self.overlay = Overlay::Closed;
                    if let Some(f) = chosen {
                        self.diff.sync_continuous_scroll_to_file(Some(f), &self.store);
                        let scroll = self.diff.continuous_scroll();
                        self.files.match_selected_file(&self.store, scroll);
                    }
                }
                Step::Done
            },
            Action::SelectCommitsFinderResult => {
                let is_commits = match &self.overlay {
                    Overlay::CommitsFinder(_) => true,
                    _ => false,
                };
                if is_commits {
                    let chosen = match &self.overlay {
                        Overlay::CommitsFinder(st) => {
                            let ms = crate::commits_finder::matching_commits(
                                &self.commits,
                                st.query.as_str(),
                            );
                            if st.selected < ms.len() {
                                Some(ms[st.selected])
                            } else {
                                None
                            }
                        },
                        _ => None,
                    };
                    self.overlay = Overlay::Closed;
                    match chosen {
                        Some(i) => Step::ShowCommit(i),
                        None => Step::Done,
                    }
                } else {
                    Step::Done
                }
            },
            _ => {
                let kind: u8 = match &self.overlay {
                    Overlay::CommandPalette(_) => 0,
                    Overlay::ThemeSelector(_) => 1,
                    Overlay::FileFinder(_) => 2,
                    _ => 3,
                };
                if kind == 0 {
                    crate::command_palette::update(&mut self.overlay, action);
                } else if kind == 1 {
                    crate::theme::update(&mut self.overlay, action);
                } else if kind == 2 {
                    crate::file_finder::update(
                        &mut self.overlay,
                        action,
                        &self.store.continuous_diff.files,
                    );
                } else {
                    crate::commits_finder::update(&mut self.overlay, action, &self.commits);
                }
                Step::Done
            },
        }
    }

    /// Lets the diff panel take an action after the files panel did: when the files panel
    /// moved, the view first goes to the selected file.  Then the review is settled.
    pub fn finish(&mut self, action: Action, moved: bool)
        requires
            old(self).wf(),
        ensures
            final(self).wf(),
            !final(self).store.continuous_diff.index_dirty,
            final(self).focus == old(self).focus,
            final(self).should_quit == old(self).should_quit,
            final(self).show_sidebar == old(self).show_sidebar,
            final(self).overlay == old(self).overlay,
            exists|jumped: DiffPanel, updated: Session|
                {
                    &&& if moved {
                        jumped_to_selected(old(self).diff, jumped, old(self).files, old(self).store)
                    } else {
                        jumped == old(self).diff
                    }
                    &&& #[trigger] panel_updated(
                        jumped,
                        updated.diff,
                        old(self).store,
                        updated.store,
                        old(self).files,
                        updated.files,
                        action,
                        old(self).focus,
                    )
                    &&& updated.focus == old(self).focus
                    &&& updated.should_quit == old(self).should_quit
                    &&& updated.show_sidebar == old(self).show_sidebar
                    &&& updated.overlay == old(self).overlay
                    &&& updated.theme == old(self).theme
                    &&& updated.commits == old(self).commits
                    &&& settled(updated, *final(self))
                },
    {
        if moved {
            self.diff.jump_to_selected_file(&self.files, &self.store);
        }
        let ghost jumped = self.diff;
        self.diff.update(action, self.focus, &mut self.files, &mut self.store);
        let ghost updated = *self;
        self.settle();
        assert(panel_updated(
            jumped,
            updated.diff,
            old(self).store,
            updated.store,
            old(self).files,
            updated.files,
            action,
            old(self).focus,
        ));
    }

    /// When a diff was loaded or a file's rows changed, indexes the review again and keeps
    /// the view on the selected file (or the file the cursor is in).
    pub fn settle(&mut self)
        requires
            old(self).store.wf(),
        ensures
            settled(*old(self), *final(self)),
    {
        if !self.store.continuous_diff.index_dirty {
            if self.store.continuous_diff.index.file_starts.len()
                != self.store.continuous_diff.files.len() {
                self.store.continuous_diff.rebuild_index();
            }
            return;
        }
        let anchor = match self.files.selected_file_idx() {
            Some(f) => Some(f),
            None => self.diff.current_continuous_file_idx(&self.store),
        };
        self.store.continuous_diff.rebuild_index();
        self.store.continuous_diff.index_dirty = false;
        self.diff.sync_continuous_scroll_to_file(anchor, &self.store);
    }

    /// Applies diffs loaded in the background and settles the review; returns whether any
    /// applied.
    pub fn poll_workers(&mut self, results: Vec<crate::state::review::WorkerResult>) -> (changed:
        bool)
        requires
            old(self).wf(),
            forall|i: int|
                0 <= i < results@.len() ==> result_owed(
                    old(self).store.continuous_diff.files@,
                    old(self).store.continuous_diff.generation,
                    #[trigger] results@[i],
                ),
        ensures
            final(self).wf(),
            (final(self).store.continuous_diff.files@, changed) == poll_spec(
                old(self).store.continuous_diff.files@,
                old(self).store.continuous_diff.generation,
                old(self).store.continuous_diff.index,
                results@,
            ),
            exists|polled: DiffStore|
                {
                    &&& (#[trigger] polled.continuous_diff.files@, changed) == poll_spec(
                        old(self).store.continuous_diff.files@,
                        old(self).store.continuous_diff.generation,
                        old(self).store.continuous_diff.index,
                        results@,
                    )
                    &&& polled.continuous_diff.index_dirty == (
                    old(self).store.continuous_diff.index_dirty || changed)
                    &&& polled.continuous_diff.index == old(self).store.continuous_diff.index
                    &&& polled.continuous_diff.layout == old(self).store.continuous_diff.layout
                    &&& polled.continuous_diff.generation == old(
                        self,
                    ).store.continuous_diff.generation
                    &&& polled.ignore_patterns@ == old(self).store.ignore_patterns@
                    &&& polled.ignore_whitespace == old(self).store.ignore_whitespace
                    &&& settled(Session { store: polled, ..*old(self) }, *final(self))
                },
    {
        let changed = self.store.poll_workers(results);
        let ghost polled = self.store;
        assert(*self == Session { store: polled, ..*old(self) });
        self.settle();
        assert(polled.continuous_diff.files@ == polled.continuous_diff.files@);
        changed
    }

    /// The action a resize of the terminal calls for: the diff panel takes the focus when the
    /// terminal is 120 columns wide or less.
    pub fn handle_resize(&self, width: u16) -> (r: Action)
        ensures
            r == if width <= 120 && self.focus != Focus::Diff {
                Action::FocusPanel(Focus::Diff)
            } else {
                Action::Noop
            },
    {
        if width <= 120 && self.focus != Focus::Diff {
            Action::FocusPanel(Focus::Diff)
        } else {
            Action::Noop
        }
    }
}

impl Session {
    /// Replaces the review by one of `entries`, for the next generation: the files panel is
    /// built again and keeps the selected file when it is still there, the view goes to the
    /// file selected, and the horizontal scroll starts over.  Returns the loads to run in the
    /// background for the new review.
    pub fn replace_entries(&mut self, entries: Vec<FileEntry>) -> (jobs: Vec<DiffJob>)
        requires
            old(self).wf(),
            old(self).store.continuous_diff.generation < u64::MAX,
            entries.len() <= usize::MAX / 2,
        ensures
            final(self).wf(),
            final(self).store.continuous_diff.index_current(),
            !final(self).store.continuous_diff.index_dirty,
            final(self).store.continuous_diff.generation == old(
                self,
            ).store.continuous_diff.generation + 1,
            final(self).store.continuous_diff.files@.len() == entries@.len(),
            forall|i: int|
                0 <= i < entries@.len() ==> #[trigger] final(self).store.continuous_diff.files@[i]
                    == fresh_slot(
                    sorted_entries(entries@)[i],
                    patterns_model(old(self).store.ignore_patterns@),
                ),
            rows_model(final(self).files.cached_rows@) == tree_rows_spec(
                final(self).store.continuous_diff.files@,
                keys_model(old(self).files.collapsed@),
            ),
            final(self).files.collapsed@ == old(self).files.collapsed@,
            final(self).diff.state.horizontal_scroll == 0,
            jobs@.len() == loaded_files(
                final(self).store.continuous_diff.files@,
                entries@.len() as int,
            ).len(),
            forall|k: int|
                0 <= k < jobs@.len() ==> job_for(
                    #[trigger] jobs@[k],
                    final(self).store.continuous_diff.files@,
                    loaded_files(final(self).store.continuous_diff.files@, entries@.len() as int)[k],
                ),
            final(self).focus == old(self).focus,
            final(self).should_quit == old(self).should_quit,
            final(self).show_sidebar == old(self).show_sidebar,
            final(self).overlay == old(self).overlay,
            final(self).theme == old(self).theme,
            final(self).commits == old(self).commits,
    {
        let selected_key = match self.files.selected_file(&self.store) {
            Some(entry) => Some(FileKey { path: entry.path.clone(), status: entry.status }),
            None => None,
        };
        self.store.reload(entries);
        self.files.mark_dirty();
        self.files.ensure_rows(&self.store);
        let restored = self.files.restore_selection(&self.store, selected_key);
        self.diff.sync_continuous_scroll_to_file(restored, &self.store);
        self.diff.reset();
        self.store.worker_jobs()
    }

    /// The load of the selected file's diff, when it has not been loaded yet: the files
    /// panel's rows are brought up to date first.
    pub fn selected_load_job(&mut self) -> (job: Option<DiffJob>)
        ensures
            final(self).store == old(self).store,
            final(self).diff == old(self).diff,
            final(self).focus == old(self).focus,
            final(self).should_quit == old(self).should_quit,
            final(self).show_sidebar == old(self).show_sidebar,
            final(self).overlay == old(self).overlay,
            final(self).theme == old(self).theme,
            final(self).commits == old(self).commits,
            final(self).files.state.selected == old(self).files.state.selected,
            final(self).files.collapsed@ == old(self).files.collapsed@,
            !final(self).files.dirty,
            ({
                let files = final(self).store.continuous_diff.files@;
                match file_at(final(self).files.cached_rows@, final(self).files.state.selected) {
                    Some(f) => if f < files.len() && files[f as int].load is NotLoaded {
                        job matches Some(j) && job_for(j, files, f as int)
                    } else {
                        job is None
                    },
                    None => job is None,
                }
            }),
    {
        self.files.ensure_rows(&self.store);
        match self.files.selected_file_idx() {
            Some(f) => {
                if f < self.store.continuous_diff.files.len() {
                    match &self.store.continuous_diff.files[f].load {
                        DiffLoadState::NotLoaded => {
                            let entry = &self.store.continuous_diff.files[f].entry;
                            let previous_path = match &entry.previous_path {
                                Some(p) => Some(p.clone()),
                                None => None,
                            };
                            Some(
                                DiffJob {
                                    file_idx: f,
                                    path: entry.path.clone(),
                                    previous_path,
                                    status: entry.status,
                                },
                            )
                        },
                        _ => None,
                    }
                } else {
                    None
                }
            },
            None => None,
        }
    }

    /// Takes in the diff loaded for file `file_idx` on the spot: a diff or a binary notice
    /// takes the file's place when it is well formed and fits the review (as a background
    /// result of the current generation would); a failed load leaves the file as it was.
    /// Either way the review is to be indexed again and the horizontal bound is refreshed.
    pub fn take_selected_load(
        &mut self,
        file_idx: usize,
        result: Result<Option<(Vec<DiffHunk>, LineIndex)>, String>,
    ) -> (applied: bool)
        requires
            old(self).wf(),
            file_idx < old(self).store.continuous_diff.files@.len(),
            payload_wf(result),
        ensures
            final(self).wf(),
            final(self).store.continuous_diff.index_dirty,
            applied ==> result is Ok,
            result is Ok ==> applied == result_applies(
                old(self).store.continuous_diff.files@,
                old(self).store.continuous_diff.generation,
                old(self).store.continuous_diff.index,
                WorkerResult {
                    generation: old(self).store.continuous_diff.generation,
                    file_idx,
                    result,
                },
            ),
            !applied ==> final(self).store.continuous_diff.files@ == old(
                self,
            ).store.continuous_diff.files@,
            final(self).store.continuous_diff.generation == old(
                self,
            ).store.continuous_diff.generation,
            final(self).files == old(self).files,
            final(self).focus == old(self).focus,
            final(self).should_quit == old(self).should_quit,
            final(self).show_sidebar == old(self).show_sidebar,
            final(self).overlay == old(self).overlay,
            final(self).theme == old(self).theme,
            final(self).commits == old(self).commits,
    {
        let applied = match result {
            Ok(loaded) => {
                let msg = WorkerResult {
                    generation: self.store.continuous_diff.generation,
                    file_idx,
                    result: Ok(loaded),
                };
                self.store.apply_worker_result(msg)
            },
            Err(_) => false,
        };
        self.store.continuous_diff.index_dirty = true;
        self.diff.refresh_horizontal_scroll_bounds(&self.store);
        applied
    }

    /// The action an event asks for: a key press, a mouse wheel turn (a move down or up), a
    /// click on a row of the sidebar (selecting it), or a resize of the terminal.
    pub fn handle_event(&mut self, event: Event) -> (r: Action)
        ensures
            match event {
                Event::Key(key, ctrl) => r == if old(self).overlay is Closed {
                    key_action(
                        key,
                        ctrl,
                        old(self).focus,
                        old(self).store.continuous_diff.files@.len() > 0,
                    )
                } else {
                    overlay_key_action(old(self).overlay, key, ctrl)
                },
                Event::Mouse(m) => r == match m {
                    Mouse::ScrollUp => Action::MoveUp,
                    Mouse::ScrollDown => Action::MoveDown,
                    Mouse::SidebarClick { line, height } => match clicked_row_spec(
                        old(self).files.cached_rows@,
                        old(self).store.continuous_diff.files@.len() as int,
                        old(self).files.state.selected,
                        height as int,
                        line as int,
                    ) {
                        Some(row) => Action::SelectTreeRow(row),
                        None => Action::Noop,
                    },
                    Mouse::Other => Action::Noop,
                } && *final(self) == *old(self),
                Event::Resize(width, _) => r == if width <= 120 && old(self).focus != Focus::Diff {
                    Action::FocusPanel(Focus::Diff)
                } else {
                    Action::Noop
                } && *final(self) == *old(self),
            },
            final(self).store == old(self).store,
            final(self).files == old(self).files,
            final(self).diff == old(self).diff,
    {
        match event {
            Event::Key(key, ctrl) => self.handle_key(key, ctrl),
            Event::Mouse(m) => match m {
                Mouse::ScrollUp => Action::MoveUp,
                Mouse::ScrollDown => Action::MoveDown,
                Mouse::SidebarClick { line, height } => match clicked_row(
                    &self.files.cached_rows,
                    self.store.continuous_diff.files.len(),
                    self.files.state.selected,
                    height,
                    line,
                ) {
                    Some(row) => Action::SelectTreeRow(row),
                    None => Action::Noop,
                },
                Mouse::Other => Action::Noop,
            },
            Event::Resize(width, _) => self.handle_resize(width),
        }
    }
}

/// What the mouse did.
#[derive(Debug, Clone, Copy, PartialEq, Eq, Structural)]
pub enum Mouse {
    ScrollUp,
    ScrollDown,
    /// A left click on line `line` of the sidebar's list, `height` lines tall.
    SidebarClick { line: usize, height: usize },
    Other,
}

/// An input event: a key (and whether Control was held), a mouse event, or the terminal's
/// new size in columns and rows.
#[derive(Debug, Clone, Copy, PartialEq, Eq, Structural)]
pub enum Event {
    Key(Key, bool),
    Mouse(Mouse),
    Resize(u16, u16),
}

/// A key as the application reads it.
#[derive(Debug, Clone, Copy, PartialEq, Eq, Structural)]
pub enum Key {
    Char(char),
    Tab,
    BackTab,
    Down,
    Up,
    Left,
    Right,
    Enter,
    Esc,
    Backspace,
    Other,
}

/// The action a key press asks for with no overlay open, given the focus and whether the
/// review has files.
pub open spec fn key_action(key: Key, ctrl: bool, focus: Focus, has_files: bool) -> Action {
    match key {
        Key::Char('c') if ctrl => Action::Quit,
        Key::Char('p') if ctrl => Action::ToggleFileFinder,
        Key::Char('q') => Action::Quit,
        Key::Tab => Action::NextFocus,
        Key::BackTab => Action::PreviousFocus,
        Key::Char('0') => Action::FocusPanel(Focus::Diff),
        Key::Char('1') => Action::FocusPanel(Focus::Files),
        Key::Down | Key::Char('j') => Action::MoveDown,
        Key::Up | Key::Char('k') => Action::MoveUp,
        Key::Right | Key::Char('l') => Action::ScrollDiffRight,
        Key::Left | Key::Char('h') => Action::ScrollDiffLeft,
        Key::Char(']') => if focus == Focus::Diff || has_files {
            Action::NextHunk
        } else {
            Action::Noop
        },
        Key::Char('[') if focus == Focus::Diff => Action::PreviousHunk,
        Key::Char('n') => Action::NextFile,
        Key::Char('p') => Action::PreviousFile,
        Key::Char('L') => Action::ToggleDiffLineNumbers,
        Key::Char('v') => Action::ToggleDiffLayout,
        Key::Char('H') => Action::ToggleCommitsFinder,
        Key::Char('t') => Action::ToggleThemeSelector,
        Key::Char('?') => Action::ToggleCommandPalette,
        Key::Char('e') => Action::OpenEditor,
        Key::Char('m') => Action::ToggleReviewed,
        Key::Char('r') => Action::Refresh,
        Key::Char('s') => Action::ToggleSidebar,
        Key::Char('g') if focus == Focus::Files => Action::GoToFirst,
        Key::Char('G') if focus == Focus::Files => Action::GoToLast,
        Key::Enter if focus == Focus::Files => Action::ToggleCollapsed,
        Key::Char(' ') if focus == Focus::Files => Action::ToggleCollapsed,
        _ => Action::Noop,
    }
}

/// The action a key press asks for with an overlay open: Esc closes it, the arrows move
/// through it and Enter takes the selected item; typing edits a finder's query (in the
/// commits finder, while the keys are in the query; Tab moves them between list and
/// query), and Tab changes the theme selector's filter.
pub open spec fn overlay_key_action(overlay: Overlay, key: Key, ctrl: bool) -> Action {
    match overlay {
        Overlay::Closed => Action::Noop,
        Overlay::CommandPalette(_) => match key {
            Key::Esc => Action::ToggleCommandPalette,
            Key::Down => Action::MoveDown,
            Key::Up => Action::MoveUp,
            Key::Enter => Action::RunSelectedCommand,
            _ => Action::Noop,
        },
        Overlay::ThemeSelector(_) => match key {
            Key::Esc => Action::ToggleThemeSelector,
            Key::Down | Key::Char('j') => Action::MoveDown,
            Key::Up | Key::Char('k') => Action::MoveUp,
            Key::Tab => Action::ToggleThemeFilter,
            Key::Enter => Action::SelectTheme,
            _ => Action::Noop,
        },
        Overlay::FileFinder(_) => match key {
            Key::Esc => Action::ToggleFileFinder,
            Key::Down => Action::MoveDown,
            Key::Up => Action::MoveUp,
            Key::Enter => Action::SelectFileFinderResult,
            Key::Backspace => Action::FileFinderBackspace,
            Key::Char('u') if ctrl => Action::FileFinderClear,
            Key::Char(c) if !ctrl => Action::FileFinderInput(c),
            _ => Action::Noop,
        },
        Overlay::CommitsFinder(st) => match key {
            Key::Esc => Action::ToggleCommitsFinder,
            Key::Down => Action::MoveDown,
            Key::Up => Action::MoveUp,
            Key::Enter => Action::SelectCommitsFinderResult,
            Key::Tab => Action::ToggleCommitsFinderFocus,
            _ => match st.focus {
                CommitsFinderFocus::Search => match key {
                    Key::Backspace => Action::CommitsFinderBackspace,
                    Key::Char('u') if ctrl => Action::CommitsFinderClear,
                    Key::Char(c) if !ctrl => Action::CommitsFinderInput(c),
                    _ => Action::Noop,
                },
                CommitsFinderFocus::List => match key {
                    Key::Char('j') => Action::MoveDown,
                    Key::Char('k') => Action::MoveUp,
                    Key::Char('/') => Action::ToggleCommitsFinderFocus,
                    _ => Action::Noop,
                },
            },
        },
    }
}

/// The action of a key press with no overlay open.
fn key_action_exec(key: Key, ctrl: bool, focus: Focus, has_files: bool) -> (r: Action)
    ensures
        r == key_action(key, ctrl, focus, has_files),
{
    match key {
        Key::Char(c) => {
            if c == 'c' && ctrl {
                Action::Quit
            } else if c == 'p' && ctrl {
                Action::ToggleFileFinder
            } else if c == 'q' {
                Action::Quit
            } else if c == '0' {
                Action::FocusPanel(Focus::Diff)
            } else if c == '1' {
                Action::FocusPanel(Focus::Files)
            } else if c == 'j' {
                Action::MoveDown
            } else if c == 'k' {
                Action::MoveUp
            } else if c == 'l' {
                Action::ScrollDiffRight
            } else if c == 'h' {
                Action::ScrollDiffLeft
            } else if c == ']' {
                if focus == Focus::Diff || has_files {
                    Action::NextHunk
                } else {
                    Action::Noop
                }
            } else if c == '[' && focus == Focus::Diff {
                Action::PreviousHunk
            } else if c == 'n' {
                Action::NextFile
            } else if c == 'p' {
                Action::PreviousFile
            } else if c == 'L' {
                Action::ToggleDiffLineNumbers
            } else if c == 'v' {
                Action::ToggleDiffLayout
            } else if c == 'H' {
                Action::ToggleCommitsFinder
            } else if c == 't' {
                Action::ToggleThemeSelector
            } else if c == '?' {
                Action::ToggleCommandPalette
            } else if c == 'e' {
                Action::OpenEditor
            } else if c == 'm' {
                Action::ToggleReviewed
            } else if c == 'r' {
                Action::Refresh
            } else if c == 's' {
                Action::ToggleSidebar
            } else if c == 'g' && focus == Focus::Files {
                Action::GoToFirst
            } else if c == 'G' && focus == Focus::Files {
                Action::GoToLast
            } else if c == ' ' && focus == Focus::Files {
                Action::ToggleCollapsed
            } else {
                Action::Noop
            }
        },
        Key::Tab => Action::NextFocus,
        Key::BackTab => Action::PreviousFocus,
        Key::Down => Action::MoveDown,
        Key::Up => Action::MoveUp,
        Key::Right => Action::ScrollDiffRight,
        Key::Left => Action::ScrollDiffLeft,
        Key::Enter => {
            if focus == Focus::Files {
                Action::ToggleCollapsed
            } else {
                Action::Noop
            }
        },
        _ => Action::Noop,
    }
}

/// The action of a key press with an overlay open.
fn overlay_key_action_exec(overlay: &Overlay, key: Key, ctrl: bool) -> (r: Action)
    ensures
        r == overlay_key_action(*overlay, key, ctrl),
{
    match overlay {
        Overlay::Closed => Action::Noop,
        Overlay::CommandPalette(_) => match key {
            Key::Esc => Action::ToggleCommandPalette,
            Key::Down => Action::MoveDown,
            Key::Up => Action::MoveUp,
            Key::Enter => Action::RunSelectedCommand,
            _ => Action::Noop,
        },
        Overlay::ThemeSelector(_) => match key {
            Key::Esc => Action::ToggleThemeSelector,
            Key::Down => Action::MoveDown,
            Key::Up => Action::MoveUp,
            Key::Tab => Action::ToggleThemeFilter,
            Key::Enter => Action::SelectTheme,
            Key::Char(c) => {
                if c == 'j' {
                    Action::MoveDown
                } else if c == 'k' {
                    Action::MoveUp
                } else {
                    Action::Noop
                }
            },
            _ => Action::Noop,
        },
        Overlay::FileFinder(_) => match key {
            Key::Esc => Action::ToggleFileFinder,
            Key::Down => Action::MoveDown,
            Key::Up => Action::MoveUp,
            Key::Enter => Action::SelectFileFinderResult,
            Key::Backspace => Action::FileFinderBackspace,
            Key::Char(c) => {
                if c == 'u' && ctrl {
                    Action::FileFinderClear
                } else if !ctrl {
                    Action::FileFinderInput(c)
                } else {
                    Action::Noop
                }
            },
            _ => Action::Noop,
        },
        Overlay::CommitsFinder(st) => match key {
            Key::Esc => Action::ToggleCommitsFinder,
            Key::Down => Action::MoveDown,
            Key::Up => Action::MoveUp,
            Key::Enter => Action::SelectCommitsFinderResult,
            Key::Tab => Action::ToggleCommitsFinderFocus,
            _ => match st.focus {
                CommitsFinderFocus::Search => match key {
                    Key::Backspace => Action::CommitsFinderBackspace,
                    Key::Char(c) => {
                        if c == 'u' && ctrl {
                            Action::CommitsFinderClear
                        } else if !ctrl {
                            Action::CommitsFinderInput(c)
                        } else {
                            Action::Noop
                        }
                    },
                    _ => Action::Noop,
                },
                CommitsFinderFocus::List => match key {
                    Key::Char(c) => {
                        if c == 'j' {
                            Action::MoveDown
                        } else if c == 'k' {
                            Action::MoveUp
                        } else if c == '/' {
                            Action::ToggleCommitsFinderFocus
                        } else {
                            Action::Noop
                        }
                    },
                    _ => Action::Noop,
                },
            },
        },
    }
}

impl Session {
    /// The action a key press asks for: the open overlay's, else the panels'.  With no
    /// overlay open, `]` in the files panel moves the focus to the diff panel first, when the
    /// review has files.
    pub fn handle_key(&mut self, key: Key, ctrl: bool) -> (r: Action)
        ensures
            old(self).overlay is Closed ==> r == key_action(
                key,
                ctrl,
                old(self).focus,
                old(self).store.continuous_diff.files@.len() > 0,
            ),
            !(old(self).overlay is Closed) ==> r == overlay_key_action(old(self).overlay, key, ctrl),
            final(self).focus == if old(self).overlay is Closed && key == Key::Char(']') && old(
                self,
            ).focus == Focus::Files && old(self).store.continuous_diff.files@.len() > 0 {
                Focus::Diff
            } else {
                old(self).focus
            },
            final(self).store == old(self).store,
            final(self).files == old(self).files,
            final(self).diff == old(self).diff,
            final(self).overlay == old(self).overlay,
            final(self).theme == old(self).theme,
            final(self).commits == old(self).commits,
            final(self).should_quit == old(self).should_quit,
            final(self).show_sidebar == old(self).show_sidebar,
    {
        let closed = match &self.overlay {
            Overlay::Closed => true,
            _ => false,
        };
        if !closed {
            return overlay_key_action_exec(&self.overlay, key, ctrl);
        }
        let has_files = self.store.continuous_diff.files.len() > 0;
        let r = key_action_exec(key, ctrl, self.focus, has_files);
        if key == Key::Char(']') && self.focus == Focus::Files && has_files {
            self.focus = Focus::Diff;
        }
        r
    }
}

} // verus!
