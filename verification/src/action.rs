//! What a key, a click or a command asks the application to do.
use vstd::prelude::*;

use crate::state::focus::Focus;

verus! {

/// The direction of a scroll.
#[derive(Debug, Clone, Copy, PartialEq, Eq, Structural)]
pub enum ScrollDirection {
    Up,
    Down,
}

/// One step the application takes.
#[derive(Debug, Clone, Copy, PartialEq, Eq, Structural)]
pub enum Action {
    Noop,
    Quit,
    NextFocus,
    PreviousFocus,
    MoveDown,
    MoveUp,
    ScrollDiffLeft,
    ScrollDiffRight,
    ScrollDiff { direction: ScrollDirection, lines: usize },
    NextHunk,
    PreviousHunk,
    ToggleDiffLineNumbers,
    ToggleDiffLayout,
    ToggleViewMode,
    Refresh,
    GoToFirst,
    GoToLast,
    FocusPanel(Focus),
    ToggleCollapsed,
    NextFile,
    PreviousFile,
    ToggleSidebar,
    ToggleCommandPalette,
    ToggleThemeSelector,
    ToggleThemeFilter,
    ToggleFileFinder,
    ToggleCommitsFinder,
    ToggleCommitsFinderFocus,
    FocusCommitsFinderList,
    SelectFileFinderResult,
    SelectCommitsFinderResult,
    RunSelectedCommand,
    SelectTheme,
    OpenEditor,
    ForceLoadDiff,
    SelectTreeRow(usize),
    FileFinderInput(char),
    FileFinderBackspace,
    FileFinderClear,
    CommitsFinderInput(char),
    CommitsFinderBackspace,
    CommitsFinderClear,
    ToggleReviewed,
}

} // verus!
