//! Verified core of a terminal diff viewer: review state, navigation and
//! text logic behind the panels.
use vstd::prelude::*;

pub mod action;
pub mod cli;
pub mod command_palette;
pub mod commit_list;
pub mod commits_finder;
pub mod config;
pub mod diff_panel;
pub mod editor;
pub mod file_finder;
pub mod files_panel;
pub mod git;
pub mod glob;
pub mod hunk_navigation;
pub mod inline_diff;
pub mod review_rows;
pub mod session;
pub mod sidebar;
pub mod state;
pub mod store;
pub mod summary;
pub mod terminal;
pub mod text;
pub mod theme;
pub mod view;

verus! {
} // verus!
