//! The state behind the panels and overlays.
pub mod diff;
pub mod files;
pub mod focus;
pub mod line_index;
pub mod overlay;
pub mod review;
pub mod sorted;
pub mod tree;
pub mod view_mode;
