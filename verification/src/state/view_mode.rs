//! How the diff panel shows the review.
use vstd::prelude::*;

verus! {

/// Whether the diff panel shows every file one after another or one file at a time.
#[derive(Debug, Clone, Copy, PartialEq, Eq, Structural)]
pub enum ViewMode {
    Continuous,
    SingleFile,
}

impl Default for ViewMode {
    /// One file at a time.
    fn default() -> (r: ViewMode)
        ensures
            r == ViewMode::SingleFile,
    {
        ViewMode::SingleFile
    }
}

} // verus!
