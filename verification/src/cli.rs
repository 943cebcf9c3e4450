//! The command line: `marten` for the working tree, `marten show <rev>` for a commit,
//! `marten diff <from>..<to>` (or `...`) for a range of commits.
use vstd::prelude::*;

verus! {

/// The parsed command line.
#[derive(Debug, Clone)]
pub struct Cli {
    pub command: Option<Command>,
}

/// What to review instead of the working tree.
#[derive(Debug, Clone)]
pub enum Command {
    Show { oid: String },
    Diff { range: String },
}

} // verus!
