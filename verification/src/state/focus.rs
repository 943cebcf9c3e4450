//! Which panel takes the keys.
use vstd::prelude::*;

verus! {

/// The panel that takes the keys.
#[derive(Debug, Clone, Copy, PartialEq, Eq, Structural)]
pub enum Focus {
    Files,
    Diff,
}

/// The other panel.
pub open spec fn other_focus(f: Focus) -> Focus {
    match f {
        Focus::Files => Focus::Diff,
        Focus::Diff => Focus::Files,
    }
}

impl Focus {
    /// The next panel: with two panels, the other one.
    pub fn next(self) -> (r: Focus)
        ensures
            r == other_focus(self),
    {
        match self {
            Focus::Files => Focus::Diff,
            Focus::Diff => Focus::Files,
        }
    }

    /// The previous panel: with two panels, the other one.
    pub fn previous(self) -> (r: Focus)
        ensures
            r == other_focus(self),
    {
        match self {
            Focus::Files => Focus::Diff,
            Focus::Diff => Focus::Files,
        }
    }
}

/// Moving the focus forward and then back, or back and then forward, returns to the
/// panel that had it.
pub proof fn lemma_focus_round_trip(f: Focus)
    ensures
        other_focus(other_focus(f)) == f,
{
}

} // verus!
