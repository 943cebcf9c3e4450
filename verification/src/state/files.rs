//! The selection of the files panel.
use vstd::prelude::*;

verus! {

/// The selected row of the files panel and how many rows it has.
#[derive(Debug)]
pub struct Files {
    pub selected: Option<usize>,
    pub tree_row_count: usize,
}

impl Default for Files {
    /// Nothing selected, no rows.
    fn default() -> (r: Files)
        ensures
            r.selected is None,
            r.tree_row_count == 0,
    {
        Files { selected: None, tree_row_count: 0 }
    }
}

/// The row after `i`, wrapping to the first after the last of `count` rows.
pub open spec fn wrap_next(i: int, count: int) -> int {
    (i + 1) % count
}

/// The row before `i`, wrapping to the last before the first of `count` rows.
pub open spec fn wrap_previous(i: int, count: int) -> int {
    (i + count - 1) % count
}

impl Files {
    /// Selects the first row, or nothing when there are no rows.
    pub fn select_first(&mut self)
        ensures
            final(self).selected == if old(self).tree_row_count == 0 {
                None
            } else {
                Some(0usize)
            },
            final(self).tree_row_count == old(self).tree_row_count,
    {
        self.selected = if self.tree_row_count == 0 {
            None
        } else {
            Some(0)
        };
    }

    /// Selects the last row; with nothing selected yet, the first; with no rows, nothing.
    pub fn select_last(&mut self)
        ensures
            final(self).selected == if old(self).tree_row_count == 0 {
                None
            } else if old(self).selected is None {
                Some(0usize)
            } else {
                Some((old(self).tree_row_count - 1) as usize)
            },
            final(self).tree_row_count == old(self).tree_row_count,
    {
        if self.tree_row_count == 0 {
            self.selected = None;
            return;
        }
        match self.selected {
            None => self.selected = Some(0),
            Some(_) => self.selected = Some(self.tree_row_count - 1),
        }
    }

    /// Selects the next row, wrapping after the last; with nothing selected yet, the first;
    /// with no rows, nothing.
    pub fn select_next(&mut self)
        requires
            old(self).tree_row_count > 0 ==> (old(self).selected matches Some(i) ==> i < usize::MAX),
        ensures
            final(self).selected == if old(self).tree_row_count == 0 {
                None
            } else {
                match old(self).selected {
                    None => Some(0usize),
                    Some(i) => Some(wrap_next(i as int, old(self).tree_row_count as int) as usize),
                }
            },
            final(self).tree_row_count == old(self).tree_row_count,
    {
        if self.tree_row_count == 0 {
            self.selected = None;
            return;
        }
        match self.selected {
            None => self.selected = Some(0),
            Some(i) => self.selected = Some((i + 1) % self.tree_row_count),
        }
    }

    /// Selects the previous row, wrapping before the first; with nothing selected yet, the
    /// first; with no rows, nothing.
    pub fn select_previous(&mut self)
        requires
            old(self).selected matches Some(i) ==> i + old(self).tree_row_count <= usize::MAX + 1,
        ensures
            final(self).selected == if old(self).tree_row_count == 0 {
                None
            } else {
                match old(self).selected {
                    None => Some(0usize),
                    Some(i) => Some(
                        wrap_previous(i as int, old(self).tree_row_count as int) as usize,
                    ),
                }
            },
            final(self).tree_row_count == old(self).tree_row_count,
    {
        if self.tree_row_count == 0 {
            self.selected = None;
            return;
        }
        match self.selected {
            None => self.selected = Some(0),
            Some(i) => self.selected = Some((i + (self.tree_row_count - 1)) % self.tree_row_count),
        }
    }
}

/// A wrapped step stays among the rows.
pub proof fn lemma_wrap_in_range(i: int, count: int)
    requires
        0 <= i,
        0 < count,
    ensures
        0 <= wrap_next(i, count) < count,
        0 <= wrap_previous(i, count) < count,
{
}

/// Stepping to the next row and back, or back and then forward, returns to the row one
/// started from, for any row of a non-empty list.
pub proof fn lemma_wrap_round_trip(i: int, count: int)
    requires
        0 <= i < count,
    ensures
        wrap_previous(wrap_next(i, count), count) == i,
        wrap_next(wrap_previous(i, count), count) == i,
{
    if i + 1 < count {
        assert((i + 1) % count == i + 1) by (nonlinear_arith)
            requires
                0 <= i + 1 < count,
        ;
    } else {
        assert((i + 1) % count == 0) by (nonlinear_arith)
            requires
                i + 1 == count,
                count > 0,
        ;
    }
    assert((wrap_next(i, count) + count - 1) % count == i) by (nonlinear_arith)
        requires
            0 <= i < count,
            wrap_next(i, count) == if i + 1 < count {
                i + 1
            } else {
                0
            },
    ;
    if i > 0 {
        assert((i + count - 1) % count == i - 1) by (nonlinear_arith)
            requires
                0 < i < count,
        ;
    } else {
        assert((i + count - 1) % count == count - 1) by (nonlinear_arith)
            requires
                i == 0,
                count > 0,
        ;
    }
    assert((wrap_previous(i, count) + 1) % count == i) by (nonlinear_arith)
        requires
            0 <= i < count,
            wrap_previous(i, count) == if i > 0 {
                i - 1
            } else {
                count - 1
            },
    ;
}

} // verus!
