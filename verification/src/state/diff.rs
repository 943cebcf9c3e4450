//! View settings of the diff panel.
use vstd::prelude::*;

verus! {

/// The narrowest panel, in columns, that shows a side-by-side diff by default.
pub const SIDE_BY_SIDE_MIN_WIDTH: usize = 100;

/// How a diff is laid out.
#[derive(Debug, Clone, Copy, PartialEq, Eq, Structural)]
pub enum DiffLayout {
    Unified,
    SideBySide,
}

/// The layout chosen for a panel of the given width.
pub open spec fn layout_for_width_spec(width: int) -> DiffLayout {
    if width >= SIDE_BY_SIDE_MIN_WIDTH {
        DiffLayout::SideBySide
    } else {
        DiffLayout::Unified
    }
}

/// The layout forced after `v`: from the one chosen by width to side by side, to unified,
/// and back to the one chosen by width.
pub open spec fn next_layout_override(forced: Option<DiffLayout>) -> Option<DiffLayout> {
    match forced {
        None => Some(DiffLayout::SideBySide),
        Some(DiffLayout::SideBySide) => Some(DiffLayout::Unified),
        Some(DiffLayout::Unified) => None,
    }
}

impl DiffLayout {
    /// Side by side from [`SIDE_BY_SIDE_MIN_WIDTH`] columns on, unified below.
    pub fn for_width(width: usize) -> (r: DiffLayout)
        ensures
            r == layout_for_width_spec(width as int),
    {
        if width >= SIDE_BY_SIDE_MIN_WIDTH {
            DiffLayout::SideBySide
        } else {
            DiffLayout::Unified
        }
    }
}

/// The diff panel's view settings.
#[derive(Debug)]
pub struct Diff {
    pub viewport_width: usize,
    pub viewport_height: usize,
    pub show_line_numbers: bool,
    pub horizontal_scroll: usize,
    pub tab_width: usize,
    pub max_horizontal_scroll: usize,
    pub layout_override: Option<DiffLayout>,
}

impl Diff {
    /// The largest horizontal scroll the content allows.
    pub open spec fn max_scroll(&self) -> usize {
        self.max_horizontal_scroll
    }

    /// The layout forced by the user, if any.
    pub open spec fn forced_layout(&self) -> Option<DiffLayout> {
        self.layout_override
    }

    /// The horizontal scroll never passes its bound.
    pub open spec fn wf(&self) -> bool {
        self.horizontal_scroll <= self.max_scroll()
    }

    /// Settings for a fresh panel: one row and one column, line numbers shown,
    /// no scroll and no forced layout.
    pub fn new(tab_width: usize) -> (d: Diff)
        ensures
            d.viewport_width == 1,
            d.viewport_height == 1,
            d.show_line_numbers,
            d.horizontal_scroll == 0,
            d.tab_width == tab_width,
            d.max_scroll() == 0,
            d.forced_layout() is None,
            d.wf(),
    {
        Diff {
            viewport_width: 1,
            viewport_height: 1,
            show_line_numbers: true,
            horizontal_scroll: 0,
            tab_width,
            max_horizontal_scroll: 0,
            layout_override: None,
        }
    }

    /// Forces the layout given by the configuration, or none.
    pub fn set_layout_override(&mut self, layout: Option<DiffLayout>)
        ensures
            final(self).forced_layout() == layout,
            final(self).max_scroll() == old(self).max_scroll(),
            final(self).horizontal_scroll == old(self).horizontal_scroll,
            final(self).viewport_width == old(self).viewport_width,
            final(self).viewport_height == old(self).viewport_height,
            final(self).show_line_numbers == old(self).show_line_numbers,
            final(self).tab_width == old(self).tab_width,
    {
        self.layout_override = layout;
    }

    /// Shows line numbers if they were hidden and hides them if they were shown.
    pub fn toggle_line_numbers(&mut self)
        ensures
            final(self).show_line_numbers == !old(self).show_line_numbers,
            final(self).horizontal_scroll == old(self).horizontal_scroll,
            final(self).max_scroll() == old(self).max_scroll(),
            final(self).forced_layout() == old(self).forced_layout(),
            final(self).viewport_width == old(self).viewport_width,
            final(self).viewport_height == old(self).viewport_height,
            final(self).tab_width == old(self).tab_width,
    {
        self.show_line_numbers = !self.show_line_numbers;
    }

    /// Scrolls left by `amount` columns, stopping at the first column.
    pub fn scroll_left(&mut self, amount: usize)
        ensures
            final(self).horizontal_scroll == if old(self).horizontal_scroll >= amount {
                old(self).horizontal_scroll - amount
            } else {
                0
            },
            final(self).max_scroll() == old(self).max_scroll(),
            final(self).forced_layout() == old(self).forced_layout(),
            final(self).show_line_numbers == old(self).show_line_numbers,
            final(self).viewport_width == old(self).viewport_width,
            final(self).viewport_height == old(self).viewport_height,
            final(self).tab_width == old(self).tab_width,
    {
        self.horizontal_scroll = self.horizontal_scroll.saturating_sub(amount);
    }

    /// Scrolls right by `amount` columns, stopping at the largest scroll the content allows.
    pub fn scroll_right(&mut self, amount: usize)
        ensures
            final(self).horizontal_scroll == if old(self).horizontal_scroll + amount <= old(
                self,
            ).max_scroll() {
                old(self).horizontal_scroll + amount
            } else {
                old(self).max_scroll() as int
            },
            final(self).max_scroll() == old(self).max_scroll(),
            final(self).forced_layout() == old(self).forced_layout(),
            final(self).show_line_numbers == old(self).show_line_numbers,
            final(self).viewport_width == old(self).viewport_width,
            final(self).viewport_height == old(self).viewport_height,
            final(self).tab_width == old(self).tab_width,
    {
        let moved = self.horizontal_scroll.saturating_add(amount);
        self.horizontal_scroll = if moved <= self.max_horizontal_scroll {
            moved
        } else {
            self.max_horizontal_scroll
        };
    }

    /// Sets the number of visible rows, at least one.
    pub fn set_viewport_height(&mut self, height: usize)
        ensures
            final(self).viewport_height == if height >= 1 {
                height
            } else {
                1
            },
            final(self).viewport_width == old(self).viewport_width,
            final(self).horizontal_scroll == old(self).horizontal_scroll,
            final(self).max_scroll() == old(self).max_scroll(),
            final(self).forced_layout() == old(self).forced_layout(),
            final(self).show_line_numbers == old(self).show_line_numbers,
            final(self).tab_width == old(self).tab_width,
    {
        self.viewport_height = if height >= 1 {
            height
        } else {
            1
        };
    }

    /// Sets the number of visible columns, at least one; tells whether it changed.
    pub fn set_viewport_width(&mut self, width: usize) -> (changed: bool)
        ensures
            final(self).viewport_width == if width >= 1 {
                width
            } else {
                1
            },
            changed == (final(self).viewport_width != old(self).viewport_width),
            final(self).viewport_height == old(self).viewport_height,
            final(self).horizontal_scroll == old(self).horizontal_scroll,
            final(self).max_scroll() == old(self).max_scroll(),
            final(self).forced_layout() == old(self).forced_layout(),
            final(self).show_line_numbers == old(self).show_line_numbers,
            final(self).tab_width == old(self).tab_width,
    {
        let width = if width >= 1 {
            width
        } else {
            1
        };
        if self.viewport_width == width {
            return false;
        }
        self.viewport_width = width;
        true
    }

    /// Sets the largest horizontal scroll and pulls the current scroll back within it.
    pub fn set_max_horizontal_scroll(&mut self, max: usize)
        ensures
            final(self).max_scroll() == max,
            final(self).horizontal_scroll == if old(self).horizontal_scroll <= max {
                old(self).horizontal_scroll
            } else {
                max
            },
            final(self).wf(),
            final(self).forced_layout() == old(self).forced_layout(),
            final(self).show_line_numbers == old(self).show_line_numbers,
            final(self).viewport_width == old(self).viewport_width,
            final(self).viewport_height == old(self).viewport_height,
            final(self).tab_width == old(self).tab_width,
    {
        self.max_horizontal_scroll = max;
        if self.horizontal_scroll > max {
            self.horizontal_scroll = max;
        }
    }

    /// The forced layout if there is one, else the one the width calls for.
    pub fn layout_for_width(&self, width: usize) -> (r: DiffLayout)
        ensures
            r == match self.forced_layout() {
                Some(l) => l,
                None => layout_for_width_spec(width as int),
            },
    {
        match self.layout_override {
            Some(l) => l,
            None => DiffLayout::for_width(width),
        }
    }

    /// Steps the layout setting, as `v` does: from the one the width chooses to side by
    /// side, to unified, and back to the one the width chooses.  Returns the layout then in
    /// effect at `width`.
    pub fn toggle_layout_override(&mut self, width: usize) -> (r: DiffLayout)
        ensures
            final(self).forced_layout() == next_layout_override(old(self).forced_layout()),
            r == match final(self).forced_layout() {
                Some(l) => l,
                None => layout_for_width_spec(width as int),
            },
            final(self).horizontal_scroll == old(self).horizontal_scroll,
            final(self).max_scroll() == old(self).max_scroll(),
            final(self).show_line_numbers == old(self).show_line_numbers,
            final(self).viewport_width == old(self).viewport_width,
            final(self).viewport_height == old(self).viewport_height,
            final(self).tab_width == old(self).tab_width,
    {
        self.layout_override = match self.layout_override {
            None => Some(DiffLayout::SideBySide),
            Some(DiffLayout::SideBySide) => Some(DiffLayout::Unified),
            Some(DiffLayout::Unified) => None,
        };
        self.layout_for_width(width)
    }
}

} // verus!
