use marten::state::diff::{Diff, DiffLayout, SIDE_BY_SIDE_MIN_WIDTH};
use marten::state::focus::Focus;
use marten::state::overlay::{CommitsFinderFocus, CommitsFinderState, FileFinderState};
use marten::state::view_mode::ViewMode;

#[test]
fn focus_alternates_between_the_panels() {
    assert_eq!(Focus::Files.next(), Focus::Diff);
    assert_eq!(Focus::Diff.next(), Focus::Files);
    assert_eq!(Focus::Files.previous(), Focus::Diff);
    assert_eq!(Focus::Files.next().previous(), Focus::Files);
}

#[test]
fn layouts_follow_the_width_unless_forced() {
    assert_eq!(DiffLayout::for_width(SIDE_BY_SIDE_MIN_WIDTH - 1), DiffLayout::Unified);
    assert_eq!(DiffLayout::for_width(SIDE_BY_SIDE_MIN_WIDTH), DiffLayout::SideBySide);
    let mut diff = Diff::new(4);
    assert_eq!(diff.layout_for_width(200), DiffLayout::SideBySide);
    assert_eq!(diff.toggle_layout_override(20), DiffLayout::SideBySide);
    assert_eq!(diff.layout_for_width(20), DiffLayout::SideBySide);
    assert_eq!(diff.toggle_layout_override(20), DiffLayout::Unified);
    assert_eq!(diff.layout_for_width(200), DiffLayout::Unified);
    assert_eq!(diff.toggle_layout_override(200), DiffLayout::SideBySide);
    assert_eq!(diff.layout_override, None);
    assert_eq!(diff.layout_for_width(20), DiffLayout::Unified);
    diff.set_layout_override(Some(DiffLayout::Unified));
    assert_eq!(diff.layout_for_width(200), DiffLayout::Unified);
}

#[test]
fn horizontal_scroll_stays_within_bounds() {
    let mut diff = Diff::new(4);
    diff.scroll_right(5);
    assert_eq!(diff.horizontal_scroll, 0);
    diff.set_max_horizontal_scroll(10);
    diff.scroll_right(7);
    diff.scroll_right(7);
    assert_eq!(diff.horizontal_scroll, 10);
    diff.scroll_left(3);
    assert_eq!(diff.horizontal_scroll, 7);
    diff.set_max_horizontal_scroll(4);
    assert_eq!(diff.horizontal_scroll, 4);
    diff.scroll_left(usize::MAX);
    assert_eq!(diff.horizontal_scroll, 0);
}

#[test]
fn viewport_is_at_least_one_cell() {
    let mut diff = Diff::new(4);
    diff.set_viewport_height(0);
    assert_eq!(diff.viewport_height, 1);
    assert!(!diff.set_viewport_width(0));
    assert!(diff.set_viewport_width(80));
    assert!(!diff.set_viewport_width(80));
    diff.toggle_line_numbers();
    assert!(!diff.show_line_numbers);
}

#[test]
fn finder_queries_edit_and_reset_the_selection() {
    let mut finder = FileFinderState::default();
    finder.select_next(3);
    finder.insert('a');
    assert_eq!(finder.selected, 0);
    finder.insert('b');
    finder.backspace();
    assert_eq!(finder.query, "a");
    finder.select_previous(3);
    assert_eq!(finder.selected, 2);
    finder.clear();
    assert_eq!(finder.query, "");
    assert_eq!(finder.selected, 0);

    let mut commits = CommitsFinderState::default();
    commits.toggle_focus();
    assert_eq!(commits.focus, CommitsFinderFocus::Search);
    commits.toggle_focus();
    assert_eq!(commits.focus, CommitsFinderFocus::List);
}

#[test]
fn single_file_view_is_the_default() {
    assert_eq!(ViewMode::default(), ViewMode::SingleFile);
}
