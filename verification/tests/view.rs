use marten::git::repository::FileStatus;
use marten::state::focus::Focus;
use marten::view::{
    display_content, file_status_symbol, in_ranges, item_width, line_number, relative_age,
    shortcuts, shortcuts_fitting, sidebar_percentage, terminal_is_too_small, ModalSize,
    ResponsiveSize, MIN_TERMINAL_HEIGHT,
    MIN_TERMINAL_WIDTH,
};

#[test]
fn sidebar_share_shrinks_on_wide_terminals() {
    assert_eq!(sidebar_percentage(MIN_TERMINAL_WIDTH - 1), 0);
    assert_eq!(sidebar_percentage(MIN_TERMINAL_WIDTH), 25);
    assert_eq!(sidebar_percentage(120), 25);
    assert_eq!(sidebar_percentage(121), 15);
}

#[test]
fn small_terminals_are_refused() {
    assert!(terminal_is_too_small(MIN_TERMINAL_WIDTH - 1, MIN_TERMINAL_HEIGHT));
    assert!(terminal_is_too_small(MIN_TERMINAL_WIDTH, MIN_TERMINAL_HEIGHT - 1));
    assert!(!terminal_is_too_small(MIN_TERMINAL_WIDTH, MIN_TERMINAL_HEIGHT));
}

#[test]
fn commit_ages_use_the_largest_unit() {
    assert_eq!(relative_age(100, 159), "59s");
    assert_eq!(relative_age(0, 3_599), "59m");
    assert_eq!(relative_age(0, 7_200), "2h");
    assert_eq!(relative_age(0, 86_400 * 3), "3d");
    assert_eq!(relative_age(0, 2_592_000 * 2), "2mo");
    assert_eq!(relative_age(0, 31_536_000 * 5), "5y");
}

#[test]
fn future_commits_round_toward_zero_years() {
    assert_eq!(relative_age(10, 0), "0y");
    assert_eq!(relative_age(40_000_000, 0), "-1y");
    assert_eq!(relative_age(i64::MAX, i64::MIN), "-292471208677y");
}

#[test]
fn line_numbers_are_right_aligned_in_four_columns() {
    assert_eq!(line_number(None), "    ");
    assert_eq!(line_number(Some(7)), "   7");
    assert_eq!(line_number(Some(12345)), "12345");
}

#[test]
fn status_symbols() {
    assert_eq!(file_status_symbol(FileStatus::Staged), "S");
    assert_eq!(file_status_symbol(FileStatus::Partial), "P");
    assert_eq!(file_status_symbol(FileStatus::Unstaged), "M");
    assert_eq!(file_status_symbol(FileStatus::Untracked), "U");
    assert_eq!(file_status_symbol(FileStatus::Conflicted), "C");
}

#[test]
fn content_is_trimmed_and_tabs_expanded() {
    assert_eq!(display_content("\tfn main() {}  \n"), "    fn main() {}");
}

#[test]
fn ranges_hold_their_start_but_not_their_end() {
    let ranges = [(2, 4), (7, 8)];
    assert!(in_ranges(2, &ranges));
    assert!(!in_ranges(4, &ranges));
    assert!(in_ranges(7, &ranges));
    assert!(!in_ranges(0, &[]));
}

#[test]
fn shortcut_items_take_key_space_and_label() {
    assert_eq!(item_width("q", "quit"), 6);
    assert_eq!(item_width("↑", "up"), 4);
}

#[test]
fn responsive_sizes_resolve_within_margins() {
    let size = ResponsiveSize::new(50, 60);
    assert_eq!(size.resolve(100), 50);
    assert_eq!(size.resolve(200), 60);
    assert_eq!(size.with_margin(30).resolve(100), 40);
    assert_eq!(ResponsiveSize::new(150, 500).resolve(80), 80);
    let modal = ModalSize::new(ResponsiveSize::new(50, 60), ResponsiveSize::new(80, 20));
    assert_eq!(modal.resolve(100, 50), (50, 20));
}

#[test]
fn footer_shortcuts_follow_the_focus_and_fit_the_width() {
    let files = shortcuts(Focus::Files);
    assert_eq!(files, vec![("j/k", "navigate"), ("z", "collapse"), ("m", "review")]);
    let diff = shortcuts(Focus::Diff);
    assert_eq!(diff.len(), 4);
    assert_eq!(diff[3], ("e", "edit"));
    // " j/k navigate" is 13 columns, "   z collapse" 13 more, "   m review" 11 more.
    assert_eq!(shortcuts_fitting(&files, 12), 0);
    assert_eq!(shortcuts_fitting(&files, 13), 1);
    assert_eq!(shortcuts_fitting(&files, 26), 2);
    assert_eq!(shortcuts_fitting(&files, 37), 3);
    assert_eq!(shortcuts_fitting(&files, 500), 3);
}
