use marten::action::Action;
use marten::commit_list::{commit_list, fit_to_width, CommitList};
use marten::command_palette::{command_count, command_groups, selected_action, Section};
use marten::commits_finder::{matching_commits, selected_commit};
use marten::file_finder::{matching_files, selected_file_index};
use marten::git::repository::{CommitInfo, FileEntry, FileStatus};
use marten::state::overlay::{
    CommandPaletteState, CommitsFinderFocus, CommitsFinderState, FileFinderState, Overlay,
    ThemeSelectorState,
};
use marten::state::review::{DiffLoadState, FileSlot};
use marten::theme::{default_entry, entry_by_id, themes, visible_themes, Appearance, ThemeFilter};

fn slot(path: &str) -> FileSlot {
    FileSlot {
        entry: FileEntry {
            path: path.to_string(),
            previous_path: None,
            status: FileStatus::Unstaged,
            change: None,
            type_change: None,
            insertions: 0,
            deletions: 0,
        },
        load: DiffLoadState::NotLoaded,
        reviewed: false,
        ignored: false,
    }
}

fn commit(oid: &str, subject: &str) -> CommitInfo {
    CommitInfo {
        oid: oid.to_string(),
        subject: subject.to_string(),
        committed_at: 0,
    }
}

#[test]
fn file_finder_matches_paths_ignoring_case() {
    let files = vec![slot("src/Main.rs"), slot("README.md"), slot("src/lib.rs")];
    let matches = matching_files(&files, "MAIN");
    assert_eq!(matches.len(), 1);
    assert_eq!(matches[0].file_index, 0);
    assert_eq!(matches[0].range, Some((4, 8)));

    let all = matching_files(&files, "");
    assert_eq!(all.iter().map(|m| m.file_index).collect::<Vec<_>>(), vec![0, 1, 2]);
    assert!(all.iter().all(|m| m.range.is_none()));
}

#[test]
fn file_finder_ranges_are_byte_ranges() {
    let files = vec![slot("é/x.rs")];
    let matches = matching_files(&files, "x");
    assert_eq!(matches[0].range, Some((3, 4)));
}

#[test]
fn file_finder_selection_steps_through_matches() {
    let files = vec![slot("a.rs"), slot("b.rs"), slot("c.txt")];
    let mut overlay = Overlay::FileFinder(FileFinderState::default());
    marten::file_finder::update(&mut overlay, Action::FileFinderInput('r'), &files);
    marten::file_finder::update(&mut overlay, Action::MoveUp, &files);
    assert_eq!(selected_file_index(&overlay, &files), Some(1));
    marten::file_finder::update(&mut overlay, Action::MoveDown, &files);
    assert_eq!(selected_file_index(&overlay, &files), Some(0));
    marten::file_finder::update(&mut overlay, Action::FileFinderBackspace, &files);
    marten::file_finder::update(&mut overlay, Action::MoveUp, &files);
    assert_eq!(selected_file_index(&overlay, &files), Some(2));
    assert_eq!(selected_file_index(&Overlay::Closed, &files), None);
}

#[test]
fn commits_match_by_id_or_subject() {
    let commits = vec![
        commit("abc123", "Fix Parser"),
        commit("def456", "Add tests"),
        commit("0a0b0c", "Refactor parser"),
    ];
    assert_eq!(matching_commits(&commits, "PARSER"), vec![0, 2]);
    assert_eq!(matching_commits(&commits, "def"), vec![1]);
    assert_eq!(matching_commits(&commits, ""), vec![0, 1, 2]);
    assert_eq!(matching_commits(&commits, "zzz"), Vec::<usize>::new());
}

#[test]
fn commits_finder_selects_among_matches() {
    let commits = vec![commit("abc123", "one"), commit("def456", "two")];
    let mut overlay = Overlay::CommitsFinder(CommitsFinderState::default());
    marten::commits_finder::update(&mut overlay, Action::MoveDown, &commits);
    assert_eq!(selected_commit(&overlay, &commits).unwrap().oid, "def456");
    marten::commits_finder::update(&mut overlay, Action::ToggleCommitsFinderFocus, &commits);
    match &overlay {
        Overlay::CommitsFinder(state) => assert_eq!(state.focus, CommitsFinderFocus::Search),
        _ => panic!("commits finder closed"),
    }
    marten::commits_finder::update(&mut overlay, Action::CommitsFinderInput('o'), &commits);
    marten::commits_finder::update(&mut overlay, Action::CommitsFinderInput('n'), &commits);
    assert_eq!(selected_commit(&overlay, &commits).unwrap().oid, "abc123");
    marten::commits_finder::update(&mut overlay, Action::FocusCommitsFinderList, &commits);
    match &overlay {
        Overlay::CommitsFinder(state) => {
            assert_eq!(state.focus, CommitsFinderFocus::List);
            assert_eq!(state.query, "on");
        }
        _ => panic!("commits finder closed"),
    }
}

#[test]
fn palette_lists_every_command_once_in_sections() {
    let groups = command_groups();
    let sections: Vec<&str> = groups.iter().map(|g| g.section.label()).collect();
    assert_eq!(sections, vec!["Navigation", "Diff", "Layout", "General", "Settings"]);
    let total: usize = groups.iter().map(|g| g.items.len()).sum();
    assert_eq!(total, command_count());
    assert_eq!(command_count(), 16);
    assert_eq!(groups[0].section, Section::Navigation);
    assert_eq!(groups[0].items[0].action, Action::ToggleFileFinder);
}

#[test]
fn palette_runs_the_selected_command() {
    let mut overlay = Overlay::CommandPalette(CommandPaletteState::default());
    assert_eq!(selected_action(&overlay), Some(Action::ToggleFileFinder));
    marten::command_palette::update(&mut overlay, Action::MoveUp);
    assert_eq!(selected_action(&overlay), Some(Action::ToggleThemeSelector));
    marten::command_palette::update(&mut overlay, Action::MoveDown);
    assert_eq!(selected_action(&overlay), Some(Action::ToggleFileFinder));
    assert_eq!(selected_action(&Overlay::Closed), None);
}

#[test]
fn theme_catalog_starts_with_the_default() {
    let catalog = themes();
    assert_eq!(catalog.len(), 18);
    assert_eq!(catalog[default_entry()].id, "marten");
    assert_eq!(entry_by_id("dracula").map(|i| catalog[i].id), Some("dracula"));
    assert_eq!(entry_by_id("unknown"), None);
}

#[test]
fn theme_filter_cycles_and_lists_by_appearance() {
    assert_eq!(ThemeFilter::default(), ThemeFilter::All);
    assert_eq!(ThemeFilter::All.cycle(), ThemeFilter::Dark);
    assert_eq!(ThemeFilter::Dark.cycle(), ThemeFilter::Light);
    assert_eq!(ThemeFilter::Light.cycle(), ThemeFilter::All);

    let catalog = themes();
    let light = visible_themes(ThemeFilter::Light);
    assert!(light.iter().all(|&i| catalog[i].appearance == Appearance::Light));
    let dark = visible_themes(ThemeFilter::Dark);
    assert_eq!(light.len() + dark.len(), catalog.len());
    assert_eq!(visible_themes(ThemeFilter::All).len(), catalog.len());
}

#[test]
fn theme_selector_moves_to_a_listed_theme_when_the_filter_changes() {
    let mut overlay = Overlay::ThemeSelector(ThemeSelectorState::default());
    marten::theme::update(&mut overlay, Action::ToggleThemeFilter);
    marten::theme::update(&mut overlay, Action::ToggleThemeFilter);
    match &overlay {
        Overlay::ThemeSelector(state) => {
            assert_eq!(state.filter, ThemeFilter::Light);
            assert_eq!(themes()[state.selected].id, "ermine");
            assert_eq!(state.original, 0);
        }
        _ => panic!("theme selector closed"),
    }
    marten::theme::update(&mut overlay, Action::MoveDown);
    match &overlay {
        Overlay::ThemeSelector(state) => assert_eq!(themes()[state.selected].id, "catppuccin-latte"),
        _ => panic!("theme selector closed"),
    }
}

#[test]
fn every_filter_lists_some_theme() {
    for filter in [ThemeFilter::All, ThemeFilter::Dark, ThemeFilter::Light] {
        assert!(!visible_themes(filter).is_empty());
    }
}

#[test]
fn palette_groups_have_their_sizes_and_keys() {
    let groups = command_groups();
    let sizes: Vec<usize> = groups.iter().map(|g| g.items.len()).collect();
    assert_eq!(sizes, vec![6, 4, 3, 2, 1]);
    let keys: Vec<&str> = groups[0].items.iter().map(|i| i.keybind).collect();
    assert_eq!(keys, vec!["ctrl+p", "H", "n", "p", "]", "["]);
    assert_eq!(groups[0].items[2].label, "next file");
    assert_eq!(groups[0].items[2].action, Action::NextFile);
    assert_eq!(groups[4].section, Section::Settings);
}

#[test]
fn commit_list_fits_subjects_and_aligns_ages() {
    assert_eq!(fit_to_width("hello", 8), "hello   ");
    assert_eq!(fit_to_width("hello world", 6), "hello…");
    assert_eq!(fit_to_width("abc", 0), "");

    let commits = vec![
        CommitInfo {
            oid: "0123456789abcdef".to_string(),
            subject: "fix the parser".to_string(),
            committed_at: 0,
        },
        CommitInfo {
            oid: "fedcba9876543210".to_string(),
            subject: "add a very long subject line".to_string(),
            committed_at: 3_590,
        },
    ];
    match commit_list(&commits, &vec![0, 1], 5, 30, 3_600) {
        CommitList::Rows(rows) => {
            assert_eq!(rows.len(), 2);
            assert_eq!(rows[0].oid, "0123456");
            assert_eq!(rows[0].age, " 1h");
            assert_eq!(rows[1].age, "10s");
            assert_eq!(rows[0].subject, "fix the par…");
            assert!(!rows[0].selected && rows[1].selected);
        }
        CommitList::Note(_) => panic!("expected rows"),
    }
    assert!(matches!(commit_list(&commits, &Vec::new(), 0, 30, 0), CommitList::Note(n) if n == "  no matching commits"));
    assert!(matches!(commit_list(&Vec::new(), &Vec::new(), 0, 30, 0), CommitList::Note(n) if n == "  no commits"));
}

#[test]
fn theme_steps_down_and_up_come_back() {
    for filter in [ThemeFilter::All, ThemeFilter::Dark, ThemeFilter::Light] {
        for index in visible_themes(filter) {
            let start = ThemeSelectorState { selected: index, original: index, filter };
            let mut overlay = Overlay::ThemeSelector(start);
            marten::theme::update(&mut overlay, Action::MoveDown);
            marten::theme::update(&mut overlay, Action::MoveUp);
            assert!(matches!(overlay, Overlay::ThemeSelector(s) if s.selected == index));
            marten::theme::update(&mut overlay, Action::MoveUp);
            marten::theme::update(&mut overlay, Action::MoveDown);
            assert!(matches!(overlay, Overlay::ThemeSelector(s) if s.selected == index));
        }
    }
}
