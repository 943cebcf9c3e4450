use marten::action::Action;
use marten::diff_panel::DiffPanel;
use marten::files_panel::FilesPanel;
use marten::git::repository::{
    DiffHunk, DiffLine, DiffSection, DiffSectionKind, FileChange, FileEntry, FileStatus,
};
use marten::session::{initial_view, Event, Key, Mouse, Session, Step};
use marten::git::repository::CommitInfo;
use marten::state::focus::Focus;
use marten::state::overlay::Overlay;
use marten::state::line_index::LineIndex;
use marten::state::review::{DiffLoadState, FileKey, RenderedRow, WorkerResult};
use marten::store::{payload_is_well_formed, DiffStore};

fn entry(path: &str) -> FileEntry {
    FileEntry {
        path: path.to_string(),
        previous_path: None,
        status: FileStatus::Unstaged,
        change: Some(FileChange::Modified),
        type_change: None,
        insertions: 1,
        deletions: 0,
    }
}

fn loaded(lines: usize) -> (Vec<DiffHunk>, LineIndex) {
    let lines = (0..lines)
        .map(|i| DiffLine {
            old_lineno: None,
            new_lineno: Some(i as u32 + 1),
            origin: '+',
            content: format!("line {i}\n"),
        })
        .collect();
    let hunk = DiffHunk::new("@@ -0,0 +1 @@".to_string(), lines, &Vec::new());
    let sections = vec![DiffSection {
        kind: DiffSectionKind::Unstaged,
        hunks: vec![hunk.clone()],
    }];
    let index = LineIndex::new(&sections);
    (vec![hunk], index)
}

fn indexed_store(paths: &[&str]) -> DiffStore {
    let mut store = DiffStore::new(paths.iter().map(|p| entry(p)).collect(), Vec::new(), false);
    store.continuous_diff.rebuild_index();
    store
}

#[test]
fn unloaded_files_take_a_header_and_a_placeholder_row() {
    let store = indexed_store(&["a.rs", "b.rs"]);
    assert_eq!(store.continuous_diff.index.file_starts, vec![0, 2]);
    assert_eq!(store.continuous_diff.index.total_rows, 4);
    assert_eq!(store.continuous_diff.index.file_at_row(3), Some((1, 1)));
    assert_eq!(store.continuous_diff.index.file_at_row(4), None);
    assert!(matches!(
        store.continuous_diff.lookup_row(2),
        Some(RenderedRow::FileHeader { file_idx: 1 })
    ));
    assert!(matches!(store.continuous_diff.lookup_row(1), Some(RenderedRow::Loading)));
}

#[test]
fn reviewed_files_fold_to_their_header() {
    let mut store = indexed_store(&["a.rs", "b.rs"]);
    store.continuous_diff.toggle_reviewed(0);
    assert!(store.continuous_diff.files[0].reviewed);
    store.continuous_diff.rebuild_index();
    assert_eq!(store.continuous_diff.index.file_starts, vec![0, 1]);
    assert_eq!(store.continuous_diff.next_unreviewed_after(0), Some(1));
    store.continuous_diff.toggle_reviewed(1);
    assert_eq!(store.continuous_diff.next_unreviewed_after(0), None);
    store.continuous_diff.toggle_reviewed(0);
    assert!(!store.continuous_diff.files[0].reviewed);
    store.continuous_diff.toggle_reviewed(7);
    assert_eq!(store.continuous_diff.files.len(), 2);
}

#[test]
fn files_are_found_by_path_and_status() {
    let store = indexed_store(&["a.rs", "b.rs"]);
    let key = FileKey {
        path: "b.rs".to_string(),
        status: FileStatus::Unstaged,
    };
    assert_eq!(store.continuous_diff.slot_of(&key), Some(1));
    let staged = FileKey {
        path: "b.rs".to_string(),
        status: FileStatus::Staged,
    };
    assert_eq!(store.continuous_diff.slot_of(&staged), None);
}

#[test]
fn loaded_diffs_apply_only_to_the_current_generation() {
    let mut store = indexed_store(&["a.rs", "b.rs"]);
    let stale = WorkerResult {
        generation: 3,
        file_idx: 0,
        result: Ok(Some(loaded(2))),
    };
    assert!(!store.apply_worker_result(stale));
    assert!(!store.continuous_diff.index_dirty);

    let fresh = WorkerResult {
        generation: 0,
        file_idx: 0,
        result: Ok(Some(loaded(2))),
    };
    assert!(store.apply_worker_result(fresh));
    assert!(store.continuous_diff.index_dirty);
    assert!(matches!(
        store.continuous_diff.files[0].load,
        DiffLoadState::Loaded { .. }
    ));

    let binary = WorkerResult {
        generation: 0,
        file_idx: 1,
        result: Ok(None),
    };
    let out_of_range = WorkerResult {
        generation: 0,
        file_idx: 9,
        result: Err("gone".to_string()),
    };
    assert!(!store.apply_worker_result(out_of_range));
    assert!(payload_is_well_formed(&binary.result));
    assert!(payload_is_well_formed(&Ok(Some(loaded(3)))));
    assert!(store.poll_workers(vec![binary]));
    assert!(matches!(store.continuous_diff.files[1].load, DiffLoadState::Binary));

    store.continuous_diff.rebuild_index();
    assert_eq!(store.continuous_diff.index.file_starts, vec![0, 4]);
    assert_eq!(store.continuous_diff.selected_line(2), Some(("a.rs", 1)));
}

#[test]
fn reload_starts_a_new_generation() {
    let mut store = indexed_store(&["a.rs"]);
    store.reload(vec![entry("z.rs"), entry("d/y.rs")]);
    assert_eq!(store.continuous_diff.generation, 1);
    let paths: Vec<&str> = store.continuous_diff.files.iter().map(|f| f.entry.path.as_str()).collect();
    assert_eq!(paths, vec!["d/y.rs", "z.rs"]);
    let old = WorkerResult {
        generation: 0,
        file_idx: 0,
        result: Ok(None),
    };
    assert!(!store.poll_workers(vec![old]));
}

#[test]
fn ignored_files_get_no_job() {
    let store = DiffStore::new(
        vec![entry("Cargo.lock"), entry("src/a.rs"), entry("src/b.rs")],
        vec!["*.lock".to_string()],
        true,
    );
    assert!(store.ignore_whitespace());
    let jobs: Vec<(usize, &str)> = store
        .worker_jobs()
        .iter()
        .map(|j| (j.file_idx, ""))
        .collect();
    assert_eq!(jobs, vec![(0, ""), (1, "")]);
    let job_paths: Vec<String> = store.worker_jobs().into_iter().map(|j| j.path).collect();
    assert_eq!(job_paths, vec!["src/a.rs", "src/b.rs"]);
}

fn session(paths: &[&str]) -> Session {
    let store = indexed_store(paths);
    let mut files = FilesPanel::new();
    files.ensure_rows(&store);
    files.select_first();
    Session {
        focus: Focus::Files,
        should_quit: false,
        show_sidebar: true,
        files,
        diff: DiffPanel::new(4),
        store,
        overlay: Overlay::Closed,
        theme: 0,
        commits: Vec::new(),
    }
}

#[test]
fn keys_map_to_actions() {
    let mut s = session(&["a.rs"]);
    assert_eq!(s.handle_key(Key::Char('q'), false), Action::Quit);
    assert_eq!(s.handle_key(Key::Char('c'), true), Action::Quit);
    assert_eq!(s.handle_key(Key::Char('c'), false), Action::Noop);
    assert_eq!(s.handle_key(Key::Down, false), Action::MoveDown);
    assert_eq!(s.handle_key(Key::Char('k'), false), Action::MoveUp);
    assert_eq!(s.handle_key(Key::Enter, false), Action::ToggleCollapsed);
    assert_eq!(s.handle_key(Key::Char('['), false), Action::Noop);
    assert_eq!(s.handle_key(Key::Char(']'), false), Action::NextHunk);
    assert_eq!(s.focus, Focus::Diff);
    assert_eq!(s.handle_key(Key::Char('['), false), Action::PreviousHunk);
    assert_eq!(s.handle_key(Key::Enter, false), Action::Noop);
    assert_eq!(s.handle_key(Key::Char('g'), false), Action::Noop);
}

#[test]
fn next_hunk_key_without_files_does_nothing() {
    let mut s = session(&[]);
    assert_eq!(s.handle_key(Key::Char(']'), false), Action::Noop);
    assert_eq!(s.focus, Focus::Files);
}

#[test]
fn hiding_the_sidebar_moves_focus_to_the_diff() {
    let mut s = session(&["a.rs"]);
    s.focus = Focus::Diff;
    assert_eq!(s.begin(Action::ToggleSidebar), Step::Done);
    assert!(!s.show_sidebar);
    assert_eq!(s.focus, Focus::Diff);
    assert_eq!(s.begin(Action::ToggleSidebar), Step::Done);
    assert!(s.show_sidebar);
    assert_eq!(s.focus, Focus::Files);
}

#[test]
fn session_steps() {
    let mut s = session(&["a.rs", "b.rs"]);
    assert_eq!(s.begin(Action::Refresh), Step::Reload);
    assert_eq!(s.begin(Action::NextFocus), Step::Done);
    assert_eq!(s.focus, Focus::Diff);
    assert_eq!(s.begin(Action::MoveDown), Step::Panels { moved: false });
    assert_eq!(s.begin(Action::FocusPanel(Focus::Files)), Step::Done);
    let step = s.begin(Action::MoveDown);
    assert_eq!(step, Step::Panels { moved: true });
    s.finish(Action::MoveDown, true);
    assert!(!s.store.continuous_diff.index_dirty);
    assert_eq!(s.begin(Action::Quit), Step::Done);
    assert!(s.should_quit);
}

#[test]
fn narrow_terminals_focus_the_diff() {
    let s = session(&["a.rs"]);
    assert_eq!(s.handle_resize(100), Action::FocusPanel(Focus::Diff));
    assert_eq!(s.handle_resize(121), Action::Noop);
}

#[test]
fn polled_results_settle_the_view() {
    let mut s = session(&["a.rs"]);
    let result = WorkerResult {
        generation: 0,
        file_idx: 0,
        result: Ok(Some(loaded(3))),
    };
    assert!(s.poll_workers(vec![result]));
    assert!(!s.store.continuous_diff.index_dirty);
    assert_eq!(s.store.continuous_diff.index.total_rows, 5);
}

#[test]
fn replacing_entries_keeps_the_selected_file() {
    let mut s = session(&["a.rs", "b.rs"]);
    s.files.select_last();
    let before = s.files.selected_file(&s.store).unwrap().path.clone();
    assert_eq!(before, "b.rs");
    let jobs = s.replace_entries(vec![entry("b.rs"), entry("0.rs"), entry("c.rs")]);
    assert_eq!(s.store.continuous_diff.generation, 1);
    assert_eq!(jobs.iter().map(|j| j.file_idx).collect::<Vec<_>>(), vec![0, 1, 2]);
    assert_eq!(s.files.selected_file(&s.store).unwrap().path, "b.rs");
    assert!(!s.store.continuous_diff.index_dirty);
    assert_eq!(s.diff.state().horizontal_scroll, 0);
}

#[test]
fn the_selected_file_is_loaded_on_the_spot() {
    let mut s = session(&["a.rs", "b.rs"]);
    let job = s.selected_load_job().unwrap();
    assert_eq!(job.file_idx, 0);
    assert_eq!(job.path, "a.rs");
    assert!(!s.take_selected_load(job.file_idx, Err("no such file".to_string())));
    assert!(matches!(s.store.continuous_diff.files[0].load, DiffLoadState::NotLoaded));
    assert!(s.take_selected_load(job.file_idx, Ok(Some(loaded(2)))));
    assert!(s.store.continuous_diff.index_dirty);
    s.settle();
    assert!(s.selected_load_job().is_none());
    assert_eq!(s.store.continuous_diff.index.file_starts, vec![0, 4]);
}

#[test]
fn events_map_to_actions() {

    let mut s = session(&["a.rs"]);
    assert_eq!(s.handle_event(Event::Mouse(Mouse::ScrollDown)), Action::MoveDown);
    assert_eq!(s.handle_event(Event::Mouse(Mouse::ScrollUp)), Action::MoveUp);
    assert_eq!(s.handle_event(Event::Mouse(Mouse::Other)), Action::Noop);
    assert_eq!(s.handle_event(Event::Resize(90, 30)), Action::FocusPanel(Focus::Diff));
    assert_eq!(s.handle_event(Event::Key(Key::Tab, false)), Action::NextFocus);
}

#[test]
fn documented_keys_reach_their_actions() {
    let mut s = session(&["a.rs"]);
    assert_eq!(s.handle_key(Key::Char('p'), true), Action::ToggleFileFinder);
    assert_eq!(s.handle_key(Key::Char('p'), false), Action::PreviousFile);
    assert_eq!(s.handle_key(Key::Char('L'), false), Action::ToggleDiffLineNumbers);
    assert_eq!(s.handle_key(Key::Char('v'), false), Action::ToggleDiffLayout);
    assert_eq!(s.handle_key(Key::Char('H'), false), Action::ToggleCommitsFinder);
    assert_eq!(s.handle_key(Key::Char('m'), false), Action::ToggleReviewed);
    assert_eq!(s.handle_key(Key::Char('e'), false), Action::OpenEditor);
    assert_eq!(s.handle_key(Key::Right, false), Action::ScrollDiffRight);
    assert_eq!(s.handle_key(Key::Char('h'), false), Action::ScrollDiffLeft);
}

#[test]
fn the_file_finder_jumps_to_the_chosen_file() {
    let mut s = session(&["a.rs", "b.rs", "c.rs"]);
    assert_eq!(s.begin(Action::ToggleFileFinder), Step::Done);
    assert!(matches!(s.overlay, Overlay::FileFinder(_)));
    let typed = s.handle_key(Key::Char('b'), false);
    assert_eq!(typed, Action::FileFinderInput('b'));
    assert_eq!(s.begin(typed), Step::Done);
    let chosen = s.handle_key(Key::Enter, false);
    assert_eq!(s.begin(chosen), Step::Done);
    assert!(matches!(s.overlay, Overlay::Closed));
    assert_eq!(s.diff.review().continuous_scroll, s.store.continuous_diff.index.file_starts[1]);
    assert_eq!(s.files.selected_file_idx(), Some(1));
}

#[test]
fn escape_closes_an_overlay() {
    let mut s = session(&["a.rs"]);
    s.begin(Action::ToggleCommandPalette);
    let esc = s.handle_key(Key::Esc, false);
    assert_eq!(esc, Action::ToggleCommandPalette);
    assert_eq!(s.begin(esc), Step::Done);
    assert!(matches!(s.overlay, Overlay::Closed));
}

#[test]
fn the_palette_runs_the_chosen_command() {
    let mut s = session(&["a.rs"]);
    s.begin(Action::ToggleCommandPalette);
    let up = s.handle_key(Key::Up, false);
    s.begin(up);
    let run = s.handle_key(Key::Enter, false);
    assert_eq!(s.begin(run), Step::Run(Action::ToggleThemeSelector));
    assert_eq!(s.begin(Action::ToggleThemeSelector), Step::Done);
    s.begin(Action::MoveDown);
    assert_eq!(s.begin(Action::SelectTheme), Step::SaveTheme(1));
    assert_eq!(s.theme, 1);
}

#[test]
fn the_commits_finder_hands_on_the_chosen_commit() {
    let mut s = session(&["a.rs"]);
    assert_eq!(s.begin(Action::ToggleCommitsFinder), Step::LoadCommits);
    s.commits = vec![
        CommitInfo { oid: "aaa".to_string(), subject: "first".to_string(), committed_at: 0 },
        CommitInfo { oid: "bbb".to_string(), subject: "second".to_string(), committed_at: 0 },
    ];
    let down = s.handle_key(Key::Char('j'), false);
    s.begin(down);
    let pick = s.handle_key(Key::Enter, false);
    assert_eq!(s.begin(pick), Step::ShowCommit(1));
    assert!(matches!(s.overlay, Overlay::Closed));
}

#[test]
fn layout_cycles_through_auto_split_and_unified() {
    let mut s = session(&["a.rs"]);
    s.diff.set_viewport_width(50, &s.store);
    assert_eq!(s.begin(Action::FocusPanel(Focus::Diff)), Step::Done);
    let step = s.begin(Action::ToggleDiffLayout);
    assert_eq!(step, Step::Panels { moved: false });
    s.finish(Action::ToggleDiffLayout, false);
    assert_eq!(s.diff.state().layout_override, Some(marten::state::diff::DiffLayout::SideBySide));
    assert_eq!(s.store.continuous_diff.layout, marten::state::diff::DiffLayout::SideBySide);
    s.begin(Action::ToggleDiffLayout);
    s.finish(Action::ToggleDiffLayout, false);
    assert_eq!(s.store.continuous_diff.layout, marten::state::diff::DiffLayout::Unified);
    s.begin(Action::ToggleDiffLayout);
    s.finish(Action::ToggleDiffLayout, false);
    assert_eq!(s.diff.state().layout_override, None);
    assert_eq!(s.store.continuous_diff.layout, marten::state::diff::DiffLayout::Unified);
}

#[test]
fn the_start_view_follows_the_width_and_the_changes() {

    assert_eq!(initial_view(120, None, 3), (Focus::Diff, false));
    assert_eq!(initial_view(121, None, 3), (Focus::Files, true));
    assert_eq!(initial_view(80, Some(true), 3), (Focus::Diff, true));
    assert_eq!(initial_view(200, Some(true), 0), (Focus::Files, false));
}

#[test]
fn a_click_on_the_sidebar_selects_its_row() {
    let mut s = session(&["a.rs", "src/b.rs"]);
    assert_eq!(s.files.cached_rows().len(), 3);
    let click = |line| Event::Mouse(Mouse::SidebarClick { line, height: 10 });
    assert_eq!(s.handle_event(click(2)), Action::SelectTreeRow(2));
    assert_eq!(s.handle_event(click(3)), Action::Noop);
    assert_eq!(
        s.handle_event(Event::Mouse(Mouse::SidebarClick { line: 0, height: 0 })),
        Action::Noop
    );
    let step = s.begin(Action::SelectTreeRow(2));
    assert_eq!(step, Step::Panels { moved: true });
    assert_eq!(s.files.state().selected, Some(2));
    s.finish(Action::SelectTreeRow(2), true);
    assert_eq!(s.focus, Focus::Files);
}
