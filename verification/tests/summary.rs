use marten::git::repository::{ChangeCounts, FileEntry, FileStatus, Head, RepositoryStatus};
use marten::state::review::{DiffLoadState, FileSlot};
use marten::summary::{
    diff_summary, revision_prefix, revision_subject, worktree_summary, Role, Segment,
};

fn texts(segments: &[Segment]) -> Vec<(&str, Role)> {
    segments.iter().map(|s| (s.text.as_str(), s.role)).collect()
}

fn slot(insertions: usize, deletions: usize) -> FileSlot {
    FileSlot {
        entry: FileEntry {
            path: "a.rs".to_string(),
            previous_path: None,
            status: FileStatus::Unstaged,
            change: None,
            type_change: None,
            insertions,
            deletions,
        },
        load: DiffLoadState::NotLoaded,
        reviewed: false,
        ignored: false,
    }
}

#[test]
fn missing_repository_is_named() {
    assert_eq!(texts(&worktree_summary(None)), vec![("no repository", Role::RepoName)]);
}

#[test]
fn clean_branch_shows_name_and_sync_state() {
    let status = RepositoryStatus {
        name: "marten".to_string(),
        head: Head::Branch("main".to_string()),
        ahead: 0,
        behind: 0,
        changes: ChangeCounts::default(),
    };
    assert_eq!(
        texts(&worktree_summary(Some(&status))),
        vec![
            ("marten", Role::RepoName),
            ("  ·  ", Role::Plain),
            ("main", Role::BranchName),
            ("  ·  ", Role::Plain),
            ("↑0", Role::Muted),
            (" ↓0", Role::Muted),
        ]
    );
}

#[test]
fn changes_and_divergence_are_counted() {
    let status = RepositoryStatus {
        name: "repo".to_string(),
        head: Head::Detached("abc1234".to_string()),
        ahead: 2,
        behind: 11,
        changes: ChangeCounts {
            staged: 1,
            unstaged: 0,
            untracked: 3,
            conflicted: 4,
        },
    };
    assert_eq!(
        texts(&worktree_summary(Some(&status))),
        vec![
            ("repo", Role::RepoName),
            ("  ·  ", Role::Plain),
            ("abc1234 (detached)", Role::Danger),
            (" +1", Role::Staged),
            (" ?3", Role::Untracked),
            (" !4", Role::Conflict),
            ("  ·  ", Role::Plain),
            ("↑2", Role::Success),
            (" ↓11", Role::Danger),
        ]
    );
}

#[test]
fn unknown_head_is_muted() {
    let status = RepositoryStatus {
        name: "r".to_string(),
        head: Head::Unknown,
        ahead: 0,
        behind: 0,
        changes: ChangeCounts::default(),
    };
    assert_eq!(worktree_summary(Some(&status))[2].text, "unknown");
    assert_eq!(worktree_summary(Some(&status))[2].role, Role::Muted);
}

#[test]
fn review_totals_count_lines_and_files() {
    assert_eq!(
        texts(&diff_summary(&vec![slot(3, 1), slot(10, 0)])),
        vec![
            ("+13", Role::Success),
            (" ", Role::Muted),
            ("-1", Role::Unstaged),
            ("  ·  ", Role::Muted),
            ("2", Role::TextPrimary),
            (" files", Role::Muted),
        ]
    );
    assert_eq!(diff_summary(&vec![slot(0, 0)])[5].text, " file");
    assert_eq!(diff_summary(&Vec::new())[0].text, "+0");
}

#[test]
fn revision_summary_parts() {
    assert_eq!(
        texts(&revision_prefix(Some("marten"), "abc1234")),
        vec![
            ("marten", Role::RepoName),
            ("  ·  ", Role::Plain),
            ("abc1234", Role::BranchName),
            ("  ·  ", Role::Plain),
        ]
    );
    assert_eq!(revision_prefix(None, "x")[0].text, "no repository");
    assert_eq!(revision_subject(""), "(no subject)");
    assert_eq!(revision_subject("Fix it"), "Fix it");
}

#[test]
fn review_progress_appears_once_a_file_is_reviewed() {
    let mut files = vec![slot(1, 0), slot(2, 0), slot(3, 0)];
    assert_eq!(marten::summary::review_progress(&files), None);
    files[1].reviewed = true;
    assert_eq!(
        marten::summary::review_progress(&files),
        Some("1/3 files reviewed".to_string())
    );
}
