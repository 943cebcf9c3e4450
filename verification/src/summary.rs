//! The texts of the top bar: where the repository stands, and what the review holds.
//!
//! Each text is a list of segments, each with the role that picks its colour in the theme.
use vstd::prelude::*;
use vstd::string::StringExecFns;

use crate::editor::{decimal_chars, decimal_string};
use crate::git::repository::{Head, RepositoryStatus};
use crate::state::review::FileSlot;
use crate::text::string_from_chars;

verus! {

/// The part of the theme a segment is drawn with.
#[derive(Debug, Clone, Copy, PartialEq, Eq, Structural)]
pub enum Role {
    Plain,
    RepoName,
    BranchName,
    Muted,
    TextPrimary,
    Success,
    Danger,
    Staged,
    Unstaged,
    Untracked,
    Conflict,
}

/// A piece of text and how it is drawn.
#[derive(Debug, Clone)]
pub struct Segment {
    pub text: String,
    pub role: Role,
}

/// Segments as the contracts see them.
pub open spec fn segments_model(s: Seq<Segment>) -> Seq<(Seq<char>, Role)> {
    s.map_values(|g: Segment| (g.text@, g.role))
}

/// The separator between the parts of the top bar.
pub open spec fn separator() -> Seq<char> {
    "  ·  "@
}

/// A marker followed by a count.
pub open spec fn counted(marker: Seq<char>, n: nat) -> Seq<char> {
    marker + decimal_chars(n)
}

/// The segment of a change count: shown only when there is a change of that kind.
pub open spec fn count_segment(marker: Seq<char>, n: nat, role: Role) -> Seq<(Seq<char>, Role)> {
    if n > 0 {
        seq![(counted(marker, n), role)]
    } else {
        Seq::empty()
    }
}

/// What `HEAD` shows as: the branch name, the commit marked detached, or `unknown`.
pub open spec fn head_segment(head: Head) -> (Seq<char>, Role) {
    match head {
        Head::Branch(name) => (name@, Role::BranchName),
        Head::Detached(commit) => (commit@ + " (detached)"@, Role::Danger),
        Head::Unknown => ("unknown"@, Role::Muted),
    }
}

/// The working-tree summary: the repository name and `HEAD`, the count of each kind of
/// change there is, then the commits ahead of and behind the upstream.
pub open spec fn worktree_summary_spec(status: Option<RepositoryStatus>) -> Seq<(Seq<char>, Role)> {
    match status {
        None => seq![("no repository"@, Role::RepoName)],
        Some(s) => seq![(s.name@, Role::RepoName), (separator(), Role::Plain), head_segment(s.head)]
            + count_segment(" +"@, s.changes.staged as nat, Role::Staged) + count_segment(
            " ~"@,
            s.changes.unstaged as nat,
            Role::Unstaged,
        ) + count_segment(" ?"@, s.changes.untracked as nat, Role::Untracked) + count_segment(
            " !"@,
            s.changes.conflicted as nat,
            Role::Conflict,
        ) + seq![
            (separator(), Role::Plain),
            (
                counted("↑"@, s.ahead as nat),
                if s.ahead > 0 {
                    Role::Success
                } else {
                    Role::Muted
                },
            ),
            (
                counted(" ↓"@, s.behind as nat),
                if s.behind > 0 {
                    Role::Danger
                } else {
                    Role::Muted
                },
            ),
        ],
    }
}

fn segment(text: String, role: Role) -> (r: Segment)
    ensures
        r.text@ == text@,
        r.role == role,
{
    Segment { text, role }
}

fn literal(text: &str, role: Role) -> (r: Segment)
    ensures
        r.text@ == text@,
        r.role == role,
{
    Segment { text: String::from_str(text), role }
}

/// A marker followed by a count, as text.
fn counted_text(marker: &str, n: usize) -> (r: String)
    ensures
        r@ == counted(marker@, n as nat),
{
    let mut s = String::from_str(marker);
    let digits = string_from_chars(&decimal_string(n as u64));
    s.append(digits.as_str());
    s
}

fn push_count(out: &mut Vec<Segment>, marker: &str, n: usize, role: Role)
    ensures
        segments_model(final(out)@) == segments_model(old(out)@) + count_segment(
            marker@,
            n as nat,
            role,
        ),
{
    let ghost before = segments_model(out@);
    if n > 0 {
        out.push(segment(counted_text(marker, n), role));
        assert(segments_model(out@) =~= before + count_segment(marker@, n as nat, role));
    } else {
        assert(segments_model(out@) =~= before + count_segment(marker@, n as nat, role));
    }
}

/// The working-tree summary of the top bar.
pub fn worktree_summary(status: Option<&RepositoryStatus>) -> (r: Vec<Segment>)
    ensures
        segments_model(r@) == worktree_summary_spec(
            match status {
                Some(s) => Some(*s),
                None => None,
            },
        ),
{
    proof {
        reveal_strlit("no repository");
        reveal_strlit("  ·  ");
        reveal_strlit(" (detached)");
        reveal_strlit("unknown");
    }
    let s = match status {
        None => {
            let out = vec![literal("no repository", Role::RepoName)];
            assert(segments_model(out@) =~= worktree_summary_spec(None));
            return out;
        },
        Some(s) => s,
    };
    let head = match &s.head {
        Head::Branch(name) => segment(name.clone(), Role::BranchName),
        Head::Detached(commit) => {
            let mut text = commit.clone();
            text.append(" (detached)");
            segment(text, Role::Danger)
        },
        Head::Unknown => literal("unknown", Role::Muted),
    };
    let mut out: Vec<Segment> = Vec::new();
    out.push(segment(s.name.clone(), Role::RepoName));
    out.push(literal("  ·  ", Role::Plain));
    out.push(head);
    let ghost start = segments_model(out@);
    assert(start =~= seq![(s.name@, Role::RepoName), (separator(), Role::Plain), head_segment(s.head)]);
    push_count(&mut out, " +", s.changes.staged, Role::Staged);
    push_count(&mut out, " ~", s.changes.unstaged, Role::Unstaged);
    push_count(&mut out, " ?", s.changes.untracked, Role::Untracked);
    push_count(&mut out, " !", s.changes.conflicted, Role::Conflict);
    let ghost counts = segments_model(out@);
    out.push(literal("  ·  ", Role::Plain));
    let ahead_role = if s.ahead > 0 {
        Role::Success
    } else {
        Role::Muted
    };
    out.push(segment(counted_text("↑", s.ahead), ahead_role));
    let behind_role = if s.behind > 0 {
        Role::Danger
    } else {
        Role::Muted
    };
    out.push(segment(counted_text(" ↓", s.behind), behind_role));
    assert(segments_model(out@) =~= counts + seq![
        (separator(), Role::Plain),
        (counted("↑"@, s.ahead as nat), ahead_role),
        (counted(" ↓"@, s.behind as nat), behind_role),
    ]);
    out
}

/// The lines added over all files.
pub open spec fn total_insertions(files: Seq<FileSlot>) -> nat
    decreases files.len(),
{
    if files.len() == 0 {
        0
    } else {
        total_insertions(files.drop_last()) + files.last().entry.insertions as nat
    }
}

/// The lines removed over all files.
pub open spec fn total_deletions(files: Seq<FileSlot>) -> nat
    decreases files.len(),
{
    if files.len() == 0 {
        0
    } else {
        total_deletions(files.drop_last()) + files.last().entry.deletions as nat
    }
}

/// The review summary: lines added and removed over all files, and the number of files.
pub open spec fn diff_summary_spec(files: Seq<FileSlot>) -> Seq<(Seq<char>, Role)> {
    seq![
        (counted("+"@, total_insertions(files)), Role::Success),
        (" "@, Role::Muted),
        (counted("-"@, total_deletions(files)), Role::Unstaged),
        (separator(), Role::Muted),
        (decimal_chars(files.len()), Role::TextPrimary),
        (
            if files.len() == 1 {
                " file"@
            } else {
                " files"@
            },
            Role::Muted,
        ),
    ]
}

/// The review summary of the top bar.  The totals must fit in `usize`.
pub fn diff_summary(files: &Vec<FileSlot>) -> (r: Vec<Segment>)
    requires
        total_insertions(files@) <= usize::MAX,
        total_deletions(files@) <= usize::MAX,
    ensures
        segments_model(r@) == diff_summary_spec(files@),
{
    let mut insertions: usize = 0;
    let mut deletions: usize = 0;
    let mut i: usize = 0;
    while i < files.len()
        invariant
            i <= files.len(),
            insertions == total_insertions(files@.take(i as int)),
            deletions == total_deletions(files@.take(i as int)),
            total_insertions(files@) <= usize::MAX,
            total_deletions(files@) <= usize::MAX,
        decreases files.len() - i,
    {
        proof {
            assert(files@.take(i as int + 1).drop_last() =~= files@.take(i as int));
            lemma_totals_grow(files@, i as int + 1);
        }
        insertions = insertions + files[i].entry.insertions;
        deletions = deletions + files[i].entry.deletions;
        i = i + 1;
    }
    assert(files@.take(i as int) =~= files@);
    proof {
        reveal_strlit(" ");
        reveal_strlit("  ·  ");
        reveal_strlit(" file");
        reveal_strlit(" files");
    }
    let count = string_from_chars(&decimal_string(files.len() as u64));
    let label = if files.len() == 1 {
        literal(" file", Role::Muted)
    } else {
        literal(" files", Role::Muted)
    };
    let out = vec![
        segment(counted_text("+", insertions), Role::Success),
        literal(" ", Role::Muted),
        segment(counted_text("-", deletions), Role::Unstaged),
        literal("  ·  ", Role::Muted),
        segment(count, Role::TextPrimary),
        label,
    ];
    assert(segments_model(out@) =~= diff_summary_spec(files@));
    out
}

proof fn lemma_totals_grow(files: Seq<FileSlot>, k: int)
    requires
        0 <= k <= files.len(),
    ensures
        total_insertions(files.take(k)) <= total_insertions(files),
        total_deletions(files.take(k)) <= total_deletions(files),
    decreases files.len() - k,
{
    if k < files.len() {
        lemma_totals_grow(files, k + 1);
        assert(files.take(k + 1).drop_last() =~= files.take(k));
    } else {
        assert(files.take(k) =~= files);
    }
}

/// The start of the summary of a commit under review: the repository name (or `no
/// repository`) and the abbreviated commit id, each followed by the separator.
pub open spec fn revision_prefix_spec(repository_name: Option<Seq<char>>, short_oid: Seq<char>) -> Seq<
    (Seq<char>, Role),
> {
    seq![
        (
            match repository_name {
                Some(n) => n,
                None => "no repository"@,
            },
            Role::RepoName,
        ),
        (separator(), Role::Plain),
        (short_oid, Role::BranchName),
        (separator(), Role::Plain),
    ]
}

/// The start of the summary of a commit under review; its subject follows, cut to the
/// width that is left.
pub fn revision_prefix(repository_name: Option<&str>, short_oid: &str) -> (r: Vec<Segment>)
    ensures
        segments_model(r@) == revision_prefix_spec(
            match repository_name {
                Some(n) => Some(n@),
                None => None,
            },
            short_oid@,
        ),
{
    proof {
        reveal_strlit("no repository");
        reveal_strlit("  ·  ");
    }
    let name = match repository_name {
        Some(n) => literal(n, Role::RepoName),
        None => literal("no repository", Role::RepoName),
    };
    let out = vec![
        name,
        literal("  ·  ", Role::Plain),
        literal(short_oid, Role::BranchName),
        literal("  ·  ", Role::Plain),
    ];
    assert(segments_model(out@) =~= revision_prefix_spec(
        match repository_name {
            Some(n) => Some(n@),
            None => None,
        },
        short_oid@,
    ));
    out
}

/// The subject shown for a commit: `(no subject)` when it has none.
pub fn revision_subject(subject: &str) -> (r: &str)
    ensures
        r@ == if subject@.len() == 0 {
            "(no subject)"@
        } else {
            subject@
        },
{
    if subject.unicode_len() == 0 {
        "(no subject)"
    } else {
        subject
    }
}

/// How many files are marked reviewed.
pub open spec fn reviewed_count(files: Seq<FileSlot>) -> nat
    decreases files.len(),
{
    if files.len() == 0 {
        0
    } else {
        reviewed_count(files.drop_last()) + if files.last().reviewed {
            1nat
        } else {
            0nat
        }
    }
}

proof fn lemma_reviewed_count_bound(files: Seq<FileSlot>)
    ensures
        reviewed_count(files) <= files.len(),
    decreases files.len(),
{
    if files.len() > 0 {
        lemma_reviewed_count_bound(files.drop_last());
    }
}

/// `M/N files reviewed`, once at least one file is marked reviewed.
pub open spec fn review_progress_spec(files: Seq<FileSlot>) -> Option<Seq<char>> {
    if reviewed_count(files) == 0 {
        None
    } else {
        Some(decimal_chars(reviewed_count(files)) + "/"@ + decimal_chars(files.len())
            + " files reviewed"@)
    }
}

/// The review's progress for the top bar: `M/N files reviewed`, once at least one file is
/// marked reviewed.
pub fn review_progress(files: &Vec<FileSlot>) -> (r: Option<String>)
    ensures
        match review_progress_spec(files@) {
            Some(text) => r matches Some(s) && s@ == text,
            None => r is None,
        },
{
    let mut count: usize = 0;
    let mut i: usize = 0;
    while i < files.len()
        invariant
            i <= files.len(),
            count == reviewed_count(files@.take(i as int)),
            count <= i,
        decreases files.len() - i,
    {
        proof {
            assert(files@.take(i as int + 1).drop_last() =~= files@.take(i as int));
        }
        if files[i].reviewed {
            count = count + 1;
        }
        i = i + 1;
    }
    assert(files@.take(i as int) =~= files@);
    if count == 0 {
        return None;
    }
    proof {
        reveal_strlit("/");
        reveal_strlit(" files reviewed");
    }
    let mut text = string_from_chars(&decimal_string(count as u64));
    text.append("/");
    let total = string_from_chars(&decimal_string(files.len() as u64));
    text.append(total.as_str());
    text.append(" files reviewed");
    Some(text)
}

} // verus!
