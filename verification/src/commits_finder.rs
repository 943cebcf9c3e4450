//! The commits finder: the commits whose id or subject holds the typed query.
//!
//! The query and the subjects are compared in lower case.
use vstd::prelude::*;

use crate::action::Action;
use crate::editor::{occurs_in, occurs_at};
use crate::git::repository::CommitInfo;
use crate::state::overlay::{step_next, step_previous, without_last, CommitsFinderFocus, Overlay};
use crate::text::chars_of;

verus! {

/// The lower-case form of a string as `str::to_lowercase` gives it.
pub uninterp spec fn unicode_lowercase(s: Seq<char>) -> Seq<char>;

/// Calls `str::to_lowercase`, which maps every character to its Unicode lower case.  The
/// result is a fixed function of the string, named here.
#[verifier::external_body]
fn to_lowercase(s: &str) -> (r: String)
    ensures
        r@ == unicode_lowercase(s@),
{
    s.to_lowercase()
}

/// Whether a commit matches a query: the query is empty, or the commit's id or its subject
/// in lower case holds the query in lower case.
pub open spec fn commit_matches(commit: CommitInfo, query: Seq<char>) -> bool {
    let q = unicode_lowercase(query);
    q.len() == 0 || occurs_in(commit.oid@, q) || occurs_in(unicode_lowercase(commit.subject@), q)
}

/// The indexes of the commits matching a query, in order.
pub open spec fn matching_spec(commits: Seq<CommitInfo>, query: Seq<char>) -> Seq<usize>
    decreases commits.len(),
{
    if commits.len() == 0 {
        Seq::empty()
    } else {
        let rest = matching_spec(commits.drop_last(), query);
        if commit_matches(commits.last(), query) {
            rest.push((commits.len() - 1) as usize)
        } else {
            rest
        }
    }
}

/// Whether `pat` occurs in `s`.
fn holds(s: &Vec<char>, pat: &Vec<char>) -> (r: bool)
    ensures
        r == occurs_in(s@, pat@),
{
    if pat.len() > s.len() {
        proof {
            assert forall|i: int| !occurs_at(s@, pat@, i) by {}
        }
        return false;
    }
    let last = s.len() - pat.len();
    let mut i: usize = 0;
    while i <= last
        invariant
            pat.len() <= s.len(),
            last == s.len() - pat.len(),
            i <= last + 1,
            forall|j: int| 0 <= j < i ==> !occurs_at(s@, pat@, j),
        decreases last + 1 - i,
    {
        let mut k: usize = 0;
        let mut same = true;
        while k < pat.len()
            invariant
                i + pat.len() <= s.len(),
                k <= pat.len(),
                same == forall|j: int| 0 <= j < k ==> s@[i + j] == pat@[j],
            decreases pat.len() - k,
        {
            if s[i + k] != pat[k] {
                same = false;
            }
            k = k + 1;
        }
        if same {
            assert(s@.subrange(i as int, i + pat.len()) =~= pat@);
            assert(occurs_at(s@, pat@, i as int));
            return true;
        } else {
            let ghost j = choose|j: int| 0 <= j < pat.len() && s@[i + j] != pat@[j];
            assert(s@.subrange(i as int, i + pat.len())[j] != pat@[j]);
        }
        if i == last {
            assert forall|j: int| !occurs_at(s@, pat@, j) by {
                if 0 <= j <= last {
                }
            }
            return false;
        }
        i = i + 1;
    }
    false
}

/// The indexes of the commits whose id or lower-cased subject holds the lower-cased query,
/// in order; all commits for an empty query.
pub fn matching_commits(commits: &Vec<CommitInfo>, query: &str) -> (r: Vec<usize>)
    ensures
        r@ == matching_spec(commits@, query@),
{
    let q = chars_of(to_lowercase(query).as_str());
    let mut out: Vec<usize> = Vec::new();
    let mut i: usize = 0;
    assert(commits@.take(0) =~= Seq::<CommitInfo>::empty());
    while i < commits.len()
        invariant
            i <= commits.len(),
            q@ == unicode_lowercase(query@),
            out@ == matching_spec(commits@.take(i as int), query@),
        decreases commits.len() - i,
    {
        proof {
            assert(commits@.take(i as int + 1).drop_last() =~= commits@.take(i as int));
            assert(commits@.take(i as int + 1).last() == commits@[i as int]);
        }
        let commit = &commits[i];
        let matched = if q.len() == 0 {
            true
        } else {
            let oid = chars_of(commit.oid.as_str());
            if holds(&oid, &q) {
                true
            } else {
                let subject = chars_of(to_lowercase(commit.subject.as_str()).as_str());
                holds(&subject, &q)
            }
        };
        if matched {
            out.push(i);
        }
        i = i + 1;
    }
    assert(commits@.take(i as int) =~= commits@);
    out
}

proof fn lemma_matching_len(commits: Seq<CommitInfo>, query: Seq<char>)
    ensures
        matching_spec(commits, query).len() <= commits.len(),
        forall|k: int|
            0 <= k < matching_spec(commits, query).len() ==> #[trigger] matching_spec(
                commits,
                query,
            )[k] < commits.len(),
    decreases commits.len(),
{
    if commits.len() > 0 {
        lemma_matching_len(commits.drop_last(), query);
    }
}

/// The commit selected in the commits finder, when it is open and its selection is one of
/// the matches.
pub fn selected_commit<'a>(overlay: &Overlay, commits: &'a Vec<CommitInfo>) -> (r: Option<
    &'a CommitInfo,
>)
    ensures
        match overlay {
            Overlay::CommitsFinder(state) => {
                let ms = matching_spec(commits@, state.query@);
                if state.selected < ms.len() {
                    r == Some(&commits@[ms[state.selected as int] as int])
                } else {
                    r is None
                }
            },
            _ => r is None,
        },
{
    match overlay {
        Overlay::CommitsFinder(state) => {
            let matches = matching_commits(commits, state.query.as_str());
            proof {
                lemma_matching_len(commits@, state.query@);
            }
            if state.selected < matches.len() {
                let index = matches[state.selected];
                Some(&commits[index])
            } else {
                None
            }
        },
        _ => None,
    }
}

/// The commits finder after an action: moves step through the matches, wrapping; edits
/// change the query and select the first match; the keys move between list and query.
pub open spec fn commits_updated(before: Overlay, after: Overlay, action: Action, commits: Seq<CommitInfo>) -> bool {
    match before {
        Overlay::CommitsFinder(state) => after matches Overlay::CommitsFinder(after)
            && {
            let count = matching_spec(commits, state.query@).len() as int;
            match action {
                Action::MoveDown => after.selected == step_next(state.selected as int, count)
                    && after.query@ == state.query@ && after.focus == state.focus,
                Action::MoveUp => after.selected == step_previous(state.selected as int, count)
                    && after.query@ == state.query@ && after.focus == state.focus,
                Action::CommitsFinderInput(c) => after.selected == 0 && after.query@
                    == state.query@.push(c) && after.focus == state.focus,
                Action::CommitsFinderBackspace => after.selected == 0 && after.query@
                    == without_last(state.query@) && after.focus == state.focus,
                Action::CommitsFinderClear => after.selected == 0 && after.query@.len() == 0
                    && after.focus == state.focus,
                Action::ToggleCommitsFinderFocus => after.selected == state.selected
                    && after.query@ == state.query@ && after.focus == match state.focus {
                    CommitsFinderFocus::List => CommitsFinderFocus::Search,
                    CommitsFinderFocus::Search => CommitsFinderFocus::List,
                },
                Action::FocusCommitsFinderList => after.selected == state.selected
                    && after.query@ == state.query@ && after.focus == CommitsFinderFocus::List,
                _ => after.selected == state.selected && after.query@ == state.query@
                    && after.focus == state.focus,
            }
        },
        _ => after == before,
    }
}

/// Applies an action to the commits finder when it is open: moves through the matches,
/// wrapping, edits the query, or moves the keys between the list and the query.
pub fn update(overlay: &mut Overlay, action: Action, commits: &Vec<CommitInfo>)
    requires
        *old(overlay) matches Overlay::CommitsFinder(state) ==> state.selected < usize::MAX
            && state.selected + commits@.len() <= usize::MAX,
    ensures
        commits_updated(*old(overlay), *final(overlay), action, commits@),
{
    match overlay {
        Overlay::CommitsFinder(state) => {
            let count = matching_commits(commits, state.query.as_str()).len();
            proof {
                lemma_matching_len(commits@, state.query@);
            }
            match action {
                Action::MoveDown => state.select_next(count),
                Action::MoveUp => state.select_previous(count),
                Action::CommitsFinderInput(character) => state.insert(character),
                Action::CommitsFinderBackspace => state.backspace(),
                Action::CommitsFinderClear => state.clear(),
                Action::ToggleCommitsFinderFocus => state.toggle_focus(),
                Action::FocusCommitsFinderList => state.focus = CommitsFinderFocus::List,
                _ => {},
            }
        },
        _ => {},
    }
}

} // verus!
