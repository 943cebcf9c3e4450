//! What the commits finder lists: for each matching commit its short id, its subject fitted
//! to the columns left, and its age aligned to the right, with the selected one marked; a
//! note when nothing matches.
use vstd::prelude::*;

use crate::git::repository::{short_oid, CommitInfo, SHORT_COMMIT_LEN};
use crate::text::{push_char, string_from_chars};
use crate::view::{relative_age, relative_age_spec};

verus! {

/// The columns `unicode_width::UnicodeWidthStr::width` gives a string.
pub uninterp spec fn unicode_str_width(s: Seq<char>) -> usize;

/// Calls `unicode_width::UnicodeWidthStr::width`.  The contract claims only that the
/// answer is a fixed function of the string, named `unicode_str_width`.
#[verifier::external_body]
fn str_width(s: &str) -> (r: usize)
    ensures
        r == unicode_str_width(s@),
{
    unicode_width::UnicodeWidthStr::width(s)
}

/// Columns around a listed commit: padding on the left, the id, the gap after it, the gap
/// before the age and padding on the right.
pub const COMMIT_ROW_FIXED: usize = 15;

/// `n` spaces.
pub open spec fn spaces(n: int) -> Seq<char> {
    Seq::new(if n > 0 { n as nat } else { 0 }, |i: int| ' ')
}

/// How many leading characters of `text`, from `k` on, can be taken one by one while the
/// text taken so far fits in `width` columns.
pub open spec fn fit_count(text: Seq<char>, width: int, k: int) -> int
    decreases text.len() - k,
{
    if 0 <= k < text.len() && unicode_str_width(text.take(k + 1)) <= width {
        fit_count(text, width, k + 1)
    } else {
        k
    }
}

/// `text` fitted to `width` columns: cut with `…` when it is wider, then padded with
/// spaces to the width.
pub open spec fn fit_spec(text: Seq<char>, width: int) -> Seq<char> {
    if width <= 0 {
        Seq::empty()
    } else {
        let over = unicode_str_width(text) > width;
        let room = if over {
            width - 1
        } else {
            width
        };
        let cut = text.take(fit_count(text, room, 0)) + if over {
            seq!['…']
        } else {
            Seq::empty()
        };
        cut + spaces(width - unicode_str_width(cut))
    }
}

/// The age column's width: at least three, and as wide as the widest age of the first `n`
/// listed commits.
pub open spec fn age_width_spec(commits: Seq<CommitInfo>, listed: Seq<usize>, now: i64, n: int) -> int
    decreases n,
{
    if n <= 0 {
        3
    } else {
        let w = unicode_str_width(
            relative_age_spec(commits[listed[n - 1] as int].committed_at, now),
        ) as int;
        let before = age_width_spec(commits, listed, now, n - 1);
        if w > before {
            w
        } else {
            before
        }
    }
}

/// A listed commit.
#[derive(Debug)]
pub struct CommitRow {
    pub oid: String,
    pub subject: String,
    pub age: String,
    pub selected: bool,
}

/// What the commits finder lists.
#[derive(Debug)]
pub enum CommitList {
    /// A note: no commits at all, or none matching.
    Note(String),
    /// The matching commits.
    Rows(Vec<CommitRow>),
}

/// Whether `row` lists commit `listed[i]` of a list `width` columns wide.
pub open spec fn row_is(
    row: CommitRow,
    commits: Seq<CommitInfo>,
    listed: Seq<usize>,
    selected: usize,
    width: int,
    now: i64,
    i: int,
) -> bool {
    let commit = commits[listed[i] as int];
    let age_width = age_width_spec(commits, listed, now, listed.len() as int);
    let subject_width = width - COMMIT_ROW_FIXED - age_width;
    let age = relative_age_spec(commit.committed_at, now);
    let last = listed.len() - 1;
    &&& row.oid@ == (if commit.oid@.len() <= SHORT_COMMIT_LEN {
        commit.oid@
    } else {
        commit.oid@.take(SHORT_COMMIT_LEN as int)
    })
    &&& row.subject@ == fit_spec(commit.subject@, subject_width)
    &&& row.age@ == spaces(age_width - age.len()) + age
    &&& row.selected == (i == if selected < last {
        selected as int
    } else {
        last
    })
}

/// `text` fitted to `width` columns.
pub fn fit_to_width(text: &str, width: usize) -> (r: String)
    ensures
        r@ == fit_spec(text@, width as int),
{
    if width == 0 {
        return String::new();
    }
    let chars = crate::text::chars_of(text);
    let over = str_width(text) > width;
    let room = if over {
        width - 1
    } else {
        width
    };
    let mut out: Vec<char> = Vec::new();
    let mut k: usize = 0;
    while k < chars.len()
        invariant_except_break
            k <= chars.len(),
            chars@ == text@,
            out@ == text@.take(k as int),
            fit_count(text@, room as int, 0) == fit_count(text@, room as int, k as int),
        ensures
            out@ == text@.take(fit_count(text@, room as int, 0)),
        decreases chars.len() - k,
    {
        let mut candidate = crate::text::copy_chars(&out);
        candidate.push(chars[k]);
        assert(candidate@ =~= text@.take(k as int + 1));
        let candidate_text = string_from_chars(&candidate);
        if str_width(candidate_text.as_str()) > room {
            break;
        }
        out = candidate;
        k = k + 1;
    }
    let mut cut = string_from_chars(&out);
    if over {
        push_char(&mut cut, '…');
    }
    assert(cut@ == text@.take(fit_count(text@, room as int, 0)) + if over {
        seq!['…']
    } else {
        Seq::<char>::empty()
    });
    let used = str_width(cut.as_str());
    let pad = if used < width {
        width - used
    } else {
        0
    };
    let ghost base = cut@;
    let mut j: usize = 0;
    while j < pad
        invariant
            j <= pad,
            cut@ == base + spaces(j as int),
        decreases pad - j,
    {
        push_char(&mut cut, ' ');
        assert(spaces(j as int + 1) =~= spaces(j as int).push(' '));
        j = j + 1;
    }
    assert(spaces(pad as int) =~= spaces(width - unicode_str_width(base)));
    cut
}

/// The commits of `listed` as the commits finder lists them in `width` columns at time
/// `now`, with the `selected` one (or the last) marked; a note when none is listed.
pub fn commit_list(
    commits: &Vec<CommitInfo>,
    listed: &Vec<usize>,
    selected: usize,
    width: usize,
    now: i64,
) -> (r: CommitList)
    requires
        forall|i: int| 0 <= i < listed@.len() ==> #[trigger] listed@[i] < commits@.len(),
    ensures
        listed@.len() == 0 ==> (r matches CommitList::Note(note) && note@ == if commits@.len()
            == 0 {
            "  no commits"@
        } else {
            "  no matching commits"@
        }),
        listed@.len() > 0 ==> (r matches CommitList::Rows(rows) && rows@.len() == listed@.len()
            && forall|i: int|
            0 <= i < rows@.len() ==> row_is(
                #[trigger] rows@[i],
                commits@,
                listed@,
                selected,
                width as int,
                now,
                i,
            )),
{
    if listed.len() == 0 {
        if commits.len() == 0 {
            return CommitList::Note(String::from_str("  no commits"));
        } else {
            return CommitList::Note(String::from_str("  no matching commits"));
        }
    }
    let mut ages: Vec<String> = Vec::new();
    let mut age_width: usize = 3;
    let mut n: usize = 0;
    while n < listed.len()
        invariant
            n <= listed.len(),
            ages@.len() == n,
            forall|i: int| 0 <= i < listed@.len() ==> #[trigger] listed@[i] < commits@.len(),
            forall|i: int|
                0 <= i < n ==> (#[trigger] ages@[i])@ == relative_age_spec(
                    commits@[listed@[i] as int].committed_at,
                    now,
                ),
            age_width == age_width_spec(commits@, listed@, now, n as int),
        decreases listed.len() - n,
    {
        let age = relative_age(commits[listed[n]].committed_at, now);
        let w = str_width(age.as_str());
        if w > age_width {
            age_width = w;
        }
        ages.push(age);
        n = n + 1;
    }
    let subject_width = width.saturating_sub(COMMIT_ROW_FIXED).saturating_sub(age_width);
    let last = listed.len() - 1;
    let chosen = if selected < last {
        selected
    } else {
        last
    };
    let mut rows: Vec<CommitRow> = Vec::new();
    let mut i: usize = 0;
    while i < listed.len()
        invariant
            i <= listed.len(),
            ages@.len() == listed@.len(),
            last == listed@.len() - 1,
            chosen == (if selected < last {
                selected
            } else {
                last
            }),
            age_width == age_width_spec(commits@, listed@, now, listed@.len() as int),
            subject_width as int == (if width - COMMIT_ROW_FIXED - age_width > 0 {
                width - COMMIT_ROW_FIXED - age_width
            } else {
                0
            }),
            rows@.len() == i,
            forall|j: int| 0 <= j < listed@.len() ==> #[trigger] listed@[j] < commits@.len(),
            forall|j: int|
                0 <= j < listed@.len() ==> (#[trigger] ages@[j])@ == relative_age_spec(
                    commits@[listed@[j] as int].committed_at,
                    now,
                ),
            forall|j: int|
                0 <= j < i ==> row_is(
                    #[trigger] rows@[j],
                    commits@,
                    listed@,
                    selected,
                    width as int,
                    now,
                    j,
                ),
        decreases listed.len() - i,
    {
        let commit = &commits[listed[i]];
        let age_text = &ages[i];
        let age_chars = crate::text::chars_of(age_text.as_str());
        let pad = if age_chars.len() < age_width {
            age_width - age_chars.len()
        } else {
            0
        };
        let mut age = String::new();
        let mut j: usize = 0;
        while j < pad
            invariant
                j <= pad,
                age@ == spaces(j as int),
            decreases pad - j,
        {
            push_char(&mut age, ' ');
            assert(spaces(j as int + 1) =~= spaces(j as int).push(' '));
            j = j + 1;
        }
        age.append(age_text.as_str());
        assert(spaces(pad as int) =~= spaces(age_width - age_text@.len()));
        let subject = fit_to_width(commit.subject.as_str(), subject_width);
        assert(fit_spec(commit.subject@, subject_width as int) == fit_spec(
            commit.subject@,
            width - COMMIT_ROW_FIXED - age_width,
        ));
        let row = CommitRow {
            oid: short_oid(commit.oid.as_str()),
            subject,
            age,
            selected: i == chosen,
        };
        let ghost before = rows@;
        rows.push(row);
        assert forall|j: int| 0 <= j < rows@.len() implies row_is(
            #[trigger] rows@[j],
            commits@,
            listed@,
            selected,
            width as int,
            now,
            j,
        ) by {
            if j < before.len() {
                assert(rows@[j] == before[j]);
            }
        }
        i = i + 1;
    }
    CommitList::Rows(rows)
}

} // verus!
