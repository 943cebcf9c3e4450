//! The file finder: the review's files whose path holds the typed query.
//!
//! Matching ignores ASCII case.  A match records the byte range of the first
//! occurrence of the query in the path, for highlighting.
use vstd::prelude::*;

use crate::action::Action;
use crate::state::overlay::{step_next, step_previous, without_last, Overlay};
use crate::state::review::FileSlot;
use crate::text::{ascii_lower, chars_of, to_ascii_lower};

verus! {

/// A file of the review that matches the query, with the byte range of the match in its path
/// when the query is not empty.
#[derive(Debug, Clone, PartialEq, Eq)]
pub struct FileMatch {
    pub file_index: usize,
    pub range: Option<(usize, usize)>,
}

/// The bytes a character takes in UTF-8.
pub open spec fn utf8_width(c: char) -> int {
    if (c as u32) < 0x80 {
        1
    } else if (c as u32) < 0x800 {
        2
    } else if (c as u32) < 0x10000 {
        3
    } else {
        4
    }
}

/// The bytes the characters take in UTF-8.
pub open spec fn utf8_len(s: Seq<char>) -> int
    decreases s.len(),
{
    if s.len() == 0 {
        0
    } else {
        utf8_len(s.drop_last()) + utf8_width(s.last())
    }
}

/// Whether `pat` occurs in `s` at position `i`.
pub open spec fn found_at(s: Seq<char>, pat: Seq<char>, i: int) -> bool {
    0 <= i && i + pat.len() <= s.len() && s.subrange(i, i + pat.len()) == pat
}

/// The first position at or after `i` where `pat` occurs in `s`.
pub open spec fn first_occurrence(s: Seq<char>, pat: Seq<char>, i: int) -> Option<int>
    decreases s.len() + 1 - i,
{
    if i < 0 || i + pat.len() > s.len() {
        None
    } else if found_at(s, pat, i) {
        Some(i)
    } else {
        first_occurrence(s, pat, i + 1)
    }
}

/// The byte range of the first occurrence of `query` in `path`, ignoring ASCII case.
pub open spec fn match_range(path: Seq<char>, query: Seq<char>) -> Option<(int, int)> {
    let lower = ascii_lower(path);
    let q = ascii_lower(query);
    match first_occurrence(lower, q, 0) {
        Some(k) => Some((utf8_len(lower.take(k)), utf8_len(lower.take(k)) + utf8_len(q))),
        None => None,
    }
}

/// The matches of a query among files, in the files' order: every file for an empty query.
pub open spec fn matches_spec(paths: Seq<Seq<char>>, query: Seq<char>) -> Seq<(int, Option<(int, int)>)>
    decreases paths.len(),
{
    if paths.len() == 0 {
        Seq::empty()
    } else {
        let rest = matches_spec(paths.drop_last(), query);
        let i = paths.len() - 1;
        if query.len() == 0 {
            rest.push((i, None))
        } else {
            match match_range(paths.last(), query) {
                Some(r) => rest.push((i, Some(r))),
                None => rest,
            }
        }
    }
}

/// Matches as the contracts see them.
pub open spec fn matches_model(ms: Seq<FileMatch>) -> Seq<(int, Option<(int, int)>)> {
    ms.map_values(
        |m: FileMatch|
            (
                m.file_index as int,
                match m.range {
                    Some((a, b)) => Some((a as int, b as int)),
                    None => None,
                },
            ),
    )
}

/// The paths of the review's files.
pub open spec fn file_paths(files: Seq<FileSlot>) -> Seq<Seq<char>> {
    files.map_values(|f: FileSlot| f.entry.path@)
}

proof fn lemma_first_occurrence_found(s: Seq<char>, pat: Seq<char>, i: int)
    ensures
        first_occurrence(s, pat, i) matches Some(k) ==> found_at(s, pat, k) && k >= i,
    decreases s.len() + 1 - i,
{
    if i >= 0 && i + pat.len() <= s.len() && !found_at(s, pat, i) {
        lemma_first_occurrence_found(s, pat, i + 1);
    }
}

proof fn lemma_utf8_len_append(a: Seq<char>, b: Seq<char>)
    ensures
        utf8_len(a + b) == utf8_len(a) + utf8_len(b),
    decreases b.len(),
{
    if b.len() > 0 {
        lemma_utf8_len_append(a, b.drop_last());
        assert((a + b).drop_last() =~= a + b.drop_last());
        assert((a + b).last() == b.last());
    } else {
        assert(a + b =~= a);
    }
}

proof fn lemma_utf8_len_nonneg(s: Seq<char>)
    ensures
        utf8_len(s) >= 0,
    decreases s.len(),
{
    if s.len() > 0 {
        lemma_utf8_len_nonneg(s.drop_last());
    }
}

proof fn lemma_ascii_lower_widths(s: Seq<char>)
    ensures
        utf8_len(ascii_lower(s)) == utf8_len(s),
        ascii_lower(s).len() == s.len(),
    decreases s.len(),
{
    if s.len() > 0 {
        lemma_ascii_lower_widths(s.drop_last());
        assert(ascii_lower(s).drop_last() =~= ascii_lower(s.drop_last()));
    }
}

/// The bytes the characters take in UTF-8, which must fit in `usize`.
fn utf8_len_exec(s: &Vec<char>, n: usize) -> (r: usize)
    requires
        n <= s.len(),
        utf8_len(s@) <= usize::MAX,
    ensures
        r == utf8_len(s@.take(n as int)),
{
    let mut total: usize = 0;
    let mut i: usize = 0;
    assert(s@.take(0) =~= Seq::<char>::empty());
    while i < n
        invariant
            i <= n <= s.len(),
            utf8_len(s@) <= usize::MAX,
            total == utf8_len(s@.take(i as int)),
        decreases n - i,
    {
        proof {
            assert(s@.take(i as int + 1).drop_last() =~= s@.take(i as int));
            assert(s@.take(i as int + 1).last() == s@[i as int]);
            lemma_utf8_len_append(s@.take(i as int + 1), s@.skip(i as int + 1));
            assert(s@.take(i as int + 1) + s@.skip(i as int + 1) =~= s@);
            lemma_utf8_len_nonneg(s@.skip(i as int + 1));
        }
        let c = s[i];
        let w: usize = if (c as u32) < 0x80 {
            1
        } else if (c as u32) < 0x800 {
            2
        } else if (c as u32) < 0x10000 {
            3
        } else {
            4
        };
        total = total + w;
        i = i + 1;
    }
    total
}

/// The first position where `pat` occurs in `s`.
fn find_chars(s: &Vec<char>, pat: &Vec<char>) -> (r: Option<usize>)
    ensures
        match first_occurrence(s@, pat@, 0) {
            Some(k) => r == Some(k as usize),
            None => r is None,
        },
{
    if pat.len() > s.len() {
        return None;
    }
    let last = s.len() - pat.len();
    let mut i: usize = 0;
    while i <= last
        invariant
            pat.len() <= s.len(),
            last == s.len() - pat.len(),
            i <= last + 1,
            first_occurrence(s@, pat@, 0) == first_occurrence(s@, pat@, i as int),
        decreases last + 1 - i,
    {
        let mut k: usize = 0;
        let mut same = true;
        while k < pat.len()
            invariant
                i + pat.len() <= s.len(),
                k <= pat.len(),
                same == forall|j: int| 0 <= j < k ==> s@[i + j] == pat@[j],
            decreases pat.len() - k,
        {
            if s[i + k] != pat[k] {
                same = false;
            }
            k = k + 1;
        }
        if same {
            assert(s@.subrange(i as int, i + pat.len()) =~= pat@);
            return Some(i);
        } else {
            let ghost j = choose|j: int| 0 <= j < pat.len() && s@[i + j] != pat@[j];
            assert(s@.subrange(i as int, i + pat.len())[j] != pat@[j]);
        }
        if i == last {
            assert(first_occurrence(s@, pat@, i + 1) is None);
            return None;
        }
        i = i + 1;
    }
    None
}

/// The files whose path holds `query`, ignoring ASCII case, in order, each with the byte
/// range of the first occurrence; every file, with no range, for an empty query.  Paths
/// and the query must have byte lengths that fit in `usize`.
pub fn matching_files(files: &Vec<FileSlot>, query: &str) -> (r: Vec<FileMatch>)
    requires
        forall|i: int| 0 <= i < files@.len() ==> utf8_len(#[trigger] files@[i].entry.path@) <= usize::MAX,
        utf8_len(query@) <= usize::MAX,
    ensures
        matches_model(r@) == matches_spec(file_paths(files@), query@),
{
    let query_chars = chars_of(query);
    let lower_query = to_ascii_lower(&query_chars);
    proof {
        lemma_ascii_lower_widths(query@);
        assert(lower_query@.take(lower_query@.len() as int) =~= lower_query@);
    }
    let query_len = utf8_len_exec(&lower_query, lower_query.len());
    let ghost paths = file_paths(files@);
    let mut out: Vec<FileMatch> = Vec::new();
    let mut i: usize = 0;
    assert(paths.take(0) =~= Seq::<Seq<char>>::empty());
    while i < files.len()
        invariant
            i <= files.len(),
            paths == file_paths(files@),
            forall|j: int| 0 <= j < files@.len() ==> utf8_len(#[trigger] files@[j].entry.path@) <= usize::MAX,
            lower_query@ == ascii_lower(query@),
            query_chars@ == query@,
            query_len == utf8_len(ascii_lower(query@)),
            matches_model(out@) == matches_spec(paths.take(i as int), query@),
        decreases files.len() - i,
    {
        proof {
            assert(paths.take(i as int + 1).drop_last() =~= paths.take(i as int));
            assert(paths.take(i as int + 1).last() == files@[i as int].entry.path@);
        }
        let ghost before = out@;
        if query_chars.len() == 0 {
            out.push(FileMatch { file_index: i, range: None });
            assert(matches_model(out@) =~= matches_model(before).push((i as int, None)));
        } else {
            let path = chars_of(files[i].entry.path.as_str());
            let lower = to_ascii_lower(&path);
            match find_chars(&lower, &lower_query) {
                Some(k) => {
                    proof {
                        lemma_first_occurrence_found(lower@, lower_query@, 0);
                        lemma_ascii_lower_widths(path@);
                        lemma_utf8_len_append(lower@.take(k as int), lower@.skip(k as int));
                        assert(lower@.take(k as int) + lower@.skip(k as int) =~= lower@);
                        lemma_utf8_len_append(lower@.take(k as int), lower_query@);
                        assert(lower@.take(k as int + lower_query@.len()) =~= lower@.take(k as int)
                            + lower_query@);
                        lemma_utf8_len_append(
                            lower@.take(k as int + lower_query@.len()),
                            lower@.skip(k as int + lower_query@.len()),
                        );
                        assert(lower@.take(k as int + lower_query@.len()) + lower@.skip(
                            k as int + lower_query@.len(),
                        ) =~= lower@);
                        lemma_utf8_len_nonneg(lower@.skip(k as int + lower_query@.len()));
                        lemma_utf8_len_nonneg(lower@.skip(k as int));
                    }
                    let start = utf8_len_exec(&lower, k);
                    let range = (start, start + query_len);
                    out.push(FileMatch { file_index: i, range: Some(range) });
                    assert(matches_model(out@) =~= matches_model(before).push(
                        (i as int, Some((start as int, start + query_len))),
                    ));
                },
                None => {},
            }
        }
        i = i + 1;
    }
    assert(paths.take(i as int) =~= paths);
    out
}

/// The index of the file selected in the file finder, when it is open and its selection
/// is one of the matches.
pub fn selected_file_index(overlay: &Overlay, files: &Vec<FileSlot>) -> (r: Option<usize>)
    requires
        forall|i: int| 0 <= i < files@.len() ==> utf8_len(#[trigger] files@[i].entry.path@) <= usize::MAX,
        overlay matches Overlay::FileFinder(state) ==> utf8_len(state.query@) <= usize::MAX,
    ensures
        r == match overlay {
            Overlay::FileFinder(state) => {
                let ms = matches_spec(file_paths(files@), state.query@);
                if state.selected < ms.len() {
                    Some(ms[state.selected as int].0 as usize)
                } else {
                    None
                }
            },
            _ => None,
        },
{
    match overlay {
        Overlay::FileFinder(state) => {
            let matches = matching_files(files, state.query.as_str());
            if state.selected < matches.len() {
                Some(matches[state.selected].file_index)
            } else {
                None
            }
        },
        _ => None,
    }
}

/// The file finder after an action: moves step through the matches, wrapping; edits change
/// the query and select the first match.
pub open spec fn finder_updated(before: Overlay, after: Overlay, action: Action, files: Seq<FileSlot>) -> bool {
    match before {
        Overlay::FileFinder(state) => after matches Overlay::FileFinder(after) && {
            let count = matches_spec(file_paths(files), state.query@).len() as int;
            match action {
                Action::MoveDown => after.selected == step_next(state.selected as int, count)
                    && after.query@ == state.query@,
                Action::MoveUp => after.selected == step_previous(state.selected as int, count)
                    && after.query@ == state.query@,
                Action::FileFinderBackspace => after.selected == 0 && after.query@
                    == without_last(state.query@),
                Action::FileFinderClear => after.selected == 0 && after.query@.len() == 0,
                Action::FileFinderInput(c) => after.selected == 0 && after.query@
                    == state.query@.push(c),
                _ => after.selected == state.selected && after.query@ == state.query@,
            }
        },
        _ => after == before,
    }
}

/// Applies an action to the file finder when it is open: moves through the matches,
/// wrapping, or edits the query.
pub fn update(overlay: &mut Overlay, action: Action, files: &Vec<FileSlot>)
    requires
        forall|i: int| 0 <= i < files@.len() ==> utf8_len(#[trigger] files@[i].entry.path@) <= usize::MAX,
        *old(overlay) matches Overlay::FileFinder(state) ==> utf8_len(state.query@) <= usize::MAX
            && state.selected < usize::MAX && state.selected + files@.len() <= usize::MAX,
    ensures
        finder_updated(*old(overlay), *final(overlay), action, files@),
{
    match overlay {
        Overlay::FileFinder(state) => {
            let count = matching_files(files, state.query.as_str()).len();
            proof {
                lemma_matches_len(file_paths(files@), state.query@);
            }
            match action {
                Action::MoveDown => state.select_next(count),
                Action::MoveUp => state.select_previous(count),
                Action::FileFinderBackspace => state.backspace(),
                Action::FileFinderClear => state.clear(),
                Action::FileFinderInput(character) => state.insert(character),
                _ => {},
            }
        },
        _ => {},
    }
}

proof fn lemma_matches_len(paths: Seq<Seq<char>>, query: Seq<char>)
    ensures
        matches_spec(paths, query).len() <= paths.len(),
    decreases paths.len(),
{
    if paths.len() > 0 {
        lemma_matches_len(paths.drop_last(), query);
    }
}

} // verus!
