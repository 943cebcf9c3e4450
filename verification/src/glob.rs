//! Gitignore-style path patterns used to leave files out of a review.
//!
//! A pattern is split on `/`.  A pattern of one segment is matched against the
//! last segment of the path; otherwise segments are matched one to one, where
//! `**` stands for any number of path segments (none included).  Inside a
//! segment `*` matches any run of characters, `?` one character, and `[...]`
//! one character of a class (`[!...]` or `[^...]` negates it; `a-z` is a range).
//! A `[` that does not start a well-formed class is a literal `[`.  A pattern
//! ending in `/` matches everything beneath that directory.
use vstd::prelude::*;

use crate::text::{chars_eq, chars_of, split_chars, split_on, trim_chars, trim_spec, views};

verus! {

/// The items of a character class read from `p` at index `i`, up to and including the
/// closing `]`: each item is an inclusive range of characters, and the index returned is the
/// one just past the `]`.  `None` when the class is never closed.
pub open spec fn class_items(p: Seq<char>, i: int) -> Option<(Seq<(char, char)>, int)>
    decreases p.len() - i,
{
    if i < 0 || i >= p.len() {
        None
    } else {
        let start = p[i];
        if start == ']' {
            Some((Seq::<(char, char)>::empty(), i + 1))
        } else if i + 1 < p.len() && p[i + 1] == '-' {
            if i + 2 < p.len() && p[i + 2] == ']' {
                match class_items(p, i + 2) {
                    Some((m, k)) => Some((seq![(start, start), ('-', '-')] + m, k)),
                    None => None,
                }
            } else if i + 2 < p.len() {
                let end = p[i + 2];
                match class_items(p, i + 3) {
                    Some((m, k)) => Some(
                        ((if start <= end {
                            seq![(start, end)]
                        } else {
                            Seq::<(char, char)>::empty()
                        }) + m, k),
                    ),
                    None => None,
                }
            } else {
                None
            }
        } else {
            match class_items(p, i + 1) {
                Some((m, k)) => Some((seq![(start, start)] + m, k)),
                None => None,
            }
        }
    }
}

/// Whether `c` falls in one of the ranges of a class.
pub open spec fn in_class(items: Seq<(char, char)>, c: char) -> bool {
    exists|j: int| #![trigger items[j]] 0 <= j < items.len() && items[j].0 <= c && c <= items[j].1
}

/// Whether the class opened by `[` at `pi` is negated.
pub open spec fn class_negated(p: Seq<char>, pi: int) -> bool {
    pi + 1 < p.len() && (p[pi + 1] == '!' || p[pi + 1] == '^')
}

pub proof fn lemma_class_items_bounds(p: Seq<char>, i: int)
    ensures
        class_items(p, i) matches Some((m, k)) ==> i < k <= p.len(),
    decreases p.len() - i,
{
    if 0 <= i < p.len() {
        let start = p[i];
        if start == ']' {
        } else if i + 1 < p.len() && p[i + 1] == '-' {
            if i + 2 < p.len() && p[i + 2] == ']' {
                lemma_class_items_bounds(p, i + 2);
            } else if i + 2 < p.len() {
                lemma_class_items_bounds(p, i + 3);
            }
        } else {
            lemma_class_items_bounds(p, i + 1);
        }
    }
}

/// Whether the pattern characters `p[pi..]` match the text `t[ti..]` exactly.
pub open spec fn match_from(p: Seq<char>, pi: int, t: Seq<char>, ti: int) -> bool
    decreases p.len() - pi, t.len() - ti,
{
    if pi < 0 || ti < 0 || pi > p.len() || ti > t.len() {
        false
    } else if pi == p.len() {
        ti == t.len()
    } else {
        let c = p[pi];
        if c == '*' {
            match_from(p, pi + 1, t, ti) || (ti < t.len() && match_from(p, pi, t, ti + 1))
        } else if c == '?' {
            ti < t.len() && match_from(p, pi + 1, t, ti + 1)
        } else if c == '[' {
            let neg = class_negated(p, pi);
            let first = if neg {
                pi + 2
            } else {
                pi + 1
            };
            match class_items(p, first) {
                Some((m, k)) => {
                    proof {
                        lemma_class_items_bounds(p, first);
                    }
                    ti < t.len() && (in_class(m, t[ti]) != neg) && match_from(p, k, t, ti + 1)
                },
                None => ti < t.len() && t[ti] == '[' && match_from(p, pi + 1, t, ti + 1),
            }
        } else {
            ti < t.len() && t[ti] == c && match_from(p, pi + 1, t, ti + 1)
        }
    }
}

/// Whether a one-segment pattern matches a whole segment of text.
pub open spec fn chars_match(p: Seq<char>, t: Seq<char>) -> bool {
    match_from(p, 0, t, 0)
}

/// The segment pattern `**`.
pub open spec fn double_star() -> Seq<char> {
    seq!['*', '*']
}

/// Whether pattern segments `segs[si..]` match path segments `parts[ti..]`.
pub open spec fn segments_match_from(
    segs: Seq<Seq<char>>,
    si: int,
    parts: Seq<Seq<char>>,
    ti: int,
) -> bool
    decreases segs.len() - si, parts.len() - ti,
{
    if si < 0 || ti < 0 || si > segs.len() || ti > parts.len() {
        false
    } else if si == segs.len() {
        ti == parts.len()
    } else if segs[si] == double_star() {
        segments_match_from(segs, si + 1, parts, ti) || (ti < parts.len()
            && segments_match_from(segs, si, parts, ti + 1))
    } else {
        ti < parts.len() && chars_match(segs[si], parts[ti]) && segments_match_from(
            segs,
            si + 1,
            parts,
            ti + 1,
        )
    }
}

/// The pattern after trimming, with `**` appended when it ends in `/`.
pub open spec fn normalized_pattern(pattern: Seq<char>) -> Seq<char> {
    let p = trim_spec(pattern);
    if p.len() > 0 && p.last() == '/' {
        p + double_star()
    } else {
        p
    }
}

/// Whether `pattern` selects `path`.
pub open spec fn glob_matches(pattern: Seq<char>, path: Seq<char>) -> bool {
    let p = normalized_pattern(pattern);
    if trim_spec(pattern).len() == 0 {
        false
    } else {
        let segs = split_on(p, '/');
        let parts = split_on(path, '/');
        if segs.len() == 1 {
            chars_match(segs[0], parts.last())
        } else {
            segments_match_from(segs, 0, parts, 0)
        }
    }
}

/// Whether some pattern of `patterns` selects `path`.
pub open spec fn any_glob_matches(patterns: Seq<Seq<char>>, path: Seq<char>) -> bool {
    exists|i: int| 0 <= i < patterns.len() && glob_matches(#[trigger] patterns[i], path)
}

fn parse_class_items(p: &Vec<char>, i: usize) -> (r: Option<(Vec<(char, char)>, usize)>)
    ensures
        match r {
            Some((m, k)) => class_items(p@, i as int) == Some((m@, k as int)),
            None => class_items(p@, i as int) is None,
        },
    decreases p.len() - i,
{
    if i >= p.len() {
        return None;
    }
    let start = p[i];
    if start == ']' {
        return Some((Vec::new(), i + 1));
    }
    if i + 1 < p.len() && p[i + 1] == '-' {
        if i + 2 < p.len() && p[i + 2] == ']' {
            match parse_class_items(p, i + 2) {
                Some((m, k)) => {
                    let mut items: Vec<(char, char)> = Vec::new();
                    items.push((start, start));
                    items.push(('-', '-'));
                    let ghost head = items@;
                    let mut rest = m;
                    items.append(&mut rest);
                    assert(items@ =~= seq![(start, start), ('-', '-')] + m@);
                    Some((items, k))
                },
                None => None,
            }
        } else if i + 2 < p.len() {
            let end = p[i + 2];
            match parse_class_items(p, i + 3) {
                Some((m, k)) => {
                    let mut items: Vec<(char, char)> = Vec::new();
                    if start <= end {
                        items.push((start, end));
                    }
                    let mut rest = m;
                    items.append(&mut rest);
                    assert(items@ =~= (if start <= end {
                        seq![(start, end)]
                    } else {
                        Seq::<(char, char)>::empty()
                    }) + m@);
                    Some((items, k))
                },
                None => None,
            }
        } else {
            None
        }
    } else {
        match parse_class_items(p, i + 1) {
            Some((m, k)) => {
                let mut items: Vec<(char, char)> = Vec::new();
                items.push((start, start));
                let mut rest = m;
                items.append(&mut rest);
                assert(items@ =~= seq![(start, start)] + m@);
                Some((items, k))
            },
            None => None,
        }
    }
}

fn class_contains(items: &Vec<(char, char)>, c: char) -> (r: bool)
    ensures
        r == in_class(items@, c),
{
    let mut j: usize = 0;
    while j < items.len()
        invariant
            j <= items.len(),
            forall|k: int| #![trigger items@[k]] 0 <= k < j ==> !(items@[k].0 <= c && c <= items@[k].1),
        decreases items.len() - j,
    {
        let (lo, hi) = items[j];
        if lo <= c && c <= hi {
            assert(items@[j as int].0 <= c && c <= items@[j as int].1);
            return true;
        }
        j = j + 1;
    }
    false
}

fn match_at(p: &Vec<char>, pi: usize, t: &Vec<char>, ti: usize) -> (r: bool)
    requires
        pi <= p.len(),
        ti <= t.len(),
    ensures
        r == match_from(p@, pi as int, t@, ti as int),
    decreases p.len() - pi, t.len() - ti,
{
    if pi == p.len() {
        return ti == t.len();
    }
    let c = p[pi];
    if c == '*' {
        if match_at(p, pi + 1, t, ti) {
            return true;
        }
        ti < t.len() && match_at(p, pi, t, ti + 1)
    } else if c == '?' {
        ti < t.len() && match_at(p, pi + 1, t, ti + 1)
    } else if c == '[' {
        let neg = pi + 1 < p.len() && (p[pi + 1] == '!' || p[pi + 1] == '^');
        let first = if neg {
            pi + 2
        } else {
            pi + 1
        };
        proof {
            lemma_class_items_bounds(p@, first as int);
        }
        match parse_class_items(p, first) {
            Some((m, k)) => {
                if ti >= t.len() {
                    return false;
                }
                let member = class_contains(&m, t[ti]);
                member != neg && match_at(p, k, t, ti + 1)
            },
            None => ti < t.len() && t[ti] == '[' && match_at(p, pi + 1, t, ti + 1),
        }
    } else {
        ti < t.len() && t[ti] == c && match_at(p, pi + 1, t, ti + 1)
    }
}

/// Whether a one-segment pattern matches a whole segment of text.
pub fn segment_matches(pattern: &Vec<char>, text: &Vec<char>) -> (r: bool)
    ensures
        r == chars_match(pattern@, text@),
{
    match_at(pattern, 0, text, 0)
}

fn is_double_star(segment: &Vec<char>) -> (r: bool)
    ensures
        r == (segment@ == double_star()),
{
    let star: Vec<char> = vec!['*', '*'];
    assert(star@ =~= double_star());
    chars_eq(segment, &star)
}

fn segments_match_at(segs: &Vec<Vec<char>>, si: usize, parts: &Vec<Vec<char>>, ti: usize) -> (r:
    bool)
    requires
        si <= segs.len(),
        ti <= parts.len(),
    ensures
        r == segments_match_from(views(segs@), si as int, views(parts@), ti as int),
    decreases segs.len() - si, parts.len() - ti,
{
    if si == segs.len() {
        return ti == parts.len();
    }
    if is_double_star(&segs[si]) {
        if segments_match_at(segs, si + 1, parts, ti) {
            return true;
        }
        ti < parts.len() && segments_match_at(segs, si, parts, ti + 1)
    } else {
        ti < parts.len() && segment_matches(&segs[si], &parts[ti]) && segments_match_at(
            segs,
            si + 1,
            parts,
            ti + 1,
        )
    }
}

/// Whether pattern segments match path segments one to one, `**` standing for any
/// number of path segments.
pub fn segments_match(segs: &Vec<Vec<char>>, parts: &Vec<Vec<char>>) -> (r: bool)
    ensures
        r == segments_match_from(views(segs@), 0, views(parts@), 0),
{
    segments_match_at(segs, 0, parts, 0)
}

/// Whether `pattern` selects `path`.
pub fn pattern_matches(pattern: &str, path: &str) -> (r: bool)
    ensures
        r == glob_matches(pattern@, path@),
{
    let raw = chars_of(pattern);
    let mut p = trim_chars(&raw);
    if p.len() == 0 {
        return false;
    }
    if p[p.len() - 1] == '/' {
        p.push('*');
        p.push('*');
        assert(p@ =~= normalized_pattern(pattern@));
    }
    assert(p@ == normalized_pattern(pattern@));
    let segs = split_chars(&p, '/');
    let path_chars = chars_of(path);
    let parts = split_chars(&path_chars, '/');
    if segs.len() == 1 {
        segment_matches(&segs[0], &parts[parts.len() - 1])
    } else {
        segments_match(&segs, &parts)
    }
}

/// Whether some pattern selects `path`.
pub fn matches_any(patterns: &Vec<String>, path: &str) -> (r: bool)
    ensures
        r == any_glob_matches(patterns@.map_values(|s: String| s@), path@),
{
    let ghost pats = patterns@.map_values(|s: String| s@);
    let mut i: usize = 0;
    while i < patterns.len()
        invariant
            i <= patterns.len(),
            pats == patterns@.map_values(|s: String| s@),
            forall|k: int| 0 <= k < i ==> !glob_matches(#[trigger] pats[k], path@),
        decreases patterns.len() - i,
    {
        if pattern_matches(patterns[i].as_str(), path) {
            assert(glob_matches(pats[i as int], path@));
            return true;
        }
        i = i + 1;
    }
    false
}

/// A blank pattern (empty or only whitespace) matches no path.
pub proof fn lemma_blank_pattern_matches_nothing(pattern: Seq<char>, path: Seq<char>)
    requires
        trim_spec(pattern).len() == 0,
    ensures
        !glob_matches(pattern, path),
{
}

proof fn lemma_split_without_sep(b: Seq<char>, sep: char)
    requires
        !b.contains(sep),
    ensures
        split_on(b, sep) == seq![b],
    decreases b.len(),
{
    if b.len() > 0 {
        assert(!b.drop_last().contains(sep)) by {
            if b.drop_last().contains(sep) {
                let k = choose|k: int| 0 <= k < b.drop_last().len() && b.drop_last()[k] == sep;
                assert(b[k] == sep);
            }
        }
        lemma_split_without_sep(b.drop_last(), sep);
        assert(b[b.len() - 1] != sep);
        assert(b.drop_last().push(b.last()) =~= b);
        assert(seq![b.drop_last()].update(0, b.drop_last().push(b.last())) =~= seq![b]);
    } else {
        assert(b =~= Seq::<char>::empty());
    }
}

proof fn lemma_split_last_after_sep(a: Seq<char>, b: Seq<char>, sep: char)
    requires
        !b.contains(sep),
    ensures
        split_on(a + seq![sep] + b, sep).len() >= 1,
        split_on(a + seq![sep] + b, sep).last() == b,
    decreases b.len(),
{
    let s = a + seq![sep] + b;
    if b.len() == 0 {
        assert(s.drop_last() =~= a);
        assert(s.last() == sep);
        crate::text::lemma_split_on_nonempty(a, sep);
    } else {
        assert(!b.drop_last().contains(sep)) by {
            if b.drop_last().contains(sep) {
                let k = choose|k: int| 0 <= k < b.drop_last().len() && b.drop_last()[k] == sep;
                assert(b[k] == sep);
            }
        }
        lemma_split_last_after_sep(a, b.drop_last(), sep);
        assert(s.drop_last() =~= a + seq![sep] + b.drop_last());
        assert(s.last() == b.last());
        assert(b[b.len() - 1] != sep);
        assert(b.drop_last().push(b.last()) =~= b);
    }
}

/// A pattern without `/` matches a file at any depth by its name alone: the name under any
/// directory is matched as the name on its own.
pub proof fn lemma_slashless_pattern_matches_basename(
    pattern: Seq<char>,
    dir: Seq<char>,
    name: Seq<char>,
)
    requires
        !pattern.contains('/'),
        !name.contains('/'),
    ensures
        glob_matches(pattern, dir + seq!['/'] + name) == glob_matches(pattern, name),
{
    let t = trim_spec(pattern);
    if t.len() > 0 {
        assert(!t.contains('/')) by {
            if t.contains('/') {
                let k = choose|k: int| 0 <= k < t.len() && t[k] == '/';
                crate::text::lemma_trim_is_slice(pattern);
                let off = crate::text::leading_ws(crate::text::trim_end_spec(pattern)) as int;
                assert(pattern[k + off] == '/');
            }
        }
        assert(t[t.len() - 1] != '/');
        assert(normalized_pattern(pattern) == t);
        lemma_split_without_sep(t, '/');
        lemma_split_without_sep(name, '/');
        lemma_split_last_after_sep(dir, name, '/');
    }
}

/// A `**` segment crosses directory boundaries: when the rest of the pattern matches from
/// some later path segment on, the pattern from `**` matches from any earlier one.
pub proof fn lemma_double_star_skips_segments(
    segs: Seq<Seq<char>>,
    si: int,
    parts: Seq<Seq<char>>,
    ti: int,
    tj: int,
)
    requires
        0 <= si < segs.len(),
        segs[si] == double_star(),
        0 <= ti <= tj <= parts.len(),
        segments_match_from(segs, si + 1, parts, tj),
    ensures
        segments_match_from(segs, si, parts, ti),
    decreases tj - ti,
{
    if ti < tj {
        lemma_double_star_skips_segments(segs, si, parts, ti + 1, tj);
    }
}


proof fn lemma_split_concat(a: Seq<char>, b: Seq<char>, sep: char)
    ensures
        split_on(a + seq![sep] + b, sep) == split_on(a, sep) + split_on(b, sep),
    decreases b.len(),
{
    let s = a + seq![sep] + b;
    if b.len() == 0 {
        assert(s.drop_last() =~= a);
        assert(split_on(a, sep).push(Seq::<char>::empty()) =~= split_on(a, sep) + seq![
            Seq::<char>::empty(),
        ]);
    } else {
        lemma_split_concat(a, b.drop_last(), sep);
        assert(s.drop_last() =~= a + seq![sep] + b.drop_last());
        assert(s.last() == b.last());
        let x = split_on(a, sep);
        let y = split_on(b.drop_last(), sep);
        crate::text::lemma_split_on_nonempty(b.drop_last(), sep);
        if b.last() == sep {
            assert((x + y).push(Seq::<char>::empty()) =~= x + y.push(Seq::<char>::empty()));
        } else {
            assert((x + y).update(
                (x + y).len() - 1,
                (x + y).last().push(b.last()),
            ) =~= x + y.update(y.len() - 1, y.last().push(b.last())));
        }
    }
}

proof fn lemma_split_pieces_avoid(s: Seq<char>, sep: char, c: char)
    requires
        !s.contains(c),
    ensures
        forall|i: int| 0 <= i < split_on(s, sep).len() ==> !(#[trigger] split_on(s, sep)[i]).contains(c),
    decreases s.len(),
{
    if s.len() > 0 {
        assert(!s.drop_last().contains(c)) by {
            if s.drop_last().contains(c) {
                let k = choose|k: int| 0 <= k < s.drop_last().len() && s.drop_last()[k] == c;
                assert(s[k] == c);
            }
        }
        assert(s[s.len() - 1] != c);
        lemma_split_pieces_avoid(s.drop_last(), sep, c);
        crate::text::lemma_split_on_nonempty(s.drop_last(), sep);
        let rest = split_on(s.drop_last(), sep);
        if s.last() != sep {
            assert forall|i: int| 0 <= i < split_on(s, sep).len() implies !(#[trigger] split_on(
                s,
                sep,
            )[i]).contains(c) by {
                if i == rest.len() - 1 {
                    let piece = rest.last().push(s.last());
                    if piece.contains(c) {
                        let k = choose|k: int| 0 <= k < piece.len() && piece[k] == c;
                        if k < rest.last().len() {
                            assert(rest[rest.len() - 1][k] == c);
                        }
                    }
                } else {
                    assert(split_on(s, sep)[i] == rest[i]);
                }
            }
        }
    }
}

proof fn lemma_literal_matches_itself(p: Seq<char>, i: int)
    requires
        0 <= i <= p.len(),
        !p.contains('*'),
        !p.contains('?'),
        !p.contains('['),
    ensures
        match_from(p, i, p, i),
    decreases p.len() - i,
{
    if i < p.len() {
        assert(p[i] != '*' && p[i] != '?' && p[i] != '[');
        lemma_literal_matches_itself(p, i + 1);
    }
}

proof fn lemma_literal_segments_then_double_star(
    segs: Seq<Seq<char>>,
    parts: Seq<Seq<char>>,
    n: int,
    k: int,
)
    requires
        0 <= k <= n,
        segs.len() == n + 1,
        segs[n] == double_star(),
        n <= parts.len(),
        forall|i: int| 0 <= i < n ==> segs[i] == parts[i],
        forall|i: int|
            0 <= i < n ==> !(#[trigger] segs[i]).contains('*') && !segs[i].contains('?')
                && !segs[i].contains('['),
    ensures
        segments_match_from(segs, k, parts, k),
    decreases n - k,
{
    if k == n {
        lemma_double_star_skips_segments(segs, n, parts, n, parts.len() as int);
    } else {
        lemma_literal_segments_then_double_star(segs, parts, n, k + 1);
        lemma_literal_matches_itself(segs[k], 0);
        assert(segs[k] != double_star()) by {
            assert(double_star()[0] == '*');
            if segs[k] == double_star() {
                assert(segs[k].contains('*'));
            }
        }
    }
}

/// A pattern ending in `/` matches everything beneath that directory: any path that goes
/// on from the directory and a `/`, when the directory's name is literal (no `*`, `?` or
/// `[`).
pub proof fn lemma_trailing_slash_matches_beneath(
    pattern: Seq<char>,
    dir: Seq<char>,
    rest: Seq<char>,
)
    requires
        trim_spec(pattern) == dir + seq!['/'],
        !dir.contains('*'),
        !dir.contains('?'),
        !dir.contains('['),
    ensures
        glob_matches(pattern, dir + seq!['/'] + rest),
{
    let t = trim_spec(pattern);
    assert(t.last() == '/');
    let p = normalized_pattern(pattern);
    assert(p =~= dir + seq!['/'] + double_star());
    lemma_split_concat(dir, double_star(), '/');
    assert(!double_star().contains('/')) by {
        if double_star().contains('/') {
            let k = choose|k: int| 0 <= k < double_star().len() && double_star()[k] == '/';
            assert(k == 0 || k == 1);
        }
    }
    lemma_split_without_sep(double_star(), '/');
    lemma_split_concat(dir, rest, '/');
    let d = split_on(dir, '/');
    let segs = split_on(p, '/');
    let parts = split_on(dir + seq!['/'] + rest, '/');
    crate::text::lemma_split_on_nonempty(rest, '/');
    assert(segs == d + seq![double_star()]);
    assert(parts == d + split_on(rest, '/'));
    lemma_split_pieces_avoid(dir, '/', '*');
    lemma_split_pieces_avoid(dir, '/', '?');
    lemma_split_pieces_avoid(dir, '/', '[');
    assert forall|i: int| 0 <= i < d.len() implies segs[i] == parts[i] && !(#[trigger] segs[
        i
    ]).contains('*') && !segs[i].contains('?') && !segs[i].contains('[') by {
        assert(segs[i] == d[i]);
        assert(parts[i] == d[i]);
    }
    lemma_literal_segments_then_double_star(segs, parts, d.len() as int, 0);
    assert(segs.len() != 1) by {
        crate::text::lemma_split_on_nonempty(dir, '/');
    }
}


/// Literal pattern characters from `pi` match the same characters of the text from `ti`.
proof fn lemma_literal_tail(p: Seq<char>, pi: int, t: Seq<char>, ti: int, stop: int)
    requires
        0 <= pi <= stop <= p.len(),
        0 <= ti,
        ti + (stop - pi) <= t.len(),
        forall|k: int| pi <= k < stop ==> p[k] != '*' && p[k] != '?' && p[k] != '[',
        forall|k: int| pi <= k < stop ==> #[trigger] p[k] == t[ti + (k - pi)],
        match_from(p, stop, t, ti + (stop - pi)),
    ensures
        match_from(p, pi, t, ti),
    decreases stop - pi,
{
    if pi < stop {
        lemma_literal_tail(p, pi + 1, t, ti + 1, stop);
        assert(p[pi] == t[ti]);
    }
}

/// `*` at `pi`, last in the pattern, matches whatever is left of the text from `ti`.
proof fn lemma_final_star(p: Seq<char>, t: Seq<char>, ti: int)
    requires
        p.len() > 0,
        p.last() == '*',
        0 <= ti <= t.len(),
    ensures
        match_from(p, p.len() - 1, t, ti),
    decreases t.len() - ti,
{
    assert(p[p.len() - 1] == '*');
    if ti < t.len() {
        lemma_final_star(p, t, ti + 1);
    } else {
        assert(match_from(p, p.len() as int, t, ti));
    }
}

/// A `*` matches any run of characters, the empty run included: a literal followed by `*`
/// matches every text that starts with the literal, the literal alone too.
pub proof fn lemma_literal_then_star(lit: Seq<char>, rest: Seq<char>)
    requires
        !lit.contains('*'),
        !lit.contains('?'),
        !lit.contains('['),
    ensures
        chars_match(lit + seq!['*'], lit + rest),
        chars_match(lit + seq!['*'], lit),
{
    let p = lit + seq!['*'];
    assert forall|k: int| 0 <= k < lit.len() implies p[k] != '*' && p[k] != '?' && p[k] != '[' by {
        assert(p[k] == lit[k]);
        if p[k] == '*' {
            assert(lit.contains('*'));
        }
        if p[k] == '?' {
            assert(lit.contains('?'));
        }
        if p[k] == '[' {
            assert(lit.contains('['));
        }
    }
    let t = lit + rest;
    lemma_final_star(p, t, lit.len() as int);
    assert forall|k: int| 0 <= k < lit.len() implies #[trigger] p[k] == t[0 + (k - 0)] by {}
    lemma_literal_tail(p, 0, t, 0, lit.len() as int);
    lemma_final_star(p, lit, lit.len() as int);
    assert forall|k: int| 0 <= k < lit.len() implies #[trigger] p[k] == lit[0 + (k - 0)] by {}
    lemma_literal_tail(p, 0, lit, 0, lit.len() as int);
}

/// A leading `*` matches any run of characters, the empty run included: `*` followed by a
/// literal matches every text that ends with the literal, the literal alone too.
pub proof fn lemma_star_then_literal(lit: Seq<char>, front: Seq<char>)
    requires
        !lit.contains('*'),
        !lit.contains('?'),
        !lit.contains('['),
    ensures
        chars_match(seq!['*'] + lit, front + lit),
        chars_match(seq!['*'] + lit, lit),
{
    let p = seq!['*'] + lit;
    assert forall|k: int| 1 <= k < p.len() implies p[k] != '*' && p[k] != '?' && p[k] != '[' by {
        assert(p[k] == lit[k - 1]);
        if p[k] == '*' {
            assert(lit.contains('*'));
        }
        if p[k] == '?' {
            assert(lit.contains('?'));
        }
        if p[k] == '[' {
            assert(lit.contains('['));
        }
    }
    lemma_star_skips(p, front, lit);
    lemma_star_skips(p, Seq::empty(), lit);
    assert(Seq::<char>::empty() + lit =~= lit);
}

proof fn lemma_star_skips(p: Seq<char>, front: Seq<char>, lit: Seq<char>)
    requires
        p == seq!['*'] + lit,
        forall|k: int| 1 <= k < p.len() ==> p[k] != '*' && p[k] != '?' && p[k] != '[',
    ensures
        match_from(p, 0, front + lit, 0),
{
    let t = front + lit;
    assert forall|k: int| 1 <= k < p.len() implies #[trigger] p[k] == t[front.len() + (k - 1)] by {}
    assert(match_from(p, p.len() as int, t, front.len() + (p.len() - 1)));
    lemma_literal_tail(p, 1, t, front.len() as int, p.len() as int);
    lemma_star_walks(p, t, front.len() as int, 0);
}

/// A leading `*` that matches from text position `at` on matches from any earlier one.
proof fn lemma_star_walks(p: Seq<char>, t: Seq<char>, at: int, ti: int)
    requires
        p.len() > 0,
        p[0] == '*',
        0 <= ti <= at <= t.len(),
        match_from(p, 1, t, at),
    ensures
        match_from(p, 0, t, ti),
    decreases at - ti,
{
    if ti < at {
        lemma_star_walks(p, t, at, ti + 1);
    }
}

/// A literal name followed by `*` leaves out every file whose name starts with that
/// literal, at any depth, the literal name itself included (`.env*` matches `.env`).
pub proof fn lemma_name_prefix_pattern(lit: Seq<char>, rest: Seq<char>, dir: Seq<char>)
    requires
        !lit.contains('*'),
        !lit.contains('?'),
        !lit.contains('['),
        !lit.contains('/'),
        !rest.contains('/'),
        lit.len() == 0 || !crate::text::unicode_white_space(lit[0]),
    ensures
        glob_matches(lit + seq!['*'], lit + rest),
        glob_matches(lit + seq!['*'], dir + seq!['/'] + (lit + rest)),
{
    let p = lit + seq!['*'];
    let name = lit + rest;
    assert(!crate::text::unicode_white_space('*'));
    assert(p.last() == '*');
    assert(crate::text::trailing_end(p) == p.len());
    assert(p.take(p.len() as int) =~= p);
    assert(p[0] == if lit.len() == 0 { '*' } else { lit[0] });
    assert(crate::text::leading_ws(p) == 0);
    assert(p.skip(0) =~= p);
    assert(trim_spec(p) == p);
    assert(!p.contains('/')) by {
        if p.contains('/') {
            let k = choose|k: int| 0 <= k < p.len() && p[k] == '/';
            if k < lit.len() {
                assert(lit[k] == '/');
            }
        }
    }
    assert(!name.contains('/')) by {
        if name.contains('/') {
            let k = choose|k: int| 0 <= k < name.len() && name[k] == '/';
            if k < lit.len() {
                assert(lit[k] == '/');
            } else {
                assert(rest[k - lit.len()] == '/');
            }
        }
    }
    assert(normalized_pattern(p) == p);
    lemma_split_without_sep(p, '/');
    lemma_split_without_sep(name, '/');
    lemma_literal_then_star(lit, rest);
    lemma_slashless_pattern_matches_basename(p, dir, name);
}

} // verus!
