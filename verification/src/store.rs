//! The review's files and the diffs loaded for them so far.
//!
//! Files are kept in tree order: compared directory by directory, with the file
//! name last, so that at each level directories come before files.  Diffs load
//! in the background; a loaded diff is handed back as a [`WorkerResult`] and
//! applied only while the review it was made for is still current.
use vstd::prelude::*;

use crate::git::repository::{DiffHunk, FileEntry, FileStatus};
use crate::glob::{any_glob_matches, matches_any};
use crate::state::diff::DiffLayout;
use crate::state::line_index::{body_rows, starts_below, LineIndex};
use crate::state::sorted::is_ascending;
use crate::state::review::{
    capacity_before, hunks_fit, rows_refer_to_lines, slot_capacity, ContinuousDiff, DiffLoadState, FileKey, FileSlot, ReviewIndex,
    WorkerResult,
};
use crate::state::tree::{key_less, key_lt};
use crate::text::{chars_eq, chars_of, copy_chars, split_chars, split_on, views};

verus! {

/// A path's place in the files tree: its directory names, each marked 0, then its file
/// name, marked 1.
pub open spec fn sort_key(path: Seq<char>) -> Seq<(u8, Seq<char>)> {
    let segs = split_on(path, '/');
    Seq::new(
        segs.len(),
        |i: int|
            (
                if i == segs.len() - 1 {
                    1u8
                } else {
                    0u8
                },
                segs[i],
            ),
    )
}

/// The order of two marked names: by mark, then by name.
pub open spec fn pair_lt(a: (u8, Seq<char>), b: (u8, Seq<char>)) -> bool {
    a.0 < b.0 || (a.0 == b.0 && key_lt(a.1, b.1))
}

/// Lexicographic order of sort keys, a proper prefix first.
pub open spec fn sort_key_lt(a: Seq<(u8, Seq<char>)>, b: Seq<(u8, Seq<char>)>) -> bool
    decreases a.len(),
{
    if a.len() == 0 {
        b.len() > 0
    } else if b.len() == 0 {
        false
    } else if a[0] != b[0] {
        pair_lt(a[0], b[0])
    } else {
        sort_key_lt(a.drop_first(), b.drop_first())
    }
}

/// Whether `a` goes strictly before `b` in tree order.
pub open spec fn entry_before(a: FileEntry, b: FileEntry) -> bool {
    sort_key_lt(sort_key(a.path@), sort_key(b.path@))
}

/// `x` placed into the ordered `s` after every entry it does not go before.
pub open spec fn insert_sorted(s: Seq<FileEntry>, x: FileEntry) -> Seq<FileEntry>
    decreases s.len(),
{
    if s.len() == 0 {
        seq![x]
    } else if entry_before(x, s.last()) {
        insert_sorted(s.drop_last(), x).push(s.last())
    } else {
        s.push(x)
    }
}

/// The entries in tree order, entries of equal place keeping their order.
pub open spec fn sorted_entries(s: Seq<FileEntry>) -> Seq<FileEntry>
    decreases s.len(),
{
    if s.len() == 0 {
        s
    } else {
        insert_sorted(sorted_entries(s.drop_last()), s.last())
    }
}

pub proof fn lemma_insert_sorted_len(s: Seq<FileEntry>, x: FileEntry)
    ensures
        insert_sorted(s, x).len() == s.len() + 1,
    decreases s.len(),
{
    if s.len() > 0 && entry_before(x, s.last()) {
        lemma_insert_sorted_len(s.drop_last(), x);
    }
}

pub proof fn lemma_sorted_entries_len(s: Seq<FileEntry>)
    ensures
        sorted_entries(s).len() == s.len(),
    decreases s.len(),
{
    if s.len() > 0 {
        lemma_sorted_entries_len(s.drop_last());
        lemma_insert_sorted_len(sorted_entries(s.drop_last()), s.last());
    }
}

proof fn lemma_key_lt_irreflexive(a: Seq<char>)
    ensures
        !key_lt(a, a),
    decreases a.len(),
{
    if a.len() > 0 {
        lemma_key_lt_irreflexive(a.drop_first());
    }
}

proof fn lemma_key_lt_transitive(a: Seq<char>, b: Seq<char>, c: Seq<char>)
    requires
        key_lt(a, b),
        key_lt(b, c),
    ensures
        key_lt(a, c),
    decreases a.len(),
{
    if a.len() > 0 && b.len() > 0 && c.len() > 0 && a[0] == b[0] && b[0] == c[0] {
        lemma_key_lt_transitive(a.drop_first(), b.drop_first(), c.drop_first());
    }
}

proof fn lemma_char_u32(x: char, y: char)
    ensures
        x != y ==> (x as u32) != (y as u32),
{
    assert(x as int <= 0x10FFFF);
}

proof fn lemma_key_lt_total(a: Seq<char>, b: Seq<char>)
    ensures
        a == b || key_lt(a, b) || key_lt(b, a),
    decreases a.len(),
{
    if a.len() > 0 && b.len() > 0 && a[0] == b[0] {
        lemma_key_lt_total(a.drop_first(), b.drop_first());
        if a.drop_first() == b.drop_first() {
            assert(a =~= seq![a[0]] + a.drop_first());
            assert(b =~= seq![b[0]] + b.drop_first());
        }
    } else if a.len() > 0 && b.len() > 0 && a[0] != b[0] {
        lemma_char_u32(a[0], b[0]);
    } else if a.len() == 0 && b.len() == 0 {
        assert(a =~= b);
    }
}

proof fn lemma_pair_lt_order(a: (u8, Seq<char>), b: (u8, Seq<char>), c: (u8, Seq<char>))
    ensures
        !pair_lt(a, a),
        pair_lt(a, b) && pair_lt(b, c) ==> pair_lt(a, c),
        a == b || pair_lt(a, b) || pair_lt(b, a),
{
    lemma_key_lt_irreflexive(a.1);
    lemma_key_lt_total(a.1, b.1);
    if pair_lt(a, b) && pair_lt(b, c) && a.0 == b.0 && b.0 == c.0 {
        lemma_key_lt_transitive(a.1, b.1, c.1);
    }
}

proof fn lemma_sort_key_lt_irreflexive(a: Seq<(u8, Seq<char>)>)
    ensures
        !sort_key_lt(a, a),
    decreases a.len(),
{
    if a.len() > 0 {
        lemma_sort_key_lt_irreflexive(a.drop_first());
    }
}

proof fn lemma_sort_key_lt_transitive(
    a: Seq<(u8, Seq<char>)>,
    b: Seq<(u8, Seq<char>)>,
    c: Seq<(u8, Seq<char>)>,
)
    requires
        sort_key_lt(a, b),
        sort_key_lt(b, c),
    ensures
        sort_key_lt(a, c),
    decreases a.len(),
{
    if a.len() > 0 && b.len() > 0 && c.len() > 0 {
        lemma_pair_lt_order(a[0], b[0], c[0]);
        lemma_pair_lt_order(c[0], a[0], b[0]);
        lemma_pair_lt_order(b[0], c[0], a[0]);
        if a[0] == b[0] && b[0] == c[0] {
            lemma_sort_key_lt_transitive(a.drop_first(), b.drop_first(), c.drop_first());
        }
    }
}

proof fn lemma_sort_key_lt_total(a: Seq<(u8, Seq<char>)>, b: Seq<(u8, Seq<char>)>)
    ensures
        a == b || sort_key_lt(a, b) || sort_key_lt(b, a),
    decreases a.len(),
{
    if a.len() > 0 && b.len() > 0 {
        lemma_pair_lt_order(a[0], b[0], b[0]);
        if a[0] == b[0] {
            lemma_sort_key_lt_total(a.drop_first(), b.drop_first());
            if a.drop_first() == b.drop_first() {
                assert(a =~= seq![a[0]] + a.drop_first());
                assert(b =~= seq![b[0]] + b.drop_first());
            }
        }
    } else if a.len() == 0 && b.len() == 0 {
        assert(a =~= b);
    }
}

/// Tree order is a strict weak order on entries: no entry goes before itself, and an entry
/// that goes before neither of two others in a row goes before neither in turn.
proof fn lemma_entry_order(a: FileEntry, b: FileEntry, c: FileEntry)
    ensures
        !entry_before(a, a),
        entry_before(a, b) ==> !entry_before(b, a),
        !entry_before(a, b) && !entry_before(b, c) ==> !entry_before(a, c),
{
    let (ka, kb, kc) = (sort_key(a.path@), sort_key(b.path@), sort_key(c.path@));
    lemma_sort_key_lt_irreflexive(ka);
    if sort_key_lt(ka, kb) && sort_key_lt(kb, ka) {
        lemma_sort_key_lt_transitive(ka, kb, ka);
    }
    lemma_sort_key_lt_total(ka, kb);
    lemma_sort_key_lt_total(kb, kc);
    if !sort_key_lt(ka, kb) && !sort_key_lt(kb, kc) && sort_key_lt(ka, kc) {
        if kb != ka && kc != kb {
            lemma_sort_key_lt_transitive(kc, kb, ka);
            lemma_sort_key_lt_transitive(ka, kc, ka);
        }
        lemma_sort_key_lt_irreflexive(kc);
    }
}

/// No entry of `s` goes before an entry ahead of it.
pub open spec fn in_tree_order(s: Seq<FileEntry>) -> bool {
    forall|i: int, j: int| 0 <= i < j < s.len() ==> !entry_before(#[trigger] s[j], #[trigger] s[i])
}

proof fn lemma_insert_sorted_keeps_order(s: Seq<FileEntry>, x: FileEntry)
    requires
        in_tree_order(s),
    ensures
        in_tree_order(insert_sorted(s, x)),
        insert_sorted(s, x).to_multiset() =~= s.to_multiset().insert(x),
    decreases s.len(),
{
    broadcast use vstd::seq_lib::group_to_multiset_ensures;

    if s.len() == 0 {
        assert(seq![x] =~= Seq::<FileEntry>::empty().push(x));
    } else if entry_before(x, s.last()) {
        let rest = s.drop_last();
        assert(in_tree_order(rest));
        lemma_insert_sorted_keeps_order(rest, x);
        let r = insert_sorted(rest, x);
        assert(s =~= rest.push(s.last()));
        assert forall|k: int| 0 <= k < r.len() implies !entry_before(s.last(), #[trigger] r[k]) by {
            assert(r.contains(r[k]));
            assert(r.to_multiset().count(r[k]) > 0);
            if r[k] == x {
                lemma_entry_order(x, s.last(), x);
            } else {
                assert(rest.to_multiset().count(r[k]) > 0);
                assert(rest.contains(r[k]));
                let i = choose|i: int| 0 <= i < rest.len() && rest[i] == r[k];
                assert(s[i] == rest[i]);
            }
        }
        let out = r.push(s.last());
        assert forall|i: int, j: int| 0 <= i < j < out.len() implies !entry_before(
            #[trigger] out[j],
            #[trigger] out[i],
        ) by {
            if j == out.len() - 1 {
                assert(out[i] == r[i]);
            } else {
                assert(out[i] == r[i] && out[j] == r[j]);
            }
        }
    } else {
        let out = s.push(x);
        assert forall|i: int, j: int| 0 <= i < j < out.len() implies !entry_before(
            #[trigger] out[j],
            #[trigger] out[i],
        ) by {
            if j == out.len() - 1 {
                if i < s.len() - 1 {
                    lemma_entry_order(x, s.last(), s[i]);
                }
            } else {
                assert(out[i] == s[i] && out[j] == s[j]);
            }
        }
    }
}

/// Sorting puts the entries in tree order, and keeps each entry as often as it was there.
pub proof fn lemma_sorted_entries_order(s: Seq<FileEntry>)
    ensures
        in_tree_order(sorted_entries(s)),
        sorted_entries(s).to_multiset() =~= s.to_multiset(),
    decreases s.len(),
{
    broadcast use vstd::seq_lib::group_to_multiset_ensures;

    if s.len() > 0 {
        lemma_sorted_entries_order(s.drop_last());
        lemma_insert_sorted_keeps_order(sorted_entries(s.drop_last()), s.last());
        assert(s =~= s.drop_last().push(s.last()));
    }
}

/// Sort keys as the contracts see them.
pub open spec fn key_model(key: Seq<(u8, Vec<char>)>) -> Seq<(u8, Seq<char>)> {
    key.map_values(|p: (u8, Vec<char>)| (p.0, p.1@))
}

/// The sort key of a path.
fn tree_sort_key(path: &str) -> (key: Vec<(u8, Vec<char>)>)
    ensures
        key_model(key@) == sort_key(path@),
{
    let chars = chars_of(path);
    let segs = split_chars(&chars, '/');
    let last = segs.len() - 1;
    let mut key: Vec<(u8, Vec<char>)> = Vec::new();
    let mut i: usize = 0;
    while i < segs.len()
        invariant
            i <= segs.len(),
            last == segs.len() - 1,
            views(segs@) == split_on(path@, '/'),
            key@.len() == i,
            forall|k: int| 0 <= k < i ==> #[trigger] key_model(key@)[k] == sort_key(path@)[k],
        decreases segs.len() - i,
    {
        let mark: u8 = if i == last {
            1
        } else {
            0
        };
        let ghost before = key@;
        key.push((mark, copy_chars(&segs[i])));
        assert(key_model(key@)[i as int] == sort_key(path@)[i as int]);
        assert forall|k: int| 0 <= k < i implies #[trigger] key_model(key@)[k] == sort_key(
            path@,
        )[k] by {
            assert(key@[k] == before[k]);
            assert(key_model(key@)[k] == key_model(before)[k]);
        }
        i = i + 1;
    }
    assert(key_model(key@) =~= sort_key(path@));
    key
}

/// Whether sort key `a` goes strictly before `b`.
fn sort_key_less(a: &Vec<(u8, Vec<char>)>, b: &Vec<(u8, Vec<char>)>) -> (r: bool)
    ensures
        r == sort_key_lt(key_model(a@), key_model(b@)),
{
    let ghost am = key_model(a@);
    let ghost bm = key_model(b@);
    let mut i: usize = 0;
    assert(am.skip(0) =~= am);
    assert(bm.skip(0) =~= bm);
    while i < a.len() && i < b.len()
        invariant
            i <= a.len(),
            i <= b.len(),
            am == key_model(a@),
            bm == key_model(b@),
            sort_key_lt(am, bm) == sort_key_lt(am.skip(i as int), bm.skip(i as int)),
        decreases a.len() - i,
    {
        let same = a[i].0 == b[i].0 && chars_eq(&a[i].1, &b[i].1);
        assert(am.skip(i as int)[0] == am[i as int]);
        assert(bm.skip(i as int)[0] == bm[i as int]);
        if !same {
            assert(am[i as int] != bm[i as int]);
            return a[i].0 < b[i].0 || (a[i].0 == b[i].0 && key_less(&a[i].1, &b[i].1));
        }
        assert(am.skip(i as int).drop_first() =~= am.skip(i as int + 1));
        assert(bm.skip(i as int).drop_first() =~= bm.skip(i as int + 1));
        i = i + 1;
    }
    i == a.len() && i < b.len()
}

/// Whether entry `a` goes strictly before `b` in tree order.
fn entry_less(a: &FileEntry, b: &FileEntry) -> (r: bool)
    ensures
        r == entry_before(*a, *b),
{
    let ka = tree_sort_key(a.path.as_str());
    let kb = tree_sort_key(b.path.as_str());
    sort_key_less(&ka, &kb)
}

/// Puts the entries in tree order, entries of equal place keeping their order.
pub fn sort_entries(entries: &mut Vec<FileEntry>)
    ensures
        final(entries)@ == sorted_entries(old(entries)@),
{
    let ghost orig = entries@;
    let n = entries.len();
    let mut i: usize = 0;
    assert(orig.take(0) =~= Seq::<FileEntry>::empty());
    assert(entries@.take(0) =~= Seq::<FileEntry>::empty());
    while i < n
        invariant
            n == entries.len(),
            n == orig.len(),
            i <= n,
            entries@.take(i as int) == sorted_entries(orig.take(i as int)),
            entries@.skip(i as int) == orig.skip(i as int),
        decreases n - i,
    {
        let ghost s = sorted_entries(orig.take(i as int));
        let ghost x = orig[i as int];
        proof {
            lemma_sorted_entries_len(orig.take(i as int));
            assert(orig.take(i as int + 1).drop_last() =~= orig.take(i as int));
            assert(entries@[i as int] == entries@.skip(i as int)[0]);
            assert(s.take(i as int) =~= s);
            assert(s.subrange(i as int, i as int) =~= Seq::<FileEntry>::empty());
            assert(insert_sorted(s, x) =~= insert_sorted(s.take(i as int), x) + s.subrange(
                i as int,
                i as int,
            ));
            assert(entries@.subrange(i as int + 1, i as int + 1) =~= Seq::<FileEntry>::empty());
            assert(entries@.skip(i as int + 1) =~= orig.skip(i as int + 1)) by {
                assert forall|k: int| 0 <= k < n - i - 1 implies #[trigger] entries@.skip(
                    i as int + 1,
                )[k] == orig.skip(i as int + 1)[k] by {
                    assert(entries@.skip(i as int)[k + 1] == orig.skip(i as int)[k + 1]);
                }
            }
        }
        let mut j: usize = i;
        while j > 0 && entry_less(&entries[j], &entries[j - 1])
            invariant
                j <= i < n,
                entries.len() == n,
                s.len() == i,
                entries@.take(j as int) == s.take(j as int),
                entries@[j as int] == x,
                entries@.subrange(j as int + 1, i as int + 1) == s.subrange(j as int, i as int),
                entries@.skip(i as int + 1) == orig.skip(i as int + 1),
                insert_sorted(s, x) == insert_sorted(s.take(j as int), x) + s.subrange(
                    j as int,
                    i as int,
                ),
            decreases j,
        {
            let ghost before = entries@;
            proof {
                assert(before[j as int - 1] == s[j as int - 1]) by {
                    assert(before.take(j as int)[j as int - 1] == before[j as int - 1]);
                }
                assert(s.take(j as int).drop_last() =~= s.take(j as int - 1));
                assert(s.take(j as int).last() == s[j as int - 1]);
                assert(s.subrange(j as int - 1, i as int) =~= seq![s[j as int - 1]] + s.subrange(
                    j as int,
                    i as int,
                ));
                assert(insert_sorted(s, x) =~= insert_sorted(s.take(j as int - 1), x) + s.subrange(
                    j as int - 1,
                    i as int,
                ));
            }
            let e = entries.remove(j);
            entries.insert(j - 1, e);
            proof {
                assert(entries@.take(j as int - 1) =~= s.take(j as int - 1));
                assert(entries@.subrange(j as int, i as int + 1) =~= s.subrange(
                    j as int - 1,
                    i as int,
                ));
                assert(entries@.skip(i as int + 1) =~= orig.skip(i as int + 1)) by {
                    assert forall|k: int| 0 <= k < n - i - 1 implies #[trigger] entries@.skip(
                        i as int + 1,
                    )[k] == orig.skip(i as int + 1)[k] by {
                        assert(before.skip(i as int + 1)[k] == orig.skip(i as int + 1)[k]);
                    }
                }
            }
            j = j - 1;
        }
        proof {
            if j > 0 {
                assert(entries@[j as int - 1] == s[j as int - 1]) by {
                    assert(entries@.take(j as int)[j as int - 1] == entries@[j as int - 1]);
                }
                assert(s.take(j as int).last() == s[j as int - 1]);
            }
            assert(insert_sorted(s.take(j as int), x) =~= s.take(j as int).push(x));
            assert(entries@.take(i as int + 1) =~= insert_sorted(s, x)) by {
                assert forall|k: int| 0 <= k < i + 1 implies #[trigger] entries@.take(
                    i as int + 1,
                )[k] == insert_sorted(s, x)[k] by {
                    if k < j {
                        assert(entries@.take(j as int)[k] == s.take(j as int)[k]);
                    } else if k > j {
                        assert(entries@.subrange(j as int + 1, i as int + 1)[k - j - 1]
                            == s.subrange(j as int, i as int)[k - j - 1]);
                    }
                }
            }
        }
        i = i + 1;
    }
    assert(entries@ =~= entries@.take(n as int));
    assert(orig =~= orig.take(n as int));
}

/// The files of a review and the diffs loaded for them, with the settings they were read
/// with.
#[derive(Debug)]
pub struct DiffStore {
    pub continuous_diff: ContinuousDiff,
    pub ignore_patterns: Vec<String>,
    pub ignore_whitespace: bool,
}

/// A background job: the file's index in the review, its path, its earlier path and status.
#[derive(Debug)]
pub struct DiffJob {
    pub file_idx: usize,
    pub path: String,
    pub previous_path: Option<String>,
    pub status: FileStatus,
}

/// The ignore patterns as the contracts see them.
pub open spec fn patterns_model(patterns: Seq<String>) -> Seq<Seq<char>> {
    patterns.map_values(|s: String| s@)
}

/// The file of a review made from an entry: nothing loaded, not reviewed, and ignored when
/// an ignore pattern selects its path.
pub open spec fn fresh_slot(entry: FileEntry, patterns: Seq<Seq<char>>) -> FileSlot {
    FileSlot {
        entry,
        load: DiffLoadState::NotLoaded,
        reviewed: false,
        ignored: any_glob_matches(patterns, entry.path@),
    }
}

/// The review made of entries for a generation: the entries in tree order, each a fresh
/// file, with no index yet and in the unified layout.
pub open spec fn is_fresh_review(
    doc: ContinuousDiff,
    entries: Seq<FileEntry>,
    patterns: Seq<Seq<char>>,
    generation: u64,
) -> bool {
    let sorted = sorted_entries(entries);
    &&& doc.files@.len() == entries.len()
    &&& forall|i: int|
        0 <= i < entries.len() ==> #[trigger] doc.files@[i] == fresh_slot(sorted[i], patterns)
    &&& doc.index.file_starts@.len() == 0
    &&& doc.index.total_rows == 0
    &&& !doc.index_dirty
    &&& doc.generation == generation
    &&& doc.layout == DiffLayout::Unified
}

proof fn lemma_capacity_fresh(files: Seq<FileSlot>, m: int)
    requires
        0 <= m <= files.len(),
        forall|i: int| 0 <= i < files.len() ==> (#[trigger] files[i]).load is NotLoaded,
    ensures
        capacity_before(files, m) == 2 * m,
    decreases m,
{
    if m > 0 {
        lemma_capacity_fresh(files, m - 1);
    }
}

/// The review of `entries` for a generation: the entries put in tree order, each a file with
/// nothing loaded, not reviewed, and ignored when an ignore pattern selects it.
pub fn build_continuous_diff(
    entries: Vec<FileEntry>,
    generation: u64,
    ignore_patterns: &Vec<String>,
) -> (doc: ContinuousDiff)
    requires
        entries.len() <= usize::MAX / 2,
    ensures
        doc.wf(),
        is_fresh_review(doc, entries@, patterns_model(ignore_patterns@), generation),
{
    let ghost pats = patterns_model(ignore_patterns@);
    let ghost n = entries.len();
    let ghost orig = entries@;
    let mut entries = entries;
    sort_entries(&mut entries);
    let ghost sorted = entries@;
    proof {
        lemma_sorted_entries_len(orig);
        assert(entries@.skip(0) =~= entries@);
    }
    let mut files: Vec<FileSlot> = Vec::new();
    let mut k: usize = 0;
    while entries.len() > 0
        invariant
            k + entries.len() == n,
            sorted.len() == n,
            entries@ == sorted.skip(k as int),
            pats == patterns_model(ignore_patterns@),
            files@.len() == k,
            forall|i: int| 0 <= i < k ==> #[trigger] files@[i] == fresh_slot(sorted[i], pats),
        decreases entries.len(),
    {
        let entry = entries.remove(0);
        assert(entry == sorted[k as int]) by {
            assert(sorted.skip(k as int)[0] == sorted[k as int]);
        }
        let ignored = matches_any(ignore_patterns, entry.path.as_str());
        assert(patterns_model(ignore_patterns@) =~= ignore_patterns@.map_values(|s: String| s@));
        files.push(FileSlot { entry, load: DiffLoadState::NotLoaded, reviewed: false, ignored });
        assert(entries@ =~= sorted.skip(k as int + 1));
        k = k + 1;
    }
    proof {
        lemma_capacity_fresh(files@, files@.len() as int);
    }
    let doc = ContinuousDiff {
        files,
        index: ReviewIndex { file_starts: Vec::new(), total_rows: 0 },
        index_dirty: false,
        generation,
        layout: DiffLayout::Unified,
    };
    assert(doc.index.file_starts@.len() == 0);
    doc
}

/// The rows a file may take, if that fits in `usize`.
fn slot_capacity_checked(slot: &FileSlot) -> (r: Option<usize>)
    ensures
        match r {
            Some(c) => c == slot_capacity(*slot),
            None => slot_capacity(*slot) > usize::MAX,
        },
{
    match &slot.load {
        DiffLoadState::Loaded { index, .. } => {
            if index.total_rows > usize::MAX - 2 || index.split_total_rows > usize::MAX - 2
                - index.total_rows {
                None
            } else {
                Some(2 + index.total_rows + index.split_total_rows)
            }
        },
        _ => Some(2),
    }
}

/// Whether the rows a review's files may take fit in `usize` and the index's rows fall
/// within them.
pub open spec fn fits_review(files: Seq<FileSlot>, index: ReviewIndex) -> bool {
    &&& capacity_before(files, files.len() as int) <= usize::MAX
    &&& forall|f: int|
        0 <= f < index.file_starts@.len() ==> #[trigger] index.file_starts@[f] <= capacity_before(
            files,
            f,
        )
    &&& index.total_rows <= capacity_before(files, files.len() as int)
}

/// Whether the rows a review's files may take fit in `usize` and the index's rows fall
/// within them.
fn review_fits(files: &Vec<FileSlot>, index: &ReviewIndex) -> (r: bool)
    ensures
        r == fits_review(files@, *index),
{
    let mut total: usize = 0;
    let mut k: usize = 0;
    while k < files.len()
        invariant
            k <= files.len(),
            total == capacity_before(files@, k as int),
            forall|f: int|
                0 <= f < k && f < index.file_starts@.len() ==> #[trigger] index.file_starts@[f]
                    <= capacity_before(files@, f),
        decreases files.len() - k,
    {
        if k < index.file_starts.len() && index.file_starts[k] > total {
            return false;
        }
        let cap = slot_capacity_checked(&files[k]);
        assert(capacity_before(files@, k as int + 1) == capacity_before(files@, k as int)
            + slot_capacity(files@[k as int]));
        match cap {
            None => {
                proof {
                    lemma_capacity_grows(files@, k as int + 1, files@.len() as int);
                }
                return false;
            },
            Some(c) => {
                if c > usize::MAX - total {
                    proof {
                        lemma_capacity_grows(files@, k as int + 1, files@.len() as int);
                    }
                    return false;
                }
                total = total + c;
            },
        }
        k = k + 1;
    }
    if index.total_rows > total {
        return false;
    }
    index.file_starts.len() <= files.len() || starts_tail_fits(files, index, total)
}

/// Whether the index's starts past the last file fall within the review's rows.
fn starts_tail_fits(files: &Vec<FileSlot>, index: &ReviewIndex, total: usize) -> (r: bool)
    requires
        files.len() <= index.file_starts.len(),
        total == capacity_before(files@, files@.len() as int),
    ensures
        r == forall|f: int|
            files@.len() <= f < index.file_starts@.len() ==> #[trigger] index.file_starts@[f]
                <= capacity_before(files@, f),
{
    let mut k: usize = files.len();
    while k < index.file_starts.len()
        invariant
            files.len() <= k <= index.file_starts.len(),
            total == capacity_before(files@, files@.len() as int),
            forall|f: int|
                files@.len() <= f < k ==> #[trigger] index.file_starts@[f] <= capacity_before(
                    files@,
                    f,
                ),
        decreases index.file_starts.len() - k,
    {
        assert(capacity_before(files@, k as int) == total);
        if index.file_starts[k] > total {
            return false;
        }
        k = k + 1;
    }
    true
}

/// Whether every start row falls before `total`.
fn all_below(starts: &Vec<usize>, total: usize) -> (r: bool)
    ensures
        r == starts_below(starts@, total),
{
    let mut i: usize = 0;
    while i < starts.len()
        invariant
            i <= starts.len(),
            forall|k: int| 0 <= k < i ==> #[trigger] starts@[k] < total,
        decreases starts.len() - i,
    {
        if starts[i] >= total {
            return false;
        }
        i = i + 1;
    }
    true
}

/// Whether every side-by-side row of the hunks names lines of its own hunk.
fn rows_valid(hunks: &Vec<DiffHunk>) -> (r: bool)
    ensures
        r == rows_refer_to_lines(hunks@),
{
    let mut h: usize = 0;
    while h < hunks.len()
        invariant
            h <= hunks.len(),
            forall|a: int, b: int|
                0 <= a < h && 0 <= b < hunks@[a].comparison_rows@.len() ==> {
                    let row = #[trigger] hunks@[a].comparison_rows@[b];
                    &&& row.old_line_idx matches Some(i) ==> i < hunks@[a].lines@.len()
                    &&& row.new_line_idx matches Some(i) ==> i < hunks@[a].lines@.len()
                },
        decreases hunks.len() - h,
    {
        let hunk = &hunks[h];
        let mut r: usize = 0;
        while r < hunk.comparison_rows.len()
            invariant
                h < hunks.len(),
                hunk == &hunks@[h as int],
                r <= hunk.comparison_rows.len(),
                forall|a: int, b: int|
                    0 <= a < h && 0 <= b < hunks@[a].comparison_rows@.len() ==> {
                        let row = #[trigger] hunks@[a].comparison_rows@[b];
                        &&& row.old_line_idx matches Some(i) ==> i < hunks@[a].lines@.len()
                        &&& row.new_line_idx matches Some(i) ==> i < hunks@[a].lines@.len()
                    },
                forall|b: int|
                    0 <= b < r ==> {
                        let row = #[trigger] hunk.comparison_rows@[b];
                        &&& row.old_line_idx matches Some(i) ==> i < hunk.lines@.len()
                        &&& row.new_line_idx matches Some(i) ==> i < hunk.lines@.len()
                    },
            decreases hunk.comparison_rows.len() - r,
        {
            let row = hunk.comparison_rows[r];
            if let Some(i) = row.old_line_idx {
                if i >= hunk.lines.len() {
                    assert(hunks@[h as int].comparison_rows@[r as int] == row);
                    return false;
                }
            }
            if let Some(i) = row.new_line_idx {
                if i >= hunk.lines.len() {
                    assert(hunks@[h as int].comparison_rows@[r as int] == row);
                    return false;
                }
            }
            r = r + 1;
        }
        assert forall|a: int, b: int|
            0 <= a < h + 1 && 0 <= b < hunks@[a].comparison_rows@.len() implies {
                let row = #[trigger] hunks@[a].comparison_rows@[b];
                &&& row.old_line_idx matches Some(i) ==> i < hunks@[a].lines@.len()
                &&& row.new_line_idx matches Some(i) ==> i < hunks@[a].lines@.len()
            } by {
            if a == h {
                assert(hunk.comparison_rows@[b] == hunks@[a].comparison_rows@[b]);
            }
        }
        h = h + 1;
    }
    true
}

/// Whether each hunk's rows fall within the rows of a layout of the tables.
fn hunks_fit_in(hunks: &Vec<DiffHunk>, index: &LineIndex, layout: DiffLayout) -> (r: bool)
    ensures
        r == hunks_fit(hunks@, *index, layout),
{
    let starts = index.hunk_starts_for(layout);
    let total = index.total_rows_for(layout);
    let mut h: usize = 0;
    while h < starts.len() && h < hunks.len()
        invariant
            h <= starts.len(),
            starts@ == index.starts_of(layout),
            total == index.total_of(layout),
            forall|k: int|
                0 <= k < h && k < hunks.len() ==> #[trigger] index.starts_of(layout)[k] + 1
                    + body_rows(hunks@[k], layout) <= index.total_of(layout),
        decreases starts.len() - h,
    {
        let rows = match layout {
            DiffLayout::Unified => hunks[h].lines.len(),
            DiffLayout::SideBySide => hunks[h].comparison_rows.len(),
        };
        assert(rows == body_rows(hunks@[h as int], layout));
        if rows >= total || starts[h] > total - 1 - rows {
            assert(!(index.starts_of(layout)[h as int] + 1 + body_rows(hunks@[h as int], layout)
                <= index.total_of(layout)));
            return false;
        }
        h = h + 1;
    }
    true
}

proof fn lemma_capacity_grows(files: Seq<FileSlot>, m: int, n: int)
    requires
        0 <= m <= n <= files.len(),
    ensures
        capacity_before(files, m) <= capacity_before(files, n),
    decreases n - m,
{
    if m < n {
        lemma_capacity_grows(files, m, n - 1);
    }
}

/// The load state a background result stands for.
pub open spec fn load_of(result: Result<Option<(Vec<DiffHunk>, LineIndex)>, String>) -> DiffLoadState {
    match result {
        Ok(Some((hunks, index))) => DiffLoadState::Loaded { hunks, index },
        Ok(None) => DiffLoadState::Binary,
        Err(e) => DiffLoadState::Error(e),
    }
}

/// Whether a background result applies to the files of a review of a generation: it was
/// made for that generation, names one of the files, its tables are well formed and hold
/// its hunks, and the review's rows still fit.
pub open spec fn result_applies(
    files: Seq<FileSlot>,
    generation: u64,
    index: ReviewIndex,
    msg: WorkerResult,
) -> bool {
    let slot = FileSlot { load: load_of(msg.result), ..files[msg.file_idx as int] };
    &&& msg.generation == generation
    &&& msg.file_idx < files.len()
    &&& slot.wf()
    &&& fits_review(files.update(msg.file_idx as int, slot), index)
}

/// Whether a diff's tables are well formed and hold its hunks, as those `LineIndex::new`
/// builds for the hunks of its sections are.
pub open spec fn payload_wf(result: Result<Option<(Vec<DiffHunk>, LineIndex)>, String>) -> bool {
    load_wf(load_of(result))
}

/// Whether a file's diff is well formed: a loaded one has well-formed tables that hold its
/// hunks in both layouts, and its side-by-side rows name lines of their hunks.
pub open spec fn load_wf(load: DiffLoadState) -> bool {
    match load {
        DiffLoadState::Loaded { hunks, index } => {
            &&& index.wf()
            &&& hunks_fit(hunks@, index, DiffLayout::Unified)
            &&& hunks_fit(hunks@, index, DiffLayout::SideBySide)
            &&& rows_refer_to_lines(hunks@)
        },
        _ => true,
    }
}

/// What a background result owes the review it is polled into: when it is of the review's
/// generation, it names one of the review's files and its tables are well formed.
pub open spec fn result_owed(files: Seq<FileSlot>, generation: u64, msg: WorkerResult) -> bool {
    msg.generation == generation ==> msg.file_idx < files.len() && payload_wf(msg.result)
}

/// A result owed to the review applies exactly when it is of the review's generation and
/// the review's rows still fit in `usize` with it.
pub proof fn lemma_owed_result_applies(
    files: Seq<FileSlot>,
    generation: u64,
    index: ReviewIndex,
    msg: WorkerResult,
)
    requires
        result_owed(files, generation, msg),
    ensures
        result_applies(files, generation, index, msg) == (msg.generation == generation
            && fits_review(files_after(files, msg), index)),
{
}

/// Whether a diff is well formed for the review.
fn load_is_well_formed(load: &DiffLoadState) -> (r: bool)
    ensures
        r == load_wf(*load),
{
    match load {
        DiffLoadState::Loaded { hunks, index } => is_ascending(&index.hunk_starts)
            && is_ascending(&index.split_hunk_starts) && all_below(
            &index.hunk_starts,
            index.total_rows,
        ) && all_below(&index.split_hunk_starts, index.split_total_rows) && hunks_fit_in(
            hunks,
            index,
            DiffLayout::Unified,
        ) && hunks_fit_in(hunks, index, DiffLayout::SideBySide) && rows_valid(hunks),
        _ => true,
    }
}

/// Whether a background result's diff is well formed for the review.
pub fn payload_is_well_formed(result: &Result<Option<(Vec<DiffHunk>, LineIndex)>, String>) -> (r: bool)
    ensures
        r == payload_wf(*result),
{
    match result {
        Ok(Some((hunks, index))) => hunks_fit_in(hunks, index, DiffLayout::Unified)
            && hunks_fit_in(hunks, index, DiffLayout::SideBySide) && rows_valid(hunks)
            && is_ascending(&index.hunk_starts) && is_ascending(&index.split_hunk_starts)
            && all_below(&index.hunk_starts, index.total_rows) && all_below(
            &index.split_hunk_starts,
            index.split_total_rows,
        ),
        _ => true,
    }
}

/// The files once a background result is applied.
pub open spec fn files_after(files: Seq<FileSlot>, msg: WorkerResult) -> Seq<FileSlot> {
    files.update(msg.file_idx as int, FileSlot { load: load_of(msg.result), ..files[msg.file_idx as int] })
}

/// The files after background results are applied in turn, and whether any applied.
pub open spec fn poll_spec(
    files: Seq<FileSlot>,
    generation: u64,
    index: ReviewIndex,
    msgs: Seq<WorkerResult>,
) -> (Seq<FileSlot>, bool)
    decreases msgs.len(),
{
    if msgs.len() == 0 {
        (files, false)
    } else {
        let (before, changed) = poll_spec(files, generation, index, msgs.drop_last());
        if result_applies(before, generation, index, msgs.last()) {
            (files_after(before, msgs.last()), true)
        } else {
            (before, changed)
        }
    }
}

/// The indices, below `n`, of the files that are not ignored, in order.
pub open spec fn loaded_files(files: Seq<FileSlot>, n: int) -> Seq<int>
    decreases n,
{
    if n <= 0 {
        Seq::empty()
    } else if files[n - 1].ignored {
        loaded_files(files, n - 1)
    } else {
        loaded_files(files, n - 1).push(n - 1)
    }
}

/// Whether a job loads file `i` of the review: its index, path, earlier path and status.
pub open spec fn job_for(job: DiffJob, files: Seq<FileSlot>, i: int) -> bool {
    let entry = files[i].entry;
    &&& job.file_idx == i
    &&& job.path@ == entry.path@
    &&& job.status == entry.status
    &&& match (job.previous_path, entry.previous_path) {
        (Some(a), Some(b)) => a@ == b@,
        (None, None) => true,
        _ => false,
    }
}

/// Results made for another generation than the review's, as all results are once the
/// review is reloaded, change nothing when polled.
pub proof fn lemma_stale_results_change_nothing(
    files: Seq<FileSlot>,
    generation: u64,
    index: ReviewIndex,
    msgs: Seq<WorkerResult>,
)
    requires
        forall|i: int| 0 <= i < msgs.len() ==> (#[trigger] msgs[i]).generation != generation,
    ensures
        poll_spec(files, generation, index, msgs) == (files, false),
    decreases msgs.len(),
{
    if msgs.len() > 0 {
        assert(msgs.last() == msgs[msgs.len() - 1]);
        lemma_stale_results_change_nothing(files, generation, index, msgs.drop_last());
    }
}

impl DiffStore {
    /// The store holds a well-formed review.
    pub open spec fn wf(&self) -> bool {
        self.continuous_diff.wf()
    }

    /// A store of the review of `entries` at generation 0.
    pub fn new(entries: Vec<FileEntry>, ignore_patterns: Vec<String>, ignore_whitespace: bool) -> (store:
        DiffStore)
        requires
            entries.len() <= usize::MAX / 2,
        ensures
            store.wf(),
            is_fresh_review(store.continuous_diff, entries@, patterns_model(ignore_patterns@), 0),
            store.ignore_patterns@ == ignore_patterns@,
            store.ignore_whitespace == ignore_whitespace,
    {
        let continuous_diff = build_continuous_diff(entries, 0, &ignore_patterns);
        DiffStore { continuous_diff, ignore_patterns, ignore_whitespace }
    }

    /// Whether diffs are read ignoring whitespace.
    pub fn ignore_whitespace(&self) -> (r: bool)
        ensures
            r == self.ignore_whitespace,
    {
        self.ignore_whitespace
    }

    /// Replaces the review by one of `entries` for the next generation, indexed in the layout
    /// in effect; results of earlier generations no longer apply.
    pub fn reload(&mut self, entries: Vec<FileEntry>)
        requires
            old(self).continuous_diff.generation < u64::MAX,
            entries.len() <= usize::MAX / 2,
        ensures
            final(self).wf(),
            final(self).continuous_diff.index_current(),
            final(self).continuous_diff.files@.len() == entries@.len(),
            forall|i: int|
                0 <= i < entries@.len() ==> #[trigger] final(self).continuous_diff.files@[i]
                    == fresh_slot(
                    sorted_entries(entries@)[i],
                    patterns_model(old(self).ignore_patterns@),
                ),
            final(self).continuous_diff.generation == old(self).continuous_diff.generation + 1,
            final(self).continuous_diff.layout == old(self).continuous_diff.layout,
            !final(self).continuous_diff.index_dirty,
            final(self).ignore_patterns@ == old(self).ignore_patterns@,
            final(self).ignore_whitespace == old(self).ignore_whitespace,
    {
        let next_generation = self.continuous_diff.generation + 1;
        let layout = self.continuous_diff.layout;
        self.continuous_diff = build_continuous_diff(entries, next_generation, &self.ignore_patterns);
        self.continuous_diff.layout = layout;
        self.continuous_diff.rebuild_index();
    }

    /// Applies a diff loaded in the background: when it was made for the current generation,
    /// names a file of the review and its tables are well formed and fit, the file takes the
    /// loaded diff (or binary notice, or error) and the index is marked stale.  Otherwise
    /// nothing changes.  Returns whether it applied.
    pub fn apply_worker_result(&mut self, msg: WorkerResult) -> (applied: bool)
        requires
            old(self).wf(),
        ensures
            final(self).wf(),
            applied == result_applies(
                old(self).continuous_diff.files@,
                old(self).continuous_diff.generation,
                old(self).continuous_diff.index,
                msg,
            ),
            applied ==> final(self).continuous_diff.files@ == files_after(
                old(self).continuous_diff.files@,
                msg,
            ) && final(self).continuous_diff.index_dirty,
            !applied ==> final(self).continuous_diff.files@ == old(self).continuous_diff.files@
                && final(self).continuous_diff.index_dirty == old(self).continuous_diff.index_dirty,
            final(self).continuous_diff.index == old(self).continuous_diff.index,
            final(self).continuous_diff.layout == old(self).continuous_diff.layout,
            final(self).continuous_diff.generation == old(self).continuous_diff.generation,
            final(self).ignore_patterns@ == old(self).ignore_patterns@,
            final(self).ignore_whitespace == old(self).ignore_whitespace,
    {
        let ghost doc = self.continuous_diff;
        if msg.generation != self.continuous_diff.generation || msg.file_idx
            >= self.continuous_diff.files.len() {
            return false;
        }
        let idx = msg.file_idx;
        let load = match msg.result {
            Ok(Some((hunks, index))) => DiffLoadState::Loaded { hunks, index },
            Ok(None) => DiffLoadState::Binary,
            Err(e) => DiffLoadState::Error(e),
        };
        let well_formed = load_is_well_formed(&load);
        if !well_formed {
            return false;
        }
        let mut slot = self.continuous_diff.files.remove(idx);
        let mut old_load = load;
        std::mem::swap(&mut slot.load, &mut old_load);
        self.continuous_diff.files.insert(idx, slot);
        assert(self.continuous_diff.files@ =~= files_after(doc.files@, msg));
        if !review_fits(&self.continuous_diff.files, &self.continuous_diff.index) {
            let mut back = self.continuous_diff.files.remove(idx);
            back.load = old_load;
            self.continuous_diff.files.insert(idx, back);
            assert(self.continuous_diff.files@ =~= doc.files@);
            return false;
        }
        self.continuous_diff.index_dirty = true;
        proof {
            assert forall|i: int| 0 <= i < self.continuous_diff.files@.len() implies (
            #[trigger] self.continuous_diff.files@[i]).wf() by {
                if i != idx {
                    assert(self.continuous_diff.files@[i] == doc.files@[i]);
                }
            }
        }
        true
    }
}

impl DiffStore {
    /// Applies diffs loaded in the background, in the order they came, as
    /// [`DiffStore::apply_worker_result`] does each; returns whether any applied.
    pub fn poll_workers(&mut self, results: Vec<WorkerResult>) -> (changed: bool)
        requires
            old(self).wf(),
            forall|i: int|
                0 <= i < results@.len() ==> result_owed(
                    old(self).continuous_diff.files@,
                    old(self).continuous_diff.generation,
                    #[trigger] results@[i],
                ),
        ensures
            final(self).wf(),
            (final(self).continuous_diff.files@, changed) == poll_spec(
                old(self).continuous_diff.files@,
                old(self).continuous_diff.generation,
                old(self).continuous_diff.index,
                results@,
            ),
            final(self).continuous_diff.index_dirty == (old(self).continuous_diff.index_dirty
                || changed),
            final(self).continuous_diff.index == old(self).continuous_diff.index,
            final(self).continuous_diff.layout == old(self).continuous_diff.layout,
            final(self).continuous_diff.generation == old(self).continuous_diff.generation,
            final(self).ignore_patterns@ == old(self).ignore_patterns@,
            final(self).ignore_whitespace == old(self).ignore_whitespace,
    {
        let ghost files0 = self.continuous_diff.files@;
        let ghost gen = self.continuous_diff.generation;
        let ghost dirty0 = self.continuous_diff.index_dirty;
        let ghost index0 = self.continuous_diff.index;
        let ghost layout0 = self.continuous_diff.layout;
        let ghost pats0 = self.ignore_patterns@;
        let ghost ws0 = self.ignore_whitespace;
        let ghost all = results@;
        assert(all.len() == results.len());
        let mut results = results;
        let mut changed = false;
        let mut k: usize = 0;
        assert(all.take(0) =~= Seq::<WorkerResult>::empty());
        while results.len() > 0
            invariant
                self.wf(),
                k + results.len() == all.len(),
                all.len() <= usize::MAX,
                results@ == all.skip(k as int),
                (self.continuous_diff.files@, changed) == poll_spec(
                    files0,
                    gen,
                    index0,
                    all.take(k as int),
                ),
                self.continuous_diff.index_dirty == (dirty0 || changed),
                self.continuous_diff.index == index0,
                self.continuous_diff.layout == layout0,
                self.continuous_diff.generation == gen,
                self.ignore_patterns@ == pats0,
                self.ignore_whitespace == ws0,
            decreases results.len(),
        {
            let msg = results.remove(0);
            proof {
                assert(msg == all[k as int]) by {
                    assert(all.skip(k as int)[0] == all[k as int]);
                }
                assert(all.take(k as int + 1).drop_last() =~= all.take(k as int));
                assert(all.take(k as int + 1).last() == all[k as int]);
            }
            if self.apply_worker_result(msg) {
                changed = true;
            }
            assert(results@ =~= all.skip(k as int + 1));
            k = k + 1;
        }
        assert(all.take(k as int) =~= all);
        changed
    }

    /// The background jobs of the review: one per file that is not ignored (ignored files
    /// are never loaded), in order, with its path, earlier path and status.
    pub fn worker_jobs(&self) -> (jobs: Vec<DiffJob>)
        ensures
            jobs@.len() == loaded_files(self.continuous_diff.files@, self.continuous_diff.files@.len() as int).len(),
            forall|k: int|
                0 <= k < jobs@.len() ==> job_for(
                    #[trigger] jobs@[k],
                    self.continuous_diff.files@,
                    loaded_files(self.continuous_diff.files@, self.continuous_diff.files@.len() as int)[k],
                ),
    {
        let ghost files = self.continuous_diff.files@;
        let mut jobs: Vec<DiffJob> = Vec::new();
        let mut i: usize = 0;
        while i < self.continuous_diff.files.len()
            invariant
                i <= self.continuous_diff.files.len(),
                files == self.continuous_diff.files@,
                jobs@.len() == loaded_files(files, i as int).len(),
                forall|k: int|
                    0 <= k < jobs@.len() ==> job_for(
                        #[trigger] jobs@[k],
                        files,
                        loaded_files(files, i as int)[k],
                    ),
            decreases self.continuous_diff.files.len() - i,
        {
            let ghost before = loaded_files(files, i as int);
            assert(loaded_files(files, i as int + 1) == if files[i as int].ignored {
                before
            } else {
                before.push(i as int)
            });
            if !self.continuous_diff.files[i].ignored {
                let entry = &self.continuous_diff.files[i].entry;
                let previous_path = match &entry.previous_path {
                    Some(p) => Some(p.clone()),
                    None => None,
                };
                jobs.push(
                    DiffJob { file_idx: i, path: entry.path.clone(), previous_path, status: entry.status },
                );
                assert forall|k: int| 0 <= k < jobs@.len() implies job_for(
                    #[trigger] jobs@[k],
                    files,
                    loaded_files(files, i as int + 1)[k],
                ) by {
                    if k < jobs@.len() - 1 {
                        assert(loaded_files(files, i as int + 1)[k] == before[k]);
                    }
                }
            }
            i = i + 1;
        }
        jobs
    }
}

} // verus!
