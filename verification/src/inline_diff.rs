//! The words that changed between an old and a new line, as character ranges.
//!
//! The two lines are compared word by word; removed words give ranges of the
//! old line and inserted words ranges of the new line, touching or overlapping
//! ranges merged into one.
use vstd::prelude::*;

use crate::text::chars_of;

verus! {

/// A half-open range of character positions.
pub type Range = (usize, usize);

/// Ranges in order.
pub type Ranges = Vec<Range>;

/// What a piece of a word diff does.
#[derive(Debug, Clone, Copy, PartialEq, Eq, Structural)]
pub enum WordChange {
    Equal,
    Delete,
    Insert,
}

/// The pieces of the word-by-word diff of `old` and `new` as `similar` makes them.
pub uninterp spec fn unicode_word_diff(old: Seq<char>, new: Seq<char>) -> Seq<(WordChange, Seq<char>)>;

/// Pieces of a diff as the contracts see them.
pub open spec fn pieces_model(pieces: Seq<(WordChange, String)>) -> Seq<(WordChange, Seq<char>)> {
    pieces.map_values(|p: (WordChange, String)| (p.0, p.1@))
}

/// Calls `similar::TextDiff::from_unicode_words` and walks `iter_all_changes`, handing each
/// change out as its tag and value.  The pieces are a fixed function of the two strings,
/// named here; nothing more of them is claimed.
#[verifier::external_body]
fn word_diff(old: &str, new: &str) -> (pieces: Vec<(WordChange, String)>)
    ensures
        pieces_model(pieces@) == unicode_word_diff(old@, new@),
{
    let diff = similar::TextDiff::from_unicode_words(old, new);
    let mut pieces = Vec::new();
    for change in diff.iter_all_changes() {
        let tag = match change.tag() {
            similar::ChangeTag::Equal => WordChange::Equal,
            similar::ChangeTag::Delete => WordChange::Delete,
            similar::ChangeTag::Insert => WordChange::Insert,
        };
        pieces.push((tag, change.value().to_string()));
    }
    pieces
}

/// The ranges of the old and new lines that pieces of a diff remove and insert, before
/// merging, with the positions reached on each line.
pub open spec fn raw_ranges(pieces: Seq<(WordChange, Seq<char>)>) -> (Seq<(int, int)>, Seq<(int, int)>, int, int)
    decreases pieces.len(),
{
    if pieces.len() == 0 {
        (Seq::empty(), Seq::empty(), 0, 0)
    } else {
        let (olds, news, old_pos, new_pos) = raw_ranges(pieces.drop_last());
        let (tag, value) = pieces.last();
        let len = value.len() as int;
        match tag {
            WordChange::Delete => (olds.push((old_pos, old_pos + len)), news, old_pos + len, new_pos),
            WordChange::Insert => (olds, news.push((new_pos, new_pos + len)), old_pos, new_pos + len),
            WordChange::Equal => (olds, news, old_pos + len, new_pos + len),
        }
    }
}

/// Pieces that all keep their text change nothing: there is no range on either line.
pub proof fn lemma_equal_pieces_change_nothing(pieces: Seq<(WordChange, Seq<char>)>)
    requires
        forall|i: int| 0 <= i < pieces.len() ==> (#[trigger] pieces[i]).0 == WordChange::Equal,
    ensures
        raw_ranges(pieces).0.len() == 0,
        raw_ranges(pieces).1.len() == 0,
        merged(raw_ranges(pieces).0).len() == 0,
        merged(raw_ranges(pieces).1).len() == 0,
    decreases pieces.len(),
{
    if pieces.len() > 0 {
        assert(pieces.last() == pieces[pieces.len() - 1]);
        lemma_equal_pieces_change_nothing(pieces.drop_last());
    }
}

/// Ranges as integers.
pub open spec fn ranges_model(ranges: Seq<(usize, usize)>) -> Seq<(int, int)> {
    ranges.map_values(|r: (usize, usize)| (r.0 as int, r.1 as int))
}

/// The ranges after merging, in one pass: empty ranges dropped, and a range that starts at
/// or before the end of the last kept one extends it.
pub open spec fn merged(ranges: Seq<(int, int)>) -> Seq<(int, int)>
    decreases ranges.len(),
{
    if ranges.len() == 0 {
        Seq::empty()
    } else {
        let m = merged(ranges.drop_last());
        let (start, end) = ranges.last();
        if !(start < end) {
            m
        } else if m.len() > 0 && start <= m.last().1 {
            let (prev_start, prev_end) = m.last();
            m.update(
                m.len() - 1,
                (
                    prev_start,
                    if prev_end < end {
                        end
                    } else {
                        prev_end
                    },
                ),
            )
        } else {
            m.push((start, end))
        }
    }
}

/// Merges touching and overlapping ranges, in order, dropping empty ones.
pub fn merge_ranges(ranges: Ranges) -> (out: Ranges)
    ensures
        ranges_model(out@) == merged(ranges_model(ranges@)),
{
    let ghost all = ranges_model(ranges@);
    let mut out: Ranges = Vec::new();
    let mut i: usize = 0;
    assert(all.take(0) =~= Seq::<(int, int)>::empty());
    while i < ranges.len()
        invariant
            i <= ranges.len(),
            all == ranges_model(ranges@),
            ranges_model(out@) == merged(all.take(i as int)),
        decreases ranges.len() - i,
    {
        let (start, end) = ranges[i];
        proof {
            assert(all.take(i as int + 1).drop_last() =~= all.take(i as int));
            assert(all.take(i as int + 1).last() == (start as int, end as int));
        }
        if start < end {
            let n = out.len();
            if n > 0 && start <= out[n - 1].1 {
                let (prev_start, prev_end) = out[n - 1];
                let new_end = if prev_end < end {
                    end
                } else {
                    prev_end
                };
                out.set(n - 1, (prev_start, new_end));
                assert(ranges_model(out@) =~= merged(all.take(i as int + 1)));
            } else {
                out.push((start, end));
                assert(ranges_model(out@) =~= merged(all.take(i as int + 1)));
            }
        }
        i = i + 1;
    }
    assert(all.take(i as int) =~= all);
    out
}

/// The total length of the values of the pieces that a side sees: equal and removed pieces
/// for the old line, equal and inserted pieces for the new one.
pub open spec fn ranges_fit(pieces: Seq<(WordChange, Seq<char>)>) -> bool {
    let (_, _, old_end, new_end) = raw_ranges(pieces);
    old_end <= usize::MAX && new_end <= usize::MAX
}

proof fn lemma_raw_ranges_grow(pieces: Seq<(WordChange, Seq<char>)>, k: int)
    requires
        0 <= k <= pieces.len(),
    ensures
        raw_ranges(pieces.take(k)).2 <= raw_ranges(pieces).2,
        raw_ranges(pieces.take(k)).3 <= raw_ranges(pieces).3,
        raw_ranges(pieces.take(k)).2 >= 0,
        raw_ranges(pieces.take(k)).3 >= 0,
    decreases pieces.len() - k,
{
    if k < pieces.len() {
        lemma_raw_ranges_grow(pieces, k + 1);
        assert(pieces.take(k + 1).drop_last() =~= pieces.take(k));
    } else {
        assert(pieces.take(k) =~= pieces);
    }
    lemma_raw_ranges_nonneg(pieces.take(k));
}

proof fn lemma_raw_ranges_nonneg(pieces: Seq<(WordChange, Seq<char>)>)
    ensures
        raw_ranges(pieces).2 >= 0,
        raw_ranges(pieces).3 >= 0,
    decreases pieces.len(),
{
    if pieces.len() > 0 {
        lemma_raw_ranges_nonneg(pieces.drop_last());
    }
}

/// The merged ranges of the old and new lines that the pieces of a diff remove and insert;
/// `None` when a line's length does not fit in `usize`.
pub fn ranges_from_changes(pieces: &Vec<(WordChange, String)>) -> (r: Option<(Ranges, Ranges)>)
    ensures
        match r {
            Some((olds, news)) => {
                let raw = raw_ranges(pieces_model(pieces@));
                &&& ranges_fit(pieces_model(pieces@))
                &&& ranges_model(olds@) == merged(raw.0)
                &&& ranges_model(news@) == merged(raw.1)
            },
            None => !ranges_fit(pieces_model(pieces@)),
        },
{
    let ghost all = pieces_model(pieces@);
    let mut old_ranges: Ranges = Vec::new();
    let mut new_ranges: Ranges = Vec::new();
    let mut old_pos: usize = 0;
    let mut new_pos: usize = 0;
    let mut i: usize = 0;
    assert(all.take(0) =~= Seq::<(WordChange, Seq<char>)>::empty());
    while i < pieces.len()
        invariant
            i <= pieces.len(),
            all == pieces_model(pieces@),
            ({
                let raw = raw_ranges(all.take(i as int));
                &&& ranges_model(old_ranges@) == raw.0
                &&& ranges_model(new_ranges@) == raw.1
                &&& old_pos as int == raw.2
                &&& new_pos as int == raw.3
            }),
        decreases pieces.len() - i,
    {
        let value = chars_of(pieces[i].1.as_str());
        let len = value.len();
        proof {
            assert(all.take(i as int + 1).drop_last() =~= all.take(i as int));
            assert(all.take(i as int + 1).last() == all[i as int]);
            assert(all[i as int].1 == value@);
        }
        match pieces[i].0 {
            WordChange::Delete => {
                if len > usize::MAX - old_pos {
                    proof {
                        lemma_raw_ranges_grow(all, i as int + 1);
                        assert(all.take(pieces.len() as int) =~= all);
                    }
                    return None;
                }
                old_ranges.push((old_pos, old_pos + len));
                old_pos = old_pos + len;
            },
            WordChange::Insert => {
                if len > usize::MAX - new_pos {
                    proof {
                        lemma_raw_ranges_grow(all, i as int + 1);
                        assert(all.take(pieces.len() as int) =~= all);
                    }
                    return None;
                }
                new_ranges.push((new_pos, new_pos + len));
                new_pos = new_pos + len;
            },
            WordChange::Equal => {
                if len > usize::MAX - old_pos || len > usize::MAX - new_pos {
                    proof {
                        lemma_raw_ranges_grow(all, i as int + 1);
                        assert(all.take(pieces.len() as int) =~= all);
                    }
                    return None;
                }
                old_pos = old_pos + len;
                new_pos = new_pos + len;
            },
        }
        proof {
            let raw = raw_ranges(all.take(i as int + 1));
            assert(ranges_model(old_ranges@) =~= raw.0);
            assert(ranges_model(new_ranges@) =~= raw.1);
        }
        i = i + 1;
    }
    assert(all.take(i as int) =~= all);
    Some((merge_ranges(old_ranges), merge_ranges(new_ranges)))
}

/// The character ranges of `old` that the word diff removes and of `new` that it inserts,
/// merged; `None` when a line's length does not fit in `usize`.
pub fn changed_ranges(old: &str, new: &str) -> (r: Option<(Ranges, Ranges)>)
    ensures
        match r {
            Some((olds, news)) => {
                let raw = raw_ranges(unicode_word_diff(old@, new@));
                &&& ranges_fit(unicode_word_diff(old@, new@))
                &&& ranges_model(olds@) == merged(raw.0)
                &&& ranges_model(news@) == merged(raw.1)
            },
            None => !ranges_fit(unicode_word_diff(old@, new@)),
        },
{
    let pieces = word_diff(old, new);
    ranges_from_changes(&pieces)
}

/// Whether ranges are in order of their starts.
pub open spec fn starts_ascend(ranges: Seq<(int, int)>) -> bool {
    forall|i: int, j: int| 0 <= i < j < ranges.len() ==> ranges[i].0 <= ranges[j].0
}

/// Whether ranges are non-empty, in order, and apart: each ends before the next starts.
pub open spec fn separated(ranges: Seq<(int, int)>) -> bool {
    &&& forall|i: int| 0 <= i < ranges.len() ==> (#[trigger] ranges[i]).0 < ranges[i].1
    &&& forall|i: int| 0 <= i < ranges.len() - 1 ==> (#[trigger] ranges[i]).1 < ranges[i + 1].0
}

/// Whether a position lies in one of the ranges.
pub open spec fn covers(ranges: Seq<(int, int)>, p: int) -> bool {
    exists|i: int| 0 <= i < ranges.len() && ranges[i].0 <= p < #[trigger] ranges[i].1
}

/// Merging ranges given in order of their starts leaves non-empty ranges, in order and
/// apart, covering exactly the positions the given ranges cover.
pub proof fn lemma_merged_separated(ranges: Seq<(int, int)>)
    requires
        starts_ascend(ranges),
    ensures
        separated(merged(ranges)),
        forall|p: int| covers(merged(ranges), p) <==> covers(ranges, p),
{
    lemma_merged_apart(ranges);
    assert forall|p: int| covers(merged(ranges), p) <==> covers(ranges, p) by {
        lemma_merged_covers(ranges, p);
    }
}

proof fn lemma_merged_apart(ranges: Seq<(int, int)>)
    ensures
        separated(merged(ranges)),
    decreases ranges.len(),
{
    if ranges.len() > 0 {
        let rest = ranges.drop_last();
        lemma_merged_apart(rest);
        let m = merged(rest);
        let (start, end) = ranges.last();
        let r = merged(ranges);
        if start < end {
            assert forall|i: int| 0 <= i < r.len() implies (#[trigger] r[i]).0 < r[i].1 by {
                if i < m.len() && i < r.len() - 1 {
                    assert(r[i] == m[i]);
                }
            }
            assert forall|i: int| 0 <= i < r.len() - 1 implies (#[trigger] r[i]).1 < r[i + 1].0 by {
                assert(r[i] == m[i]);
                if i + 1 < m.len() {
                    assert(r[i + 1].0 == m[i + 1].0);
                }
            }
        }
    }
}

proof fn lemma_covers_rest(ranges: Seq<(int, int)>, p: int)
    requires
        ranges.len() > 0,
    ensures
        covers(ranges, p) <==> (covers(ranges.drop_last(), p) || ranges.last().0 <= p
            < ranges.last().1),
{
    let rest = ranges.drop_last();
    if covers(ranges, p) {
        let i = choose|i: int| 0 <= i < ranges.len() && ranges[i].0 <= p < #[trigger] ranges[i].1;
        if i < rest.len() {
            assert(rest[i] == ranges[i]);
        }
    }
    if covers(rest, p) {
        let i = choose|i: int| 0 <= i < rest.len() && rest[i].0 <= p < #[trigger] rest[i].1;
        assert(ranges[i] == rest[i]);
    }
    if ranges.last().0 <= p < ranges.last().1 {
        assert(ranges[ranges.len() - 1] == ranges.last());
    }
}

proof fn lemma_merged_covers(ranges: Seq<(int, int)>, p: int)
    requires
        starts_ascend(ranges),
    ensures
        covers(merged(ranges), p) <==> covers(ranges, p),
    decreases ranges.len(),
{
    if ranges.len() > 0 {
        let rest = ranges.drop_last();
        assert(starts_ascend(rest));
        lemma_merged_covers(rest, p);
        lemma_merged_apart(rest);
        lemma_covers_rest(ranges, p);
        let m = merged(rest);
        let (start, end) = ranges.last();
        let r = merged(ranges);
        if start < end {
            if m.len() > 0 && start <= m.last().1 {
                let last = m.len() - 1;
                assert(m[last].0 <= start) by {
                    lemma_merged_start_witness(rest, last);
                    let w = choose|w: int| 0 <= w < rest.len() && rest[w].0 == m[last].0;
                    assert(ranges[w] == rest[w]);
                }
                lemma_covers_rest(r, p);
                lemma_covers_rest(m, p);
                assert(r.drop_last() =~= m.drop_last());
            } else {
                assert(r.drop_last() =~= m);
                lemma_covers_rest(r, p);
            }
        }
    }
}

/// Every merged range starts at the start of some given range.
proof fn lemma_merged_start_witness(ranges: Seq<(int, int)>, k: int)
    requires
        0 <= k < merged(ranges).len(),
    ensures
        exists|i: int| 0 <= i < ranges.len() && ranges[i].0 == merged(ranges)[k].0,
    decreases ranges.len(),
{
    let rest = ranges.drop_last();
    let m = merged(rest);
    let (start, end) = ranges.last();
    if !(start < end) {
        lemma_merged_start_witness(rest, k);
        let i = choose|i: int| 0 <= i < rest.len() && rest[i].0 == m[k].0;
        assert(ranges[i] == rest[i]);
    } else if m.len() > 0 && start <= m.last().1 {
        lemma_merged_start_witness(rest, k);
        let i = choose|i: int| 0 <= i < rest.len() && rest[i].0 == m[k].0;
        assert(ranges[i] == rest[i]);
    } else if k < m.len() {
        lemma_merged_start_witness(rest, k);
        let i = choose|i: int| 0 <= i < rest.len() && rest[i].0 == m[k].0;
        assert(ranges[i] == rest[i]);
    } else {
        assert(ranges[ranges.len() - 1].0 == start);
    }
}

} // verus!
