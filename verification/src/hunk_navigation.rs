//! What moving between hunks keeps.  On an indexed review whose hunk tables are laid out
//! as their rows are drawn, the hunk header rows ascend, each names its own hunk, and so
//! moving to the next hunk and back (or back and then on) returns to the hunk one was in.
use vstd::prelude::*;

use crate::diff_panel::{
    at_hunk, file_hunk_rows, file_start_or_zero, first_after, hunk_moved_next,
    hunk_moved_previous, hunk_origin, hunk_rows, hunk_rows_upto, last_before,
    selected_header_spec,
};
use crate::state::line_index::{header_at, lookup_spec, IndexRow};
use crate::state::review::{
    file_at_row_spec, is_diff_row, lemma_file_at_row_inverts_starts, lemma_rows_within_capacity, lookup_row_spec,
    rows_before, slot_rows, ContinuousDiff, DiffLoadState, RenderedRow, ReviewState,
};
use crate::state::sorted::{ascending, lemma_count_le_prefix_unique};

verus! {

/// Whether `s` strictly increases.
pub open spec fn strictly_ascending(s: Seq<usize>) -> bool {
    forall|i: int, j: int| 0 <= i < j < s.len() ==> s[i] < s[j]
}

/// Whether the integers of `s` never decrease.
pub open spec fn ascending_ints(s: Seq<int>) -> bool {
    forall|i: int, j: int| 0 <= i <= j < s.len() ==> s[i] <= s[j]
}

/// Whether file `f` shows its hunks: it is not reviewed and its diff is loaded.
pub open spec fn shows_hunks(doc: ContinuousDiff, f: int) -> bool {
    !doc.files@[f].reviewed && doc.files@[f].load is Loaded
}

/// Whether the hunk tables of the files that show their hunks are laid out as their rows
/// are drawn: such a file is not ignored, each hunk of its table is one of its hunks, no
/// section header sits on a hunk's first row, and each hunk starts below the one before.
pub open spec fn hunks_laid_out(doc: ContinuousDiff) -> bool {
    forall|f: int|
        0 <= f < doc.files@.len() && #[trigger] shows_hunks(doc, f) ==> {
            let index = doc.files@[f].load->index;
            let starts = index.starts_of(doc.layout);
            &&& !doc.files@[f].ignored
            &&& starts.len() <= doc.files@[f].load->hunks@.len()
            &&& strictly_ascending(starts)
            &&& forall|h: int|
                0 <= h < starts.len() ==> header_at(
                    index.headers_of(doc.layout),
                    #[trigger] starts[h] as int,
                ) is None
        }
}

/// The header row of hunk `h` of file `f` in the review.
pub open spec fn header_row(doc: ContinuousDiff, f: int, h: int) -> int {
    file_start_or_zero(doc, f) + 1 + doc.files@[f].load->index.starts_of(doc.layout)[h]
}

/// Where file `f` starts and ends in an indexed review.
proof fn lemma_file_span(doc: ContinuousDiff, f: int)
    requires
        doc.wf(),
        doc.index_current(),
        0 <= f < doc.files@.len(),
    ensures
        doc.files@.len() <= usize::MAX,
        doc.index.file_starts@.len() == doc.files@.len(),
        ascending(doc.index.file_starts@),
        doc.index.file_starts@[f] == rows_before(doc.files@, doc.layout, f),
        doc.index.file_starts@[f] + slot_rows(doc.files@[f], doc.layout) == rows_before(
            doc.files@,
            doc.layout,
            f + 1,
        ),
        rows_before(doc.files@, doc.layout, f + 1) <= doc.index.total_rows,
        f + 1 < doc.files@.len() ==> doc.index.file_starts@[f + 1] == rows_before(
            doc.files@,
            doc.layout,
            f + 1,
        ),
{
    vstd::std_specs::vec::axiom_spec_len(&doc.files);
    lemma_rows_within_capacity(doc.files@, doc.layout, doc.files@.len() as int);
}

/// The header row of a hunk shows that hunk, and a diff row just below it belongs to it.
proof fn lemma_header_row_shows_hunk(doc: ContinuousDiff, f: int, h: int)
    requires
        doc.wf(),
        doc.index_current(),
        hunks_laid_out(doc),
        0 <= f < doc.files@.len(),
        shows_hunks(doc, f),
        0 <= h < doc.files@[f].load->index.starts_of(doc.layout).len(),
    ensures
        f < usize::MAX,
        h < usize::MAX,
        f < doc.index.file_starts@.len(),
        lookup_row_spec(doc, header_row(doc, f, h)) == Some(
            RenderedRow::HunkHeader { file_idx: f as usize, hunk_idx: h as usize },
        ),
        lookup_row_spec(doc, header_row(doc, f, h) + 1) matches Some(
            RenderedRow::DiffRow { file_idx, hunk_idx, .. },
        ) ==> file_idx == f && hunk_idx == h,
{
    let files = doc.files@;
    let layout = doc.layout;
    let index = files[f].load->index;
    let hunks = files[f].load->hunks;
    let starts = index.starts_of(layout);
    let headers = index.headers_of(layout);
    let total = index.total_of(layout);
    let fs = doc.index.file_starts@;
    assert(files[f].wf());
    assert(shows_hunks(doc, f));
    lemma_file_span(doc, f);
    vstd::std_specs::vec::axiom_spec_len(&index.hunk_starts);
    vstd::std_specs::vec::axiom_spec_len(&index.split_hunk_starts);
    assert(h < usize::MAX);
    let start = fs[f] as int;
    let row = header_row(doc, f, h);
    assert(row == start + 1 + starts[h]);
    assert(starts[h] < total);
    assert(slot_rows(files[f], layout) == total + 1);
    // The header row itself.
    lemma_file_at_row_inverts_starts(fs, doc.index.total_rows, f, row);
    assert forall|i: int| 0 <= i < h + 1 implies starts[i] <= starts[h] by {
        if i < h {
            assert(starts[i] < starts[h]);
        }
    }
    if h + 1 < starts.len() {
        assert(starts[h] < starts[h + 1]);
    }
    lemma_count_le_prefix_unique(starts, starts[h] as int, h + 1);
    assert(header_at(headers, starts[h] as int) is None);
    assert(lookup_spec(starts, headers, total, starts[h] as int) == Some(
        IndexRow::HunkHeader(h as usize),
    ));
    assert(file_at_row_spec(fs, doc.index.total_rows, row) == Some(
        (f as usize, (starts[h] + 1) as usize),
    ));
    assert(h < hunks@.len());
    // The row below it.
    let next = row + 1;
    if starts[h] + 1 < total {
        lemma_file_at_row_inverts_starts(fs, doc.index.total_rows, f, next);
        let local = starts[h] + 1;
        if header_at(headers, local) is None {
            if h + 1 < starts.len() && starts[h + 1] == local {
                assert forall|i: int| 0 <= i < h + 2 implies starts[i] <= local by {
                    if i < h {
                        assert(starts[i] < starts[h]);
                    }
                }
                if h + 2 < starts.len() {
                    assert(starts[h + 1] < starts[h + 2]);
                }
                lemma_count_le_prefix_unique(starts, local, h + 2);
            } else {
                assert forall|i: int| 0 <= i < h + 1 implies starts[i] <= local by {
                    if i < h {
                        assert(starts[i] < starts[h]);
                    }
                }
                if h + 1 < starts.len() {
                    assert(starts[h] < starts[h + 1]);
                }
                lemma_count_le_prefix_unique(starts, local, h + 1);
            }
        }
    } else {
        assert(next == rows_before(files, layout, f + 1));
        if f + 1 < files.len() {
            lemma_file_span(doc, f + 1);
            assert(slot_rows(files[f + 1], layout) >= 1);
            if f + 2 < files.len() {
                lemma_file_span(doc, f + 2);
            }
            lemma_file_at_row_inverts_starts(fs, doc.index.total_rows, f + 1, next);
        } else {
            lemma_rows_within_capacity(files, layout, files.len() as int);
            assert(next >= doc.index.total_rows);
        }
    }
}

/// The cursor placed on a hunk by a hunk move is read as being in that hunk.
proof fn lemma_origin_at_hunk(doc: ContinuousDiff, f: int, h: int, review: ReviewState)
    requires
        doc.wf(),
        doc.index_current(),
        hunks_laid_out(doc),
        0 <= f < doc.files@.len(),
        shows_hunks(doc, f),
        0 <= h < doc.files@[f].load->index.starts_of(doc.layout).len(),
        (review.continuous_scroll as int, review.selected_row as int) == at_hunk(
            doc,
            header_row(doc, f, h),
        ),
    ensures
        hunk_origin(doc, review) == header_row(doc, f, h),
{
    lemma_header_row_shows_hunk(doc, f, h);
    let row = header_row(doc, f, h);
    let sel = review.selected_row as int;
    if sel == row + 1 {
        assert(is_diff_row(doc, row + 1));
        assert(selected_header_spec(doc, sel) == Some(row));
    } else {
        assert(sel == row);
        assert(selected_header_spec(doc, sel) == Some(row));
    }
}

/// Each hunk header row of the first `n` files is that of a hunk of a file that shows its
/// hunks.
proof fn lemma_hunk_row_source(doc: ContinuousDiff, n: int, k: int) -> (r: (int, int))
    requires
        0 <= n <= doc.files@.len(),
        0 <= k < hunk_rows_upto(doc, n).len(),
    ensures
        0 <= r.0 < n,
        shows_hunks(doc, r.0),
        0 <= r.1 < doc.files@[r.0].load->index.starts_of(doc.layout).len(),
        hunk_rows_upto(doc, n)[k] == header_row(doc, r.0, r.1),
    decreases n,
{
    let before = hunk_rows_upto(doc, n - 1);
    if k < before.len() {
        lemma_hunk_row_source(doc, n - 1, k)
    } else {
        let f = n - 1;
        let own = file_hunk_rows(doc, f);
        assert(hunk_rows_upto(doc, n)[k] == own[k - before.len()]);
        assert(own.len() > 0);
        (f, k - before.len())
    }
}

/// The hunk header rows of the first `n` files ascend and lie above the next file.
proof fn lemma_hunk_rows_ascend(doc: ContinuousDiff, n: int)
    requires
        doc.wf(),
        doc.index_current(),
        hunks_laid_out(doc),
        0 <= n <= doc.files@.len(),
    ensures
        ascending_ints(hunk_rows_upto(doc, n)),
        forall|k: int|
            0 <= k < hunk_rows_upto(doc, n).len() ==> #[trigger] hunk_rows_upto(doc, n)[k]
                < rows_before(doc.files@, doc.layout, n),
    decreases n,
{
    if n > 0 {
        let f = n - 1;
        lemma_hunk_rows_ascend(doc, f);
        lemma_file_span(doc, f);
        let before = hunk_rows_upto(doc, f);
        let own = file_hunk_rows(doc, f);
        let all = hunk_rows_upto(doc, n);
        assert(all == before + own);
        let base = rows_before(doc.files@, doc.layout, f) as int;
        if own.len() > 0 {
            assert(shows_hunks(doc, f));
            let index = doc.files@[f].load->index;
            let starts = index.starts_of(doc.layout);
            assert(doc.files@[f].wf());
            assert(slot_rows(doc.files@[f], doc.layout) == index.total_of(doc.layout) + 1);
            assert forall|k: int| 0 <= k < own.len() implies base < #[trigger] own[k] && own[k]
                < rows_before(doc.files@, doc.layout, n) by {
                assert(own[k] == base + 1 + starts[k]);
                assert(starts[k] < index.total_of(doc.layout));
            }
            assert forall|i: int, j: int| 0 <= i <= j < own.len() implies own[i] <= own[j] by {
                assert(own[i] == base + 1 + starts[i]);
                assert(own[j] == base + 1 + starts[j]);
                if i < j {
                    assert(starts[i] < starts[j]);
                }
            }
        }
        assert forall|i: int, j: int| 0 <= i <= j < all.len() implies all[i] <= all[j] by {
            if j < before.len() {
                assert(all[i] == before[i] && all[j] == before[j]);
            } else if i >= before.len() {
                assert(all[i] == own[i - before.len()] && all[j] == own[j - before.len()]);
            } else {
                assert(all[i] == before[i] && all[j] == own[j - before.len()]);
                assert(before[i] < base);
            }
        }
        assert forall|k: int| 0 <= k < all.len() implies #[trigger] all[k] < rows_before(
            doc.files@,
            doc.layout,
            n,
        ) by {
            if k < before.len() {
                assert(all[k] == before[k]);
                assert(before[k] < base);
            } else {
                assert(all[k] == own[k - before.len()]);
            }
        }
    }
}

/// `first_after` gives the first entry above `x`; `None` when none is.
proof fn lemma_first_after_index(rows: Seq<int>, x: int) -> (k: int)
    ensures
        match first_after(rows, x) {
            Some(v) => 0 <= k < rows.len() && rows[k] == v && v > x && forall|i: int|
                0 <= i < k ==> rows[i] <= x,
            None => forall|i: int| 0 <= i < rows.len() ==> rows[i] <= x,
        },
    decreases rows.len(),
{
    if rows.len() == 0 {
        0
    } else if rows[0] > x {
        0
    } else {
        let k = lemma_first_after_index(rows.drop_first(), x);
        if first_after(rows, x) is Some {
            assert forall|i: int| 0 <= i < k + 1 implies rows[i] <= x by {
                if i > 0 {
                    assert(rows[i] == rows.drop_first()[i - 1]);
                }
            }
        } else {
            assert forall|i: int| 0 <= i < rows.len() implies rows[i] <= x by {
                if i > 0 {
                    assert(rows[i] == rows.drop_first()[i - 1]);
                }
            }
        }
        k + 1
    }
}

/// `last_before` gives the last entry below `x`; `None` when none is.
proof fn lemma_last_before_index(rows: Seq<int>, x: int) -> (k: int)
    ensures
        match last_before(rows, x) {
            Some(v) => 0 <= k < rows.len() && rows[k] == v && v < x && forall|i: int|
                k < i < rows.len() ==> rows[i] >= x,
            None => forall|i: int| 0 <= i < rows.len() ==> rows[i] >= x,
        },
    decreases rows.len(),
{
    if rows.len() == 0 {
        0
    } else if rows.last() < x {
        rows.len() - 1
    } else {
        let k = lemma_last_before_index(rows.drop_last(), x);
        if last_before(rows, x) is Some {
            assert forall|i: int| k < i < rows.len() implies rows[i] >= x by {
                if i < rows.len() - 1 {
                    assert(rows[i] == rows.drop_last()[i]);
                }
            }
        } else {
            assert forall|i: int| 0 <= i < rows.len() implies rows[i] >= x by {
                if i < rows.len() - 1 {
                    assert(rows[i] == rows.drop_last()[i]);
                }
            }
        }
        k
    }
}

/// In ascending rows holding `x`, the last entry below the first entry above `x` is `x`.
proof fn lemma_back_after_forth(rows: Seq<int>, x: int)
    requires
        ascending_ints(rows),
        rows.contains(x),
        first_after(rows, x) is Some,
    ensures
        last_before(rows, first_after(rows, x)->0) == Some(x),
{
    let kx = choose|i: int| 0 <= i < rows.len() && rows[i] == x;
    let ky = lemma_first_after_index(rows, x);
    let y = rows[ky];
    let kz = lemma_last_before_index(rows, y);
    assert(rows[kx] < y);
    assert(last_before(rows, y) is Some);
    assert(kz < ky) by {
        if kz >= ky {
            assert(rows[kz] >= rows[ky]);
        }
    }
    assert(rows[kz] <= x);
    assert(kx <= kz) by {
        if kx > kz {
            assert(rows[kx] >= y);
        }
    }
    assert(rows[kz] >= rows[kx]);
}

/// In ascending rows holding `x`, the first entry above the last entry below `x` is `x`.
proof fn lemma_forth_after_back(rows: Seq<int>, x: int)
    requires
        ascending_ints(rows),
        rows.contains(x),
        last_before(rows, x) is Some,
    ensures
        first_after(rows, last_before(rows, x)->0) == Some(x),
{
    let kx = choose|i: int| 0 <= i < rows.len() && rows[i] == x;
    let ky = lemma_last_before_index(rows, x);
    let y = rows[ky];
    let kz = lemma_first_after_index(rows, y);
    assert(rows[kx] > y);
    assert(first_after(rows, y) is Some);
    assert(kz > ky) by {
        if kz <= ky {
            assert(rows[kz] <= rows[ky]);
        }
    }
    assert(rows[kz] >= x);
    assert(kx >= kz) by {
        if kx < kz {
            assert(rows[kx] <= y);
        }
    }
    assert(rows[kz] <= rows[kx]);
}

/// A hunk header row of the review is read as the origin of a cursor a hunk move put there.
proof fn lemma_origin_at_listed_hunk(doc: ContinuousDiff, row: int, review: ReviewState)
    requires
        doc.wf(),
        doc.index_current(),
        hunks_laid_out(doc),
        hunk_rows(doc).contains(row),
        (review.continuous_scroll as int, review.selected_row as int) == at_hunk(doc, row),
    ensures
        hunk_origin(doc, review) == row,
{
    let rows = hunk_rows(doc);
    let k = choose|i: int| 0 <= i < rows.len() && rows[i] == row;
    let (f, h) = lemma_hunk_row_source(doc, doc.files@.len() as int, k);
    lemma_origin_at_hunk(doc, f, h, review);
}

/// From any row of a hunk, moving to the next hunk and then back to the previous one puts
/// the panel on that hunk, when there was a next hunk: on an indexed review whose hunk
/// tables are laid out as drawn.
pub proof fn lemma_next_hunk_then_previous(
    doc: ContinuousDiff,
    start: ReviewState,
    mid: ReviewState,
    end: ReviewState,
)
    requires
        doc.wf(),
        doc.index_current(),
        hunks_laid_out(doc),
        hunk_rows(doc).contains(hunk_origin(doc, start)),
        first_after(hunk_rows(doc), hunk_origin(doc, start)) is Some,
        hunk_moved_next(start, mid, doc),
        hunk_moved_previous(mid, end, doc),
    ensures
        (end.continuous_scroll as int, end.selected_row as int) == at_hunk(
            doc,
            hunk_origin(doc, start),
        ),
{
    let rows = hunk_rows(doc);
    let x = hunk_origin(doc, start);
    lemma_hunk_rows_ascend(doc, doc.files@.len() as int);
    let ky = lemma_first_after_index(rows, x);
    let y = rows[ky];
    assert(rows.contains(y));
    lemma_origin_at_listed_hunk(doc, y, mid);
    lemma_back_after_forth(rows, x);
}

/// From any row of a hunk, moving to the previous hunk and then on to the next one puts
/// the panel on that hunk, when there was a previous hunk: on an indexed review whose hunk
/// tables are laid out as drawn.
pub proof fn lemma_previous_hunk_then_next(
    doc: ContinuousDiff,
    start: ReviewState,
    mid: ReviewState,
    end: ReviewState,
)
    requires
        doc.wf(),
        doc.index_current(),
        hunks_laid_out(doc),
        hunk_rows(doc).contains(hunk_origin(doc, start)),
        last_before(hunk_rows(doc), hunk_origin(doc, start)) is Some,
        hunk_moved_previous(start, mid, doc),
        hunk_moved_next(mid, end, doc),
    ensures
        (end.continuous_scroll as int, end.selected_row as int) == at_hunk(
            doc,
            hunk_origin(doc, start),
        ),
{
    let rows = hunk_rows(doc);
    let x = hunk_origin(doc, start);
    lemma_hunk_rows_ascend(doc, doc.files@.len() as int);
    let ky = lemma_last_before_index(rows, x);
    let y = rows[ky];
    assert(rows.contains(y));
    lemma_origin_at_listed_hunk(doc, y, mid);
    lemma_forth_after_back(rows, x);
}

} // verus!
