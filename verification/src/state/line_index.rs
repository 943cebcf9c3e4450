//! Row positions of the sections and hunks of one file's diff.
//!
//! Each hunk takes one header row and then one row per body row: a line in the
//! unified layout, a comparison row side by side.  When a file has more than
//! one section, each section starts with a header row of its own.
use vstd::prelude::*;

use crate::git::repository::{DiffHunk, DiffSection, DiffSectionKind};
use crate::state::diff::DiffLayout;
use crate::state::sorted::{ascending, count_le_prefix, lemma_count_le_prefix, partition_point_le};

verus! {

/// What a row of a file's diff shows.
#[derive(Debug, Clone, Copy, PartialEq, Eq, Structural)]
pub enum IndexRow {
    SectionHeader(usize),
    HunkHeader(usize),
    DiffLine(usize, usize),
}

/// The rows of a file's diff in both layouts.
#[derive(Debug)]
pub struct LineIndex {
    pub hunk_starts: Vec<usize>,
    pub section_header_rows: Vec<(usize, DiffSectionKind)>,
    pub total_rows: usize,
    pub split_hunk_starts: Vec<usize>,
    pub split_section_header_rows: Vec<(usize, DiffSectionKind)>,
    pub split_total_rows: usize,
}

/// The body rows of a hunk in a layout.
pub open spec fn body_rows(h: DiffHunk, layout: DiffLayout) -> nat {
    match layout {
        DiffLayout::Unified => h.lines@.len(),
        DiffLayout::SideBySide => h.comparison_rows@.len(),
    }
}

/// The start rows of hunks of the given body sizes laid out from `base`, and the row after
/// the last of them.
pub open spec fn hunks_layout(hunks: Seq<DiffHunk>, layout: DiffLayout, base: int) -> (Seq<int>, int)
    decreases hunks.len(),
{
    if hunks.len() == 0 {
        (Seq::<int>::empty(), base)
    } else {
        let (starts, next) = hunks_layout(hunks.drop_last(), layout, base);
        (starts.push(next), next + 1 + body_rows(hunks.last(), layout))
    }
}

/// Hunk start rows, section header rows and the total row count of sections laid out one
/// after another, with a header row before each section when `headers` holds.
pub open spec fn sections_layout(sections: Seq<DiffSection>, layout: DiffLayout, headers: bool) -> (
    Seq<int>,
    Seq<(int, DiffSectionKind)>,
    int,
)
    decreases sections.len(),
{
    if sections.len() == 0 {
        (Seq::<int>::empty(), Seq::<(int, DiffSectionKind)>::empty(), 0)
    } else {
        let (starts, header_rows, next) = sections_layout(sections.drop_last(), layout, headers);
        let section = sections.last();
        let header_rows2 = if headers {
            header_rows.push((next, section.kind))
        } else {
            header_rows
        };
        let base = if headers {
            next + 1
        } else {
            next
        };
        let (hunk_starts, end) = hunks_layout(section.hunks@, layout, base);
        (starts + hunk_starts, header_rows2, end)
    }
}

/// The layout of a file's sections: headers only when there is more than one section.
pub open spec fn file_layout(sections: Seq<DiffSection>, layout: DiffLayout) -> (
    Seq<int>,
    Seq<(int, DiffSectionKind)>,
    int,
) {
    sections_layout(sections, layout, sections.len() > 1)
}

proof fn lemma_hunks_layout(hunks: Seq<DiffHunk>, layout: DiffLayout, base: int)
    ensures
        hunks_layout(hunks, layout, base).0.len() == hunks.len(),
        hunks_layout(hunks, layout, base).1 >= base + hunks.len(),
        forall|i: int|
            0 <= i < hunks.len() ==> base <= #[trigger] hunks_layout(hunks, layout, base).0[i]
                < hunks_layout(hunks, layout, base).1,
        forall|i: int, j: int|
            0 <= i < j < hunks.len() ==> #[trigger] hunks_layout(hunks, layout, base).0[i]
                < #[trigger] hunks_layout(hunks, layout, base).0[j],
    decreases hunks.len(),
{
    if hunks.len() > 0 {
        lemma_hunks_layout(hunks.drop_last(), layout, base);
    }
}

proof fn lemma_sections_layout(sections: Seq<DiffSection>, layout: DiffLayout, headers: bool)
    ensures
        sections_layout(sections, layout, headers).2 >= 0,
        forall|i: int|
            0 <= i < sections_layout(sections, layout, headers).0.len() ==> 0
                <= #[trigger] sections_layout(sections, layout, headers).0[i] < sections_layout(
                sections,
                layout,
                headers,
            ).2,
        forall|i: int, j: int|
            0 <= i < j < sections_layout(sections, layout, headers).0.len() ==> #[trigger] sections_layout(
                sections,
                layout,
                headers,
            ).0[i] < #[trigger] sections_layout(sections, layout, headers).0[j],
        forall|i: int|
            0 <= i < sections_layout(sections, layout, headers).1.len() ==> 0
                <= #[trigger] sections_layout(sections, layout, headers).1[i].0 < sections_layout(
                sections,
                layout,
                headers,
            ).2,
    decreases sections.len(),
{
    if sections.len() > 0 {
        let prev = sections.drop_last();
        lemma_sections_layout(prev, layout, headers);
        let (starts, header_rows, next) = sections_layout(prev, layout, headers);
        let base = if headers {
            next + 1
        } else {
            next
        };
        lemma_hunks_layout(sections.last().hunks@, layout, base);
        let (hs, end) = hunks_layout(sections.last().hunks@, layout, base);
        let all = starts + hs;
        assert forall|i: int, j: int| 0 <= i < j < all.len() implies #[trigger] all[i]
            < #[trigger] all[j] by {
            if j < starts.len() {
            } else if i < starts.len() {
                assert(all[j] == hs[j - starts.len()]);
            } else {
                assert(all[i] == hs[i - starts.len()]);
                assert(all[j] == hs[j - starts.len()]);
            }
        }
        assert forall|i: int| 0 <= i < all.len() implies 0 <= #[trigger] all[i] < end by {
            if i >= starts.len() {
                assert(all[i] == hs[i - starts.len()]);
            }
        }
    }
}

/// Whether the tables agree with one layout of the sections.
pub open spec fn tables_match(
    starts: Seq<usize>,
    header_rows: Seq<(usize, DiffSectionKind)>,
    total: usize,
    expected: (Seq<int>, Seq<(int, DiffSectionKind)>, int),
) -> bool {
    &&& starts.len() == expected.0.len()
    &&& forall|i: int| 0 <= i < starts.len() ==> starts[i] as int == #[trigger] expected.0[i]
    &&& header_rows.len() == expected.1.len()
    &&& forall|i: int|
        0 <= i < header_rows.len() ==> (#[trigger] header_rows[i]).0 as int == expected.1[i].0
            && header_rows[i].1 == expected.1[i].1
    &&& total as int == expected.2
}

/// The first section header on `row`, if any.
pub open spec fn header_at(header_rows: Seq<(usize, DiffSectionKind)>, row: int) -> Option<nat>
    decreases header_rows.len(),
{
    if header_rows.len() == 0 {
        None
    } else if header_rows[0].0 == row {
        Some(0)
    } else {
        match header_at(header_rows.drop_first(), row) {
            Some(i) => Some(i + 1),
            None => None,
        }
    }
}

/// What a row shows, given the tables of one layout.
pub open spec fn lookup_spec(
    starts: Seq<usize>,
    header_rows: Seq<(usize, DiffSectionKind)>,
    total: usize,
    row: int,
) -> Option<IndexRow> {
    if row >= total {
        None
    } else {
        match header_at(header_rows, row) {
            Some(i) => Some(IndexRow::SectionHeader(i as usize)),
            None => {
                let pp = count_le_prefix(starts, row);
                if starts.len() == 0 || pp == 0 {
                    None
                } else {
                    let h = pp - 1;
                    let offset = row - starts[h];
                    if offset == 0 {
                        Some(IndexRow::HunkHeader(h as usize))
                    } else {
                        Some(IndexRow::DiffLine(h as usize, (offset - 1) as usize))
                    }
                }
            },
        }
    }
}

/// Whether every start row falls before `total`.
pub open spec fn starts_below(starts: Seq<usize>, total: usize) -> bool {
    forall|i: int| 0 <= i < starts.len() ==> #[trigger] starts[i] < total
}

impl LineIndex {
    /// The hunk start rows of a layout.
    pub open spec fn starts_of(&self, layout: DiffLayout) -> Seq<usize> {
        match layout {
            DiffLayout::Unified => self.hunk_starts@,
            DiffLayout::SideBySide => self.split_hunk_starts@,
        }
    }

    /// The section header rows of a layout.
    pub open spec fn headers_of(&self, layout: DiffLayout) -> Seq<(usize, DiffSectionKind)> {
        match layout {
            DiffLayout::Unified => self.section_header_rows@,
            DiffLayout::SideBySide => self.split_section_header_rows@,
        }
    }

    /// The row count of a layout.
    pub open spec fn total_of(&self, layout: DiffLayout) -> usize {
        match layout {
            DiffLayout::Unified => self.total_rows,
            DiffLayout::SideBySide => self.split_total_rows,
        }
    }

    /// Hunk start rows ascend and fall within the rows in both layouts.
    pub open spec fn wf(&self) -> bool {
        &&& ascending(self.hunk_starts@)
        &&& ascending(self.split_hunk_starts@)
        &&& starts_below(self.hunk_starts@, self.total_rows)
        &&& starts_below(self.split_hunk_starts@, self.split_total_rows)
    }

    /// Whether the tables describe the given sections.
    pub open spec fn describes(&self, sections: Seq<DiffSection>) -> bool {
        &&& tables_match(
            self.hunk_starts@,
            self.section_header_rows@,
            self.total_rows,
            file_layout(sections, DiffLayout::Unified),
        )
        &&& tables_match(
            self.split_hunk_starts@,
            self.split_section_header_rows@,
            self.split_total_rows,
            file_layout(sections, DiffLayout::SideBySide),
        )
    }

    /// The tables of the given sections in both layouts.  The row counts must fit in `usize`.
    pub fn new(sections: &Vec<DiffSection>) -> (index: LineIndex)
        requires
            file_layout(sections@, DiffLayout::Unified).2 <= usize::MAX,
            file_layout(sections@, DiffLayout::SideBySide).2 <= usize::MAX,
        ensures
            index.describes(sections@),
            index.wf(),
    {
        let (hunk_starts, section_header_rows, total_rows) = layout_tables(
            sections,
            DiffLayout::Unified,
        );
        let (split_hunk_starts, split_section_header_rows, split_total_rows) = layout_tables(
            sections,
            DiffLayout::SideBySide,
        );
        LineIndex {
            hunk_starts,
            section_header_rows,
            total_rows,
            split_hunk_starts,
            split_section_header_rows,
            split_total_rows,
        }
    }

    /// The hunk start rows of a layout.
    pub fn hunk_starts_for(&self, layout: DiffLayout) -> (r: &Vec<usize>)
        ensures
            r@ == self.starts_of(layout),
    {
        match layout {
            DiffLayout::Unified => &self.hunk_starts,
            DiffLayout::SideBySide => &self.split_hunk_starts,
        }
    }

    /// The row count of a layout.
    pub fn total_rows_for(&self, layout: DiffLayout) -> (r: usize)
        ensures
            r == self.total_of(layout),
    {
        match layout {
            DiffLayout::Unified => self.total_rows,
            DiffLayout::SideBySide => self.split_total_rows,
        }
    }

    /// What `global_row` shows in a layout: a section header (the first one on that row),
    /// the header of the last hunk starting at or before it, or a body row of that hunk;
    /// `None` past the last row.
    pub fn lookup_for(&self, global_row: usize, layout: DiffLayout) -> (r: Option<IndexRow>)
        requires
            self.wf(),
        ensures
            r == lookup_spec(
                self.starts_of(layout),
                self.headers_of(layout),
                self.total_of(layout),
                global_row as int,
            ),
            r matches Some(IndexRow::SectionHeader(i)) ==> i < self.headers_of(layout).len(),
    {
        let (starts, header_rows, total) = match layout {
            DiffLayout::Unified => (&self.hunk_starts, &self.section_header_rows, self.total_rows),
            DiffLayout::SideBySide => (
                &self.split_hunk_starts,
                &self.split_section_header_rows,
                self.split_total_rows,
            ),
        };
        if global_row >= total {
            return None;
        }
        match first_header_at(header_rows, global_row) {
            Some(idx) => {
                return Some(IndexRow::SectionHeader(idx));
            },
            None => {},
        }
        if starts.len() == 0 {
            return None;
        }
        let pp = partition_point_le(starts, global_row);
        if pp == 0 {
            return None;
        }
        let hunk_idx = pp - 1;
        proof {
            lemma_count_le_prefix(starts@, global_row as int);
        }
        let offset = global_row - starts[hunk_idx];
        if offset == 0 {
            Some(IndexRow::HunkHeader(hunk_idx))
        } else {
            Some(IndexRow::DiffLine(hunk_idx, offset - 1))
        }
    }

    /// What `global_row` shows in the unified layout.
    pub fn lookup(&self, global_row: usize) -> (r: Option<IndexRow>)
        requires
            self.wf(),
        ensures
            r == lookup_spec(
                self.hunk_starts@,
                self.section_header_rows@,
                self.total_rows,
                global_row as int,
            ),
    {
        self.lookup_for(global_row, DiffLayout::Unified)
    }
}

fn first_header_at(header_rows: &Vec<(usize, DiffSectionKind)>, row: usize) -> (r: Option<usize>)
    ensures
        r == match header_at(header_rows@, row as int) {
            Some(i) => Some(i as usize),
            None => None::<usize>,
        },
        r matches Some(i) ==> i < header_rows.len(),
{
    let mut i: usize = 0;
    assert(header_rows@.skip(0) == header_rows@);
    while i < header_rows.len()
        invariant
            i <= header_rows.len(),
            header_at(header_rows@, row as int) == match header_at(
                header_rows@.skip(i as int),
                row as int,
            ) {
                Some(k) => Some((k + i) as nat),
                None => None::<nat>,
            },
        decreases header_rows.len() - i,
    {
        assert(header_rows@.skip(i as int)[0] == header_rows@[i as int]);
        if header_rows[i].0 == row {
            return Some(i);
        }
        assert(header_rows@.skip(i as int).drop_first() == header_rows@.skip(i as int + 1));
        i = i + 1;
    }
    None
}

/// The tables of one layout of the sections.
fn layout_tables(sections: &Vec<DiffSection>, layout: DiffLayout) -> (r: (
    Vec<usize>,
    Vec<(usize, DiffSectionKind)>,
    usize,
))
    requires
        file_layout(sections@, layout).2 <= usize::MAX,
    ensures
        tables_match(r.0@, r.1@, r.2, file_layout(sections@, layout)),
        ascending(r.0@),
        starts_below(r.0@, r.2),
{
    let show_headers = sections.len() > 1;
    let ghost secs = sections@;
    let ghost full = sections_layout(secs, layout, show_headers);
    let mut hunk_starts: Vec<usize> = Vec::new();
    let mut header_rows: Vec<(usize, DiffSectionKind)> = Vec::new();
    let mut offset: usize = 0;
    let mut s: usize = 0;
    proof {
        assert(secs.take(0) =~= Seq::<DiffSection>::empty());
        lemma_prefix_total(secs, layout, show_headers, 0);
    }
    while s < sections.len()
        invariant
            s <= sections.len(),
            secs == sections@,
            show_headers == (sections.len() > 1),
            full == sections_layout(secs, layout, show_headers),
            full.2 <= usize::MAX,
            tables_match(
                hunk_starts@,
                header_rows@,
                offset,
                sections_layout(secs.take(s as int), layout, show_headers),
            ),
        decreases sections.len() - s,
    {
        let ghost prefix = secs.take(s as int);
        let ghost next_prefix = secs.take(s as int + 1);
        proof {
            assert(next_prefix.drop_last() == prefix);
            lemma_prefix_total(secs, layout, show_headers, s as int + 1);
            lemma_sections_layout(next_prefix, layout, show_headers);
            lemma_base_le_total(next_prefix, layout, show_headers);
        }
        let section = &sections[s];
        if show_headers {
            header_rows.push((offset, section.kind));
            offset = offset + 1;
        }
        let ghost base = offset as int;
        let ghost starts_before = hunk_starts@;
        let mut h: usize = 0;
        proof {
            assert(section.hunks@.take(0) =~= Seq::<DiffHunk>::empty());
        }
        while h < section.hunks.len()
            invariant
                h <= section.hunks.len(),
                section == &secs[s as int],
                base + 0 <= offset,
                hunk_starts@.len() == starts_before.len() + h,
                forall|i: int|
                    0 <= i < starts_before.len() ==> hunk_starts@[i] == starts_before[i],
                forall|i: int|
                    0 <= i < h ==> hunk_starts@[starts_before.len() + i] as int
                        == #[trigger] hunks_layout(section.hunks@.take(h as int), layout, base).0[i],
                offset as int == hunks_layout(section.hunks@.take(h as int), layout, base).1,
                hunks_layout(section.hunks@, layout, base).1 <= usize::MAX,
            decreases section.hunks.len() - h,
        {
            let ghost hs = section.hunks@;
            let ghost prev_layout = hunks_layout(hs.take(h as int), layout, base);
            let ghost prev_starts = hunk_starts@;
            proof {
                assert(hs.take(h as int + 1).drop_last() == hs.take(h as int));
                assert(hs.take(h as int + 1).last() == hs[h as int]);
                lemma_hunks_prefix_total(hs, layout, base, h as int + 1);
                lemma_hunks_layout(hs.take(h as int), layout, base);
            }
            hunk_starts.push(offset);
            proof {
                let next_layout = hunks_layout(hs.take(h as int + 1), layout, base);
                assert(next_layout.0 == prev_layout.0.push(prev_layout.1));
                assert forall|i: int| 0 <= i < h + 1 implies hunk_starts@[starts_before.len() + i]
                    as int == #[trigger] next_layout.0[i] by {
                    if i < h {
                        assert(hunk_starts@[starts_before.len() + i] == prev_starts[starts_before.len() + i]);
                    }
                }
            }
            let hunk = &section.hunks[h];
            let rows = match layout {
                DiffLayout::Unified => hunk.lines.len(),
                DiffLayout::SideBySide => hunk.comparison_rows.len(),
            };
            offset = offset + 1 + rows;
            h = h + 1;
        }
        assert(section.hunks@.take(h as int) == section.hunks@);
        s = s + 1;
        proof {
            let (st, hr, nx) = sections_layout(prefix, layout, show_headers);
            assert(next_prefix.last() == secs[s - 1]);
            let (hst, end) = hunks_layout(secs[s - 1].hunks@, layout, base);
            lemma_hunks_layout(secs[s - 1].hunks@, layout, base);
            assert(hunk_starts@.len() == (st + hst).len());
            assert forall|i: int| 0 <= i < hunk_starts@.len() implies hunk_starts@[i] as int
                == #[trigger] (st + hst)[i] by {
                if i >= st.len() {
                    assert(hunk_starts@[st.len() + (i - st.len())] as int == hst[i - st.len()]);
                }
            }
        }
    }
    proof {
        assert(secs.take(sections.len() as int) == secs);
        lemma_sections_layout(secs, layout, show_headers);
        assert forall|i: int, j: int| 0 <= i <= j < hunk_starts@.len() implies hunk_starts@[i]
            <= hunk_starts@[j] by {
            if i < j {
                assert(full.0[i] < full.0[j]);
            }
        }
        assert forall|i: int| 0 <= i < hunk_starts@.len() implies #[trigger] hunk_starts@[i]
            < offset by {
            assert(full.0[i] < full.2);
        }
    }
    (hunk_starts, header_rows, offset)
}

proof fn lemma_hunks_prefix_total(hunks: Seq<DiffHunk>, layout: DiffLayout, base: int, k: int)
    requires
        0 <= k <= hunks.len(),
    ensures
        hunks_layout(hunks.take(k), layout, base).1 <= hunks_layout(hunks, layout, base).1,
    decreases hunks.len() - k,
{
    if k < hunks.len() {
        lemma_hunks_prefix_total(hunks, layout, base, k + 1);
        assert(hunks.take(k + 1).drop_last() == hunks.take(k));
    } else {
        assert(hunks.take(k) == hunks);
    }
}

proof fn lemma_base_le_total(sections: Seq<DiffSection>, layout: DiffLayout, headers: bool)
    requires
        sections.len() > 0,
    ensures
        ({
            let next = sections_layout(sections.drop_last(), layout, headers).2;
            let base = if headers {
                next + 1
            } else {
                next
            };
            base <= hunks_layout(sections.last().hunks@, layout, base).1
                == sections_layout(sections, layout, headers).2
        }),
{
    let next = sections_layout(sections.drop_last(), layout, headers).2;
    let base = if headers {
        next + 1
    } else {
        next
    };
    lemma_hunks_layout(sections.last().hunks@, layout, base);
}

proof fn lemma_prefix_total(sections: Seq<DiffSection>, layout: DiffLayout, headers: bool, k: int)
    requires
        0 <= k <= sections.len(),
    ensures
        sections_layout(sections.take(k), layout, headers).2 <= sections_layout(
            sections,
            layout,
            headers,
        ).2,
    decreases sections.len() - k,
{
    if k < sections.len() {
        lemma_prefix_total(sections, layout, headers, k + 1);
        let p = sections.take(k + 1);
        assert(p.drop_last() == sections.take(k));
        lemma_base_le_total(p, layout, headers);
    } else {
        assert(sections.take(k) == sections);
    }
}

} // verus!
