//! Sizes, positions and labels that the screen is drawn from.
use vstd::prelude::*;
use vstd::string::StringExecFns;

use crate::editor::{decimal_chars, decimal_string};
use crate::git::repository::{DiffHunk, FileStatus};
use crate::inline_diff::{
    changed_ranges, merged, ranges_fit, ranges_model, raw_ranges, unicode_word_diff, Range,
};
use crate::state::review::rows_refer_to_lines;
use crate::state::diff::DiffLayout;
use crate::state::line_index::body_rows;
use crate::state::review::{lookup_row_spec, ContinuousDiff, DiffLoadState, RenderedRow};
use crate::state::focus::Focus;
use crate::state::tree::TreeRow;
use crate::text::{chars_of, is_whitespace, string_from_chars, trim_end_len, trim_end_spec};

verus! {

/// The narrowest terminal the screen is drawn in.
pub const MIN_TERMINAL_WIDTH: u16 = 80;

/// The lowest terminal the screen is drawn in.
pub const MIN_TERMINAL_HEIGHT: u16 = 24;

/// The widest terminal in which the sidebar takes a quarter of the width.
pub const SIDEBAR_NARROW_MAX: u16 = 120;

/// Whether the terminal is too small to draw the screen in.
pub fn terminal_is_too_small(width: u16, height: u16) -> (r: bool)
    ensures
        r == (width < MIN_TERMINAL_WIDTH || height < MIN_TERMINAL_HEIGHT),
{
    width < MIN_TERMINAL_WIDTH || height < MIN_TERMINAL_HEIGHT
}

/// The percentage of the width the sidebar takes: none below the minimum width, a quarter
/// up to 120 columns, else fifteen percent.
pub fn sidebar_percentage(width: u16) -> (r: u16)
    ensures
        r == if width < MIN_TERMINAL_WIDTH {
            0u16
        } else if width <= SIDEBAR_NARROW_MAX {
            25u16
        } else {
            15u16
        },
{
    if width < MIN_TERMINAL_WIDTH {
        0
    } else if width <= SIDEBAR_NARROW_MAX {
        25
    } else {
        15
    }
}

/// A size along one axis: a percentage of the space, at most `max`, leaving `margin` on
/// each side.
#[derive(Debug, Clone, Copy)]
pub struct ResponsiveSize {
    pub percent: u16,
    pub max: u16,
    pub margin: u16,
}

/// `a * b`, or `u16::MAX` when that is larger.
pub open spec fn sat_mul16(a: int, b: int) -> int {
    if a * b <= u16::MAX {
        a * b
    } else {
        u16::MAX as int
    }
}

/// `a - b`, or 0 when `b` is larger.
pub open spec fn sat_sub16(a: int, b: int) -> int {
    if a >= b {
        a - b
    } else {
        0
    }
}

/// The size taken of `available`: its percentage, no more than the maximum, and no more
/// than what the margins leave.
pub open spec fn resolve_spec(size: ResponsiveSize, available: int) -> int {
    let after_margin = sat_sub16(available, sat_mul16(size.margin as int, 2));
    let percent = if size.percent < 100 {
        size.percent as int
    } else {
        100
    };
    let fluid = sat_mul16(available, percent) / 100;
    let capped = if fluid < size.max {
        fluid
    } else {
        size.max as int
    };
    if capped < after_margin {
        capped
    } else {
        after_margin
    }
}

impl ResponsiveSize {
    /// A percentage of the space, at most `max`, with no margin.
    pub fn new(percent: u16, max: u16) -> (r: ResponsiveSize)
        ensures
            r.percent == percent,
            r.max == max,
            r.margin == 0,
    {
        ResponsiveSize { percent, max, margin: 0 }
    }

    /// The same size leaving `margin` on each side.
    pub fn with_margin(self, margin: u16) -> (r: ResponsiveSize)
        ensures
            r.percent == self.percent,
            r.max == self.max,
            r.margin == margin,
    {
        ResponsiveSize { margin, ..self }
    }

    /// The size taken of `available`.
    pub fn resolve(self, available: u16) -> (r: u16)
        ensures
            r == resolve_spec(self, available as int),
    {
        let twice = if self.margin <= u16::MAX / 2 {
            self.margin * 2
        } else {
            u16::MAX
        };
        let after_margin = if available >= twice {
            available - twice
        } else {
            0
        };
        let percent = if self.percent < 100 {
            self.percent
        } else {
            100
        };
        let product: u16 = if percent == 0 {
            0
        } else if available <= u16::MAX / percent {
            proof {
                assert(available * percent <= u16::MAX) by (nonlinear_arith)
                    requires
                        percent > 0,
                        available <= u16::MAX / percent,
                ;
            }
            available * percent
        } else {
            proof {
                assert(available * percent > u16::MAX) by (nonlinear_arith)
                    requires
                        percent > 0,
                        available > u16::MAX / percent,
                ;
            }
            u16::MAX
        };
        let fluid = product / 100;
        let capped = if fluid < self.max {
            fluid
        } else {
            self.max
        };
        if capped < after_margin {
            capped
        } else {
            after_margin
        }
    }
}

/// The size of a modal window: across and down.
#[derive(Debug, Clone, Copy)]
pub struct ModalSize {
    pub width: ResponsiveSize,
    pub height: ResponsiveSize,
}

impl ModalSize {
    /// A size from its two axes.
    pub fn new(width: ResponsiveSize, height: ResponsiveSize) -> (r: ModalSize)
        ensures
            r.width == width,
            r.height == height,
    {
        ModalSize { width, height }
    }

    /// The columns and rows taken of a screen.
    pub fn resolve(self, screen_width: u16, screen_height: u16) -> (r: (u16, u16))
        ensures
            r.0 == resolve_spec(self.width, screen_width as int),
            r.1 == resolve_spec(self.height, screen_height as int),
    {
        (self.width.resolve(screen_width), self.height.resolve(screen_height))
    }
}

/// How a modal window is laid out.
#[derive(Debug, Clone, Copy)]
pub struct ModalConfig {
    pub size: ModalSize,
}

impl ModalConfig {
    /// A layout of the given size.
    pub fn new(size: ModalSize) -> (r: ModalConfig)
        ensures
            r.size == size,
    {
        ModalConfig { size }
    }
}

/// The selected row of the files panel, when it is one of the rows.
pub fn get_selected_row(rows: &[TreeRow], selected: Option<usize>) -> (r: Option<usize>)
    ensures
        r == match selected {
            Some(i) => if i < rows@.len() {
                Some(i)
            } else {
                None
            },
            None => None,
        },
{
    match selected {
        Some(i) => {
            if i < rows.len() {
                Some(i)
            } else {
                None
            }
        },
        None => None,
    }
}

/// The age of a commit made at `committed_at` as seen at `now`, in its largest unit:
/// seconds, minutes, hours, days, months of 30 days, or years of 365 days.
pub open spec fn relative_age_spec(committed_at: i64, now: i64) -> Seq<char> {
    let diff = now - committed_at;
    let seconds = if diff > i64::MAX {
        i64::MAX as int
    } else if diff < i64::MIN {
        i64::MIN as int
    } else {
        diff
    };
    if seconds < 0 {
        let years = (-seconds) / 31_536_000;
        if years == 0 {
            "0y"@
        } else {
            "-"@ + decimal_chars(years as nat) + "y"@
        }
    } else if seconds < 60 {
        decimal_chars(seconds as nat) + "s"@
    } else if seconds < 3_600 {
        decimal_chars((seconds / 60) as nat) + "m"@
    } else if seconds < 86_400 {
        decimal_chars((seconds / 3_600) as nat) + "h"@
    } else if seconds < 2_592_000 {
        decimal_chars((seconds / 86_400) as nat) + "d"@
    } else if seconds < 31_536_000 {
        decimal_chars((seconds / 2_592_000) as nat) + "mo"@
    } else {
        decimal_chars((seconds / 31_536_000) as nat) + "y"@
    }
}

/// The digits of `n` followed by a unit.
fn with_unit(n: u64, unit: &str) -> (r: String)
    ensures
        r@ == decimal_chars(n as nat) + unit@,
{
    let digits = decimal_string(n);
    let mut s = string_from_chars(&digits);
    s.append(unit);
    s
}

/// The age of a commit made at `committed_at` as seen at `now`, in its largest unit:
/// seconds, minutes, hours, days, months of 30 days, or years of 365 days.
pub fn relative_age(committed_at: i64, now: i64) -> (r: String)
    ensures
        r@ == relative_age_spec(committed_at, now),
{
    let diff: i128 = now as i128 - committed_at as i128;
    let seconds: i64 = if diff > i64::MAX as i128 {
        i64::MAX
    } else if diff < i64::MIN as i128 {
        i64::MIN
    } else {
        diff as i64
    };
    proof {
        reveal_strlit("s");
        reveal_strlit("m");
        reveal_strlit("h");
        reveal_strlit("d");
        reveal_strlit("mo");
        reveal_strlit("y");
        reveal_strlit("0y");
        reveal_strlit("-");
    }
    if seconds < 0 {
        let magnitude: u64 = if seconds == i64::MIN {
            9223372036854775808u64
        } else {
            (-seconds) as u64
        };
        let years = magnitude / 31_536_000;
        if years == 0 {
            return String::from_str("0y");
        }
        let mut s = String::from_str("-");
        let rest = with_unit(years, "y");
        s.append(rest.as_str());
        return s;
    }
    let secs = seconds as u64;
    if secs < 60 {
        with_unit(secs, "s")
    } else if secs < 3_600 {
        with_unit(secs / 60, "m")
    } else if secs < 86_400 {
        with_unit(secs / 3_600, "h")
    } else if secs < 2_592_000 {
        with_unit(secs / 86_400, "d")
    } else if secs < 31_536_000 {
        with_unit(secs / 2_592_000, "mo")
    } else {
        with_unit(secs / 31_536_000, "y")
    }
}

/// The shortcuts the footer shows, as key and label, for the panel that has the keys.
pub open spec fn shortcuts_spec(focus: Focus) -> Seq<(Seq<char>, Seq<char>)> {
    match focus {
        Focus::Files => seq![("j/k"@, "navigate"@), ("z"@, "collapse"@), ("m"@, "review"@)],
        Focus::Diff => seq![("[/]"@, "hunk"@), ("z"@, "collapse"@), ("m"@, "review"@), ("e"@, "edit"@)],
    }
}

/// Shortcuts as the contracts see them.
pub open spec fn shortcut_texts(items: Seq<(&'static str, &'static str)>) -> Seq<(Seq<char>, Seq<char>)> {
    items.map_values(|p: (&'static str, &'static str)| (p.0@, p.1@))
}

/// The shortcuts the footer shows for the panel that has the keys.
pub fn shortcuts(focus: Focus) -> (r: Vec<(&'static str, &'static str)>)
    ensures
        shortcut_texts(r@) == shortcuts_spec(focus),
{
    let r = match focus {
        Focus::Files => vec![("j/k", "navigate"), ("z", "collapse"), ("m", "review")],
        Focus::Diff => vec![("[/]", "hunk"), ("z", "collapse"), ("m", "review"), ("e", "edit")],
    };
    assert(shortcut_texts(r@) =~= shortcuts_spec(focus));
    r
}

/// The columns the first `k` shortcuts take: one space before the first, three between
/// the others, and each key, a space and its label.
pub open spec fn shortcuts_width(items: Seq<(Seq<char>, Seq<char>)>, k: int) -> int
    decreases k,
{
    if k <= 0 {
        0
    } else {
        shortcuts_width(items, k - 1) + (if k == 1 {
            1int
        } else {
            3int
        }) + items[k - 1].0.len() + 1 + items[k - 1].1.len()
    }
}

/// How many of the shortcuts are shown in `max_width` columns: they are laid out in turn,
/// stopping at the first that does not fit.
pub open spec fn shortcuts_fitting_spec(items: Seq<(Seq<char>, Seq<char>)>, max_width: int) -> nat
    decreases items.len(),
{
    if items.len() == 0 {
        0
    } else {
        let k = shortcuts_fitting_spec(items.drop_last(), max_width);
        if k == items.len() - 1 && shortcuts_width(items, items.len() as int) <= max_width {
            items.len()
        } else {
            k
        }
    }
}

proof fn lemma_width_prefix(items: Seq<(Seq<char>, Seq<char>)>, n: int, k: int)
    requires
        0 <= k <= n <= items.len(),
    ensures
        shortcuts_width(items.take(n), k) == shortcuts_width(items, k),
    decreases k,
{
    if k > 0 {
        lemma_width_prefix(items, n, k - 1);
        assert(items.take(n)[k - 1] == items[k - 1]);
    }
}

proof fn lemma_fitting_stops(items: Seq<(Seq<char>, Seq<char>)>, max_width: int, k: int)
    requires
        0 <= k <= items.len(),
        shortcuts_fitting_spec(items.take(k), max_width) < k,
    ensures
        shortcuts_fitting_spec(items, max_width) == shortcuts_fitting_spec(items.take(k), max_width),
    decreases items.len() - k,
{
    if k < items.len() {
        let next = items.take(k + 1);
        assert(next.drop_last() =~= items.take(k));
        lemma_fitting_stops(items, max_width, k + 1);
    } else {
        assert(items.take(k) =~= items);
    }
}

/// How many of the shortcuts the footer shows in `max_width` columns.
pub fn shortcuts_fitting(items: &Vec<(&'static str, &'static str)>, max_width: usize) -> (r: usize)
    ensures
        r == shortcuts_fitting_spec(shortcut_texts(items@), max_width as int),
{
    let ghost texts = shortcut_texts(items@);
    let mut used: usize = 0;
    let mut k: usize = 0;
    while k < items.len()
        invariant
            k <= items.len(),
            texts == shortcut_texts(items@),
            used == shortcuts_width(texts, k as int),
            used <= max_width,
            shortcuts_fitting_spec(texts.take(k as int), max_width as int) == k,
        decreases items.len() - k,
    {
        let (key, label) = items[k];
        let gap: usize = if k == 0 {
            1
        } else {
            3
        };
        let key_len = key.unicode_len();
        let label_len = label.unicode_len();
        proof {
            assert(texts[k as int] == (key@, label@));
            let next = texts.take(k as int + 1);
            assert(next.drop_last() =~= texts.take(k as int));
            lemma_width_prefix(texts, k as int + 1, k as int + 1);
        }
        let room = max_width - used;
        if gap > room || key_len > room - gap || room - gap - key_len < 1 || label_len > room
            - gap - key_len - 1 {
            proof {
                lemma_fitting_stops(texts, max_width as int, k as int + 1);
            }
            return k;
        }
        used = used + gap + key_len + 1 + label_len;
        k = k + 1;
    }
    assert(texts.take(k as int) =~= texts);
    k
}


/// The columns a shortcut takes: its key, a space and its label.
pub fn item_width(key: &str, label: &str) -> (r: usize)
    requires
        key@.len() + 1 + label@.len() <= usize::MAX,
    ensures
        r == key@.len() + 1 + label@.len(),
{
    chars_of(key).len() + 1 + chars_of(label).len()
}

/// Whether a position lies in one of the ranges.
pub fn in_ranges(index: usize, ranges: &[Range]) -> (r: bool)
    ensures
        r == exists|i: int| 0 <= i < ranges@.len() && ranges@[i].0 <= index < #[trigger] ranges@[i].1,
{
    let mut i: usize = 0;
    while i < ranges.len()
        invariant
            i <= ranges.len(),
            forall|j: int| 0 <= j < i ==> !(ranges@[j].0 <= index < #[trigger] ranges@[j].1),
        decreases ranges.len() - i,
    {
        let (start, end) = ranges[i];
        if start <= index && index < end {
            return true;
        }
        i = i + 1;
    }
    false
}

/// A line number right-aligned in four columns, or four spaces when there is none.
pub open spec fn line_number_spec(n: Option<u32>) -> Seq<char> {
    match n {
        Some(v) => {
            let digits = decimal_chars(v as nat);
            if digits.len() < 4 {
                Seq::new((4 - digits.len()) as nat, |i: int| ' ') + digits
            } else {
                digits
            }
        },
        None => "    "@,
    }
}

/// A line number right-aligned in four columns, or four spaces when there is none.
pub fn line_number(number: Option<u32>) -> (r: String)
    ensures
        r@ == line_number_spec(number),
{
    match number {
        None => {
            proof {
                reveal_strlit("    ");
            }
            String::from_str("    ")
        },
        Some(v) => {
            let digits = decimal_string(v as u64);
            let mut padded: Vec<char> = Vec::new();
            let mut k: usize = digits.len();
            while k < 4
                invariant
                    digits.len() <= k <= 4 || digits.len() >= 4 && k == digits.len(),
                    padded@ == Seq::new((k - digits.len()) as nat, |i: int| ' '),
                decreases 4 - k,
            {
                padded.push(' ');
                assert(padded@ =~= Seq::new((k + 1 - digits.len()) as nat, |i: int| ' '));
                k = k + 1;
            }
            let mut rest = digits;
            let ghost d = rest@;
            padded.append(&mut rest);
            proof {
                if d.len() >= 4 {
                    assert(padded@ =~= d);
                }
            }
            string_from_chars(&padded)
        },
    }
}

/// The letter shown for a file's status.
pub fn file_status_symbol(status: FileStatus) -> (r: &'static str)
    ensures
        r@ == match status {
            FileStatus::Staged => "S"@,
            FileStatus::Partial => "P"@,
            FileStatus::Unstaged => "M"@,
            FileStatus::Untracked => "U"@,
            FileStatus::Conflicted => "C"@,
        },
{
    match status {
        FileStatus::Staged => "S",
        FileStatus::Partial => "P",
        FileStatus::Unstaged => "M",
        FileStatus::Untracked => "U",
        FileStatus::Conflicted => "C",
    }
}

/// The characters with each tab replaced by four spaces.
pub open spec fn expand_tabs(s: Seq<char>) -> Seq<char>
    decreases s.len(),
{
    if s.len() == 0 {
        s
    } else if s.last() == '\t' {
        expand_tabs(s.drop_last()) + seq![' ', ' ', ' ', ' ']
    } else {
        expand_tabs(s.drop_last()).push(s.last())
    }
}

/// A line's content as shown: trailing whitespace removed and tabs as four spaces.
pub fn display_content(content: &str) -> (r: String)
    ensures
        r@ == expand_tabs(trim_end_spec(content@)),
{
    let chars = chars_of(content);
    let end = trim_end_len(&chars);
    proof {
        crate::text::lemma_trailing_end_bound(chars@);
    }
    let ghost t = chars@.take(end as int);
    let mut out: Vec<char> = Vec::new();
    let mut i: usize = 0;
    assert(t.take(0) =~= Seq::<char>::empty());
    while i < end
        invariant
            i <= end <= chars.len(),
            t == chars@.take(end as int),
            out@ == expand_tabs(t.take(i as int)),
        decreases end - i,
    {
        proof {
            assert(t.take(i as int + 1).drop_last() =~= t.take(i as int));
            assert(t.take(i as int + 1).last() == chars@[i as int]);
        }
        if chars[i] == '\t' {
            out.push(' ');
            out.push(' ');
            out.push(' ');
            out.push(' ');
            assert(out@ =~= expand_tabs(t.take(i as int + 1)));
        } else {
            out.push(chars[i]);
        }
        i = i + 1;
    }
    assert(t.take(end as int) =~= t);
    string_from_chars(&out)
}

/// Where the cursor is among the hunks of a file: the file, the hunk (counted from one) and
/// how many hunks the file has, the line within the hunk and how many lines it has.
#[derive(Debug, Clone, Copy, PartialEq, Eq, Structural)]
pub struct HunkPosition {
    pub file_idx: Option<usize>,
    pub selected_hunk: usize,
    pub hunk_count: usize,
    pub selected_line: usize,
    pub line_count: usize,
}

impl HunkPosition {
    /// The position when there are hunks.
    pub fn active(self) -> (r: Option<HunkPosition>)
        ensures
            r == if self.hunk_count > 0 {
                Some(self)
            } else {
                None
            },
    {
        if self.hunk_count > 0 {
            Some(self)
        } else {
            None
        }
    }

    /// The position for a file of the review: none when it is another file's.
    pub fn for_file(self, file_idx: usize) -> (r: Option<HunkPosition>)
        ensures
            r == match self.file_idx {
                Some(idx) if idx != file_idx => None,
                _ => if self.hunk_count > 0 {
                    Some(self)
                } else {
                    None
                },
            },
    {
        match self.file_idx {
            Some(idx) => {
                if idx != file_idx {
                    return None;
                }
                self.active()
            },
            None => self.active(),
        }
    }
}

/// Where the row at the top of the view lies among the hunks of its file.
pub open spec fn hunk_position_spec(doc: ContinuousDiff, scroll: int) -> HunkPosition {
    let none = HunkPosition {
        file_idx: None,
        selected_hunk: 0,
        hunk_count: 0,
        selected_line: 0,
        line_count: 0,
    };
    let at = |f: usize, h: usize, line: usize|
        {
            let (total, count) = match doc.files@[f as int].load {
                DiffLoadState::Loaded { hunks, .. } => (
                    hunks@.len() as usize,
                    body_rows(hunks@[h as int], doc.layout) as usize,
                ),
                _ => (0usize, 0usize),
            };
            HunkPosition {
                file_idx: Some(f),
                selected_hunk: (h + 1) as usize,
                hunk_count: total,
                selected_line: line,
                line_count: count,
            }
        };
    match lookup_row_spec(doc, scroll) {
        Some(RenderedRow::HunkHeader { file_idx, hunk_idx }) => at(file_idx, hunk_idx, 0),
        Some(RenderedRow::DiffRow { file_idx, hunk_idx, row_idx }) => at(file_idx, hunk_idx, row_idx),
        _ => none,
    }
}

/// Where the row at the top of the view lies among the hunks of its file.
pub fn hunk_position(doc: &ContinuousDiff, scroll: usize) -> (r: HunkPosition)
    requires
        doc.wf(),
    ensures
        r == hunk_position_spec(*doc, scroll as int),
{
    let (file_idx, hunk_idx, line) = match doc.lookup_row(scroll) {
        Some(RenderedRow::HunkHeader { file_idx, hunk_idx }) => (file_idx, hunk_idx, 0),
        Some(RenderedRow::DiffRow { file_idx, hunk_idx, row_idx }) => (file_idx, hunk_idx, row_idx),
        _ => {
            return HunkPosition {
                file_idx: None,
                selected_hunk: 0,
                hunk_count: 0,
                selected_line: 0,
                line_count: 0,
            };
        },
    };
    let (total, count) = match &doc.files[file_idx].load {
        DiffLoadState::Loaded { hunks, .. } => {
            let count = match doc.layout {
                DiffLayout::Unified => hunks[hunk_idx].lines.len(),
                DiffLayout::SideBySide => hunks[hunk_idx].comparison_rows.len(),
            };
            (hunks.len(), count)
        },
        _ => (0, 0),
    };
    HunkPosition {
        file_idx: Some(file_idx),
        selected_hunk: hunk_idx + 1,
        hunk_count: total,
        selected_line: line,
        line_count: count,
    }
}

/// The first side-by-side row of a hunk that pairs a removed line with an added line, one of
/// them being line `line_idx`.
pub open spec fn paired_from(hunk: DiffHunk, line_idx: usize, k: int) -> Option<(usize, usize)>
    decreases hunk.comparison_rows@.len() - k,
{
    if k < 0 || k >= hunk.comparison_rows@.len() {
        None
    } else {
        let row = hunk.comparison_rows@[k];
        match (row.old_line_idx, row.new_line_idx) {
            (Some(o), Some(n)) => if (o == line_idx || n == line_idx) && hunk.lines@[o as int].origin
                == '-' && hunk.lines@[n as int].origin == '+' {
                Some((o, n))
            } else {
                paired_from(hunk, line_idx, k + 1)
            },
            _ => paired_from(hunk, line_idx, k + 1),
        }
    }
}

/// The character ranges of line `line_idx` of a hunk that changed against the line it is
/// paired with: none for context lines or unpaired lines; `None` when a line's length does
/// not fit in `usize`.
pub open spec fn inline_ranges_spec(hunk: DiffHunk, line_idx: usize) -> Option<Seq<(int, int)>> {
    let origin = hunk.lines@[line_idx as int].origin;
    if origin != '+' && origin != '-' {
        Some(Seq::empty())
    } else {
        match paired_from(hunk, line_idx, 0) {
            None => Some(Seq::empty()),
            Some((o, n)) => {
                let old = expand_tabs(trim_end_spec(hunk.lines@[o as int].content@));
                let new = expand_tabs(trim_end_spec(hunk.lines@[n as int].content@));
                let pieces = unicode_word_diff(old, new);
                if ranges_fit(pieces) {
                    let raw = raw_ranges(pieces);
                    Some(
                        if line_idx == o {
                            merged(raw.0)
                        } else {
                            merged(raw.1)
                        },
                    )
                } else {
                    None
                }
            },
        }
    }
}

/// The first side-by-side row of a hunk that pairs a removed line with an added line, one of
/// them being line `line_idx`.
fn find_pair(hunk: &DiffHunk, line_idx: usize) -> (r: Option<(usize, usize)>)
    requires
        rows_refer_to_lines(seq![*hunk]),
    ensures
        r == paired_from(*hunk, line_idx, 0),
        r matches Some((o, n)) ==> o < hunk.lines@.len() && n < hunk.lines@.len(),
{
    assert(seq![*hunk][0] == *hunk);
    let mut k: usize = 0;
    while k < hunk.comparison_rows.len()
        invariant
            k <= hunk.comparison_rows.len(),
            rows_refer_to_lines(seq![*hunk]),
            seq![*hunk][0] == *hunk,
            paired_from(*hunk, line_idx, 0) == paired_from(*hunk, line_idx, k as int),
        decreases hunk.comparison_rows.len() - k,
    {
        let row = hunk.comparison_rows[k];
        assert(seq![*hunk][0].comparison_rows@[k as int] == row);
        if let (Some(o), Some(n)) = (row.old_line_idx, row.new_line_idx) {
            if (o == line_idx || n == line_idx) && hunk.lines[o].origin == '-' && hunk.lines[n].origin
                == '+' {
                return Some((o, n));
            }
        }
        k = k + 1;
    }
    None
}

/// The character ranges of line `line_idx` of a hunk that changed against the line it is
/// paired with side by side.
pub fn inline_ranges(hunk: &DiffHunk, line_idx: usize) -> (r: Option<Vec<Range>>)
    requires
        line_idx < hunk.lines@.len(),
        rows_refer_to_lines(seq![*hunk]),
    ensures
        match inline_ranges_spec(*hunk, line_idx) {
            Some(rs) => r matches Some(v) && ranges_model(v@) == rs,
            None => r is None,
        },
{
    let origin = hunk.lines[line_idx].origin;
    if origin != '+' && origin != '-' {
        return Some(Vec::new());
    }
    let pair = find_pair(hunk, line_idx);
    let (o, n) = match pair {
        Some(p) => p,
        None => {
            return Some(Vec::new());
        },
    };
    let old = display_content(hunk.lines[o].content.as_str());
    let new = display_content(hunk.lines[n].content.as_str());
    match changed_ranges(old.as_str(), new.as_str()) {
        Some((old_ranges, new_ranges)) => {
            if line_idx == o {
                Some(old_ranges)
            } else {
                Some(new_ranges)
            }
        },
        None => None,
    }
}

} // verus!
