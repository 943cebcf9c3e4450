//! What the files sidebar shows: the visible tree rows, each directory with its collapse
//! marker and label, each file with its status, its name and its review and ignore marks,
//! and which line is selected.
use vstd::prelude::*;

use crate::git::repository::FileStatus;
use crate::state::review::FileSlot;
use crate::state::tree::{keys_model, TreeRow};
use crate::text::{chars_of, split_chars, split_on, string_from_chars, views};
use crate::view::get_selected_row;

verus! {

/// What one line of the sidebar shows.
#[derive(Debug)]
pub enum SidebarItem {
    /// The note shown when the review has no files.
    Clean,
    /// A directory: its depth, whether it is collapsed, and its label.
    Dir { depth: usize, collapsed: bool, label: String },
    /// A file: its depth, its place in the review, its status, its name fitted to the
    /// sidebar's width, and whether it is
    /// ignored (marked `~`) or reviewed (marked ✓).
    File {
        depth: usize,
        file_idx: usize,
        status: FileStatus,
        name: String,
        ignored: bool,
        reviewed: bool,
    },
}

/// A line of the sidebar and whether it is the selected one.
#[derive(Debug)]
pub struct SidebarLine {
    pub item: SidebarItem,
    pub selected: bool,
}

/// The pieces joined by `sep`.
pub open spec fn join_on(parts: Seq<Seq<char>>, sep: char) -> Seq<char>
    decreases parts.len(),
{
    if parts.len() == 0 {
        Seq::empty()
    } else if parts.len() == 1 {
        parts[0]
    } else {
        join_on(parts.drop_last(), sep) + seq![sep] + parts.last()
    }
}

/// The label of a directory row: the segment at its depth when a child directory follows
/// it, else the segments from there on, joined; the last segment when the key has no more
/// segments than its depth.
pub open spec fn dir_label_spec(key: Seq<char>, depth: int, child_follows: bool) -> Seq<char> {
    let segs = split_on(key, '/');
    let from = if depth >= 1 {
        depth - 1
    } else {
        0
    };
    if segs.len() > depth {
        if child_follows {
            segs[from]
        } else {
            join_on(segs.skip(from), '/')
        }
    } else {
        segs.last()
    }
}

/// The last segment of a path.
pub open spec fn file_name_spec(path: Seq<char>) -> Seq<char> {
    split_on(path, '/').last()
}

/// Whether row `k + 1` is a directory one level deeper than `depth`.
pub open spec fn child_dir_follows(rows: Seq<TreeRow>, k: int, depth: int) -> bool {
    k + 1 < rows.len() && (rows[k + 1] matches TreeRow::Dir(_, d) && d == depth + 1)
}

/// How many lines the sidebar lists: the note when there are no files, then the rows.
pub open spec fn item_count(rows: Seq<TreeRow>, files: Seq<FileSlot>) -> int {
    if files.len() == 0 {
        rows.len() + 1int
    } else {
        rows.len() as int
    }
}

/// The first line shown: the list starts at the top and scrolls just enough to show the
/// selected row.
pub open spec fn first_visible(rows: Seq<TreeRow>, selected: Option<usize>, height: int) -> int {
    match selected {
        Some(s) => if s < rows.len() && s >= height {
            s + 1 - height
        } else {
            0
        },
        None => 0,
    }
}

/// The columns a file row spends besides its name: the indent of its depth, two for the
/// border and two for the status letter.
pub open spec fn name_room(depth: int, width: int) -> int {
    let room = width - (2 * depth + 4);
    if room > 0 {
        room
    } else {
        0
    }
}

/// A file name fitted to the sidebar: cut to one character less than the room and ended
/// with `…` when it has more characters than the room.
pub open spec fn fit_name_spec(name: Seq<char>, depth: int, width: int) -> Seq<char> {
    let room = name_room(depth, width);
    if name.len() > room {
        name.take(if room > 0 {
            room - 1
        } else {
            0
        }) + seq!['…']
    } else {
        name
    }
}

/// The status letter of a file row, with the space after it.
pub open spec fn status_letter_spec(status: FileStatus) -> Seq<char> {
    match status {
        FileStatus::Staged => "S "@,
        FileStatus::Partial => "P "@,
        FileStatus::Conflicted => "! "@,
        FileStatus::Unstaged => "M "@,
        FileStatus::Untracked => "U "@,
    }
}

/// The status letter of a file row, with the space after it.
pub fn status_letter(status: FileStatus) -> (r: &'static str)
    ensures
        r@ == status_letter_spec(status),
{
    match status {
        FileStatus::Staged => "S ",
        FileStatus::Partial => "P ",
        FileStatus::Conflicted => "! ",
        FileStatus::Unstaged => "M ",
        FileStatus::Untracked => "U ",
    }
}

/// A file name fitted to a sidebar `width` columns wide at `depth`.
pub fn fit_name(name: &String, depth: usize, width: usize) -> (r: String)
    ensures
        r@ == fit_name_spec(name@, depth as int, width as int),
{
    let room: usize = if depth > (usize::MAX - 4) / 2 {
        0
    } else if width > 2 * depth + 4 {
        width - (2 * depth + 4)
    } else {
        0
    };
    let chars = chars_of(name.as_str());
    if chars.len() <= room {
        return name.clone();
    }
    let keep = if room > 0 {
        room - 1
    } else {
        0
    };
    let mut out = String::new();
    let mut i: usize = 0;
    while i < keep
        invariant
            i <= keep,
            keep < chars.len(),
            chars@ == name@,
            out@ == name@.take(i as int),
        decreases keep - i,
    {
        crate::text::push_char(&mut out, chars[i]);
        assert(name@.take(i as int + 1) =~= name@.take(i as int).push(name@[i as int]));
        i = i + 1;
    }
    crate::text::push_char(&mut out, '…');
    out
}

/// Whether `line` is what the sidebar shows at list position `k`.
pub open spec fn line_is(
    line: SidebarLine,
    rows: Seq<TreeRow>,
    files: Seq<FileSlot>,
    collapsed: Seq<Seq<char>>,
    selected: Option<usize>,
    width: int,
    k: int,
) -> bool {
    let clean = files.len() == 0;
    let r = if clean {
        k - 1
    } else {
        k
    };
    &&& line.selected == (selected matches Some(s) && s < rows.len() && s == k)
    &&& if clean && k == 0 {
        line.item is Clean
    } else {
        match rows[r] {
            TreeRow::Dir(key, depth) => line.item matches SidebarItem::Dir {
                depth: d,
                collapsed: c,
                label,
            } && d == depth && c == collapsed.contains(key@) && label@ == dir_label_spec(
                key@,
                depth as int,
                child_dir_follows(rows, r, depth as int),
            ),
            TreeRow::File(idx, depth) => line.item matches SidebarItem::File {
                depth: d,
                file_idx,
                status,
                name,
                ignored,
                reviewed,
            } && d == depth && file_idx == idx && status == files[idx as int].entry.status
                && name@ == fit_name_spec(
                file_name_spec(files[idx as int].entry.path@),
                depth as int,
                width,
            ) && ignored
                == files[idx as int].ignored && reviewed == files[idx as int].reviewed,
        }
    }
}

/// The pieces from `from` on, joined by `sep`.
fn join_from(pieces: &Vec<Vec<char>>, from: usize, sep: char) -> (r: Vec<char>)
    requires
        from <= pieces.len(),
    ensures
        r@ == join_on(views(pieces@).skip(from as int), sep),
{
    let ghost all = views(pieces@);
    let mut r: Vec<char> = Vec::new();
    let mut i: usize = from;
    assert(all.subrange(from as int, from as int).len() == 0);
    while i < pieces.len()
        invariant
            from <= i <= pieces.len(),
            all == views(pieces@),
            r@ == join_on(all.subrange(from as int, i as int), sep),
        decreases pieces.len() - i,
    {
        let ghost before = r@;
        if i > from {
            r.push(sep);
        }
        let piece = &pieces[i];
        let mut j: usize = 0;
        let ghost base = r@;
        while j < piece.len()
            invariant
                j <= piece.len(),
                r@ == base + piece@.take(j as int),
            decreases piece.len() - j,
        {
            r.push(piece[j]);
            assert(piece@.take(j as int + 1) =~= piece@.take(j as int).push(piece@[j as int]));
            j = j + 1;
        }
        assert(piece@.take(j as int) =~= piece@);
        let ghost next = all.subrange(from as int, i as int + 1);
        assert(next.drop_last() =~= all.subrange(from as int, i as int));
        assert(next.last() == piece@);
        if i == from {
            assert(next =~= seq![piece@]);
            assert(r@ =~= piece@);
        } else {
            assert(r@ =~= before + seq![sep] + piece@);
        }
        i = i + 1;
    }
    assert(all.subrange(from as int, pieces.len() as int) =~= all.skip(from as int));
    r
}

/// The label of a directory row.
fn dir_label(key: &String, depth: usize, child_follows: bool) -> (r: String)
    ensures
        r@ == dir_label_spec(key@, depth as int, child_follows),
{
    let segs = split_chars(&chars_of(key.as_str()), '/');
    let from = if depth >= 1 {
        depth - 1
    } else {
        0
    };
    let chars = if segs.len() > depth {
        if child_follows {
            assert(views(segs@)[from as int] == segs@[from as int]@);
            string_from_chars(&segs[from])
        } else {
            string_from_chars(&join_from(&segs, from, '/'))
        }
    } else {
        assert(views(segs@).last() == segs@[segs.len() - 1]@);
        string_from_chars(&segs[segs.len() - 1])
    };
    chars
}

/// The last segment of a path.
fn file_name(path: &String) -> (r: String)
    ensures
        r@ == file_name_spec(path@),
{
    let segs = split_chars(&chars_of(path.as_str()), '/');
    assert(views(segs@).last() == segs@[segs.len() - 1]@);
    string_from_chars(&segs[segs.len() - 1])
}

/// Whether `key` is one of the collapsed keys.
fn is_collapsed(collapsed: &Vec<String>, key: &String) -> (r: bool)
    ensures
        r == keys_model(collapsed@).contains(key@),
{
    let k = chars_of(key.as_str());
    let ghost keys = keys_model(collapsed@);
    let mut i: usize = 0;
    while i < collapsed.len()
        invariant
            i <= collapsed.len(),
            keys == keys_model(collapsed@),
            k@ == key@,
            forall|j: int| 0 <= j < i ==> keys[j] != key@,
        decreases collapsed.len() - i,
    {
        let c = chars_of(collapsed[i].as_str());
        if crate::text::chars_eq(&c, &k) {
            assert(keys[i as int] == key@);
            return true;
        }
        i = i + 1;
    }
    false
}

/// The lines of a sidebar `width` columns wide that fit in `height` rows, from the first one shown, with the
/// selected row marked.  The rows must name files of the review.
pub fn sidebar_lines(
    rows: &Vec<TreeRow>,
    files: &Vec<FileSlot>,
    collapsed: &Vec<String>,
    selected: Option<usize>,
    width: usize,
    height: usize,
) -> (lines: Vec<SidebarLine>)
    requires
        rows@.len() < usize::MAX,
        forall|k: int|
            0 <= k < rows@.len() ==> (#[trigger] rows@[k] matches TreeRow::File(idx, _) ==> idx
                < files@.len()),
    ensures
        ({
            let first = first_visible(rows@, selected, height as int);
            let n = item_count(rows@, files@);
            &&& lines@.len() == if first + height <= n {
                height as int
            } else {
                n - first
            }
            &&& forall|i: int|
                0 <= i < lines@.len() ==> line_is(
                    #[trigger] lines@[i],
                    rows@,
                    files@,
                    keys_model(collapsed@),
                    selected,
                    width as int,
                    first + i,
                )
        }),
{
    let sel = get_selected_row(rows.as_slice(), selected);
    let first: usize = match sel {
        Some(s) => if s >= height {
            s - height + 1
        } else {
            0
        },
        None => 0,
    };
    let clean = files.len() == 0;
    let n: usize = if clean {
        rows.len() + 1
    } else {
        rows.len()
    };
    assert(first <= n);
    let end: usize = if n - first >= height {
        first + height
    } else {
        n
    };
    let mut lines: Vec<SidebarLine> = Vec::new();
    let mut k: usize = first;
    while k < end
        invariant
            first <= k <= end <= n,
            n == item_count(rows@, files@),
            first == first_visible(rows@, selected, height as int),
            clean == (files@.len() == 0),
            lines@.len() == k - first,
            forall|k: int|
                0 <= k < rows@.len() ==> (#[trigger] rows@[k] matches TreeRow::File(idx, _) ==> idx
                    < files@.len()),
            forall|i: int|
                0 <= i < lines@.len() ==> line_is(
                    #[trigger] lines@[i],
                    rows@,
                    files@,
                    keys_model(collapsed@),
                    selected,
                    width as int,
                    first + i,
                ),
        decreases end - k,
    {
        let is_selected = match selected {
            Some(s) => s < rows.len() && s == k,
            None => false,
        };
        let item = if clean && k == 0 {
            SidebarItem::Clean
        } else {
            let r = if clean {
                k - 1
            } else {
                k
            };
            match &rows[r] {
                TreeRow::Dir(key, depth) => {
                    let child_follows = r + 1 < rows.len() && match &rows[r + 1] {
                        TreeRow::Dir(_, d) => *depth < usize::MAX && *d == *depth + 1,
                        TreeRow::File(..) => false,
                    };
                    proof {
                        if r + 1 < rows.len() {
                            if let TreeRow::Dir(_, d) = rows@[r + 1] {
                                if d == depth + 1 {
                                    assert(*depth < usize::MAX);
                                }
                            }
                        }
                    }
                    SidebarItem::Dir {
                        depth: *depth,
                        collapsed: is_collapsed(collapsed, key),
                        label: dir_label(key, *depth, child_follows),
                    }
                },
                TreeRow::File(idx, depth) => {
                    assert(rows@[r as int] matches TreeRow::File(i, _) && i < files@.len());
                    let slot = &files[*idx];
                    SidebarItem::File {
                        depth: *depth,
                        file_idx: *idx,
                        status: slot.entry.status,
                        name: fit_name(&file_name(&slot.entry.path), *depth, width),
                        ignored: slot.ignored,
                        reviewed: slot.reviewed,
                    }
                },
            }
        };
        let ghost before = lines@;
        lines.push(SidebarLine { item, selected: is_selected });
        assert forall|i: int| 0 <= i < lines@.len() implies line_is(
            #[trigger] lines@[i],
            rows@,
            files@,
            keys_model(collapsed@),
            selected,
            width as int,
            first + i,
        ) by {
            if i < before.len() {
                assert(lines@[i] == before[i]);
            }
        }
        k = k + 1;
    }
    lines
}


/// The tree row shown on line `line` of a sidebar `height` rows tall: none on the note of an
/// empty review or below the last row.
pub open spec fn clicked_row_spec(
    rows: Seq<TreeRow>,
    files_len: int,
    selected: Option<usize>,
    height: int,
    line: int,
) -> Option<usize> {
    let item = first_visible(rows, selected, height) + line;
    if files_len > 0 && 0 <= line < height && item < rows.len() {
        Some(item as usize)
    } else {
        None
    }
}

/// The tree row shown on line `line` of a sidebar `height` rows tall, if any.
pub fn clicked_row(
    rows: &Vec<TreeRow>,
    files_len: usize,
    selected: Option<usize>,
    height: usize,
    line: usize,
) -> (r: Option<usize>)
    ensures
        r == clicked_row_spec(rows@, files_len as int, selected, height as int, line as int),
{
    if files_len == 0 || line >= height {
        return None;
    }
    let first: usize = match get_selected_row(rows.as_slice(), selected) {
        Some(s) => if s >= height {
            s - height + 1
        } else {
            0
        },
        None => 0,
    };
    if first < rows.len() && line < rows.len() - first {
        Some(first + line)
    } else {
        None
    }
}

} // verus!
