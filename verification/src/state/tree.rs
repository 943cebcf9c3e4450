//! The directory tree of the files panel.
//!
//! Paths are split on `/` into a tree whose children are ordered by name.  The
//! tree is shown directories first, then files; a directory with a single child
//! directory is shown on one row as `dir/child`, and a collapsed directory hides
//! everything beneath it.
use vstd::prelude::*;

use crate::state::review::FileSlot;
use crate::text::{chars_eq, chars_of, copy_chars, split_chars, split_on, string_from_chars, views};

verus! {

/// A row of the files panel: a file (its index among the review's files) or a directory
/// (its full path, which is also the key it is collapsed by), with its depth.
#[derive(Debug, Clone)]
pub enum TreeRow {
    File(usize, usize),
    Dir(String, usize),
}

/// A row as the contracts see it.
pub enum RowModel {
    File(usize, usize),
    Dir(Seq<char>, usize),
}

/// A node of the tree as the contracts see it: a file (its index) or a directory with its
/// children, by name and node number, in name order.
pub struct NodeModel {
    pub name: Seq<char>,
    pub file: Option<usize>,
    pub children: Seq<(Seq<char>, int)>,
}

/// A node of the tree, children referring to later nodes of the same table.
pub struct FileNode {
    pub name: Vec<char>,
    pub file: Option<usize>,
    pub children: Vec<(Vec<char>, usize)>,
}

impl TreeRow {
    pub open spec fn model(self) -> RowModel {
        match self {
            TreeRow::File(i, d) => RowModel::File(i, d),
            TreeRow::Dir(p, d) => RowModel::Dir(p@, d),
        }
    }
}

impl FileNode {
    pub open spec fn model(self) -> NodeModel {
        NodeModel {
            name: self.name@,
            file: self.file,
            children: self.children@.map_values(|c: (Vec<char>, usize)| (c.0@, c.1 as int)),
        }
    }
}

pub open spec fn rows_model(rows: Seq<TreeRow>) -> Seq<RowModel> {
    rows.map_values(|r: TreeRow| r.model())
}

pub open spec fn nodes_model(nodes: Seq<FileNode>) -> Seq<NodeModel> {
    nodes.map_values(|n: FileNode| n.model())
}

/// Byte order of UTF-8 strings, which is the order of their characters.
pub open spec fn key_lt(a: Seq<char>, b: Seq<char>) -> bool
    decreases a.len(),
{
    if a.len() == 0 {
        b.len() > 0
    } else if b.len() == 0 {
        false
    } else if a[0] != b[0] {
        (a[0] as u32) < (b[0] as u32)
    } else {
        key_lt(a.drop_first(), b.drop_first())
    }
}

/// How many children have a name ordered before `key`: where `key` goes.
pub open spec fn child_pos(children: Seq<(Seq<char>, int)>, key: Seq<char>) -> int
    decreases children.len(),
{
    if children.len() == 0 {
        0
    } else if key_lt(children[0].0, key) {
        1 + child_pos(children.drop_first(), key)
    } else {
        0
    }
}

/// The children with `key` bound to `node`: replacing the entry of that name, or inserted
/// in name order.
pub open spec fn set_child(children: Seq<(Seq<char>, int)>, key: Seq<char>, node: int) -> Seq<
    (Seq<char>, int),
> {
    let p = child_pos(children, key);
    if p < children.len() && children[p].0 == key {
        children.update(p, (key, node))
    } else {
        children.insert(p, (key, node))
    }
}

/// The node a name refers to among children, if any.
pub open spec fn find_child(children: Seq<(Seq<char>, int)>, key: Seq<char>) -> Option<int> {
    let p = child_pos(children, key);
    if p < children.len() && children[p].0 == key {
        Some(children[p].1)
    } else {
        None
    }
}

/// The tree after adding the file `index` at the path `segs` below node `node`.  A file
/// node is left as it is; a last segment names the file, replacing any child of that
/// name; other segments descend, creating directories as needed.
pub open spec fn insert_model(nodes: Seq<NodeModel>, node: int, segs: Seq<Seq<char>>, index: usize) -> Seq<
    NodeModel,
>
    decreases segs.len(),
{
    if node < 0 || node >= nodes.len() || segs.len() == 0 || nodes[node].file is Some {
        nodes
    } else {
        let n = nodes[node];
        let key = segs[0];
        if segs.len() == 1 {
            let id = nodes.len() as int;
            nodes.push(NodeModel { name: key, file: Some(index), children: seq![] }).update(
                node,
                NodeModel { children: set_child(n.children, key, id), ..n },
            )
        } else {
            match find_child(n.children, key) {
                Some(c) => insert_model(nodes, c, segs.drop_first(), index),
                None => {
                    let id = nodes.len() as int;
                    let grown = nodes.push(
                        NodeModel { name: key, file: None, children: seq![] },
                    ).update(node, NodeModel { children: set_child(n.children, key, id), ..n });
                    insert_model(grown, id, segs.drop_first(), index)
                },
            }
        }
    }
}

/// The tree holding only the root directory `/`.
pub open spec fn root_model() -> Seq<NodeModel> {
    seq![NodeModel { name: seq!['/'], file: None, children: seq![] }]
}

/// The tree of the first `n` paths.
pub open spec fn build_model(paths: Seq<Seq<char>>, n: int) -> Seq<NodeModel>
    decreases n,
{
    if n <= 0 {
        root_model()
    } else {
        insert_model(build_model(paths, n - 1), 0, split_on(paths[n - 1], '/'), (n - 1) as usize)
    }
}

/// `path/name`, or `name` at the top.
pub open spec fn join_path(path: Seq<char>, name: Seq<char>) -> Seq<char> {
    if path.len() == 0 {
        name
    } else {
        path + seq!['/'] + name
    }
}

/// Whether a child with this file field is rendered by a pass that takes directories
/// (`Some(true)`), files (`Some(false)`) or both (`None`).
pub open spec fn kind_taken(file: Option<usize>, only: Option<bool>) -> bool {
    match only {
        Some(dirs) => (file is None) == dirs,
        None => true,
    }
}

/// The rows of node `node` at `depth`, below the directory path `path`.
pub open spec fn render_model(
    nodes: Seq<NodeModel>,
    node: int,
    depth: int,
    path: Seq<char>,
    collapsed: Seq<Seq<char>>,
) -> Seq<RowModel>
    decreases nodes.len() - node, 1int, 0int,
{
    if node < 0 || node >= nodes.len() {
        seq![]
    } else {
        let n = nodes[node];
        match n.file {
            Some(idx) => seq![RowModel::File(idx, depth as usize)],
            None => if node == 0 {
                render_children(nodes, node, 0, depth + 1, seq![], collapsed, Some(true))
                    + render_children(nodes, node, 0, depth + 1, seq![], collapsed, Some(false))
            } else if n.children.len() == 1 {
                let child = n.children[0].1;
                if child <= node || child >= nodes.len() {
                    seq![]
                } else {
                    let full = join_path(path, n.name);
                    match nodes[child].file {
                        None => {
                            let dir = full + seq!['/'] + nodes[child].name;
                            if collapsed.contains(dir) {
                                seq![RowModel::Dir(dir, depth as usize)]
                            } else {
                                seq![RowModel::Dir(dir, depth as usize)] + render_children(
                                    nodes,
                                    child,
                                    0,
                                    depth + 1,
                                    dir,
                                    collapsed,
                                    None,
                                )
                            }
                        },
                        Some(idx) => {
                            if collapsed.contains(full) {
                                seq![RowModel::Dir(full, depth as usize)]
                            } else {
                                seq![
                                    RowModel::Dir(full, depth as usize),
                                    RowModel::File(idx, (depth + 1) as usize),
                                ]
                            }
                        },
                    }
                }
            } else {
                let full = join_path(path, n.name);
                if collapsed.contains(full) {
                    seq![RowModel::Dir(full, depth as usize)]
                } else {
                    seq![RowModel::Dir(full, depth as usize)] + render_children(
                        nodes,
                        node,
                        0,
                        depth + 1,
                        full,
                        collapsed,
                        Some(true),
                    ) + render_children(nodes, node, 0, depth + 1, full, collapsed, Some(false))
                }
            },
        }
    }
}

/// The rows of the children of `parent` from the `k`-th on, in name order, of the kind
/// that `only` takes.
pub open spec fn render_children(
    nodes: Seq<NodeModel>,
    parent: int,
    k: int,
    depth: int,
    path: Seq<char>,
    collapsed: Seq<Seq<char>>,
    only: Option<bool>,
) -> Seq<RowModel>
    decreases nodes.len() - parent, 0int, nodes[parent].children.len() - k,
{
    if parent < 0 || parent >= nodes.len() || k < 0 || k >= nodes[parent].children.len() {
        seq![]
    } else {
        let child = nodes[parent].children[k].1;
        let here = if child <= parent || child >= nodes.len() || !kind_taken(
            nodes[child].file,
            only,
        ) {
            seq![]
        } else {
            render_model(nodes, child, depth, path, collapsed)
        };
        here + render_children(nodes, parent, k + 1, depth, path, collapsed, only)
    }
}

/// A collapsed directory shows as its own row alone: none of its children are rendered.
pub proof fn lemma_collapsed_dir_hides_children(
    nodes: Seq<NodeModel>,
    node: int,
    depth: int,
    path: Seq<char>,
    collapsed: Seq<Seq<char>>,
)
    requires
        0 < node < nodes.len(),
        nodes[node].file is None,
        nodes[node].children.len() != 1,
        collapsed.contains(join_path(path, nodes[node].name)),
    ensures
        render_model(nodes, node, depth, path, collapsed) == seq![
            RowModel::Dir(join_path(path, nodes[node].name), depth as usize),
        ],
{
}

/// The paths of the review's files.
pub open spec fn slot_paths(files: Seq<FileSlot>) -> Seq<Seq<char>> {
    files.map_values(|f: FileSlot| f.entry.path@)
}

/// The rows of the files panel for these files and collapsed directories.
pub open spec fn tree_rows_spec(files: Seq<FileSlot>, collapsed: Seq<Seq<char>>) -> Seq<RowModel> {
    render_model(build_model(slot_paths(files), files.len() as int), 0, 0, seq![], collapsed)
}

/// The names and node numbers of a node's children as the contracts see them.
pub open spec fn children_model(c: Seq<(Vec<char>, usize)>) -> Seq<(Seq<char>, int)> {
    c.map_values(|e: (Vec<char>, usize)| (e.0@, e.1 as int))
}

/// The character sequences of the collapsed directory keys.
pub open spec fn keys_model(keys: Seq<String>) -> Seq<Seq<char>> {
    keys.map_values(|k: String| k@)
}

/// Whether `a` orders before `b` by characters, a proper prefix first.
pub fn key_less(a: &Vec<char>, b: &Vec<char>) -> (r: bool)
    ensures
        r == key_lt(a@, b@),
{
    let mut i: usize = 0;
    assert(a@.skip(0) =~= a@);
    assert(b@.skip(0) =~= b@);
    while i < a.len() && i < b.len()
        invariant
            i <= a.len(),
            i <= b.len(),
            key_lt(a@, b@) == key_lt(a@.skip(i as int), b@.skip(i as int)),
        decreases a.len() - i,
    {
        if a[i] != b[i] {
            return (a[i] as u32) < (b[i] as u32);
        }
        assert(a@.skip(i as int).drop_first() =~= a@.skip(i as int + 1));
        assert(b@.skip(i as int).drop_first() =~= b@.skip(i as int + 1));
        i = i + 1;
    }
    i == a.len() && i < b.len()
}

/// Where `key` stands among a node's children.
fn child_position(children: &Vec<(Vec<char>, usize)>, key: &Vec<char>) -> (p: usize)
    ensures
        p == child_pos(children_model(children@), key@),
        p <= children.len(),
{
    let ghost cm = children_model(children@);
    let mut i: usize = 0;
    assert(cm.skip(0) =~= cm);
    while i < children.len()
        invariant
            i <= children.len(),
            cm == children_model(children@),
            child_pos(cm, key@) == i + child_pos(cm.skip(i as int), key@),
        decreases children.len() - i,
    {
        if !key_less(&children[i].0, key) {
            return i;
        }
        assert(cm.skip(i as int).drop_first() =~= cm.skip(i as int + 1));
        i = i + 1;
    }
    i
}

/// Binds `key` to `node` among the children, in name order.
fn set_child_exec(children: &mut Vec<(Vec<char>, usize)>, key: &Vec<char>, node: usize)
    ensures
        children_model(final(children)@) == set_child(
            children_model(old(children)@),
            key@,
            node as int,
        ),
{
    let ghost cm = children_model(children@);
    let p = child_position(children, key);
    if p < children.len() && chars_eq(&children[p].0, key) {
        children.set(p, (copy_chars(key), node));
        assert(children_model(children@) =~= cm.update(p as int, (key@, node as int)));
    } else {
        children.insert(p, (copy_chars(key), node));
        assert(children_model(children@) =~= cm.insert(p as int, (key@, node as int)));
    }
}

/// The node that `key` names among the children, if any.
fn find_child_exec(children: &Vec<(Vec<char>, usize)>, key: &Vec<char>) -> (r: Option<usize>)
    ensures
        match find_child(children_model(children@), key@) {
            Some(c) => r == Some(c as usize) && c >= 0 && c == r->0 as int,
            None => r is None,
        },
{
    let p = child_position(children, key);
    if p < children.len() && chars_eq(&children[p].0, key) {
        Some(children[p].1)
    } else {
        None
    }
}

/// Adds the file `index` at the path `segs[start..]` below node `node`.
fn insert_path(
    nodes: &mut Vec<FileNode>,
    node: usize,
    segs: &Vec<Vec<char>>,
    start: usize,
    index: usize,
)
    requires
        start <= segs.len(),
    ensures
        nodes_model(final(nodes)@) == insert_model(
            nodes_model(old(nodes)@),
            node as int,
            views(segs@).skip(start as int),
            index,
        ),
    decreases segs.len() - start,
{
    let ghost nm = nodes_model(nodes@);
    let ghost rest = views(segs@).skip(start as int);
    if node >= nodes.len() || start >= segs.len() || nodes[node].file.is_some() {
        return;
    }
    let ghost n = nm[node as int];
    let key = &segs[start];
    assert(rest[0] == key@);
    let id = nodes.len();
    let fresh = if start + 1 == segs.len() {
        Some(index)
    } else {
        None
    };
    if start + 1 < segs.len() {
        assert(rest.drop_first() =~= views(segs@).skip(start as int + 1));
        match find_child_exec(&nodes[node].children, key) {
            Some(c) => {
                insert_path(nodes, c, segs, start + 1, index);
                return;
            },
            None => {},
        }
    }
    nodes.push(FileNode { name: copy_chars(key), file: fresh, children: Vec::new() });
    let mut kids: Vec<(Vec<char>, usize)> = Vec::new();
    std::mem::swap(&mut kids, &mut nodes[node as usize].children);
    set_child_exec(&mut kids, key, id);
    let ghost grown = nm.push(NodeModel { name: key@, file: fresh, children: seq![] }).update(
        node as int,
        NodeModel { children: set_child(n.children, key@, id as int), ..n },
    );
    std::mem::swap(&mut kids, &mut nodes[node as usize].children);
    assert(nodes_model(nodes@)[id as int].children =~= Seq::<(Seq<char>, int)>::empty());
    assert(nodes_model(nodes@)[node as int] == grown[node as int]);
    assert(nodes_model(nodes@)[id as int] == grown[id as int]);
    assert(nodes_model(nodes@) =~= grown);
    if start + 1 < segs.len() {
        insert_path(nodes, id, segs, start + 1, index);
    }
}

/// `a/b`.
fn slash_join(a: &Vec<char>, b: &Vec<char>) -> (r: Vec<char>)
    ensures
        r@ == a@ + seq!['/'] + b@,
{
    let mut r = copy_chars(a);
    r.push('/');
    let mut tail = copy_chars(b);
    r.append(&mut tail);
    r
}

/// `path/name`, or `name` at the top.
fn join_path_exec(path: &Vec<char>, name: &Vec<char>) -> (r: Vec<char>)
    ensures
        r@ == join_path(path@, name@),
{
    if path.len() == 0 {
        copy_chars(name)
    } else {
        slash_join(path, name)
    }
}

/// Whether `key` is among the collapsed directory keys.
fn contains_key(keys: &Vec<String>, key: &Vec<char>) -> (r: bool)
    ensures
        r == keys_model(keys@).contains(key@),
{
    let ghost km = keys_model(keys@);
    let mut i: usize = 0;
    while i < keys.len()
        invariant
            i <= keys.len(),
            km == keys_model(keys@),
            forall|j: int| 0 <= j < i ==> km[j] != key@,
        decreases keys.len() - i,
    {
        let k = chars_of(keys[i].as_str());
        if chars_eq(&k, key) {
            assert(km[i as int] == key@);
            return true;
        }
        i = i + 1;
    }
    false
}

/// The rows of node `node` at `depth`, below the directory path `path`.
fn render_node(
    nodes: &Vec<FileNode>,
    node: usize,
    depth: usize,
    path: &Vec<char>,
    collapsed: &Vec<String>,
) -> (rows: Vec<TreeRow>)
    requires
        node < nodes.len() ==> depth + (nodes.len() - node) <= usize::MAX,
    ensures
        rows_model(rows@) == render_model(
            nodes_model(nodes@),
            node as int,
            depth as int,
            path@,
            keys_model(collapsed@),
        ),
    decreases nodes.len() - node, 1int,
{
    let ghost nm = nodes_model(nodes@);
    let ghost km = keys_model(collapsed@);
    if node >= nodes.len() {
        return Vec::new();
    }
    let n = &nodes[node];
    match n.file {
        Some(idx) => {
            let rows = vec![TreeRow::File(idx, depth)];
            assert(rows_model(rows@) =~= seq![RowModel::File(idx, depth)]);
            rows
        },
        None => {
            if node == 0 {
                let top: Vec<char> = Vec::new();
                let mut rows = render_kids(nodes, node, depth + 1, &top, collapsed, Some(true));
                let mut files = render_kids(nodes, node, depth + 1, &top, collapsed, Some(false));
                let ghost a = rows@;
                let ghost b = files@;
                rows.append(&mut files);
                assert(rows_model(rows@) =~= rows_model(a) + rows_model(b));
                assert(top@ =~= Seq::<char>::empty());
                return rows;
            }
            let full = join_path_exec(path, &n.name);
            if n.children.len() == 1 {
                let child = n.children[0].1;
                if child <= node || child >= nodes.len() {
                    return Vec::new();
                }
                match nodes[child].file {
                    None => {
                        let dir = slash_join(&full, &nodes[child].name);
                        let mut rows = vec![TreeRow::Dir(string_from_chars(&dir), depth)];
                        let ghost head = rows@;
                        if !contains_key(collapsed, &dir) {
                            let mut more = render_kids(nodes, child, depth + 1, &dir, collapsed, None);
                            let ghost b = more@;
                            rows.append(&mut more);
                            assert(rows_model(rows@) =~= rows_model(head) + rows_model(b));
                        }
                        assert(rows_model(head) =~= seq![RowModel::Dir(dir@, depth)]);
                        rows
                    },
                    Some(idx) => {
                        let mut rows = vec![TreeRow::Dir(string_from_chars(&full), depth)];
                        if !contains_key(collapsed, &full) {
                            rows.push(TreeRow::File(idx, depth + 1));
                            assert(rows_model(rows@) =~= seq![
                                RowModel::Dir(full@, depth),
                                RowModel::File(idx, (depth + 1) as usize),
                            ]);
                        } else {
                            assert(rows_model(rows@) =~= seq![RowModel::Dir(full@, depth)]);
                        }
                        rows
                    },
                }
            } else {
                let mut rows = vec![TreeRow::Dir(string_from_chars(&full), depth)];
                let ghost head = rows@;
                assert(rows_model(head) =~= seq![RowModel::Dir(full@, depth)]);
                if !contains_key(collapsed, &full) {
                    let mut dirs = render_kids(nodes, node, depth + 1, &full, collapsed, Some(true));
                    let mut files = render_kids(
                        nodes,
                        node,
                        depth + 1,
                        &full,
                        collapsed,
                        Some(false),
                    );
                    let ghost a = dirs@;
                    let ghost b = files@;
                    rows.append(&mut dirs);
                    rows.append(&mut files);
                    assert(rows_model(rows@) =~= rows_model(head) + rows_model(a) + rows_model(b));
                }
                rows
            }
        },
    }
}

/// Whether a pass that takes `only` renders a child with this file field.
fn taken(file: Option<usize>, only: Option<bool>) -> (r: bool)
    ensures
        r == kind_taken(file, only),
{
    match only {
        Some(dirs) => file.is_none() == dirs,
        None => true,
    }
}

/// The rows of the children of `parent` of the kind that `only` takes, in name order.
fn render_kids(
    nodes: &Vec<FileNode>,
    parent: usize,
    depth: usize,
    path: &Vec<char>,
    collapsed: &Vec<String>,
    only: Option<bool>,
) -> (rows: Vec<TreeRow>)
    requires
        parent < nodes.len() ==> depth + (nodes.len() - parent) <= usize::MAX + 1,
    ensures
        rows_model(rows@) == render_children(
            nodes_model(nodes@),
            parent as int,
            0,
            depth as int,
            path@,
            keys_model(collapsed@),
            only,
        ),
    decreases nodes.len() - parent, 0int,
{
    let ghost nm = nodes_model(nodes@);
    let ghost km = keys_model(collapsed@);
    let mut rows: Vec<TreeRow> = Vec::new();
    if parent >= nodes.len() {
        return rows;
    }
    let count = nodes[parent].children.len();
    let mut k: usize = 0;
    while k < count
        invariant
            parent < nodes.len(),
            count == nodes[parent as int].children.len(),
            nm == nodes_model(nodes@),
            km == keys_model(collapsed@),
            k <= count,
            depth + (nodes.len() - parent) <= usize::MAX + 1,
            rows_model(rows@) + render_children(nm, parent as int, k as int, depth as int, path@, km, only)
                == render_children(nm, parent as int, 0, depth as int, path@, km, only),
        decreases count - k,
    {
        let child = nodes[parent].children[k].1;
        let ghost before = rows@;
        if child > parent && child < nodes.len() && taken(nodes[child].file, only) {
            let mut sub = render_node(nodes, child, depth, path, collapsed);
            let ghost b = sub@;
            rows.append(&mut sub);
            assert(rows_model(rows@) =~= rows_model(before) + rows_model(b));
        }
        assert(rows_model(rows@) + render_children(nm, parent as int, k + 1, depth as int, path@, km, only)
            =~= rows_model(before) + render_children(nm, parent as int, k as int, depth as int, path@, km, only));
        k = k + 1;
    }
    rows
}

/// The rows of the files panel: the files' paths as a tree, directories before files at
/// each level and each in name order, with directories whose key is in `collapsed` shown
/// without their contents.
pub fn tree_rows(files: &Vec<FileSlot>, collapsed: &Vec<String>) -> (rows: Vec<TreeRow>)
    ensures
        rows_model(rows@) == tree_rows_spec(files@, keys_model(collapsed@)),
{
    let mut nodes: Vec<FileNode> = Vec::new();
    let mut root_name: Vec<char> = Vec::new();
    root_name.push('/');
    nodes.push(FileNode { name: root_name, file: None, children: Vec::new() });
    assert(nodes_model(nodes@)[0].children =~= Seq::<(Seq<char>, int)>::empty());
    assert(nodes_model(nodes@)[0].name =~= seq!['/']);
    assert(nodes_model(nodes@)[0] == root_model()[0]);
    assert(nodes_model(nodes@) =~= root_model());
    let ghost paths = slot_paths(files@);
    let mut i: usize = 0;
    while i < files.len()
        invariant
            i <= files.len(),
            paths == slot_paths(files@),
            nodes_model(nodes@) == build_model(paths, i as int),
        decreases files.len() - i,
    {
        let path = chars_of(files[i].entry.path.as_str());
        let segs = split_chars(&path, '/');
        assert(views(segs@).skip(0) =~= views(segs@));
        insert_path(&mut nodes, 0, &segs, 0, i);
        i = i + 1;
    }
    let top: Vec<char> = Vec::new();
    assert(top@ =~= Seq::<char>::empty());
    render_node(&nodes, 0, 0, &top, collapsed)
}

} // verus!
