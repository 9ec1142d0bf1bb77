//! The tree as a whole: what happens to it when a directory is read, opened,
//! closed, refreshed or revealed, and how statuses are laid over it.
//!
//! What a directory holds comes in as a `DirScan`. An operation that may need
//! several directories names them one at a time.

use vstd::prelude::*;

use crate::diagnostics::{worst_below, Counts, Diag, DiagnosticsData, Mode};
use crate::git::{GitData, GitStatus};
use crate::order::stable_sort;
use crate::path::{comps, join_text, lemma_comps, lemma_join_name, root_comp, Path};
use crate::paths::{listed, path_texts, texts_with, PathMap, PathSet};
use crate::tree::depth::no_deeper;
use crate::tree::node::{found, fresh_node, lemma_nodes_view, lemma_nodes_view_update, node_view};
use crate::tree::node::{nodes_view, path_view, with_found, Node, NodeKind, NodeView};
use crate::tree::rows::{flat, flatten, rows_view, Row, ViewOptions};
use crate::tree::sort::{node_le, sort_nodes, SortMode};
use crate::watcher::{is_churn, is_high_churn_name};

verus! {

/// What a directory was found to hold.
#[derive(Debug)]
pub struct DirScan {
    /// When the directory was last changed; taken before it is read, so that a
    /// change in between is seen as one the next time.
    pub mtime: Option<i128>,
    /// Its entries; `None` when it could not be read, or did not have to be.
    pub entries: Option<Vec<Node>>,
}

/// A scan, with a list in place of the vector.
pub struct ScanView {
    pub mtime: Option<i128>,
    pub entries: Option<Seq<NodeView>>,
}

impl View for DirScan {
    type V = ScanView;

    open spec fn view(&self) -> ScanView {
        ScanView {
            mtime: self.mtime,
            entries: match self.entries {
                Some(v) => Some(nodes_view(v@)),
                None => None,
            },
        }
    }
}

/// Entries in the order in which a node keeps them.
pub open spec fn kept_order(entries: Seq<NodeView>) -> Seq<NodeView> {
    stable_sort(entries, node_le(SortMode::Name, false))
}

/// A directory after it was read for the first time. One that could not be
/// read stays as it was, to be tried again.
pub open spec fn loaded_node(n: NodeView, scan: ScanView) -> NodeView {
    if n.is_dir() && !n.loaded && scan.entries is Some {
        NodeView {
            children: kept_order(scan.entries->0),
            loaded_mtime: scan.mtime,
            loaded: true,
            ..n
        }
    } else {
        n
    }
}

/// The last of some nodes with a path.
pub open spec fn last_with(s: Seq<NodeView>, k: Seq<Seq<u8>>) -> Option<NodeView>
    decreases s.len(),
{
    if s.len() == 0 {
        None
    } else if s.last().comps() == k {
        Some(s.last())
    } else {
        last_with(s.drop_last(), k)
    }
}

/// Whether two links lead to the same place.
pub open spec fn same_link(a: Option<Seq<u8>>, b: Option<Seq<u8>>) -> bool {
    match (a, b) {
        (None, None) => true,
        (Some(x), Some(y)) => comps(x) == comps(y),
        _ => false,
    }
}

/// Whether a directory that was known is the one that is found: of the same
/// kind, and for a link with the same destination.
pub open spec fn survives(known: NodeView, now: NodeView) -> bool {
    known.is_dir() && now.is_dir() && known.kind == now.kind && same_link(
        known.link_to,
        now.link_to,
    )
}

/// Entry number `i` of a directory that is read again: a directory that is
/// still the same keeps its state and what is below it, anything else is new.
pub open spec fn merged_child(known: Seq<NodeView>, now: Seq<NodeView>, i: int) -> NodeView {
    let f = now[i];
    if exists|j: int| 0 <= j < i && (#[trigger] now[j]).comps() == f.comps() {
        f
    } else {
        match last_with(known, f.comps()) {
            Some(e) => if survives(e, f) {
                NodeView { executable: f.executable, mtime: f.mtime, len: f.len, ..e }
            } else {
                f
            },
            None => f,
        }
    }
}

/// The entries of a directory that is read again.
pub open spec fn merged_children(known: Seq<NodeView>, now: Seq<NodeView>) -> Seq<NodeView> {
    Seq::new(now.len(), |i: int| merged_child(known, now, i))
}

/// Whether a directory can be refreshed from a scan: not one that was never
/// read, and not from nothing.
pub open spec fn refreshes(n: NodeView, scan: ScanView) -> bool {
    n.is_dir() && n.loaded && scan.entries is Some
}

/// A directory after it was read again.
pub open spec fn refreshed_node(n: NodeView, scan: ScanView) -> NodeView {
    if refreshes(n, scan) {
        NodeView {
            children: merged_children(n.children, kept_order(scan.entries->0)),
            loaded_mtime: scan.mtime,
            ..n
        }
    } else {
        n
    }
}

/// Whether what is known of a directory still holds: it was read, and was not
/// changed since.
pub open spec fn is_fresh(n: NodeView, mtime: Option<i128>) -> bool {
    n.loaded && n.loaded_mtime is Some && mtime == n.loaded_mtime
}

/// A node after it was opened: read if it had not been, read again if it was
/// changed since.
pub open spec fn opened_node(n: NodeView, scan: ScanView) -> NodeView {
    if !n.is_dir() {
        n
    } else {
        let m = if !n.loaded {
            loaded_node(n, scan)
        } else if is_fresh(n, scan.mtime) {
            n
        } else {
            refreshed_node(n, scan)
        };
        NodeView { expanded: true, ..m }
    }
}

/// The tree with its first node at `t`, if there is one, put through `f`.
pub open spec fn edited(
    root: NodeView,
    t: Seq<Seq<u8>>,
    f: spec_fn(NodeView) -> NodeView,
) -> NodeView {
    match found(root, t) {
        Some(n) => with_found(root, t, f(n)),
        None => root,
    }
}

/// The tree after a directory was opened.
pub open spec fn opened(root: NodeView, t: Seq<Seq<u8>>, scan: ScanView) -> NodeView {
    edited(root, t, |n: NodeView| opened_node(n, scan))
}

/// The tree after a node was closed.
pub open spec fn closed(root: NodeView, t: Seq<Seq<u8>>) -> NodeView {
    edited(root, t, |n: NodeView| NodeView { expanded: false, ..n })
}

/// The tree after a node was toggled: an open directory is closed, anything else
/// opened.
pub open spec fn toggled(root: NodeView, t: Seq<Seq<u8>>, scan: ScanView) -> NodeView {
    if open_at(root, t) {
        closed(root, t)
    } else {
        opened(root, t, scan)
    }
}

/// The root of a tree that has just been made.
pub open spec fn new_root(path: Seq<u8>, scan: ScanView) -> NodeView {
    loaded_node(
        NodeView { expanded: true, ..fresh_node(path, NodeKind::Directory, false, None) },
        scan,
    )
}

impl Node {
    /// Reads the children of a directory, if they were not.
    pub fn load(&mut self, scan: DirScan)
        ensures
            final(self)@ == loaded_node(old(self)@, scan@),
    {
        if self.is_dir() && !self.loaded {
            if let Some(entries) = scan.entries {
                self.children = sort_nodes(entries, SortMode::Name, false);
                self.loaded_mtime = scan.mtime;
                self.loaded = true;
            }
        }
    }

    /// Reads the children of a directory again, if they were read before. Says
    /// whether that was done.
    pub fn refresh(&mut self, scan: DirScan) -> (r: bool)
        ensures
            final(self)@ == refreshed_node(old(self)@, scan@),
            r == refreshes(old(self)@, scan@),
    {
        if !self.is_dir() || !self.loaded {
            return false;
        }
        match scan.entries {
            Some(entries) => {
                let mut known: Vec<Node> = Vec::new();
                std::mem::swap(&mut known, &mut self.children);
                let now = sort_nodes(entries, SortMode::Name, false);
                self.children = merge_children(known, now);
                self.loaded_mtime = scan.mtime;
                true
            },
            None => false,
        }
    }

    /// Opens a directory, reading it as far as that is due.
    pub fn open(&mut self, scan: DirScan)
        ensures
            final(self)@ == opened_node(old(self)@, scan@),
    {
        if !self.is_dir() {
            return;
        }
        if !self.loaded {
            self.load(scan);
        } else if !fresh(self, scan.mtime) {
            let _done = self.refresh(scan);
        }
        self.expanded = true;
    }
}

fn fresh(n: &Node, mtime: Option<i128>) -> (r: bool)
    ensures
        r == is_fresh(n@, mtime),
{
    n.loaded && match (n.loaded_mtime, mtime) {
        (Some(a), Some(b)) => a == b,
        _ => false,
    }
}

/// The nodes of a list by their paths; of two with one path the later one.
fn by_path(nodes: Vec<Node>) -> (r: PathMap<Node>)
    ensures
        forall|k: Seq<Seq<u8>>|
            #![trigger r@.contains_key(k)]
            r@.contains_key(k) == last_with(nodes_view(nodes@), k) is Some,
        forall|k: Seq<Seq<u8>>|
            #![trigger r@[k]]
            r@.contains_key(k) ==> Some(r@[k]@) == last_with(nodes_view(nodes@), k),
{
    let mut map: PathMap<Node> = PathMap::new();
    let mut left = nodes;
    let ghost all = nodes_view(nodes@);
    while left.len() > 0
        invariant
            forall|k: Seq<Seq<u8>>|
                #![trigger map@.contains_key(k)]
                #![trigger last_with(all, k)]
                last_with(all, k) == if map@.contains_key(k) {
                    Some(map@[k]@)
                } else {
                    last_with(nodes_view(left@), k)
                },
        decreases left@.len(),
    {
        let ghost before = left@;
        let ghost held = map@;
        match left.pop() {
            Some(node) => {
                let ghost k0 = node.path.comps();
                proof {
                    assert(before.last() == node);
                    assert(left@ =~= before.drop_last());
                    assert(nodes_view(before) == nodes_view(left@).push(node@));
                    assert(nodes_view(before).drop_last() =~= nodes_view(left@));
                }
                if !map.contains(&node.path) {
                    let key = node.path.copy();
                    map.insert(key, node);
                }
                proof {
                    assert forall|k: Seq<Seq<u8>>|
                        #![trigger map@.contains_key(k)]
                        last_with(all, k) == if map@.contains_key(k) {
                            Some(map@[k]@)
                        } else {
                            last_with(nodes_view(left@), k)
                        } by {
                        assert(held.contains_key(k) || !held.contains_key(k));
                        assert(last_with(nodes_view(before), k) == if node@.comps() == k {
                            Some(node@)
                        } else {
                            last_with(nodes_view(left@), k)
                        });
                    }
                }
            },
            None => {},
        }
    }
    map
}

fn links_agree(a: &Option<Path>, b: &Option<Path>) -> (r: bool)
    ensures
        r == same_link(path_view(*a), path_view(*b)),
{
    match (a, b) {
        (None, None) => true,
        (Some(x), Some(y)) => x.same(y),
        _ => false,
    }
}

/// Puts what a directory is found to hold in place of what was known.
fn merge_children(known: Vec<Node>, now: Vec<Node>) -> (r: Vec<Node>)
    ensures
        nodes_view(r@) == merged_children(nodes_view(known@), nodes_view(now@)),
{
    let ghost ks = nodes_view(known@);
    let ghost ns = nodes_view(now@);
    let ghost all = now@;
    let mut map = by_path(known);
    let mut out: Vec<Node> = Vec::new();
    let mut left: Vec<Node> = Vec::new();
    let mut src = now;
    proof {
        lemma_nodes_view(all);
    }
    while src.len() > 0
        invariant
            src@.len() + left@.len() == all.len(),
            src@ == all.take(src@.len() as int),
            forall|k: int|
                0 <= k < left@.len() ==> #[trigger] left@[k] == all[all.len() - 1 - k],
        decreases src@.len(),
    {
        match src.pop() {
            Some(n) => {
                left.push(n);
            },
            None => {},
        }
    }
    let ghost mut i: int = 0;
    while left.len() > 0
        invariant
            0 <= i <= all.len(),
            i + left@.len() == all.len(),
            ns == nodes_view(all),
            ns.len() == all.len(),
            forall|k: int| 0 <= k < all.len() ==> #[trigger] ns[k] == node_view(all[k]),
            forall|k: int|
                0 <= k < left@.len() ==> #[trigger] left@[k] == all[all.len() - 1 - k],
            out@.len() == i,
            forall|k: int| 0 <= k < i ==> node_view(#[trigger] out@[k]) == merged_child(ks, ns, k),
            forall|k: Seq<Seq<u8>>|
                #![trigger map@.contains_key(k)]
                map@.contains_key(k) == (last_with(ks, k) is Some && !exists|j: int|
                    0 <= j < i && (#[trigger] ns[j]).comps() == k),
            forall|k: Seq<Seq<u8>>|
                #![trigger map@[k]]
                map@.contains_key(k) ==> Some(map@[k]@) == last_with(ks, k),
        decreases left@.len(),
    {
        let ghost held = map@;
        match left.pop() {
            Some(f) => {
                assert(f == all[i]);
                assert(ns[i] == f@);
                let ghost k0 = f@.comps();
                let old = map.remove(&f.path);
                proof {
                    assert(held.contains_key(k0) == held.contains_key(f.path.comps()));
                    if old is Some {
                        assert(held.contains_key(k0));
                        assert(Some(held[k0]@) == last_with(ks, k0));
                    }
                    assert forall|k: Seq<Seq<u8>>|
                        #![trigger map@.contains_key(k)]
                        map@.contains_key(k) == (last_with(ks, k) is Some && !exists|j: int|
                            0 <= j < i + 1 && (#[trigger] ns[j]).comps() == k) by {
                        assert(held.contains_key(k) || !held.contains_key(k));
                        if k == k0 {
                            assert(ns[i].comps() == k);
                        } else if exists|j: int| 0 <= j < i + 1 && (#[trigger] ns[j]).comps() == k {
                            let j = choose|j: int|
                                0 <= j < i + 1 && (#[trigger] ns[j]).comps() == k;
                            assert(j < i);
                        }
                    }
                }
                let node = match old {
                    Some(mut e) => {
                        if e.is_dir() && f.is_dir() && e.kind == f.kind && links_agree(
                            &e.link_to,
                            &f.link_to,
                        ) {
                            e.executable = f.executable;
                            e.mtime = f.mtime;
                            e.len = f.len;
                            e
                        } else {
                            f
                        }
                    },
                    None => f,
                };
                assert(node@ =~= merged_child(ks, ns, i));
                out.push(node);
                proof {
                    i = i + 1;
                }
            },
            None => {},
        }
    }
    proof {
        lemma_nodes_view(out@);
        assert(nodes_view(out@) =~= merged_children(ks, ns));
    }
    out
}

/// A tree of files, and what it is to show.
#[derive(Debug)]
pub struct Tree {
    pub root: Node,
    pub show_hidden: bool,
    pub show_ignored: bool,
    pub group_empty: bool,
}

/// A tree, with the view of its root.
#[verifier::ext_equal]
pub struct TreeView {
    pub root: NodeView,
    pub show_hidden: bool,
    pub show_ignored: bool,
    pub group_empty: bool,
}

impl View for Tree {
    type V = TreeView;

    open spec fn view(&self) -> TreeView {
        TreeView {
            root: self.root@,
            show_hidden: self.show_hidden,
            show_ignored: self.show_ignored,
            group_empty: self.group_empty,
        }
    }
}

/// Whether the toggles let a node count for a chain of folders.
pub open spec fn chain_visible(n: NodeView, show_hidden: bool, show_ignored: bool) -> bool {
    &&& show_hidden || !n.is_hidden()
    &&& show_ignored || n.git != Some(GitStatus::Ignored)
}

/// The nodes that count for a chain of folders.
pub open spec fn chain_nodes(s: Seq<NodeView>, show_hidden: bool, show_ignored: bool) -> Seq<
    NodeView,
>
    decreases s.len(),
{
    if s.len() == 0 {
        s
    } else if chain_visible(s.last(), show_hidden, show_ignored) {
        chain_nodes(s.drop_last(), show_hidden, show_ignored).push(s.last())
    } else {
        chain_nodes(s.drop_last(), show_hidden, show_ignored)
    }
}

/// The folder that a chain goes on with: the only node that counts, if it is a
/// directory, and not one whose name says that it changes too much.
pub open spec fn next_in_chain(dir: NodeView, show_hidden: bool, show_ignored: bool) -> Option<
    NodeView,
> {
    let v = chain_nodes(dir.children, show_hidden, show_ignored);
    if dir.is_dir() && v.len() == 1 && v[0].is_dir() && !is_churn(v[0].name) {
        Some(v[0])
    } else {
        None
    }
}

/// The path of the folder that the chain from the first node at `t` goes on
/// with.
pub open spec fn chain_from(
    root: NodeView,
    t: Seq<Seq<u8>>,
    show_hidden: bool,
    show_ignored: bool,
) -> Option<Seq<u8>> {
    match found(root, t) {
        Some(n) => match next_in_chain(n, show_hidden, show_ignored) {
            Some(c) => Some(c.path),
            None => None,
        },
        None => None,
    }
}

/// The text that a path below the root gets when it is put together from the
/// root's text and the components that follow, up to component `n`.
pub open spec fn step_text(root: Seq<u8>, t: Seq<Seq<u8>>, n: int) -> Seq<u8>
    decreases n - comps(root).len(),
{
    if n <= comps(root).len() {
        root
    } else {
        join_text(step_text(root, t, n - 1), t[n - 1])
    }
}

/// The directories to open, the root first, so that a path below the root can be
/// seen. None for a path that is not below it.
pub open spec fn reveal_texts(root: Seq<u8>, target: Seq<u8>) -> Seq<Seq<u8>> {
    let n = comps(root).len();
    if comps(root).is_prefix_of(comps(target)) {
        Seq::new(
            (comps(target).len() - n) as nat,
            |i: int| step_text(root, comps(target), n + i),
        )
    } else {
        Seq::empty()
    }
}

/// Whether the first node at `t` is a directory that was read.
pub open spec fn loaded_at(root: NodeView, t: Seq<Seq<u8>>) -> bool {
    match found(root, t) {
        Some(n) => n.is_dir() && n.loaded,
        None => false,
    }
}

/// Whether the first node at `t` is an open directory.
pub open spec fn open_at(root: NodeView, t: Seq<Seq<u8>>) -> bool {
    match found(root, t) {
        Some(n) => n.is_dir() && n.expanded,
        None => false,
    }
}

/// The directories among some nodes.
pub open spec fn dirs_among(s: Seq<NodeView>) -> Seq<Seq<u8>>
    decreases s.len(),
{
    if s.len() == 0 {
        Seq::empty()
    } else if s.last().is_dir() {
        dirs_among(s.drop_last()).push(s.last().path)
    } else {
        dirs_among(s.drop_last())
    }
}

/// The directories directly below the first node at `t`.
pub open spec fn dirs_below(root: NodeView, t: Seq<Seq<u8>>) -> Seq<Seq<u8>> {
    match found(root, t) {
        Some(n) => dirs_among(n.children),
        None => Seq::empty(),
    }
}

/// A node with everything below it closed.
pub open spec fn all_closed(n: NodeView) -> NodeView
    decreases n,
{
    NodeView { children: each_closed(n.children), ..n }
}

/// Some nodes, closed, with everything below them.
pub open spec fn each_closed(s: Seq<NodeView>) -> Seq<NodeView>
    decreases s,
{
    if s.len() == 0 {
        s
    } else {
        each_closed(s.drop_last()).push(NodeView { expanded: false, ..all_closed(s.last()) })
    }
}

/// The open directories that can be reached through open directories.
pub open spec fn open_dirs(n: NodeView) -> Set<Seq<Seq<u8>>>
    decreases n,
{
    if n.is_dir() && n.expanded {
        open_among(n.children).insert(n.comps())
    } else {
        Set::empty()
    }
}

/// The open directories below some nodes.
pub open spec fn open_among(s: Seq<NodeView>) -> Set<Seq<Seq<u8>>>
    decreases s,
{
    if s.len() == 0 {
        Set::empty()
    } else {
        open_among(s.drop_last()).union(open_dirs(s.last()))
    }
}

/// Some texts with those of the open directories that can be reached through
/// open directories.
pub open spec fn with_open(n: NodeView, m: Map<Seq<Seq<u8>>, Seq<u8>>) -> Map<
    Seq<Seq<u8>>,
    Seq<u8>,
>
    decreases n,
{
    if n.is_dir() && n.expanded {
        with_open_among(n.children, texts_with(m, n.path))
    } else {
        m
    }
}

/// Some texts with those of the open directories below some nodes.
pub open spec fn with_open_among(s: Seq<NodeView>, m: Map<Seq<Seq<u8>>, Seq<u8>>) -> Map<
    Seq<Seq<u8>>,
    Seq<u8>,
>
    decreases s,
{
    if s.len() == 0 {
        m
    } else {
        with_open(s.last(), with_open_among(s.drop_last(), m))
    }
}

/// The status of a path.
pub open spec fn status_at(st: Map<Seq<Seq<u8>>, GitStatus>, k: Seq<Seq<u8>>) -> Option<GitStatus> {
    if st.contains_key(k) {
        Some(st[k])
    } else {
        None
    }
}

/// The status of a node: its own, and for a directory the dominant one of it
/// and of what is below. That something below is ignored never counts.
pub open spec fn status_of_node(n: NodeView, st: Map<Seq<Seq<u8>>, GitStatus>) -> Option<GitStatus>
    decreases n,
{
    if n.is_dir() {
        status_among(n.children, status_at(st, n.comps()), st)
    } else {
        status_at(st, n.comps())
    }
}

/// The dominant one of `start` and of the statuses of some nodes.
pub open spec fn status_among(
    s: Seq<NodeView>,
    start: Option<GitStatus>,
    st: Map<Seq<Seq<u8>>, GitStatus>,
) -> Option<GitStatus>
    decreases s,
{
    if s.len() == 0 {
        start
    } else {
        let best = status_among(s.drop_last(), start, st);
        match status_of_node(s.last(), st) {
            Some(c) => if c == GitStatus::Ignored {
                best
            } else {
                match best {
                    Some(b) => Some(b.spec_dominant(c)),
                    None => Some(c),
                }
            },
            None => best,
        }
    }
}

/// A node with its status, and all those below it.
pub open spec fn with_status(n: NodeView, st: Map<Seq<Seq<u8>>, GitStatus>) -> NodeView
    decreases n,
{
    NodeView {
        git: status_of_node(n, st),
        children: if n.is_dir() {
            each_with_status(n.children, st)
        } else {
            n.children
        },
        ..n
    }
}

/// Some nodes with their statuses, and all those below them.
pub open spec fn each_with_status(s: Seq<NodeView>, st: Map<Seq<Seq<u8>>, GitStatus>) -> Seq<
    NodeView,
>
    decreases s,
{
    if s.len() == 0 {
        s
    } else {
        each_with_status(s.drop_last(), st).push(with_status(s.last(), st))
    }
}

/// What a node shows of the diagnostics.
pub open spec fn diag_of(n: NodeView, files: Map<Seq<Seq<u8>>, Counts>, mode: Mode) -> Option<
    Diag,
> {
    match mode.spec_min_severity() {
        None => None,
        Some(min) => if n.is_dir() {
            worst_below(files, n.comps(), min)
        } else if files.contains_key(n.comps()) {
            files[n.comps()].spec_shown(min)
        } else {
            None
        },
    }
}

/// A node with what it shows of the diagnostics, and all those below it.
pub open spec fn with_diag(n: NodeView, files: Map<Seq<Seq<u8>>, Counts>, mode: Mode) -> NodeView
    decreases n,
{
    NodeView {
        diag: diag_of(n, files, mode),
        children: each_with_diag(n.children, files, mode),
        ..n
    }
}

/// Some nodes with what they show of the diagnostics, and all below them.
pub open spec fn each_with_diag(
    s: Seq<NodeView>,
    files: Map<Seq<Seq<u8>>, Counts>,
    mode: Mode,
) -> Seq<NodeView>
    decreases s,
{
    if s.len() == 0 {
        s
    } else {
        each_with_diag(s.drop_last(), files, mode).push(with_diag(s.last(), files, mode))
    }
}

/// A list whose first `i` nodes are changed, one node further.
proof fn lemma_step(done: Seq<NodeView>, rest: Seq<NodeView>, i: int, x: NodeView)
    requires
        0 <= i < rest.len(),
        done.len() == i,
    ensures
        (done + rest.skip(i)).len() == rest.len(),
        (done + rest.skip(i))[i] == rest[i],
        (done + rest.skip(i)).update(i, x) == done.push(x) + rest.skip(i + 1),
{
    assert((done + rest.skip(i)).update(i, x) =~= done.push(x) + rest.skip(i + 1));
}

proof fn lemma_each_lens(
    s: Seq<NodeView>,
    st: Map<Seq<Seq<u8>>, GitStatus>,
    files: Map<Seq<Seq<u8>>, Counts>,
    mode: Mode,
)
    ensures
        each_closed(s).len() == s.len(),
        each_with_status(s, st).len() == s.len(),
        each_with_diag(s, files, mode).len() == s.len(),
    decreases s.len(),
{
    if s.len() > 0 {
        lemma_each_lens(s.drop_last(), st, files, mode);
    }
}

/// Closes everything below a node.
fn close_below(n: &mut Node)
    ensures
        final(n)@ == all_closed(old(n)@),
    decreases *old(n),
{
    let ghost before = *n;
    let ghost cs = nodes_view(before.children@);
    let mut i: usize = 0;
    proof {
        lemma_nodes_view(before.children@);
        assert(each_closed(cs.take(0)) + cs.skip(0) =~= cs);
    }
    while i < n.children.len()
        invariant
            before == *old(n),
            i <= n.children@.len(),
            cs == nodes_view(before.children@),
            cs.len() == before.children@.len(),
            forall|k: int| 0 <= k < cs.len() ==> #[trigger] cs[k] == node_view(before.children@[k]),
            n.children@.len() == before.children@.len(),
            forall|k: int| i <= k < n.children@.len() ==> n.children@[k] == before.children@[k],
            *n == (Node { children: n.children, ..before }),
            nodes_view(n.children@) == each_closed(cs.take(i as int)) + cs.skip(i as int),
        decreases before.children@.len() - i,
    {
        let ghost held = n.children@;
        proof {
            lemma_each_lens(cs.take(i as int), Map::empty(), Map::empty(), Mode::Off);
            assert(cs.take(i + 1).drop_last() =~= cs.take(i as int));
            assert(cs.take(i + 1).last() == cs[i as int]);
            assert(decreases_to!(before => before.children@[i as int]));
        }
        let child = &mut n.children[i];
        close_below(child);
        child.expanded = false;
        proof {
            let now = n.children@[i as int];
            lemma_nodes_view_update(held, i as int, now);
            assert(n.children@ =~= held.update(i as int, now));
            lemma_step(each_closed(cs.take(i as int)), cs, i as int, now@);
        }
        i += 1;
    }
    proof {
        assert(cs.take(i as int) =~= cs);
        assert(each_closed(cs) + cs.skip(i as int) =~= each_closed(cs));
    }
}

/// Lays statuses over a node and what is below it, and gives its own.
fn lay_status(n: &mut Node, st: &PathMap<GitStatus>) -> (r: Option<GitStatus>)
    ensures
        final(n)@ == with_status(old(n)@, st@),
        r == status_of_node(old(n)@, st@),
    decreases *old(n),
{
    let ghost before = *n;
    let own: Option<GitStatus> = match st.get(&n.path) {
        Some(s) => Some(*s),
        None => None,
    };
    assert(own == status_at(st@, before@.comps()));
    if !n.is_dir() {
        n.git = own;
        return own;
    }
    let ghost cs = nodes_view(before.children@);
    let mut best = own;
    let mut i: usize = 0;
    proof {
        lemma_nodes_view(before.children@);
        assert(each_with_status(cs.take(0), st@) + cs.skip(0) =~= cs);
    }
    while i < n.children.len()
        invariant
            before == *old(n),
            i <= n.children@.len(),
            cs == nodes_view(before.children@),
            cs.len() == before.children@.len(),
            forall|k: int| 0 <= k < cs.len() ==> #[trigger] cs[k] == node_view(before.children@[k]),
            n.children@.len() == before.children@.len(),
            forall|k: int| i <= k < n.children@.len() ==> n.children@[k] == before.children@[k],
            *n == (Node { children: n.children, ..before }),
            nodes_view(n.children@) == each_with_status(cs.take(i as int), st@) + cs.skip(i as int),
            best == status_among(cs.take(i as int), own, st@),
        decreases before.children@.len() - i,
    {
        let ghost held = n.children@;
        proof {
            lemma_each_lens(cs.take(i as int), st@, Map::empty(), Mode::Off);
            assert(cs.take(i + 1).drop_last() =~= cs.take(i as int));
            assert(cs.take(i + 1).last() == cs[i as int]);
            assert(decreases_to!(before => before.children@[i as int]));
        }
        let child = &mut n.children[i];
        let s = lay_status(child, st);
        if let Some(c) = s {
            if c != GitStatus::Ignored {
                best = match best {
                    Some(b) => Some(b.dominant(c)),
                    None => Some(c),
                };
            }
        }
        proof {
            let now = n.children@[i as int];
            lemma_nodes_view_update(held, i as int, now);
            assert(n.children@ =~= held.update(i as int, now));
            lemma_step(each_with_status(cs.take(i as int), st@), cs, i as int, now@);
        }
        i += 1;
    }
    proof {
        assert(cs.take(i as int) =~= cs);
        assert(each_with_status(cs, st@) + cs.skip(i as int) =~= each_with_status(cs, st@));
    }
    n.git = best;
    best
}

/// Lays diagnostics over a node and what is below it.
fn lay_diagnostics(n: &mut Node, data: &DiagnosticsData, mode: Mode)
    ensures
        final(n)@ == with_diag(old(n)@, data@, mode),
    decreases *old(n),
{
    let ghost before = *n;
    let ghost cs = nodes_view(before.children@);
    let own: Option<Diag> = match mode.min_severity() {
        None => None,
        Some(min) => if n.is_dir() {
            data.worst_under(&n.path, min)
        } else {
            data.for_file(&n.path, min)
        },
    };
    assert(own == diag_of(before@, data@, mode));
    let mut i: usize = 0;
    proof {
        lemma_nodes_view(before.children@);
        assert(each_with_diag(cs.take(0), data@, mode) + cs.skip(0) =~= cs);
    }
    while i < n.children.len()
        invariant
            before == *old(n),
            i <= n.children@.len(),
            cs == nodes_view(before.children@),
            cs.len() == before.children@.len(),
            forall|k: int| 0 <= k < cs.len() ==> #[trigger] cs[k] == node_view(before.children@[k]),
            n.children@.len() == before.children@.len(),
            forall|k: int| i <= k < n.children@.len() ==> n.children@[k] == before.children@[k],
            *n == (Node { children: n.children, ..before }),
            nodes_view(n.children@) == each_with_diag(cs.take(i as int), data@, mode) + cs.skip(
                i as int,
            ),
        decreases before.children@.len() - i,
    {
        let ghost held = n.children@;
        proof {
            lemma_each_lens(cs.take(i as int), Map::empty(), data@, mode);
            assert(cs.take(i + 1).drop_last() =~= cs.take(i as int));
            assert(cs.take(i + 1).last() == cs[i as int]);
            assert(decreases_to!(before => before.children@[i as int]));
        }
        let child = &mut n.children[i];
        lay_diagnostics(child, data, mode);
        proof {
            let now = n.children@[i as int];
            lemma_nodes_view_update(held, i as int, now);
            assert(n.children@ =~= held.update(i as int, now));
            lemma_step(each_with_diag(cs.take(i as int), data@, mode), cs, i as int, now@);
        }
        i += 1;
    }
    proof {
        assert(cs.take(i as int) =~= cs);
        assert(each_with_diag(cs, data@, mode) + cs.skip(i as int) =~= each_with_diag(
            cs,
            data@,
            mode,
        ));
    }
    n.diag = own;
}

/// Gathers the open directories from a node on.
fn gather_open(n: &Node, set: &mut PathSet)
    ensures
        final(set)@ == old(set)@.union(open_dirs(n@)),
        final(set).texts() == with_open(n@, old(set).texts()),
    decreases n,
{
    if n.is_dir() && n.expanded {
        let ghost start = set@;
        let ghost base = texts_with(set.texts(), n.path@);
        let ghost cs = nodes_view(n.children@);
        let _fresh = set.insert(n.path.copy());
        let mut i: usize = 0;
        proof {
            lemma_nodes_view(n.children@);
            assert(set@ =~= start.insert(n@.comps()).union(open_among(cs.take(0))));
        }
        while i < n.children.len()
            invariant
                i <= n.children@.len(),
                cs == nodes_view(n.children@),
                cs.len() == n.children@.len(),
                forall|k: int| 0 <= k < cs.len() ==> #[trigger] cs[k] == node_view(n.children@[k]),
                set@ == start.insert(n@.comps()).union(open_among(cs.take(i as int))),
                set.texts() == with_open_among(cs.take(i as int), base),
            decreases n.children@.len() - i,
        {
            proof {
                assert(cs.take(i + 1).drop_last() =~= cs.take(i as int));
                assert(cs.take(i + 1).last() == cs[i as int]);
                assert(decreases_to!(n => n.children@[i as int]));
            }
            gather_open(&n.children[i], set);
            assert(set@ =~= start.insert(n@.comps()).union(open_among(cs.take(i + 1))));
            i += 1;
        }
        proof {
            assert(cs.take(i as int) =~= cs);
            assert(set@ =~= start.union(open_dirs(n@)));
        }
    } else {
        assert(set@ =~= set@.union(open_dirs(n@)));
    }
}

impl Tree {
    /// A tree with its root open.
    pub fn new(root_path: Path, scan: DirScan) -> (r: Tree)
        ensures
            r.root@ == new_root(root_path@, scan@),
            !r.show_hidden,
            !r.show_ignored,
            !r.group_empty,
    {
        let mut root = Node::new(root_path, NodeKind::Directory, false, None);
        root.expanded = true;
        root.load(scan);
        Tree { root, show_hidden: false, show_ignored: false, group_empty: false }
    }

    /// Reads the children of a directory, if they were not.
    pub fn load_children(&mut self, path: &Path, scan: DirScan)
        ensures
            final(self).root@ == edited(
                old(self).root@,
                path.comps(),
                |n: NodeView| loaded_node(n, scan@),
            ),
            *final(self) == (Tree { root: final(self).root, ..*old(self) }),
    {
        if let Some(node) = self.root.find_mut(path) {
            node.load(scan);
        }
    }

    /// Whether opening a directory that was last changed at `mtime` would read
    /// its entries.
    pub fn wants_listing(&self, path: &Path, mtime: Option<i128>) -> (r: bool)
        ensures
            r == match found(self.root@, path.comps()) {
                Some(n) => n.is_dir() && !is_fresh(n, mtime),
                None => false,
            },
    {
        match self.root.find(path) {
            Some(n) => n.is_dir() && !fresh(n, mtime),
            None => false,
        }
    }

    /// Opens one directory.
    pub fn do_expand(&mut self, path: &Path, scan: DirScan)
        ensures
            final(self).root@ == opened(old(self).root@, path.comps(), scan@),
            *final(self) == (Tree { root: final(self).root, ..*old(self) }),
    {
        if let Some(node) = self.root.find_mut(path) {
            node.open(scan);
        }
    }

    /// The directory that the chain from `dir` goes on with.
    pub fn sole_visible_child_dir(&self, dir: &Path) -> (r: Option<Path>)
        ensures
            path_view(r) == chain_from(
                self.root@,
                dir.comps(),
                self.show_hidden,
                self.show_ignored,
            ),
    {
        let node = match self.root.find(dir) {
            Some(n) => n,
            None => {
                return None;
            },
        };
        if !node.is_dir() {
            return None;
        }
        let ghost cs = nodes_view(node.children@);
        let mut count: usize = 0;
        let mut at: usize = 0;
        let mut i: usize = 0;
        proof {
            lemma_nodes_view(node.children@);
        }
        while i < node.children.len()
            invariant
                i <= node.children.len(),
                cs == nodes_view(node.children@),
                cs.len() == node.children@.len(),
                forall|k: int|
                    0 <= k < cs.len() ==> #[trigger] cs[k] == node_view(node.children@[k]),
                count <= i,
                count == chain_nodes(
                    cs.take(i as int),
                    self.show_hidden,
                    self.show_ignored,
                ).len(),
                count > 0 ==> at < i && cs[at as int] == chain_nodes(
                    cs.take(i as int),
                    self.show_hidden,
                    self.show_ignored,
                ).last(),
            decreases node.children@.len() - i,
        {
            let c = &node.children[i];
            proof {
                assert(cs.take(i + 1).drop_last() =~= cs.take(i as int));
                assert(cs.take(i + 1).last() == cs[i as int]);
            }
            let ignored = match c.git {
                Some(s) => s == GitStatus::Ignored,
                None => false,
            };
            if (self.show_hidden || !c.is_hidden()) && (self.show_ignored || !ignored) {
                count += 1;
                at = i;
            }
            i += 1;
        }
        assert(cs.take(i as int) =~= cs);
        if count == 1 {
            let c = &node.children[at];
            if c.is_dir() && !is_high_churn_name(c.name.as_str()) {
                return Some(c.path.copy());
            }
        }
        None
    }

    /// Opens a directory. Where chains of folders are drawn as one row, gives
    /// the next folder of the chain, which is to be opened the same way.
    pub fn expand(&mut self, path: &Path, scan: DirScan) -> (r: Option<Path>)
        ensures
            final(self).root@ == opened(old(self).root@, path.comps(), scan@),
            *final(self) == (Tree { root: final(self).root, ..*old(self) }),
            path_view(r) == if old(self).group_empty {
                chain_from(
                    final(self).root@,
                    path.comps(),
                    old(self).show_hidden,
                    old(self).show_ignored,
                )
            } else {
                None
            },
    {
        self.do_expand(path, scan);
        if self.group_empty {
            self.sole_visible_child_dir(path)
        } else {
            None
        }
    }

    /// Whether a path is that of an open directory.
    pub fn is_open(&self, path: &Path) -> (r: bool)
        ensures
            r == open_at(self.root@, path.comps()),
    {
        match self.root.find(path) {
            Some(n) => n.is_dir() && n.expanded,
            None => false,
        }
    }

    /// Whether a path is that of a directory that was read.
    pub fn is_loaded(&self, path: &Path) -> (r: bool)
        ensures
            r == loaded_at(self.root@, path.comps()),
    {
        match self.root.find(path) {
            Some(n) => n.is_dir() && n.loaded,
            None => false,
        }
    }

    /// Closes an open directory, opens any other. Gives what `expand` gives.
    pub fn toggle(&mut self, path: &Path, scan: DirScan) -> (r: Option<Path>)
        ensures
            final(self).root@ == toggled(old(self).root@, path.comps(), scan@),
            *final(self) == (Tree { root: final(self).root, ..*old(self) }),
            path_view(r) == if !open_at(old(self).root@, path.comps()) && old(self).group_empty {
                chain_from(
                    final(self).root@,
                    path.comps(),
                    old(self).show_hidden,
                    old(self).show_ignored,
                )
            } else {
                None
            },
    {
        if self.is_open(path) {
            self.collapse(path);
            None
        } else {
            self.expand(path, scan)
        }
    }

    /// Closes a node.
    pub fn collapse(&mut self, path: &Path)
        ensures
            final(self).root@ == closed(old(self).root@, path.comps()),
            *final(self) == (Tree { root: final(self).root, ..*old(self) }),
    {
        if let Some(node) = self.root.find_mut(path) {
            node.expanded = false;
        }
    }

    /// Opens the directory on top of a stack, and puts those directly below it
    /// on the stack in its place. From a stack with the root alone this comes
    /// to every directory.
    pub fn expand_all(&mut self, stack: &mut Vec<Path>, scan: DirScan)
        requires
            old(stack)@.len() > 0,
        ensures
            final(self).root@ == opened(old(self).root@, old(stack)@.last().comps(), scan@),
            *final(self) == (Tree { root: final(self).root, ..*old(self) }),
            path_texts(final(stack)@) == path_texts(old(stack)@.drop_last()) + dirs_below(
                final(self).root@,
                old(stack)@.last().comps(),
            ),
    {
        let ghost rest = stack@.drop_last();
        let top = match stack.pop() {
            Some(p) => p,
            None => {
                return;
            },
        };
        assert(stack@ =~= rest);
        self.do_expand(&top, scan);
        let ghost base = path_texts(rest);
        assert(base + Seq::<Seq<u8>>::empty() =~= base);
        match self.root.find(&top) {
            Some(node) => {
                let ghost cs = nodes_view(node.children@);
                let mut i: usize = 0;
                proof {
                    lemma_nodes_view(node.children@);
                    assert(dirs_among(cs.take(0)) =~= Seq::empty());
                }
                while i < node.children.len()
                    invariant
                        i <= node.children@.len(),
                        cs == nodes_view(node.children@),
                        cs.len() == node.children@.len(),
                        forall|k: int|
                            0 <= k < cs.len() ==> #[trigger] cs[k] == node_view(node.children@[k]),
                        path_texts(stack@) == base + dirs_among(cs.take(i as int)),
                    decreases node.children@.len() - i,
                {
                    proof {
                        assert(cs.take(i + 1).drop_last() =~= cs.take(i as int));
                        assert(cs.take(i + 1).last() == cs[i as int]);
                    }
                    if node.children[i].is_dir() {
                        let ghost held = stack@;
                        let p = node.children[i].path.copy();
                        stack.push(p);
                        assert(path_texts(stack@) =~= path_texts(held).push(p@));
                        assert(path_texts(held).push(p@) =~= base + dirs_among(
                            cs.take(i as int),
                        ).push(p@));
                    }
                    i += 1;
                }
                assert(cs.take(i as int) =~= cs);
            },
            None => {},
        }
    }

    /// Closes everything but the root.
    pub fn collapse_all(&mut self)
        ensures
            final(self).root@ == all_closed(old(self).root@),
            *final(self) == (Tree { root: final(self).root, ..*old(self) }),
    {
        close_below(&mut self.root);
    }

    /// Makes another directory the root, and keeps the toggles.
    pub fn set_root(&mut self, path: Path, scan: DirScan)
        ensures
            final(self).root@ == new_root(path@, scan@),
            *final(self) == (Tree { root: final(self).root, ..*old(self) }),
    {
        let mut root = Node::new(path, NodeKind::Directory, false, None);
        root.expanded = true;
        root.load(scan);
        self.root = root;
    }

    /// The open directories.
    pub fn collect_expanded(&self) -> (r: PathSet)
        ensures
            r@ == open_dirs(self.root@),
            r.texts() == with_open(self.root@, Map::empty()),
    {
        let mut set = PathSet::new();
        gather_open(&self.root, &mut set);
        assert(set@ =~= open_dirs(self.root@));
        set
    }

    /// Reads the root anew, closed below, and gives the directories that are to
    /// be opened again, those nearer the root first.
    pub fn reload_preserving(&mut self, expanded: &PathSet, scan: DirScan) -> (r: Vec<Path>)
        ensures
            final(self).root@ == new_root(old(self).root.path@, scan@),
            *final(self) == (Tree { root: final(self).root, ..*old(self) }),
            path_texts(r@) == stable_sort(listed(expanded.texts()), no_deeper()),
    {
        let path = self.root.path.copy();
        self.set_root(path, scan);
        crate::tree::depth::by_depth(expanded)
    }

    /// Reads a directory again, if it was read before, keeping the state of
    /// what is still there. Says whether that was done.
    pub fn refresh_dir(&mut self, dir: &Path, scan: DirScan) -> (r: bool)
        ensures
            final(self).root@ == edited(
                old(self).root@,
                dir.comps(),
                |n: NodeView| refreshed_node(n, scan@),
            ),
            *final(self) == (Tree { root: final(self).root, ..*old(self) }),
            r == match found(old(self).root@, dir.comps()) {
                Some(n) => refreshes(n, scan@),
                None => false,
            },
    {
        match self.root.find_mut(dir) {
            Some(node) => node.refresh(scan),
            None => false,
        }
    }

    /// The directories to open, the root first, so that a path below the root
    /// can be seen. None for a path that is not below it.
    pub fn reveal_chain(&self, target: &Path) -> (r: Vec<Path>)
        ensures
            path_texts(r@) == reveal_texts(self.root.path@, target@),
            forall|i: int|
                0 <= i < r@.len() ==> (#[trigger] r@[i]).comps() == target.comps().take(
                    self.root@.comps().len() + i,
                ),
    {
        let mut out: Vec<Path> = Vec::new();
        if !target.starts_with(&self.root.path) {
            assert(path_texts(out@) =~= reveal_texts(self.root.path@, target@));
            return out;
        }
        let from: usize = self.root.path.depth();
        let to: usize = target.depth();
        let ghost t = target.comps();
        let mut cur = self.root.path.copy();
        let mut i: usize = from;
        proof {
            assert(cur.comps() =~= t.take(from as int)) by {
                assert(self.root@.comps() =~= t.subrange(0, from as int));
            }
        }
        while i < to
            invariant
                from <= i <= to,
                to == t.len(),
                t == target.comps(),
                from == self.root@.comps().len(),
                cur.comps() == t.take(i as int),
                cur@ == step_text(self.root.path@, t, i as int),
                out@.len() == i - from,
                forall|k: int|
                    0 <= k < out@.len() ==> (#[trigger] out@[k])@ == step_text(
                        self.root.path@,
                        t,
                        from + k,
                    ),
                forall|k: int|
                    0 <= k < out@.len() ==> (#[trigger] out@[k]).comps() == t.take(from + k),
            decreases to - i,
        {
            let c = target.comp(i);
            proof {
                lemma_comps(target@);
                lemma_comps(cur@);
                assert(t[i as int].len() > 0);
            }
            let next = cur.join_bytes(c);
            proof {
                if i > 0 {
                    lemma_join_name(cur@, c@);
                    assert(t.take(i + 1) =~= t.take(i as int).push(t[i as int]));
                } else {
                    assert(cur@.len() == 0);
                    lemma_single(c@);
                    assert(join_text(cur@, c@) =~= c@);
                    assert(t.take(1) =~= seq![t[0]]);
                }
            }
            out.push(cur);
            cur = next;
            i += 1;
        }
        assert(path_texts(out@) =~= reveal_texts(self.root.path@, target@));
        out
    }

    /// Lays git's statuses over the tree.
    pub fn apply_git(&mut self, data: &GitData)
        ensures
            final(self).root@ == with_status(old(self).root@, data.statuses@),
            *final(self) == (Tree { root: final(self).root, ..*old(self) }),
    {
        let _own = lay_status(&mut self.root, &data.statuses);
    }

    /// Lays the editor's diagnostics over the tree.
    pub fn apply_diagnostics(&mut self, data: &DiagnosticsData, mode: Mode)
        ensures
            final(self).root@ == with_diag(old(self).root@, data@, mode),
            *final(self) == (Tree { root: final(self).root, ..*old(self) }),
    {
        lay_diagnostics(&mut self.root, data, mode);
    }

    /// The rows of the tree.
    pub fn flatten(&self, opts: &ViewOptions) -> (r: Vec<Row>)
        ensures
            rows_view(r@) == flat(self.root@, opts@),
    {
        flatten(&self.root, opts)
    }
}

/// A single component is all that it writes.
proof fn lemma_single(c: Seq<u8>)
    requires
        c.len() > 0,
        c == root_comp() || !c.contains(47u8),
    ensures
        comps(c) == seq![c],
{
    if c != root_comp() {
        crate::text::lemma_last_index(c, 47u8);
    }
    assert(comps(c) =~= seq![c]);
}

} // verus!
