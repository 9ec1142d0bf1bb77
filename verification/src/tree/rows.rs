//! The rows that a tree shows: what of it is visible, in what order, and with
//! which chains of folders drawn together.

use vstd::prelude::*;

use crate::diagnostics::Diag;
use crate::git::GitStatus;
use crate::order::{placed, stable_sort};
use crate::path::Path;
use crate::paths::PathSet;
use crate::text::{contains_text, holds_text, join3, views};
use crate::tree::node::{lemma_nodes_view, lemma_total, node_view, nodes_view, path_view, size};
use crate::tree::node::{total, Node, NodeKind, NodeView};
use crate::tree::sort::{in_range, node_le, picked, sort_places, SortMode};

verus! {

/// What to show, and in what order.
#[derive(Debug)]
pub struct ViewOptions {
    pub show_hidden: bool,
    pub show_ignored: bool,
    /// Show only what git says was changed.
    pub git_clean: bool,
    /// Draw a chain of folders with one entry each as one row.
    pub group_empty: bool,
    pub sort: SortMode,
    pub files_first: bool,
    /// Names that hold one of these are left out, when `custom_active`.
    pub exclude: Vec<String>,
    pub custom_active: bool,
    /// A node is shown only if it is in every one of these.
    pub restricts: Vec<PathSet>,
}

/// Options, with lists and sets in place of vectors.
#[verifier::ext_equal]
pub struct OptionsView {
    pub show_hidden: bool,
    pub show_ignored: bool,
    pub git_clean: bool,
    pub group_empty: bool,
    pub sort: SortMode,
    pub files_first: bool,
    pub exclude: Seq<Seq<char>>,
    pub custom_active: bool,
    pub restricts: Seq<Set<Seq<Seq<u8>>>>,
}

/// The views of some sets.
pub open spec fn sets_view(s: Seq<PathSet>) -> Seq<Set<Seq<Seq<u8>>>> {
    s.map_values(|x: PathSet| x@)
}

impl View for ViewOptions {
    type V = OptionsView;

    open spec fn view(&self) -> OptionsView {
        OptionsView {
            show_hidden: self.show_hidden,
            show_ignored: self.show_ignored,
            git_clean: self.git_clean,
            group_empty: self.group_empty,
            sort: self.sort,
            files_first: self.files_first,
            exclude: views(self.exclude@),
            custom_active: self.custom_active,
            restricts: sets_view(self.restricts@),
        }
    }
}

impl Default for ViewOptions {
    fn default() -> (r: ViewOptions)
        ensures
            !r.show_hidden,
            !r.show_ignored,
            !r.git_clean,
            !r.group_empty,
            r.sort == SortMode::Name,
            !r.files_first,
            r.exclude@.len() == 0,
            !r.custom_active,
            r.restricts@.len() == 0,
    {
        ViewOptions {
            show_hidden: false,
            show_ignored: false,
            git_clean: false,
            group_empty: false,
            sort: SortMode::Name,
            files_first: false,
            exclude: Vec::new(),
            custom_active: false,
            restricts: Vec::new(),
        }
    }
}

/// One line of the tree, ready to be drawn.
#[derive(Debug)]
pub struct Row {
    pub path: Path,
    pub name: String,
    pub kind: NodeKind,
    pub depth: usize,
    pub expanded: bool,
    pub has_children: bool,
    pub executable: bool,
    pub git: Option<GitStatus>,
    pub diag: Option<Diag>,
    pub link_to: Option<Path>,
    /// The last folder of a chain that is drawn as one row.
    pub group_target: Option<Path>,
    /// For each level, this node's own as the last, whether the node there is
    /// the last among its siblings.
    pub ancestor_last: Vec<bool>,
}

/// A row, with texts and lists in place of paths, strings and vectors.
#[verifier::ext_equal]
pub struct RowView {
    pub path: Seq<u8>,
    pub name: Seq<char>,
    pub kind: NodeKind,
    pub depth: int,
    pub expanded: bool,
    pub has_children: bool,
    pub executable: bool,
    pub git: Option<GitStatus>,
    pub diag: Option<Diag>,
    pub link_to: Option<Seq<u8>>,
    pub group_target: Option<Seq<u8>>,
    pub ancestor_last: Seq<bool>,
}

impl View for Row {
    type V = RowView;

    open spec fn view(&self) -> RowView {
        RowView {
            path: self.path@,
            name: self.name@,
            kind: self.kind,
            depth: self.depth as int,
            expanded: self.expanded,
            has_children: self.has_children,
            executable: self.executable,
            git: self.git,
            diag: self.diag,
            link_to: path_view(self.link_to),
            group_target: path_view(self.group_target),
            ancestor_last: self.ancestor_last@,
        }
    }
}

impl RowView {
    /// The folder to act in: the last one of a chain.
    pub open spec fn dir_target(self) -> Seq<u8> {
        match self.group_target {
            Some(p) => p,
            None => self.path,
        }
    }
}

impl Row {
    /// The folder to act in: the last one of a chain.
    pub fn dir_target(&self) -> (r: &Path)
        ensures
            r@ == self@.dir_target(),
    {
        match &self.group_target {
            Some(p) => p,
            None => &self.path,
        }
    }
}

/// The views of some rows.
pub open spec fn rows_view(s: Seq<Row>) -> Seq<RowView> {
    s.map_values(|r: Row| r@)
}

/// Whether some pattern of the options stands in a name.
pub open spec fn is_excluded(name: Seq<char>, exclude: Seq<Seq<char>>) -> bool {
    exists|i: int| 0 <= i < exclude.len() && holds_text(name, #[trigger] exclude[i])
}

/// Whether the options let a node be seen.
pub open spec fn is_visible(n: NodeView, opts: OptionsView) -> bool {
    &&& opts.show_hidden || !n.is_hidden()
    &&& opts.show_ignored || n.git != Some(GitStatus::Ignored)
    &&& opts.git_clean ==> n.git is Some && n.git != Some(GitStatus::Ignored)
    &&& opts.custom_active ==> !is_excluded(n.name, opts.exclude)
    &&& forall|i: int|
        0 <= i < opts.restricts.len() ==> (#[trigger] opts.restricts[i]).contains(n.comps())
}

/// The visible ones of some nodes.
pub open spec fn visible_of(s: Seq<NodeView>, opts: OptionsView) -> Seq<NodeView>
    decreases s.len(),
{
    if s.len() == 0 {
        s
    } else if is_visible(s.last(), opts) {
        visible_of(s.drop_last(), opts).push(s.last())
    } else {
        visible_of(s.drop_last(), opts)
    }
}

/// The visible ones of some nodes, in order.
pub open spec fn shown(s: Seq<NodeView>, opts: OptionsView) -> Seq<NodeView> {
    stable_sort(visible_of(s, opts), node_le(opts.sort, opts.files_first))
}

proof fn lemma_total_placed(
    s: Seq<NodeView>,
    x: NodeView,
    le: spec_fn(NodeView, NodeView) -> bool,
)
    ensures
        total(placed(s, x, le)) == total(s) + size(x),
    decreases s.len(),
{
    if s.len() == 0 || le(s.last(), x) {
        assert(s.push(x).drop_last() =~= s);
    } else {
        lemma_total_placed(s.drop_last(), x, le);
        let p = placed(s.drop_last(), x, le);
        assert(p.push(s.last()).drop_last() =~= p);
    }
}

proof fn lemma_total_sorted(s: Seq<NodeView>, le: spec_fn(NodeView, NodeView) -> bool)
    ensures
        total(stable_sort(s, le)) == total(s),
    decreases s.len(),
{
    if s.len() > 0 {
        lemma_total_sorted(s.drop_last(), le);
        lemma_total_placed(stable_sort(s.drop_last(), le), s.last(), le);
    }
}

proof fn lemma_total_visible(s: Seq<NodeView>, opts: OptionsView)
    ensures
        total(visible_of(s, opts)) <= total(s),
    decreases s.len(),
{
    if s.len() > 0 {
        lemma_total_visible(s.drop_last(), opts);
        let v = visible_of(s.drop_last(), opts);
        assert(v.push(s.last()).drop_last() =~= v);
    }
}

/// What is shown of some nodes is no more than they are.
pub proof fn lemma_shown(s: Seq<NodeView>, opts: OptionsView)
    ensures
        total(shown(s, opts)) <= total(s),
        forall|i: int| 0 <= i < shown(s, opts).len() ==> size(#[trigger] shown(s, opts)[i]) <= total(
            s,
        ),
{
    lemma_total_visible(s, opts);
    lemma_total_sorted(visible_of(s, opts), node_le(opts.sort, opts.files_first));
    assert forall|i: int| 0 <= i < shown(s, opts).len() implies size(#[trigger] shown(s, opts)[i])
        <= total(s) by {
        lemma_total(shown(s, opts), i);
    }
}

/// Whether a node is drawn together with the only folder that it shows.
pub open spec fn chains(n: NodeView, opts: OptionsView) -> bool {
    &&& opts.group_empty
    &&& n.expanded
    &&& shown(n.children, opts).len() == 1
    &&& shown(n.children, opts)[0].is_dir()
}

/// The last folder of the chain that begins with a node.
pub open spec fn deepest(n: NodeView, opts: OptionsView) -> NodeView
    decreases size(n),
{
    if chains(n, opts) {
        proof {
            lemma_shown(n.children, opts);
        }
        deepest(shown(n.children, opts)[0], opts)
    } else {
        n
    }
}

/// The names of the chain that begins with a node, with slashes between.
pub open spec fn group_name(n: NodeView, opts: OptionsView) -> Seq<char>
    decreases size(n),
{
    if chains(n, opts) {
        proof {
            lemma_shown(n.children, opts);
        }
        n.name + "/"@ + group_name(shown(n.children, opts)[0], opts)
    } else {
        n.name
    }
}

/// The last folder of a chain is no more than the chain.
pub proof fn lemma_deepest(n: NodeView, opts: OptionsView)
    ensures
        size(deepest(n, opts)) <= size(n),
        total(shown(deepest(n, opts).children, opts)) < size(n),
    decreases size(n),
{
    lemma_shown(n.children, opts);
    if chains(n, opts) {
        lemma_deepest(shown(n.children, opts)[0], opts);
    }
}

/// The row of a node. `lasts` says of its level and of each above it whether
/// the node there is the last.
pub open spec fn row_of(n: NodeView, lasts: Seq<bool>, opts: OptionsView) -> RowView {
    let d = deepest(n, opts);
    RowView {
        path: n.path,
        name: group_name(n, opts),
        kind: n.kind,
        depth: if lasts.len() > 0 {
            lasts.len() - 1
        } else {
            0
        },
        expanded: n.expanded,
        has_children: d.is_dir() && (!d.loaded || shown(d.children, opts).len() > 0),
        executable: n.executable,
        git: n.git,
        diag: n.diag,
        link_to: n.link_to,
        group_target: if d.comps() != n.comps() {
            Some(d.path)
        } else {
            None
        },
        ancestor_last: lasts,
    }
}

/// The rows of a node: its own, and when it is open those of what it shows.
pub open spec fn rows_of(n: NodeView, lasts: Seq<bool>, opts: OptionsView) -> Seq<RowView>
    decreases size(n), 0int,
{
    proof {
        lemma_deepest(n, opts);
    }
    let d = deepest(n, opts);
    seq![row_of(n, lasts, opts)] + if n.expanded && d.is_dir() {
        rows_among(shown(d.children, opts), lasts, true, opts)
    } else {
        Seq::empty()
    }
}

/// The rows of some siblings; `ends` says whether the last of them is the last
/// of all.
pub open spec fn rows_among(
    s: Seq<NodeView>,
    lasts: Seq<bool>,
    ends: bool,
    opts: OptionsView,
) -> Seq<RowView>
    decreases total(s), 1int,
{
    if s.len() == 0 {
        Seq::empty()
    } else {
        proof {
            assert(size(s.last()) >= 1);
        }
        rows_among(s.drop_last(), lasts, false, opts) + rows_of(s.last(), lasts.push(ends), opts)
    }
}

/// The rows of a whole tree. Its root has none.
pub open spec fn flat(root: NodeView, opts: OptionsView) -> Seq<RowView> {
    if root.expanded {
        rows_among(shown(root.children, opts), Seq::empty(), true, opts)
    } else {
        Seq::empty()
    }
}

/// Whether some pattern of the options stands in a name.
pub fn excluded(name: &str, exclude: &Vec<String>) -> (r: bool)
    ensures
        r == is_excluded(name@, views(exclude@)),
{
    let mut i: usize = 0;
    while i < exclude.len()
        invariant
            i <= exclude@.len(),
            forall|k: int| 0 <= k < i ==> !holds_text(name@, (#[trigger] exclude@[k])@),
        decreases exclude@.len() - i,
    {
        if contains_text(name, exclude[i].as_str()) {
            assert(views(exclude@)[i as int] == exclude@[i as int]@);
            return true;
        }
        i += 1;
    }
    false
}

/// Whether the options let a node be seen.
pub fn visible(n: &Node, opts: &ViewOptions) -> (r: bool)
    ensures
        r == is_visible(n@, opts@),
{
    if !opts.show_hidden && n.is_hidden() {
        return false;
    }
    let ignored = match n.git {
        Some(s) => s == GitStatus::Ignored,
        None => false,
    };
    if !opts.show_ignored && ignored {
        return false;
    }
    if opts.git_clean && (n.git.is_none() || ignored) {
        return false;
    }
    if opts.custom_active && excluded(n.name.as_str(), &opts.exclude) {
        return false;
    }
    let mut i: usize = 0;
    while i < opts.restricts.len()
        invariant
            i <= opts.restricts@.len(),
            forall|k: int|
                0 <= k < i ==> (#[trigger] opts.restricts@[k])@.contains(n@.comps()),
        decreases opts.restricts@.len() - i,
    {
        if !opts.restricts[i].contains(&n.path) {
            assert(!opts@.restricts[i as int].contains(n@.comps()));
            return false;
        }
        i += 1;
    }
    true
}

/// The places of the visible ones of some nodes, in order.
fn visible_sorted(nodes: &Vec<Node>, opts: &ViewOptions) -> (r: Vec<usize>)
    ensures
        in_range(r@, nodes@.len() as int),
        picked(nodes_view(nodes@), r@) == shown(nodes_view(nodes@), opts@),
{
    let ghost ns = nodes_view(nodes@);
    proof {
        lemma_nodes_view(nodes@);
    }
    let mut places: Vec<usize> = Vec::new();
    let mut i: usize = 0;
    assert(picked(ns, places@) =~= visible_of(ns.take(0), opts@));
    while i < nodes.len()
        invariant
            i <= nodes@.len(),
            ns == nodes_view(nodes@),
            ns.len() == nodes@.len(),
            forall|k: int| 0 <= k < ns.len() ==> #[trigger] ns[k] == node_view(nodes@[k]),
            in_range(places@, nodes@.len() as int),
            picked(ns, places@) == visible_of(ns.take(i as int), opts@),
        decreases nodes@.len() - i,
    {
        let ghost before = places@;
        assert(ns.take(i + 1).drop_last() =~= ns.take(i as int));
        assert(ns.take(i + 1).last() == ns[i as int]);
        if visible(&nodes[i], opts) {
            places.push(i);
            assert(picked(ns, places@) =~= picked(ns, before).push(ns[i as int]));
        }
        i += 1;
    }
    assert(ns.take(i as int) =~= ns);
    sort_places(nodes, places, opts.sort, opts.files_first)
}

/// The name of the chain that begins with a node, and its last folder.
fn group_chain<'t>(node: &'t Node, opts: &ViewOptions) -> (r: (String, &'t Node))
    ensures
        r.0@ == group_name(node@, opts@),
        r.1@ == deepest(node@, opts@),
    decreases size(node@),
{
    if opts.group_empty && node.expanded {
        let vis = visible_sorted(&node.children, opts);
        proof {
            lemma_nodes_view(node.children@);
            lemma_shown(node@.children, opts@);
            assert(picked(nodes_view(node.children@), vis@).len() == vis@.len());
        }
        if vis.len() == 1 {
            let only = &node.children[vis[0]];
            assert(picked(nodes_view(node.children@), vis@)[0] == only@);
            if only.is_dir() {
                let (name, last) = group_chain(only, opts);
                return (join3(node.name.as_str(), "/", name.as_str()), last);
            }
        }
    }
    (node.name.clone(), node)
}

fn copy_flags(v: &Vec<bool>) -> (r: Vec<bool>)
    ensures
        r@ == v@,
{
    vstd::slice::slice_to_vec(v.as_slice())
}

fn copy_path(p: &Option<Path>) -> (r: Option<Path>)
    ensures
        path_view(r) == path_view(*p),
{
    match p {
        Some(p) => Some(p.copy()),
        None => None,
    }
}

/// Appends the rows of a node.
fn emit(node: &Node, lasts: &mut Vec<bool>, opts: &ViewOptions, out: &mut Vec<Row>)
    ensures
        final(lasts)@ == old(lasts)@,
        rows_view(final(out)@) == rows_view(old(out)@) + rows_of(node@, old(lasts)@, opts@),
    decreases size(node@), 0int,
{
    let (name, last) = group_chain(node, opts);
    let depth: usize = if lasts.len() > 0 {
        lasts.len() - 1
    } else {
        0
    };
    let vis = visible_sorted(&last.children, opts);
    proof {
        assert(picked(nodes_view(last.children@), vis@).len() == vis@.len());
        lemma_deepest(node@, opts@);
    }
    let has_children = last.is_dir() && (!last.loaded || vis.len() > 0);
    let group_target = if !last.path.same(&node.path) {
        Some(last.path.copy())
    } else {
        None
    };
    let row = Row {
        path: node.path.copy(),
        name,
        kind: node.kind,
        depth,
        expanded: node.expanded,
        has_children,
        executable: node.executable,
        git: node.git,
        diag: node.diag,
        link_to: copy_path(&node.link_to),
        group_target,
        ancestor_last: copy_flags(lasts),
    };
    let ghost before = out@;
    let ghost own = row_of(node@, lasts@, opts@);
    assert(row@ =~= own);
    out.push(row);
    proof {
        assert(rows_view(out@) =~= rows_view(before).push(own));
        assert(rows_view(before).push(own) =~= rows_view(before) + seq![own]);
    }
    if node.expanded && last.is_dir() {
        emit_all(&last.children, &vis, lasts, opts, out);
        proof {
            assert(rows_view(before) + (seq![own] + rows_among(
                shown(last@.children, opts@),
                lasts@,
                true,
                opts@,
            )) =~= rows_view(out@));
        }
    } else {
        assert(rows_view(before) + (seq![own] + Seq::<RowView>::empty()) =~= rows_view(out@));
    }
}

/// Appends the rows of siblings.
fn emit_all(
    nodes: &Vec<Node>,
    vis: &Vec<usize>,
    lasts: &mut Vec<bool>,
    opts: &ViewOptions,
    out: &mut Vec<Row>,
)
    requires
        in_range(vis@, nodes@.len() as int),
    ensures
        final(lasts)@ == old(lasts)@,
        rows_view(final(out)@) == rows_view(old(out)@) + rows_among(
            picked(nodes_view(nodes@), vis@),
            old(lasts)@,
            true,
            opts@,
        ),
    decreases total(picked(nodes_view(nodes@), vis@)), 1int,
{
    let ghost s = picked(nodes_view(nodes@), vis@);
    let ghost anc = lasts@;
    let ghost start = rows_view(out@);
    let n: usize = vis.len();
    let mut i: usize = 0;
    proof {
        lemma_nodes_view(nodes@);
        assert(start + rows_among(s.take(0), anc, false, opts@) =~= start);
    }
    while i < n
        invariant
            i <= n,
            n == vis@.len(),
            n == s.len(),
            s == picked(nodes_view(nodes@), vis@),
            in_range(vis@, nodes@.len() as int),
            nodes_view(nodes@).len() == nodes@.len(),
            forall|k: int|
                0 <= k < nodes@.len() ==> #[trigger] nodes_view(nodes@)[k] == node_view(nodes@[k]),
            lasts@ == anc,
            rows_view(out@) == start + rows_among(s.take(i as int), anc, i == n && n > 0, opts@),
        decreases n - i,
    {
        let ghost held = rows_view(out@);
        assert(vis@[i as int] < nodes@.len());
        assert(s[i as int] == node_view(nodes@[vis@[i as int] as int]));
        proof {
            lemma_total(s, i as int);
        }
        lasts.push(i == n - 1);
        emit(&nodes[vis[i]], lasts, opts, out);
        let _last = lasts.pop();
        proof {
            assert(lasts@ =~= anc);
            let t = s.take(i + 1);
            assert(t.drop_last() =~= s.take(i as int));
            assert(t.last() == s[i as int]);
            let a = rows_among(s.take(i as int), anc, false, opts@);
            let b = rows_of(s[i as int], anc.push(i == n - 1), opts@);
            assert((start + a) + b =~= start + (a + b));
        }
        i += 1;
    }
    assert(s.take(n as int) =~= s);
}

/// The rows of a whole tree.
pub fn flatten(root: &Node, opts: &ViewOptions) -> (r: Vec<Row>)
    ensures
        rows_view(r@) == flat(root@, opts@),
{
    let mut out: Vec<Row> = Vec::new();
    assert(rows_view(out@) =~= Seq::empty());
    if root.expanded {
        let vis = visible_sorted(&root.children, opts);
        let mut lasts: Vec<bool> = Vec::new();
        emit_all(&root.children, &vis, &mut lasts, opts, &mut out);
        assert(rows_view(out@) =~= flat(root@, opts@));
    }
    out
}

} // verus!
