//! A node of the tree. A directory reads its children when it is first opened,
//! and keeps them when it is closed.

use vstd::prelude::*;

use crate::diagnostics::Diag;
use crate::git::GitStatus;
use crate::path::{comps, name_of, Path};
use crate::text::{lossy_text, read_lossy, starts_with_char};

verus! {

/// What a node is.
#[derive(Clone, Copy, Debug, PartialEq, Eq, Structural)]
pub enum NodeKind {
    File,
    Directory,
    /// A symbolic link; `to_dir` when it leads to a directory.
    Symlink { to_dir: bool },
}

impl NodeKind {
    /// Whether the node can have children.
    pub open spec fn spec_is_dir(self) -> bool {
        self == NodeKind::Directory || self == (NodeKind::Symlink { to_dir: true })
    }

    /// Whether the node can have children.
    pub fn is_dir(self) -> (r: bool)
        ensures
            r == self.spec_is_dir(),
    {
        match self {
            NodeKind::Directory => true,
            NodeKind::Symlink { to_dir } => to_dir,
            NodeKind::File => false,
        }
    }
}

/// A file or directory of the tree.
#[derive(Debug)]
pub struct Node {
    pub path: Path,
    pub name: String,
    pub kind: NodeKind,
    pub expanded: bool,
    /// Whether the children were read.
    pub loaded: bool,
    pub children: Vec<Node>,
    pub executable: bool,
    /// The status of the file, or the dominant one below the directory.
    pub git: Option<GitStatus>,
    /// What the editor reports on the file, or the worst below the directory.
    pub diag: Option<Diag>,
    /// Where a link leads, for display.
    pub link_to: Option<Path>,
    /// The size in bytes; 0 for directories.
    pub len: u64,
    /// When the file was last changed, in nanoseconds since the epoch.
    pub mtime: Option<i128>,
    /// When the directory had last been changed as its children were read.
    pub loaded_mtime: Option<i128>,
}

/// A node, with texts and lists in place of paths, strings and vectors.
#[verifier::ext_equal]
pub struct NodeView {
    pub path: Seq<u8>,
    pub name: Seq<char>,
    pub kind: NodeKind,
    pub expanded: bool,
    pub loaded: bool,
    pub children: Seq<NodeView>,
    pub executable: bool,
    pub git: Option<GitStatus>,
    pub diag: Option<Diag>,
    pub link_to: Option<Seq<u8>>,
    pub len: u64,
    pub mtime: Option<i128>,
    pub loaded_mtime: Option<i128>,
}

/// The text of a path that may be there.
pub open spec fn path_view(p: Option<Path>) -> Option<Seq<u8>> {
    match p {
        Some(p) => Some(p@),
        None => None,
    }
}

/// The view of a node.
pub open spec fn node_view(n: Node) -> NodeView
    decreases n,
{
    NodeView {
        path: n.path@,
        name: n.name@,
        kind: n.kind,
        expanded: n.expanded,
        loaded: n.loaded,
        children: nodes_view(n.children@),
        executable: n.executable,
        git: n.git,
        diag: n.diag,
        link_to: path_view(n.link_to),
        len: n.len,
        mtime: n.mtime,
        loaded_mtime: n.loaded_mtime,
    }
}

/// The views of some nodes.
pub open spec fn nodes_view(s: Seq<Node>) -> Seq<NodeView>
    decreases s,
{
    if s.len() == 0 {
        Seq::empty()
    } else {
        nodes_view(s.drop_last()).push(node_view(s.last()))
    }
}

impl View for Node {
    type V = NodeView;

    open spec fn view(&self) -> NodeView {
        node_view(*self)
    }
}

/// Node by node, the views of some nodes.
pub proof fn lemma_nodes_view(s: Seq<Node>)
    ensures
        nodes_view(s).len() == s.len(),
        forall|i: int| 0 <= i < s.len() ==> #[trigger] nodes_view(s)[i] == node_view(s[i]),
    decreases s.len(),
{
    if s.len() > 0 {
        lemma_nodes_view(s.drop_last());
        assert forall|i: int| 0 <= i < s.len() implies #[trigger] nodes_view(s)[i] == node_view(
            s[i],
        ) by {
            if i < s.len() - 1 {
                assert(nodes_view(s.drop_last())[i] == node_view(s.drop_last()[i]));
            }
        }
    }
}

/// One node in place of another, in views.
pub proof fn lemma_nodes_view_update(s: Seq<Node>, i: int, n: Node)
    requires
        0 <= i < s.len(),
    ensures
        nodes_view(s.update(i, n)) == nodes_view(s).update(i, node_view(n)),
{
    lemma_nodes_view(s);
    lemma_nodes_view(s.update(i, n));
    assert(nodes_view(s.update(i, n)) =~= nodes_view(s).update(i, node_view(n)));
}

impl NodeView {
    /// The components of the node's path.
    pub open spec fn comps(self) -> Seq<Seq<u8>> {
        comps(self.path)
    }

    /// Whether the node can have children.
    pub open spec fn is_dir(self) -> bool {
        self.kind.spec_is_dir()
    }

    /// Whether the name begins with a dot.
    pub open spec fn is_hidden(self) -> bool {
        self.name.len() > 0 && self.name[0] == '.'
    }
}

/// How many nodes there are below a node, itself included.
pub open spec fn size(n: NodeView) -> nat
    decreases n,
{
    1 + total(n.children)
}

/// How many nodes there are below some nodes, themselves included.
pub open spec fn total(s: Seq<NodeView>) -> nat
    decreases s,
{
    if s.len() == 0 {
        0
    } else {
        total(s.drop_last()) + size(s.last())
    }
}

/// A node among others has no more below it than they have together.
pub proof fn lemma_total(s: Seq<NodeView>, i: int)
    requires
        0 <= i < s.len(),
    ensures
        size(s[i]) <= total(s),
    decreases s.len(),
{
    if i < s.len() - 1 {
        lemma_total(s.drop_last(), i);
    }
}

/// The first node with the path `t`: the node itself, or the first below its
/// children. Nothing is looked for below a node whose path `t` does not begin
/// with.
pub open spec fn found(n: NodeView, t: Seq<Seq<u8>>) -> Option<NodeView>
    decreases n,
{
    if n.comps() == t {
        Some(n)
    } else if !n.comps().is_prefix_of(t) {
        None
    } else {
        found_among(n.children, t)
    }
}

/// The first node with the path `t` below some nodes.
pub open spec fn found_among(s: Seq<NodeView>, t: Seq<Seq<u8>>) -> Option<NodeView>
    decreases s,
{
    if s.len() == 0 {
        None
    } else {
        match found_among(s.drop_last(), t) {
            Some(n) => Some(n),
            None => found(s.last(), t),
        }
    }
}

/// The node with `new` in place of the first node with the path `t`.
pub open spec fn with_found(n: NodeView, t: Seq<Seq<u8>>, new: NodeView) -> NodeView
    decreases n,
{
    if n.comps() == t {
        new
    } else if !n.comps().is_prefix_of(t) {
        n
    } else {
        NodeView { children: with_found_among(n.children, t, new), ..n }
    }
}

/// Some nodes with `new` in place of the first node with the path `t` below
/// them.
pub open spec fn with_found_among(s: Seq<NodeView>, t: Seq<Seq<u8>>, new: NodeView) -> Seq<NodeView>
    decreases s,
{
    if s.len() == 0 {
        s
    } else if found_among(s.drop_last(), t) is Some {
        with_found_among(s.drop_last(), t, new).push(s.last())
    } else {
        s.drop_last().push(with_found(s.last(), t, new))
    }
}

/// Where no node of a list has `t` below it, the list has not; where one is the
/// first that has, it decides.
pub proof fn lemma_found_among(s: Seq<NodeView>, t: Seq<Seq<u8>>, k: int)
    requires
        0 <= k <= s.len(),
        forall|j: int| 0 <= j < k ==> found(#[trigger] s[j], t) is None,
        k < s.len() ==> found(s[k], t) is Some,
    ensures
        k == s.len() ==> found_among(s, t) is None,
        k < s.len() ==> found_among(s, t) == found(s[k], t),
        forall|new: NodeView|
            #![trigger with_found_among(s, t, new)]
            k < s.len() ==> with_found_among(s, t, new) == s.update(k, with_found(s[k], t, new)),
    decreases s.len(),
{
    if s.len() > 0 {
        let init = s.drop_last();
        if k < s.len() - 1 {
            lemma_found_among(init, t, k);
            assert forall|new: NodeView|
                #![trigger with_found_among(s, t, new)]
                with_found_among(s, t, new) == s.update(k, with_found(s[k], t, new)) by {
                let _ = with_found_among(init, t, new);
                assert(init.update(k, with_found(s[k], t, new)).push(s.last()) =~= s.update(
                    k,
                    with_found(s[k], t, new),
                ));
            }
        } else {
            lemma_found_among(init, t, init.len() as int);
            if k == s.len() - 1 {
                assert forall|new: NodeView|
                    #![trigger with_found_among(s, t, new)]
                    with_found_among(s, t, new) == s.update(k, with_found(s[k], t, new)) by {
                    assert(init.push(with_found(s[k], t, new)) =~= s.update(
                        k,
                        with_found(s[k], t, new),
                    ));
                }
            }
        }
    }
}

/// The node that a new path makes: closed, nothing read, nothing reported. It
/// is named by the last component, and by the whole path where that is no
/// name.
pub open spec fn fresh_node(
    path: Seq<u8>,
    kind: NodeKind,
    executable: bool,
    link_to: Option<Seq<u8>>,
) -> NodeView {
    NodeView {
        path,
        name: match name_of(path) {
            Some(name) => lossy_text(name),
            None => lossy_text(path),
        },
        kind,
        expanded: false,
        loaded: false,
        children: Seq::empty(),
        executable,
        git: None,
        diag: None,
        link_to,
        len: 0,
        mtime: None,
        loaded_mtime: None,
    }
}

impl Node {
    /// A closed node with nothing read and nothing reported.
    pub fn new(path: Path, kind: NodeKind, executable: bool, link_to: Option<Path>) -> (r: Node)
        ensures
            r@ == fresh_node(path@, kind, executable, path_view(link_to)),
    {
        let name = match path.file_name() {
            Some(name) => read_lossy(name.as_slice()),
            None => path.display(),
        };
        let r = Node {
            path,
            name,
            kind,
            expanded: false,
            loaded: false,
            children: Vec::new(),
            executable,
            git: None,
            diag: None,
            link_to,
            len: 0,
            mtime: None,
            loaded_mtime: None,
        };
        assert(r@.children =~= Seq::empty());
        r
    }

    /// Whether the node can have children.
    pub fn is_dir(&self) -> (r: bool)
        ensures
            r == self@.is_dir(),
    {
        self.kind.is_dir()
    }

    /// Whether the name begins with a dot.
    pub fn is_hidden(&self) -> (r: bool)
        ensures
            r == self@.is_hidden(),
    {
        starts_with_char(self.name.as_str(), '.')
    }

    /// The first node with a path, this one or one below it.
    pub fn find(&self, target: &Path) -> (r: Option<&Node>)
        ensures
            r is Some == found(self@, target.comps()) is Some,
            r is Some ==> r->0@ == found(self@, target.comps())->0,
        decreases self,
    {
        if self.path.same(target) {
            return Some(self);
        }
        if !target.starts_with(&self.path) {
            return None;
        }
        let ghost cs = nodes_view(self.children@);
        let ghost t = target.comps();
        let mut i: usize = 0;
        proof {
            lemma_nodes_view(self.children@);
        }
        while i < self.children.len()
            invariant
                i <= self.children@.len(),
                cs == nodes_view(self.children@),
                cs.len() == self.children@.len(),
                forall|j: int| 0 <= j < cs.len() ==> #[trigger] cs[j] == node_view(
                    self.children@[j],
                ),
                t == target.comps(),
                self@.comps() != t,
                self@.comps().is_prefix_of(t),
                forall|j: int| 0 <= j < i ==> found(#[trigger] cs[j], t) is None,
            decreases self.children@.len() - i,
        {
            assert(decreases_to!(self => self.children@[i as int]));
            if let Some(n) = self.children[i].find(target) {
                proof {
                    lemma_found_among(cs, t, i as int);
                }
                return Some(n);
            }
            assert(found(cs[i as int], t) is None);
            i += 1;
        }
        proof {
            lemma_found_among(cs, t, i as int);
        }
        None
    }

    /// The first node with a path, this one or one below it, to be changed.
    pub fn find_mut(&mut self, target: &Path) -> (r: Option<&mut Node>)
        ensures
            match r {
                Some(n) => {
                    &&& found(old(self)@, target.comps()) == Some(n@)
                    &&& final(self)@ == with_found(old(self)@, target.comps(), final(n)@)
                },
                None => {
                    &&& found(old(self)@, target.comps()) is None
                    &&& *final(self) == *old(self)
                },
            },
        decreases *old(self),
    {
        if self.path.same(target) {
            return Some(self);
        }
        if !target.starts_with(&self.path) {
            return None;
        }
        let ghost before = *self;
        let ghost cs = nodes_view(before.children@);
        let ghost t = target.comps();
        let mut i: usize = 0;
        proof {
            lemma_nodes_view(before.children@);
        }
        while i < self.children.len()
            invariant
                *self == before,
                i <= self.children@.len(),
                cs == nodes_view(self.children@),
                cs.len() == self.children@.len(),
                forall|j: int| 0 <= j < cs.len() ==> #[trigger] cs[j] == node_view(
                    self.children@[j],
                ),
                t == target.comps(),
                before@.comps() != t,
                before@.comps().is_prefix_of(t),
                forall|j: int| 0 <= j < i ==> found(#[trigger] cs[j], t) is None,
            ensures
                i < self.children@.len() ==> found(cs[i as int], t) is Some,
            decreases self.children@.len() - i,
        {
            if self.children[i].find(target).is_some() {
                break;
            }
            assert(found(cs[i as int], t) is None);
            i += 1;
        }
        proof {
            lemma_found_among(cs, t, i as int);
        }
        if i < self.children.len() {
            let child = &mut self.children[i];
            proof {
                lemma_nodes_view_update(before.children@, i as int, *final(child));
            }
            match child.find_mut(target) {
                Some(n) => {
                    proof {
                        let new = final(n)@;
                        assert(with_found_among(cs, t, new) == cs.update(
                            i as int,
                            with_found(cs[i as int], t, new),
                        ));
                    }
                    Some(n)
                },
                None => None,
            }
        } else {
            None
        }
    }
}

} // verus!
