//! What holds of a tree that is opened through and through.

use vstd::prelude::*;

use crate::path::comps;
use crate::tree::laws::{law_edit_is_found, law_edit_is_local, lemma_first, lemma_found_comps};
use crate::tree::laws::same_but_children;
use crate::tree::model::{dirs_among, dirs_below, opened, opened_node, ScanView};
use crate::tree::node::{found, found_among, lemma_found_among, with_found, NodeView};
use crate::tree::open_laws::{lemma_found_below, lemma_opened_sound, lemma_sound_at};
use crate::tree::open_laws::{lemma_sound_edit, lemma_through, scan_of, sound};

verus! {

/// The tree and the stack after one directory was opened: the one on top of the
/// stack, with those directly below it in its place.
pub open spec fn expanded_one(
    root: NodeView,
    stack: Seq<Seq<u8>>,
    disk: spec_fn(Seq<Seq<u8>>) -> ScanView,
) -> (NodeView, Seq<Seq<u8>>) {
    let t = comps(stack.last());
    let after = opened(root, t, disk(t));
    (after, stack.drop_last() + dirs_below(after, t))
}

/// The tree and the stack after some directories were opened, or the stack was
/// empty.
pub open spec fn expanded_many(
    root: NodeView,
    stack: Seq<Seq<u8>>,
    disk: spec_fn(Seq<Seq<u8>>) -> ScanView,
    n: nat,
) -> (NodeView, Seq<Seq<u8>>)
    decreases n,
{
    if n == 0 || stack.len() == 0 {
        (root, stack)
    } else {
        let (after, left) = expanded_one(root, stack, disk);
        expanded_many(after, left, disk, (n - 1) as nat)
    }
}

/// Whether a directory is on a stack, or below one that is.
pub open spec fn is_ahead(stack: Seq<Seq<u8>>, u: Seq<Seq<u8>>) -> bool {
    exists|i: int| 0 <= i < stack.len() && comps(#[trigger] stack[i]).is_prefix_of(u)
}

/// Whether every directory of a tree is open.
pub open spec fn all_dirs_open(root: NodeView) -> bool {
    forall|u: Seq<Seq<u8>>|
        #![trigger found(root, u)]
        found(root, u) is Some && found(root, u)->0.is_dir() ==> found(root, u)->0.expanded
}

/// Whether every directory of a tree is open but for those that are still ahead.
spec fn open_or_ahead(root: NodeView, stack: Seq<Seq<u8>>) -> bool {
    &&& sound(root)
    &&& forall|i: int|
        0 <= i < stack.len() ==> root.comps().is_prefix_of(comps(#[trigger] stack[i]))
    &&& forall|u: Seq<Seq<u8>>|
        #![trigger found(root, u)]
        found(root, u) is Some && found(root, u)->0.is_dir() ==> found(root, u)->0.expanded
            || is_ahead(stack, u)
}

/// What a path that is found goes through is found too.
proof fn lemma_way_is_found(n: NodeView, t: Seq<Seq<u8>>, u: Seq<Seq<u8>>)
    requires
        sound(n),
        found(n, u) is Some,
        n.comps().is_prefix_of(t),
        t.is_prefix_of(u),
    ensures
        found(n, t) is Some,
    decreases n,
{
    assert(n.comps() =~= t.subrange(0, n.comps().len() as int));
    assert(t =~= u.subrange(0, t.len() as int));
    if n.comps() != t {
        if n.comps().len() == t.len() {
            assert(n.comps() =~= t);
        }
        assert(u != n.comps());
        let k = lemma_first(n.children, u);
        lemma_found_among(n.children, u, k);
        let c = n.children[k];
        lemma_sound_at(n.children, k);
        let l = c.comps().len() as int;
        assert(c.comps() == u || c.comps().is_prefix_of(u));
        assert(c.comps() =~= u.subrange(0, l));
        assert(c.comps() =~= t.subrange(0, l));
        assert(c.comps().is_prefix_of(t));
        lemma_way_is_found(c, t, u);
        lemma_through(n.children, n.comps(), k, t);
    }
}

/// The directories among some nodes are listed.
proof fn lemma_dirs_listed(s: Seq<NodeView>, k: int) -> (i: int)
    requires
        0 <= k < s.len(),
        s[k].is_dir(),
    ensures
        0 <= i < dirs_among(s).len(),
        dirs_among(s)[i] == s[k].path,
    decreases s.len(),
{
    if k == s.len() - 1 {
        dirs_among(s.drop_last()).len() as int
    } else {
        lemma_dirs_listed(s.drop_last(), k)
    }
}

/// What is listed are nodes of the list.
proof fn lemma_listed_dirs(s: Seq<NodeView>, i: int) -> (k: int)
    requires
        0 <= i < dirs_among(s).len(),
    ensures
        0 <= k < s.len(),
        dirs_among(s)[i] == s[k].path,
    decreases s.len(),
{
    if s.last().is_dir() && i == dirs_among(s).len() - 1 {
        s.len() - 1
    } else {
        lemma_listed_dirs(s.drop_last(), i)
    }
}

proof fn lemma_expanded_one(
    root: NodeView,
    stack: Seq<Seq<u8>>,
    disk: spec_fn(Seq<Seq<u8>>) -> ScanView,
)
    requires
        open_or_ahead(root, stack),
        stack.len() > 0,
        scan_of(disk(comps(stack.last())), comps(stack.last())),
    ensures
        open_or_ahead(
            expanded_one(root, stack, disk).0,
            expanded_one(root, stack, disk).1,
        ),
        expanded_one(root, stack, disk).0.comps() == root.comps(),
{
    let t = comps(stack.last());
    let scan = disk(t);
    let (after, left) = expanded_one(root, stack, disk);
    let below = dirs_below(after, t);
    let kept = stack.drop_last();
    assert(t.is_prefix_of(t)) by {
        assert(t =~= t.subrange(0, t.len() as int));
    }
    assert(stack.last() == stack[stack.len() - 1]);
    assert(root.comps().is_prefix_of(t));
    if found(root, t) is None {
        assert(after == root);
        assert(left =~= kept);
        assert forall|u: Seq<Seq<u8>>|
            #![trigger found(after, u)]
            found(after, u) is Some && found(after, u)->0.is_dir() implies found(
            after,
            u,
        )->0.expanded || is_ahead(left, u) by {
            if !found(root, u)->0.expanded {
                let i = choose|i: int|
                    0 <= i < stack.len() && comps(#[trigger] stack[i]).is_prefix_of(u);
                if i == stack.len() - 1 {
                    lemma_way_is_found(root, t, u);
                }
                assert(left[i] == stack[i]);
            }
        }
    } else {
        let n = found(root, t)->0;
        let new = opened_node(n, scan);
        lemma_found_comps(root, t);
        lemma_found_below(root, t, t);
        lemma_opened_sound(n, scan);
        lemma_sound_edit(root, t, new);
        law_edit_is_found(root, t, new);
        assert(after == with_found(root, t, new));
        assert(below == dirs_among(new.children));
        assert forall|i: int| 0 <= i < left.len() implies after.comps().is_prefix_of(
            comps(#[trigger] left[i]),
        ) by {
            if i < kept.len() {
                assert(left[i] == stack[i]);
            } else {
                let k = lemma_listed_dirs(new.children, i - kept.len());
                assert(left[i] == new.children[k].path);
                let c = new.children[k].comps();
                assert(t =~= c.subrange(0, t.len() as int));
                assert(root.comps() =~= t.subrange(0, root.comps().len() as int));
                assert(root.comps() =~= c.subrange(0, root.comps().len() as int));
            }
        }
        assert forall|u: Seq<Seq<u8>>|
            #![trigger found(after, u)]
            found(after, u) is Some && found(after, u)->0.is_dir() implies found(
            after,
            u,
        )->0.expanded || is_ahead(left, u) by {
            if u == t {
                assert(new.expanded);
            } else if t.is_prefix_of(u) {
                lemma_found_below(after, t, u);
                assert(found_among(new.children, u) is Some);
                let k = lemma_first(new.children, u);
                lemma_found_among(new.children, u, k);
                let c = new.children[k];
                lemma_sound_at(new.children, k);
                if c.comps() == u {
                    assert(found(c, u) == Some(c));
                    assert(u.is_prefix_of(u)) by {
                        assert(u =~= u.subrange(0, u.len() as int));
                    }
                } else {
                    assert(c.comps().is_prefix_of(u));
                    assert(c.children.len() > 0);
                }
                assert(c.is_dir());
                let i = lemma_dirs_listed(new.children, k);
                assert(left[kept.len() + i] == c.path);
                assert(comps(left[kept.len() + i]).is_prefix_of(u));
            } else {
                law_edit_is_local(root, t, new, u);
                assert(same_but_children(found(root, u), found(after, u)));
                if !found(root, u)->0.expanded {
                    let i = choose|i: int|
                        0 <= i < stack.len() && comps(#[trigger] stack[i]).is_prefix_of(u);
                    assert(i < stack.len() - 1);
                    assert(left[i] == stack[i]);
                }
            }
        }
    }
}

proof fn lemma_expanded_many(
    root: NodeView,
    stack: Seq<Seq<u8>>,
    disk: spec_fn(Seq<Seq<u8>>) -> ScanView,
    n: nat,
)
    requires
        open_or_ahead(root, stack),
        forall|t: Seq<Seq<u8>>| scan_of(#[trigger] disk(t), t),
    ensures
        open_or_ahead(
            expanded_many(root, stack, disk, n).0,
            expanded_many(root, stack, disk, n).1,
        ),
    decreases n,
{
    if n > 0 && stack.len() > 0 {
        let (after, left) = expanded_one(root, stack, disk);
        lemma_expanded_one(root, stack, disk);
        lemma_expanded_many(after, left, disk, (n - 1) as nat);
    }
}

/// From a stack with the root alone, opening the directory on top, over and
/// over, until the stack is empty leaves every directory of the tree open.
pub proof fn law_expand_all_opens_everything(
    root: NodeView,
    disk: spec_fn(Seq<Seq<u8>>) -> ScanView,
    n: nat,
)
    requires
        sound(root),
        forall|t: Seq<Seq<u8>>| scan_of(#[trigger] disk(t), t),
        expanded_many(root, seq![root.path], disk, n).1.len() == 0,
    ensures
        all_dirs_open(expanded_many(root, seq![root.path], disk, n).0),
{
    let stack = seq![root.path];
    let r = root.comps();
    assert(comps(stack[0]) == r);
    assert(r.is_prefix_of(r)) by {
        assert(r =~= r.subrange(0, r.len() as int));
    }
    assert forall|u: Seq<Seq<u8>>|
        #![trigger found(root, u)]
        found(root, u) is Some implies is_ahead(stack, u) by {
        assert(comps(stack[0]).is_prefix_of(u));
    }
    lemma_expanded_many(root, stack, disk, n);
    let (tree, left) = expanded_many(root, stack, disk, n);
    assert forall|u: Seq<Seq<u8>>| !is_ahead(left, u) by {}
}

} // verus!
