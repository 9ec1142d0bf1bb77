//! What holds of a tree that is read anew with what was open in it.

use vstd::prelude::*;

use crate::order::{law_stable_sort, stable_sort};
use crate::path::comps;
use crate::paths::{lemma_ordered_holds, lemma_path_order, listed, ordered, texts_with};
use crate::tree::depth::no_deeper;
use crate::tree::laws::{law_edit_is_found, lemma_first, lemma_found_comps};
use crate::tree::model::{kept_order, merged_child, merged_children, new_root, open_among};
use crate::tree::model::{open_at, open_dirs, opened, opened_node, with_open, with_open_among};
use crate::tree::model::ScanView;
use crate::tree::node::{found, found_among, lemma_found_among, with_found, with_found_among};
use crate::tree::node::NodeView;
use crate::tree::open_laws::{is_plain, lemma_found_below, lemma_kept, lemma_opened_sound};
use crate::tree::open_laws::{lemma_last_with_is, lemma_past, lemma_plain_closed, lemma_sound_at};
use crate::tree::open_laws::{lemma_sound_all, lemma_sound_edit, lemma_through, listing, siblings};
use crate::tree::open_laws::{sound, sound_among};

verus! {

/// Whether a path goes through open directories all the way.
pub open spec fn all_open(n: NodeView, u: Seq<Seq<u8>>) -> bool {
    &&& n.comps().is_prefix_of(u)
    &&& forall|l: int|
        n.comps().len() <= l <= u.len() ==> open_at(n, #[trigger] u.take(l))
}

/// The open directories are those that are reached through open directories.
pub proof fn law_open_dirs_are_reached(n: NodeView, u: Seq<Seq<u8>>)
    requires
        sound(n),
    ensures
        open_dirs(n).contains(u) == all_open(n, u),
    decreases n,
{
    let t = n.comps();
    let len = t.len() as int;
    if t.is_prefix_of(u) {
        assert(t =~= u.subrange(0, len));
        assert(u.take(len) =~= t);
        assert(u.take(u.len() as int) =~= u);
    }
    if !(n.is_dir() && n.expanded) {
        if all_open(n, u) {
            assert(open_at(n, u.take(len)));
        }
    } else if u == t {
        assert(t.is_prefix_of(t));
        assert forall|l: int| len <= l <= u.len() implies open_at(n, #[trigger] u.take(l)) by {
            assert(u.take(l) =~= t);
        }
    } else {
        if open_among(n.children).contains(u) {
            let k = lemma_open_in(n.children, u);
            let c = n.children[k];
            lemma_sound_at(n.children, k);
            law_open_dirs_are_reached(c, u);
            assert(t =~= c.comps().subrange(0, len));
            assert(c.comps() =~= u.subrange(0, c.comps().len() as int));
            assert(t =~= u.subrange(0, len));
            assert(t.is_prefix_of(u));
            assert forall|l: int| len <= l <= u.len() implies open_at(n, #[trigger] u.take(l)) by {
                if l == len {
                    assert(u.take(l) =~= t);
                } else {
                    assert(open_at(c, u.take(l)));
                    assert(c.comps() =~= u.take(l).subrange(0, c.comps().len() as int));
                    assert(t =~= u.take(l).subrange(0, len));
                    lemma_through(n.children, t, k, u.take(l));
                    assert(u.take(l).len() != t.len());
                }
            }
        }
        if all_open(n, u) {
            if u.len() == len {
                assert(u =~= t);
            }
            let v = u.take(len + 1);
            assert(open_at(n, v));
            assert(v.len() != t.len());
            assert(found_among(n.children, v) is Some);
            let k = lemma_first(n.children, v);
            lemma_found_among(n.children, v, k);
            let c = n.children[k];
            lemma_sound_at(n.children, k);
            assert(c.comps() == v) by {
                if c.comps() != v {
                    assert(c.comps().is_prefix_of(v));
                    assert(c.comps() =~= v.subrange(0, len + 1));
                    assert(v =~= v.subrange(0, len + 1));
                }
            }
            assert(c.comps().is_prefix_of(u)) by {
                assert(v =~= u.subrange(0, len + 1));
            }
            assert forall|l: int| c.comps().len() <= l <= u.len() implies open_at(
                c,
                #[trigger] u.take(l),
            ) by {
                assert(open_at(n, u.take(l)));
                assert(c.comps() =~= u.take(l).subrange(0, len + 1));
                lemma_through(n.children, t, k, u.take(l));
                assert(u.take(l).len() != t.len());
            }
            law_open_dirs_are_reached(c, u);
            lemma_open_from(n.children, k, u);
        }
    }
}

proof fn lemma_open_in(s: Seq<NodeView>, u: Seq<Seq<u8>>) -> (k: int)
    requires
        open_among(s).contains(u),
    ensures
        0 <= k < s.len(),
        open_dirs(s[k]).contains(u),
    decreases s.len(),
{
    if open_dirs(s.last()).contains(u) {
        s.len() - 1
    } else {
        lemma_open_in(s.drop_last(), u)
    }
}

proof fn lemma_open_from(s: Seq<NodeView>, k: int, u: Seq<Seq<u8>>)
    requires
        0 <= k < s.len(),
        open_dirs(s[k]).contains(u),
    ensures
        open_among(s).contains(u),
    decreases s.len(),
{
    if k < s.len() - 1 {
        lemma_open_from(s.drop_last(), k, u);
    }
}

/// The tree after some directories were opened one after the other, each as it
/// is found on disk.
pub open spec fn reopened(
    root: NodeView,
    paths: Seq<Seq<u8>>,
    disk: spec_fn(Seq<Seq<u8>>) -> ScanView,
) -> NodeView
    decreases paths.len(),
{
    if paths.len() == 0 {
        root
    } else {
        opened(
            reopened(root, paths.drop_last(), disk),
            comps(paths.last()),
            disk(comps(paths.last())),
        )
    }
}

/// The directories that are opened again when the tree is read anew, in their
/// order.
pub open spec fn to_reopen(root: NodeView) -> Seq<Seq<u8>> {
    stable_sort(listed(with_open(root, Map::empty())), no_deeper())
}

/// Whether all of some directories can still be read, and each but the root is
/// still an entry of the one above it.
pub open spec fn still_readable(
    dirs: Set<Seq<Seq<u8>>>,
    root: Seq<Seq<u8>>,
    disk: spec_fn(Seq<Seq<u8>>) -> ScanView,
) -> bool {
    &&& forall|p: Seq<Seq<u8>>| #[trigger]
        dirs.contains(p) ==> disk(p).entries is Some && listing(disk(p).entries->0, p)
    &&& forall|p: Seq<Seq<u8>>| #[trigger]
        dirs.contains(p) && p != root ==> is_dir_entry(disk(p.drop_last()).entries->0, p)
}

/// Whether some entries hold a directory with a path.
pub open spec fn is_dir_entry(s: Seq<NodeView>, p: Seq<Seq<u8>>) -> bool {
    exists|j: int| 0 <= j < s.len() && (#[trigger] s[j]).comps() == p && s[j].is_dir()
}

/// Whether two nodes are the same entry, up to what is known of its inside.
pub open spec fn same_entry(a: NodeView, b: NodeView) -> bool {
    a == (NodeView {
        expanded: a.expanded,
        loaded: a.loaded,
        children: a.children,
        loaded_mtime: a.loaded_mtime,
        ..b
    })
}

/// Whether some nodes are, one by one, the same entries as others.
pub open spec fn same_entries(a: Seq<NodeView>, b: Seq<NodeView>) -> bool {
    a.len() == b.len() && forall|i: int| 0 <= i < a.len() ==> same_entry(#[trigger] a[i], b[i])
}

/// Whether a directory is open and holds what is found on disk.
pub open spec fn is_current(n: NodeView, scan: ScanView) -> bool {
    &&& n.is_dir()
    &&& n.expanded
    &&& n.loaded
    &&& n.loaded_mtime == scan.mtime
    &&& scan.entries is Some
    &&& same_entries(n.children, kept_order(scan.entries->0))
}

/// Whether exactly some directories of a tree are open and read, and hold what
/// is on disk.
pub open spec fn opens_just(
    tree: NodeView,
    dirs: Set<Seq<Seq<u8>>>,
    disk: spec_fn(Seq<Seq<u8>>) -> ScanView,
) -> bool {
    &&& sound(tree)
    &&& forall|u: Seq<Seq<u8>>|
        #![trigger found(tree, u)]
        found(tree, u) is Some ==> if dirs.contains(u) {
            is_current(found(tree, u)->0, disk(u))
        } else {
            is_plain(found(tree, u)->0)
        }
    &&& forall|u: Seq<Seq<u8>>| #[trigger] dirs.contains(u) ==> found(tree, u) is Some
}

/// Whether what is found at a path in two trees is the same, up to what is known
/// of the inside of what it holds.
spec fn alike(x: Option<NodeView>, y: Option<NodeView>) -> bool {
    match (x, y) {
        (Some(x), Some(y)) => y == (NodeView { children: y.children, ..x }) && same_entries(
            y.children,
            x.children,
        ),
        (None, None) => true,
        _ => false,
    }
}

proof fn lemma_same_entries_self(s: Seq<NodeView>)
    ensures
        same_entries(s, s),
{
    assert forall|i: int| 0 <= i < s.len() implies same_entry(#[trigger] s[i], s[i]) by {}
}

/// Changing the inside of a node changes nothing elsewhere.
proof fn lemma_edit_alike(n: NodeView, t: Seq<Seq<u8>>, new: NodeView, u: Seq<Seq<u8>>)
    requires
        sound(n),
        found(n, t) is Some,
        same_entry(new, found(n, t)->0),
        !t.is_prefix_of(u),
    ensures
        alike(found(n, u), found(with_found(n, t, new), u)),
    decreases n,
{
    let m = with_found(n, t, new);
    assert(t.is_prefix_of(t)) by {
        assert(t =~= t.subrange(0, t.len() as int));
    }
    if n.comps() == t {
        assert(new.comps() == t);
        assert(u != t);
    } else {
        let k = lemma_first(n.children, t);
        lemma_found_among(n.children, t, k);
        lemma_found_comps(n, t);
        let c = n.children[k];
        let d = with_found(c, t, new);
        let cs = n.children.update(k, d);
        assert(with_found_among(n.children, t, new) == cs);
        lemma_sound_at(n.children, k);
        assert(d.comps() == c.comps());
        assert(same_entry(d, c)) by {
            if c.comps() == t {
                assert(found(c, t) == Some(c));
            }
        }
        assert(same_entries(cs, n.children)) by {
            assert forall|i: int| 0 <= i < cs.len() implies same_entry(
                #[trigger] cs[i],
                n.children[i],
            ) by {}
        }
        if n.comps() != u && n.comps().is_prefix_of(u) {
            assert(siblings(cs, n.comps())) by {
                assert forall|i: int| 0 <= i < cs.len() implies (#[trigger] cs[i]).comps()
                    == n.children[i].comps() by {}
            }
            if c.comps().is_prefix_of(u) {
                lemma_through(n.children, n.comps(), k, u);
                lemma_through(cs, n.comps(), k, u);
                lemma_edit_alike(c, t, new, u);
            } else if exists|j: int|
                0 <= j < cs.len() && (#[trigger] cs[j]).comps().is_prefix_of(u) {
                let j = choose|j: int|
                    0 <= j < cs.len() && (#[trigger] cs[j]).comps().is_prefix_of(u);
                assert(j != k);
                lemma_through(n.children, n.comps(), j, u);
                lemma_through(cs, n.comps(), j, u);
                if found(n, u) is Some {
                    lemma_same_entries_self(found(n, u)->0.children);
                }
            } else {
                assert forall|j: int| 0 <= j < cs.len() implies !(
                #[trigger] n.children[j]).comps().is_prefix_of(u) by {
                    assert(!cs[j].comps().is_prefix_of(u));
                }
                lemma_past(cs, u);
                lemma_past(n.children, u);
            }
        }
    }
}

/// Nodes that are the same entries as those of a node that is the same entry as
/// a third are so too.
proof fn lemma_same_entries_carry(a: Seq<NodeView>, b: Seq<NodeView>, c: Seq<NodeView>)
    requires
        same_entries(a, b),
        same_entries(b, c),
    ensures
        same_entries(a, c),
{
    assert forall|i: int| 0 <= i < a.len() implies same_entry(#[trigger] a[i], c[i]) by {
        assert(same_entry(b[i], c[i]));
    }
}

/// One more directory is opened.
proof fn lemma_open_one(
    tree: NodeView,
    dirs: Set<Seq<Seq<u8>>>,
    disk: spec_fn(Seq<Seq<u8>>) -> ScanView,
    p: Seq<Seq<u8>>,
)
    requires
        opens_just(tree, dirs, disk),
        !dirs.contains(p),
        p.len() > 0,
        dirs.contains(p.drop_last()),
        disk(p.drop_last()).entries is Some,
        listing(disk(p.drop_last()).entries->0, p.drop_last()),
        is_dir_entry(disk(p.drop_last()).entries->0, p),
        disk(p).entries is Some,
        listing(disk(p).entries->0, p),
    ensures
        opens_just(opened(tree, p, disk(p)), dirs.insert(p), disk),
{
    let q = p.drop_last();
    let parent = found(tree, q)->0;
    let es = disk(q).entries->0;
    let now = kept_order(es);
    lemma_found_comps(tree, q);
    assert(q.is_prefix_of(p)) by {
        assert(q =~= p.subrange(0, q.len() as int));
    }
    assert(p.is_prefix_of(p)) by {
        assert(p =~= p.subrange(0, p.len() as int));
    }
    lemma_found_below(tree, q, p);
    lemma_kept(es, q);
    let j = choose|j: int| 0 <= j < es.len() && (#[trigger] es[j]).comps() == p && es[j].is_dir();
    assert(now.contains(es[j]));
    let k = choose|k: int| 0 <= k < now.len() && now[k] == es[j];
    assert(same_entry(parent.children[k], now[k]));
    let n = parent.children[k];
    assert(n.comps() == p && n.is_dir());
    lemma_through(parent.children, q, k, p);
    assert(found(tree, p) == Some(n));
    assert(is_plain(n));
    let new = opened_node(n, disk(p));
    let kids = kept_order(disk(p).entries->0);
    lemma_kept(disk(p).entries->0, p);
    assert(new.children == kids);
    lemma_sound_at(parent.children, k);
    lemma_opened_sound(n, disk(p));
    lemma_sound_edit(tree, p, new);
    law_edit_is_found(tree, p, new);
    let after = opened(tree, p, disk(p));
    assert(after == with_found(tree, p, new));
    assert(same_entry(new, n));
    lemma_same_entries_self(kids);
    assert(is_current(new, disk(p)));
    let more = dirs.insert(p);
    assert forall|u: Seq<Seq<u8>>|
        #![trigger found(after, u)]
        (found(after, u) is Some ==> if more.contains(u) {
            is_current(found(after, u)->0, disk(u))
        } else {
            is_plain(found(after, u)->0)
        }) && (dirs.contains(u) ==> found(after, u) is Some) by {
        if u == p {
        } else if p.is_prefix_of(u) {
            lemma_found_below(tree, p, u);
            lemma_found_below(after, p, u);
            assert(found_among(n.children, u) is None);
            assert(found(tree, u) is None);
            assert(!dirs.contains(u));
            lemma_plain_closed(kids, u);
        } else {
            lemma_edit_alike(tree, p, new, u);
            if found(tree, u) is Some {
                let x = found(tree, u)->0;
                let y = found(after, u)->0;
                if dirs.contains(u) {
                    lemma_same_entries_carry(
                        y.children,
                        x.children,
                        kept_order(disk(u).entries->0),
                    );
                }
            }
        }
    }
    assert forall|u: Seq<Seq<u8>>| #[trigger] more.contains(u) implies found(after, u) is Some by {
        if u != p {
            assert(dirs.contains(u));
            let _ = found(after, u);
        }
    }
}

/// The root by itself, just read.
proof fn lemma_root_alone(
    path: Seq<u8>,
    disk: spec_fn(Seq<Seq<u8>>) -> ScanView,
)
    requires
        disk(comps(path)).entries is Some,
        listing(disk(comps(path)).entries->0, comps(path)),
    ensures
        opens_just(new_root(path, disk(comps(path))), set![comps(path)], disk),
        opened(new_root(path, disk(comps(path))), comps(path), disk(comps(path))) == new_root(
            path,
            disk(comps(path)),
        ),
{
    let r = comps(path);
    let scan = disk(r);
    let root = new_root(path, scan);
    let now = kept_order(scan.entries->0);
    lemma_kept(scan.entries->0, r);
    assert(root.children == now);
    assert(root.comps() == r);
    assert(sound(root)) by {
        assert forall|i: int| 0 <= i < now.len() implies sound(#[trigger] now[i]) by {
            assert(is_plain(now[i]));
            assert(sound_among(now[i].children));
        }
        lemma_sound_all(now);
    }
    lemma_same_entries_self(now);
    assert forall|u: Seq<Seq<u8>>|
        #![trigger found(root, u)]
        found(root, u) is Some ==> if set![r].contains(u) {
            is_current(found(root, u)->0, disk(u))
        } else {
            is_plain(found(root, u)->0)
        } by {
        lemma_plain_closed(now, u);
    }
    let again = merged_children(now, now);
    assert forall|i: int| 0 <= i < now.len() implies again[i] == now[i] by {
        assert(again[i] == merged_child(now, now, i));
        lemma_last_with_is(now, r, i);
    }
    assert(again =~= now);
    assert(opened_node(root, scan) =~= root);
}

/// The texts of the open directories are those of the open directories, each
/// under its path.
pub proof fn lemma_texts(n: NodeView, m: Map<Seq<Seq<u8>>, Seq<u8>>)
    requires
        m.dom().finite(),
        forall|k: Seq<Seq<u8>>| #[trigger] m.contains_key(k) ==> comps(m[k]) == k,
    ensures
        with_open(n, m).dom().finite(),
        forall|k: Seq<Seq<u8>>| #[trigger]
            with_open(n, m).contains_key(k) <==> m.contains_key(k) || open_dirs(n).contains(k),
        forall|k: Seq<Seq<u8>>| #[trigger]
            with_open(n, m).contains_key(k) ==> comps(with_open(n, m)[k]) == k,
    decreases n,
{
    if n.is_dir() && n.expanded {
        lemma_texts_among(n.children, texts_with(m, n.path));
    }
}

proof fn lemma_texts_among(s: Seq<NodeView>, m: Map<Seq<Seq<u8>>, Seq<u8>>)
    requires
        m.dom().finite(),
        forall|k: Seq<Seq<u8>>| #[trigger] m.contains_key(k) ==> comps(m[k]) == k,
    ensures
        with_open_among(s, m).dom().finite(),
        forall|k: Seq<Seq<u8>>| #[trigger]
            with_open_among(s, m).contains_key(k) <==> m.contains_key(k) || open_among(
                s,
            ).contains(k),
        forall|k: Seq<Seq<u8>>| #[trigger]
            with_open_among(s, m).contains_key(k) ==> comps(with_open_among(s, m)[k]) == k,
    decreases s,
{
    if s.len() > 0 {
        lemma_texts_among(s.drop_last(), m);
        lemma_texts(s.last(), with_open_among(s.drop_last(), m));
    }
}

/// The directories to open again are the open ones, each once, those nearer the
/// root first.
pub proof fn law_reopens_each_once(root: NodeView)
    ensures
        forall|i: int|
            0 <= i < to_reopen(root).len() ==> open_dirs(root).contains(
                comps(#[trigger] to_reopen(root)[i]),
            ),
        forall|p: Seq<Seq<u8>>| #[trigger]
            open_dirs(root).contains(p) ==> exists|i: int|
                0 <= i < to_reopen(root).len() && comps(#[trigger] to_reopen(root)[i]) == p,
        forall|i: int, j: int|
            0 <= i < j < to_reopen(root).len() ==> {
                &&& comps(#[trigger] to_reopen(root)[i]).len() <= comps(
                    #[trigger] to_reopen(root)[j],
                ).len()
                &&& comps(to_reopen(root)[i]) != comps(to_reopen(root)[j])
            },
{
    broadcast use vstd::seq_lib::group_to_multiset_ensures;

    let m = with_open(root, Map::empty());
    let d = to_reopen(root);
    let q = ordered(m.dom());
    let all = listed(m);
    lemma_texts(root, Map::empty());
    lemma_ordered_holds(m.dom());
    let le = no_deeper();
    law_stable_sort(all, le);
    assert forall|i: int| 0 <= i < q.len() implies m.contains_key(#[trigger] q[i]) && comps(all[i])
        == q[i] by {
        assert(q.contains(q[i]));
    }
    assert forall|x: Seq<u8>| #[trigger] d.contains(x) <==> all.contains(x) by {
        assert(d.to_multiset().count(x) == all.to_multiset().count(x));
    }
    assert forall|i: int| 0 <= i < d.len() implies open_dirs(root).contains(
        comps(#[trigger] d[i]),
    ) by {
        assert(d.contains(d[i]));
        let a = choose|a: int| 0 <= a < all.len() && all[a] == d[i];
        assert(m.contains_key(q[a]));
    }
    assert forall|p: Seq<Seq<u8>>| #[trigger] open_dirs(root).contains(p) implies exists|i: int|
        0 <= i < d.len() && comps(#[trigger] d[i]) == p by {
        assert(m.contains_key(p));
        assert(q.contains(p));
        let a = choose|a: int| 0 <= a < q.len() && q[a] == p;
        assert(all.contains(all[a]));
        assert(d.contains(all[a]));
        let i = choose|i: int| 0 <= i < d.len() && d[i] == all[a];
        assert(comps(d[i]) == p);
    }
    assert(all.no_duplicates()) by {
        assert forall|a: int, b: int|
            0 <= a < all.len() && 0 <= b < all.len() && a != b implies all[a] != all[b] by {
            lemma_path_order(q[a], q[b]);
            lemma_path_order(q[b], q[a]);
        }
    }
    all.lemma_multiset_has_no_duplicates();
    d.lemma_multiset_has_no_duplicates_conv();
    assert forall|i: int, j: int| 0 <= i < j < d.len() implies {
        &&& comps(#[trigger] d[i]).len() <= comps(#[trigger] d[j]).len()
        &&& comps(d[i]) != comps(d[j])
    } by {
        assert(le(d[i], d[j]));
        assert(d.contains(d[i]) && d.contains(d[j]));
        let a = choose|a: int| 0 <= a < all.len() && all[a] == d[i];
        let b = choose|b: int| 0 <= b < all.len() && all[b] == d[j];
        assert(a != b);
        lemma_path_order(q[a], q[b]);
        lemma_path_order(q[b], q[a]);
    }
}

/// The paths of the first few of some texts.
spec fn first_paths(d: Seq<Seq<u8>>, m: int) -> Set<Seq<Seq<u8>>> {
    Set::new(|p: Seq<Seq<u8>>| exists|i: int| 0 <= i < m && comps(#[trigger] d[i]) == p)
}

proof fn lemma_reopened(
    root: NodeView,
    disk: spec_fn(Seq<Seq<u8>>) -> ScanView,
    m: int,
)
    requires
        sound(root),
        root.is_dir(),
        root.expanded,
        still_readable(open_dirs(root), root.comps(), disk),
        1 <= m <= to_reopen(root).len(),
    ensures
        opens_just(
            reopened(new_root(root.path, disk(root.comps())), to_reopen(root).take(m), disk),
            first_paths(to_reopen(root), m),
            disk,
        ),
    decreases m,
{
    let d = to_reopen(root);
    let e = open_dirs(root);
    let r = root.comps();
    let start = new_root(root.path, disk(r));
    law_reopens_each_once(root);
    assert(e.contains(r));
    let at = choose|i: int| 0 <= i < d.len() && comps(#[trigger] d[i]) == r;
    let p = comps(d[m - 1]);
    assert(e.contains(p));
    law_open_dirs_are_reached(root, p);
    assert(r =~= p.subrange(0, r.len() as int));
    assert(d.take(m).drop_last() =~= d.take(m - 1));
    assert(d.take(m).last() == d[m - 1]);
    if m == 1 {
        if at > 0 {
            assert(comps(d[0]).len() <= comps(d[at]).len());
            assert(p =~= r);
            assert(comps(d[0]) != comps(d[at]));
        }
        lemma_root_alone(root.path, disk);
        assert(d.take(0) =~= Seq::empty());
        assert(reopened(start, d.take(0), disk) == start);
        assert(first_paths(d, 1) =~= set![r]) by {
            assert forall|x: Seq<Seq<u8>>| first_paths(d, 1).contains(x) == set![r].contains(x) by {
                if x == r {
                    assert(comps(d[0]) == x);
                }
            }
        }
    } else {
        lemma_reopened(root, disk, m - 1);
        let tree = reopened(start, d.take(m - 1), disk);
        let s = first_paths(d, m - 1);
        assert(!s.contains(p)) by {
            if s.contains(p) {
                let i = choose|i: int| 0 <= i < m - 1 && comps(#[trigger] d[i]) == p;
                assert(comps(d[i]) != comps(d[m - 1]));
            }
        }
        if p == r {
            let x = comps(d[0]);
            assert(x.len() <= comps(d[m - 1]).len());
            assert(e.contains(x));
            law_open_dirs_are_reached(root, x);
            assert(r =~= x.subrange(0, r.len() as int));
            assert(x =~= r);
            assert(comps(d[0]) != comps(d[m - 1]));
        }
        if p.len() == r.len() {
            assert(p =~= r);
        }
        let q = p.drop_last();
        assert(e.contains(q)) by {
            assert(r =~= q.subrange(0, r.len() as int));
            assert forall|l: int| r.len() <= l <= q.len() implies open_at(
                root,
                #[trigger] q.take(l),
            ) by {
                assert(q.take(l) =~= p.take(l));
            }
            law_open_dirs_are_reached(root, q);
        }
        let j = choose|j: int| 0 <= j < d.len() && comps(#[trigger] d[j]) == q;
        if j > m - 1 {
            assert(comps(d[m - 1]).len() <= comps(d[j]).len());
        }
        assert(s.contains(q));
        lemma_open_one(tree, s, disk, p);
        assert(first_paths(d, m) =~= s.insert(p)) by {
            assert forall|x: Seq<Seq<u8>>| first_paths(d, m).contains(x) == s.insert(p).contains(
                x,
            ) by {
                if first_paths(d, m).contains(x) {
                    let i = choose|i: int| 0 <= i < m && comps(#[trigger] d[i]) == x;
                    if i < m - 1 {
                        assert(s.contains(x));
                    }
                }
                if s.contains(x) {
                    let i = choose|i: int| 0 <= i < m - 1 && comps(#[trigger] d[i]) == x;
                    assert(0 <= i < m && comps(d[i]) == x);
                }
                if x == p {
                    assert(comps(d[m - 1]) == x);
                }
            }
        }
    }
}

/// When the tree is read anew and what was open is opened again, the same
/// directories are open, as long as each can still be read. Each of them holds
/// what it is found to hold, and no other is read.
pub proof fn law_reload_keeps_what_is_open(
    root: NodeView,
    disk: spec_fn(Seq<Seq<u8>>) -> ScanView,
)
    requires
        sound(root),
        root.is_dir(),
        root.expanded,
        still_readable(open_dirs(root), root.comps(), disk),
    ensures
        open_dirs(reopened(new_root(root.path, disk(root.comps())), to_reopen(root), disk))
            == open_dirs(root),
        opens_just(
            reopened(new_root(root.path, disk(root.comps())), to_reopen(root), disk),
            open_dirs(root),
            disk,
        ),
        reopened(new_root(root.path, disk(root.comps())), to_reopen(root), disk).path == root.path,
{
    let d = to_reopen(root);
    let e = open_dirs(root);
    let r = root.comps();
    let start = new_root(root.path, disk(r));
    let tree = reopened(start, d, disk);
    law_reopens_each_once(root);
    assert(e.contains(r));
    let at = choose|i: int| 0 <= i < d.len() && comps(#[trigger] d[i]) == r;
    lemma_reopened(root, disk, d.len() as int);
    assert(d.take(d.len() as int) =~= d);
    assert(first_paths(d, d.len() as int) =~= e);
    lemma_root_path(start, d, disk);
    assert forall|u: Seq<Seq<u8>>| open_dirs(tree).contains(u) == e.contains(u) by {
        law_open_dirs_are_reached(tree, u);
        law_open_dirs_are_reached(root, u);
        if all_open(tree, u) {
            assert(u.take(u.len() as int) =~= u);
            assert(tree.comps() =~= u.subrange(0, tree.comps().len() as int));
            assert(open_at(tree, u.take(u.len() as int)));
            assert(found(tree, u) is Some);
        }
        if all_open(root, u) {
            assert(r =~= u.subrange(0, r.len() as int));
            assert forall|l: int| r.len() <= l <= u.len() implies open_at(
                tree,
                #[trigger] u.take(l),
            ) by {
                let v = u.take(l);
                assert(r =~= v.subrange(0, r.len() as int));
                assert forall|k: int| r.len() <= k <= v.len() implies open_at(
                    root,
                    #[trigger] v.take(k),
                ) by {
                    assert(v.take(k) =~= u.take(k));
                }
                law_open_dirs_are_reached(root, v);
                assert(e.contains(v));
                assert(found(tree, v) is Some);
            }
        }
    }
    assert(open_dirs(tree) =~= e);
}

proof fn lemma_root_path(
    root: NodeView,
    paths: Seq<Seq<u8>>,
    disk: spec_fn(Seq<Seq<u8>>) -> ScanView,
)
    ensures
        reopened(root, paths, disk).path == root.path,
    decreases paths.len(),
{
    if paths.len() > 0 {
        lemma_root_path(root, paths.drop_last(), disk);
    }
}

} // verus!
