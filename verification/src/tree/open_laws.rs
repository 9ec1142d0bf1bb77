//! What holds of the open directories of a tree.

use vstd::prelude::*;

use crate::order::law_stable_sort;
use crate::tree::laws::{law_closing_is_exact, law_edit_is_found, law_edit_is_local};
use crate::tree::laws::{lemma_first, lemma_found_comps};
use crate::tree::model::{is_fresh, kept_order, last_with, merged_child, merged_children};
use crate::tree::model::{open_at, opened, opened_node, survives, toggled, ScanView};
use crate::tree::node::{found, found_among, lemma_found_among, with_found, with_found_among};
use crate::tree::node::NodeView;
use crate::tree::sort::{law_node_order_ranks, node_le, SortMode};

verus! {

/// Whether some nodes lie directly in a directory, each once.
pub open spec fn siblings(s: Seq<NodeView>, dir: Seq<Seq<u8>>) -> bool {
    &&& forall|i: int|
        0 <= i < s.len() ==> (#[trigger] s[i]).comps().len() == dir.len() + 1 && dir.is_prefix_of(
            s[i].comps(),
        )
    &&& forall|i: int, j: int|
        0 <= i < j < s.len() ==> (#[trigger] s[i]).comps() != (#[trigger] s[j]).comps()
}

/// Whether the nodes of a tree lie where their paths say, and only a directory
/// that was read has any below it.
pub open spec fn sound(n: NodeView) -> bool
    decreases n,
{
    &&& siblings(n.children, n.comps())
    &&& n.children.len() > 0 ==> n.is_dir() && n.loaded
    &&& sound_among(n.children)
}

/// Whether that holds below some nodes.
pub open spec fn sound_among(s: Seq<NodeView>) -> bool
    decreases s,
{
    s.len() > 0 ==> sound_among(s.drop_last()) && sound(s.last())
}

/// Whether a node is as a directory's entries are read: closed, with nothing
/// below it.
pub open spec fn is_plain(n: NodeView) -> bool {
    !n.expanded && !n.loaded && n.children.len() == 0
}

/// Whether some nodes can be the entries of a directory.
pub open spec fn listing(s: Seq<NodeView>, dir: Seq<Seq<u8>>) -> bool {
    siblings(s, dir) && forall|i: int| 0 <= i < s.len() ==> is_plain(#[trigger] s[i])
}

/// Whether a scan can be one of a directory.
pub open spec fn scan_of(scan: ScanView, dir: Seq<Seq<u8>>) -> bool {
    scan.entries is Some ==> listing(scan.entries->0, dir)
}

/// Whether an entry is there for a directory that is known.
pub open spec fn is_there(known: NodeView, now: Seq<NodeView>) -> bool {
    exists|j: int|
        0 <= j < now.len() && (#[trigger] now[j]).comps() == known.comps() && survives(
            known,
            now[j],
        )
}

/// Whether a directory is on disk as it is known: if it was read, it was not
/// changed since, or still has the directories that are known in it.
pub open spec fn as_known(n: NodeView, scan: ScanView) -> bool {
    n.loaded ==> {
        ||| is_fresh(n, scan.mtime)
        ||| scan.entries is None
        ||| forall|i: int|
            0 <= i < n.children.len() && (#[trigger] n.children[i]).is_dir() ==> is_there(
                n.children[i],
                scan.entries->0,
            )
    }
}

/// Each of some sound nodes is sound.
pub proof fn lemma_sound_at(s: Seq<NodeView>, i: int)
    requires
        sound_among(s),
        0 <= i < s.len(),
    ensures
        sound(s[i]),
    decreases s.len(),
{
    if i < s.len() - 1 {
        lemma_sound_at(s.drop_last(), i);
    }
}

/// Nodes that are sound each are so together.
pub proof fn lemma_sound_all(s: Seq<NodeView>)
    requires
        forall|i: int| 0 <= i < s.len() ==> sound(#[trigger] s[i]),
    ensures
        sound_among(s),
    decreases s.len(),
{
    if s.len() > 0 {
        assert(sound(s[s.len() - 1]));
        assert forall|i: int| 0 <= i < s.drop_last().len() implies sound(
            #[trigger] s.drop_last()[i],
        ) by {
            assert(sound(s[i]));
        }
        lemma_sound_all(s.drop_last());
    }
}

/// Of siblings only the one that a path goes through can hold it.
pub proof fn lemma_through(s: Seq<NodeView>, dir: Seq<Seq<u8>>, i: int, u: Seq<Seq<u8>>)
    requires
        siblings(s, dir),
        0 <= i < s.len(),
        s[i].comps().is_prefix_of(u),
    ensures
        found_among(s, u) == found(s[i], u),
{
    assert forall|j: int| 0 <= j < s.len() && j != i implies found(#[trigger] s[j], u) is None by {
        if s[j].comps().is_prefix_of(u) || s[j].comps() == u {
            let l = (dir.len() + 1) as int;
            assert(s[j].comps() =~= u.subrange(0, l));
            assert(s[i].comps() =~= u.subrange(0, l));
            if i < j {
                assert(s[i].comps() != s[j].comps());
            } else {
                assert(s[j].comps() != s[i].comps());
            }
        }
    }
    if found(s[i], u) is Some {
        lemma_found_among(s, u, i);
    } else {
        lemma_found_among(s, u, s.len() as int);
    }
}

/// Where a path goes through none of some nodes, they do not hold it.
pub proof fn lemma_past(s: Seq<NodeView>, u: Seq<Seq<u8>>)
    requires
        forall|i: int| 0 <= i < s.len() ==> !(#[trigger] s[i]).comps().is_prefix_of(u),
    ensures
        found_among(s, u) is None,
{
    assert forall|j: int| 0 <= j < s.len() implies found(#[trigger] s[j], u) is None by {
        if s[j].comps() == u {
            assert(u.is_prefix_of(u)) by {
                assert(u =~= u.subrange(0, u.len() as int));
            }
        }
    }
    lemma_found_among(s, u, s.len() as int);
}

/// A path is found in a tree by way of any node that it goes through.
pub proof fn lemma_found_below(n: NodeView, t: Seq<Seq<u8>>, u: Seq<Seq<u8>>)
    requires
        sound(n),
        found(n, t) is Some,
        t.is_prefix_of(u),
    ensures
        found(n, u) == found(found(n, t)->0, u),
        sound(found(n, t)->0),
    decreases n,
{
    if n.comps() != t {
        let k = lemma_first(n.children, t);
        lemma_found_among(n.children, t, k);
        let c = n.children[k];
        lemma_sound_at(n.children, k);
        lemma_prefixes(c.comps(), t, u);
        lemma_prefixes(n.comps(), t, u);
        lemma_found_comps(n, t);
        if n.comps() == u {
            assert(t =~= u) by {
                assert(t =~= u.subrange(0, t.len() as int));
            }
        }
        lemma_through(n.children, n.comps(), k, u);
        lemma_found_below(c, t, u);
    }
}

/// What begins the beginning of a path begins the path.
proof fn lemma_prefixes(a: Seq<Seq<u8>>, b: Seq<Seq<u8>>, c: Seq<Seq<u8>>)
    requires
        a == b || a.is_prefix_of(b),
        b.is_prefix_of(c),
    ensures
        a.is_prefix_of(c),
        a.len() <= b.len() <= c.len(),
{
    assert(b =~= c.subrange(0, b.len() as int));
    if a != b {
        assert(a =~= b.subrange(0, a.len() as int));
    }
    assert(a =~= c.subrange(0, a.len() as int));
}

/// Putting a sound node in a sound tree keeps it sound.
pub proof fn lemma_sound_edit(n: NodeView, t: Seq<Seq<u8>>, new: NodeView)
    requires
        sound(n),
        found(n, t) is Some,
        sound(new),
        new.comps() == t,
    ensures
        sound(with_found(n, t, new)),
        with_found(n, t, new).comps() == n.comps(),
    decreases n,
{
    if n.comps() != t {
        let k = lemma_first(n.children, t);
        lemma_found_among(n.children, t, k);
        lemma_sound_at(n.children, k);
        lemma_sound_edit(n.children[k], t, new);
        let cs = n.children.update(k, with_found(n.children[k], t, new));
        assert(with_found_among(n.children, t, new) == cs);
        assert forall|i: int| 0 <= i < cs.len() implies sound(#[trigger] cs[i]) by {
            if i != k {
                lemma_sound_at(n.children, i);
            }
        }
        lemma_sound_all(cs);
        assert forall|i: int| 0 <= i < cs.len() implies (#[trigger] cs[i]).comps()
            == n.children[i].comps() by {}
        assert(siblings(cs, n.comps()));
    }
}

/// Entries in the order in which they are kept are the entries.
pub proof fn lemma_kept(s: Seq<NodeView>, dir: Seq<Seq<u8>>)
    requires
        listing(s, dir),
    ensures
        listing(kept_order(s), dir),
        forall|x: NodeView| #[trigger] kept_order(s).contains(x) <==> s.contains(x),
{
    broadcast use vstd::seq_lib::group_to_multiset_ensures;

    let k = kept_order(s);
    let le = node_le(SortMode::Name, false);
    law_node_order_ranks(SortMode::Name, false);
    law_stable_sort(s, le);
    assert(k.to_multiset() == s.to_multiset());
    assert forall|x: NodeView| #[trigger] k.contains(x) <==> s.contains(x) by {
        assert(k.to_multiset().count(x) == s.to_multiset().count(x));
    }
    assert forall|i: int| 0 <= i < k.len() implies s.contains(#[trigger] k[i]) by {
        assert(k.contains(k[i]));
    }
    assert forall|i: int, j: int| 0 <= i < j < k.len() implies (#[trigger] k[i]).comps() != (
    #[trigger] k[j]).comps() by {
        let a = choose|a: int| 0 <= a < s.len() && s[a] == k[i];
        let b = choose|b: int| 0 <= b < s.len() && s[b] == k[j];
        if k[i].comps() == k[j].comps() {
            if a < b {
                assert(s[a].comps() != s[b].comps());
            }
            if b < a {
                assert(s[b].comps() != s[a].comps());
            }
            assert(s.no_duplicates()) by {
                assert forall|p: int, q: int|
                    0 <= p < s.len() && 0 <= q < s.len() && p != q implies s[p] != s[q] by {
                    if p < q {
                        assert(s[p].comps() != s[q].comps());
                    } else {
                        assert(s[q].comps() != s[p].comps());
                    }
                }
            }
            s.lemma_multiset_has_no_duplicates();
            k.lemma_multiset_has_no_duplicates_conv();
            assert(k[i] != k[j]);
        }
    }
}

/// Of nodes with different paths, the last with the path of one is that one.
pub proof fn lemma_last_with_is(s: Seq<NodeView>, dir: Seq<Seq<u8>>, i: int)
    requires
        siblings(s, dir),
        0 <= i < s.len(),
    ensures
        last_with(s, s[i].comps()) == Some(s[i]),
    decreases s.len(),
{
    if i < s.len() - 1 {
        assert(s[i].comps() != s[s.len() - 1].comps());
        let init = s.drop_last();
        assert(siblings(init, dir)) by {
            assert forall|a: int, b: int| 0 <= a < b < init.len() implies (
            #[trigger] init[a]).comps() != (#[trigger] init[b]).comps() by {
                assert(s[a].comps() != s[b].comps());
            }
            assert forall|a: int| 0 <= a < init.len() implies (
            #[trigger] init[a]).comps().len() == dir.len() + 1 && dir.is_prefix_of(
                init[a].comps(),
            ) by {
                assert(init[a] == s[a]);
            }
        }
        assert(init[i] == s[i]);
        lemma_last_with_is(init, dir, i);
    }
}

/// What is found as the last with a path is one of the nodes.
proof fn lemma_last_with_in(s: Seq<NodeView>, k: Seq<Seq<u8>>) -> (i: int)
    requires
        last_with(s, k) is Some,
    ensures
        0 <= i < s.len(),
        s[i] == last_with(s, k)->0,
        s[i].comps() == k,
    decreases s.len(),
{
    if s.last().comps() == k {
        s.len() - 1
    } else {
        lemma_last_with_in(s.drop_last(), k)
    }
}

/// The entries of a directory that is read again are those that it is found to
/// hold, each with what is kept of it.
proof fn lemma_merged(known: Seq<NodeView>, now: Seq<NodeView>, dir: Seq<Seq<u8>>, i: int)
    requires
        siblings(known, dir),
        sound_among(known),
        listing(now, dir),
        0 <= i < now.len(),
    ensures
        merged_children(known, now).len() == now.len(),
        merged_children(known, now)[i].comps() == now[i].comps(),
        sound(merged_children(known, now)[i]),
        merged_children(known, now)[i] == match last_with(known, now[i].comps()) {
            Some(e) => if survives(e, now[i]) {
                NodeView { executable: now[i].executable, mtime: now[i].mtime, len: now[i].len, ..e }
            } else {
                now[i]
            },
            None => now[i],
        },
{
    let f = now[i];
    let m = merged_children(known, now)[i];
    assert(m == merged_child(known, now, i));
    assert(!exists|j: int| 0 <= j < i && (#[trigger] now[j]).comps() == f.comps()) by {
        if exists|j: int| 0 <= j < i && (#[trigger] now[j]).comps() == f.comps() {
            let j = choose|j: int| 0 <= j < i && (#[trigger] now[j]).comps() == f.comps();
            assert(now[j].comps() != now[i].comps());
        }
    }
    assert(is_plain(f));
    assert(sound(f));
    if last_with(known, f.comps()) is Some {
        let k = lemma_last_with_in(known, f.comps());
        lemma_sound_at(known, k);
        let e = known[k];
        assert(sound(NodeView { executable: f.executable, mtime: f.mtime, len: f.len, ..e }));
    }
}

/// A directory stays sound when it is opened.
pub proof fn lemma_opened_sound(n: NodeView, scan: ScanView)
    requires
        sound(n),
        scan_of(scan, n.comps()),
    ensures
        sound(opened_node(n, scan)),
        opened_node(n, scan).comps() == n.comps(),
{
    let m = opened_node(n, scan);
    if n.is_dir() && scan.entries is Some && !is_fresh(n, scan.mtime) {
        let now = kept_order(scan.entries->0);
        lemma_kept(scan.entries->0, n.comps());
        if n.loaded {
            let cs = merged_children(n.children, now);
            assert forall|i: int| 0 <= i < cs.len() implies sound(#[trigger] cs[i]) && cs[i].comps()
                == now[i].comps() by {
                lemma_merged(n.children, now, n.comps(), i);
            }
            lemma_sound_all(cs);
            assert(siblings(cs, n.comps())) by {
                assert forall|i: int, j: int| 0 <= i < j < cs.len() implies (
                #[trigger] cs[i]).comps() != (#[trigger] cs[j]).comps() by {
                    assert(now[i].comps() != now[j].comps());
                }
                assert forall|i: int| 0 <= i < cs.len() implies (
                #[trigger] cs[i]).comps().len() == n.comps().len() + 1
                    && n.comps().is_prefix_of(cs[i].comps()) by {
                    assert(cs[i].comps() == now[i].comps());
                }
            }
            assert(m.children == cs);
        } else {
            assert forall|i: int| 0 <= i < now.len() implies sound(#[trigger] now[i]) by {
                assert(is_plain(now[i]));
            }
            lemma_sound_all(now);
        }
    }
}

/// Below entries that were just read nothing is open.
pub proof fn lemma_plain_closed(s: Seq<NodeView>, u: Seq<Seq<u8>>)
    requires
        forall|i: int| 0 <= i < s.len() ==> is_plain(#[trigger] s[i]),
    ensures
        found_among(s, u) is Some ==> is_plain(found_among(s, u)->0),
    decreases s.len(),
{
    if s.len() > 0 {
        assert(is_plain(s[s.len() - 1]));
        assert(found_among(s.last().children, u) is None);
        assert(found(s.last(), u) is Some ==> found(s.last(), u)->0 == s.last());
        assert forall|i: int| 0 <= i < s.drop_last().len() implies is_plain(
            #[trigger] s.drop_last()[i],
        ) by {
            assert(is_plain(s[i]));
        }
        lemma_plain_closed(s.drop_last(), u);
    }
}

/// Opening a directory that is on disk as it is known opens and closes nothing
/// below it.
proof fn lemma_opening_below(n: NodeView, scan: ScanView, u: Seq<Seq<u8>>)
    requires
        sound(n),
        n.is_dir(),
        scan_of(scan, n.comps()),
        as_known(n, scan),
        n.comps().is_prefix_of(u),
        u != n.comps(),
    ensures
        open_at(opened_node(n, scan), u) == open_at(n, u),
{
    let m = opened_node(n, scan);
    let t = n.comps();
    if scan.entries is Some && !is_fresh(n, scan.mtime) {
        let es = scan.entries->0;
        let now = kept_order(es);
        lemma_kept(es, t);
        if !n.loaded {
            lemma_plain_closed(now, u);
        } else {
            let known = n.children;
            let cs = merged_children(known, now);
            lemma_opened_sound(n, scan);
            assert(m.children == cs);
            let l = (t.len() + 1) as int;
            assert(t =~= u.subrange(0, t.len() as int));
            if u.len() < l {
                assert(t =~= u);
            }
            let c = u.take(l);
            assert(c.is_prefix_of(u)) by {
                assert(c =~= u.subrange(0, c.len() as int));
            }
            if exists|i: int| 0 <= i < now.len() && (#[trigger] now[i]).comps() == c {
                let i = choose|i: int| 0 <= i < now.len() && (#[trigger] now[i]).comps() == c;
                lemma_merged(known, now, t, i);
                lemma_through(cs, t, i, u);
                if last_with(known, c) is Some {
                    let k = lemma_last_with_in(known, c);
                    lemma_through(known, t, k, u);
                    lemma_sound_at(known, k);
                    let e = known[k];
                    if e.is_dir() {
                        let j = choose|j: int|
                            0 <= j < es.len() && (#[trigger] es[j]).comps() == e.comps()
                                && survives(e, es[j]);
                        assert(now.contains(es[j]));
                        let p = choose|p: int| 0 <= p < now.len() && now[p] == es[j];
                        if p < i {
                            assert(now[p].comps() != now[i].comps());
                        }
                        if i < p {
                            assert(now[i].comps() != now[p].comps());
                        }
                        assert(survives(e, now[i]));
                        assert(found(cs[i], u) == if e.comps() == u {
                            Some(cs[i])
                        } else {
                            found(e, u)
                        });
                    } else {
                        assert(found(e, u) is Some ==> found(e, u)->0 == e);
                        assert(!survives(e, now[i]));
                        assert(is_plain(now[i]));
                    }
                } else {
                    assert forall|k: int| 0 <= k < known.len() implies !(
                    #[trigger] known[k]).comps().is_prefix_of(u) by {
                        if known[k].comps().is_prefix_of(u) {
                            assert(known[k].comps() =~= u.subrange(0, l));
                            assert(c =~= u.subrange(0, l));
                            lemma_last_with_is(known, t, k);
                        }
                    }
                    lemma_past(known, u);
                    assert(is_plain(now[i]));
                }
            } else {
                assert forall|i: int| 0 <= i < cs.len() implies !(
                #[trigger] cs[i]).comps().is_prefix_of(u) by {
                    lemma_merged(known, now, t, i);
                    if cs[i].comps().is_prefix_of(u) {
                        assert(now[i].comps() =~= u.subrange(0, l));
                        assert(c =~= u.subrange(0, l));
                    }
                }
                lemma_past(cs, u);
                if exists|k: int| 0 <= k < known.len() && (#[trigger] known[k]).comps() == c {
                    let k = choose|k: int|
                        0 <= k < known.len() && (#[trigger] known[k]).comps() == c;
                    lemma_through(known, t, k, u);
                    lemma_sound_at(known, k);
                    let e = known[k];
                    if e.is_dir() {
                        let j = choose|j: int|
                            0 <= j < es.len() && (#[trigger] es[j]).comps() == e.comps()
                                && survives(e, es[j]);
                        assert(now.contains(es[j]));
                    } else {
                        assert(found(e, u) is Some ==> found(e, u)->0 == e);
                    }
                } else {
                    assert forall|k: int| 0 <= k < known.len() implies !(
                    #[trigger] known[k]).comps().is_prefix_of(u) by {
                        if known[k].comps().is_prefix_of(u) {
                            assert(known[k].comps() =~= u.subrange(0, l));
                            assert(c =~= u.subrange(0, l));
                        }
                    }
                    lemma_past(known, u);
                }
            }
        }
    }
}

/// Opening a directory that is on disk as it is known opens it and no other,
/// and closes none.
pub proof fn law_opening_is_exact(
    root: NodeView,
    t: Seq<Seq<u8>>,
    scan: ScanView,
    u: Seq<Seq<u8>>,
)
    requires
        sound(root),
        found(root, t) is Some,
        found(root, t)->0.is_dir(),
        scan_of(scan, t),
        as_known(found(root, t)->0, scan),
    ensures
        open_at(opened(root, t, scan), u) == (open_at(root, u) || u == t),
{
    let n = found(root, t)->0;
    let new = opened_node(n, scan);
    lemma_found_comps(root, t);
    assert(t.is_prefix_of(t)) by {
        assert(t =~= t.subrange(0, t.len() as int));
    }
    lemma_found_below(root, t, t);
    lemma_opened_sound(n, scan);
    law_edit_is_found(root, t, new);
    if u != t {
        if t.is_prefix_of(u) {
            lemma_sound_edit(root, t, new);
            lemma_found_below(root, t, u);
            lemma_found_below(opened(root, t, scan), t, u);
            lemma_opening_below(n, scan, u);
        } else {
            law_edit_is_local(root, t, new, u);
        }
    }
}

/// Toggling a directory that is on disk as it is known flips whether it is open,
/// and opens and closes no other.
pub proof fn law_toggling_flips_one(
    root: NodeView,
    t: Seq<Seq<u8>>,
    scan: ScanView,
    u: Seq<Seq<u8>>,
)
    requires
        sound(root),
        found(root, t) is Some,
        found(root, t)->0.is_dir(),
        scan_of(scan, t),
        as_known(found(root, t)->0, scan),
    ensures
        open_at(toggled(root, t, scan), u) == if u == t {
            !open_at(root, t)
        } else {
            open_at(root, u)
        },
{
    if open_at(root, t) {
        law_closing_is_exact(root, t, u);
    } else {
        law_opening_is_exact(root, t, scan, u);
    }
}

/// Toggling a directory twice, while the disk stays the same, leaves every
/// directory as open as it was.
pub proof fn law_toggling_twice(
    root: NodeView,
    t: Seq<Seq<u8>>,
    scan: ScanView,
    u: Seq<Seq<u8>>,
)
    requires
        sound(root),
        found(root, t) is Some,
        found(root, t)->0.is_dir(),
        scan_of(scan, t),
        as_known(found(root, t)->0, scan),
    ensures
        open_at(toggled(toggled(root, t, scan), t, scan), u) == open_at(root, u),
{
    let once = toggled(root, t, scan);
    law_toggling_flips_one(root, t, scan, t);
    law_toggling_flips_one(root, t, scan, u);
    if open_at(root, t) {
        let n = found(root, t)->0;
        let c = NodeView { expanded: false, ..n };
        lemma_found_comps(root, t);
        assert(t.is_prefix_of(t)) by {
            assert(t =~= t.subrange(0, t.len() as int));
        }
        lemma_found_below(root, t, t);
        assert(sound(c));
        lemma_sound_edit(root, t, c);
        law_edit_is_found(root, t, c);
        law_opening_is_exact(once, t, scan, u);
    } else {
        law_closing_is_exact(once, t, u);
    }
}

/// Toggling what is no directory, or is not there, changes nothing.
pub proof fn law_toggling_needs_a_directory(root: NodeView, t: Seq<Seq<u8>>, scan: ScanView)
    requires
        found(root, t) is Some ==> !found(root, t)->0.is_dir(),
    ensures
        toggled(root, t, scan) == root,
{
    if found(root, t) is Some {
        lemma_same_back(root, t);
    }
}

proof fn lemma_same_back(n: NodeView, t: Seq<Seq<u8>>)
    requires
        found(n, t) is Some,
    ensures
        with_found(n, t, found(n, t)->0) == n,
    decreases n,
{
    if n.comps() != t {
        let k = lemma_first(n.children, t);
        let x = found(n, t)->0;
        lemma_found_among(n.children, t, k);
        assert(with_found_among(n.children, t, x) == n.children.update(
            k,
            with_found(n.children[k], t, x),
        ));
        lemma_same_back(n.children[k], t);
        assert(n.children.update(k, n.children[k]) =~= n.children);
    }
}

} // verus!
