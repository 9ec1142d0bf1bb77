//! What holds of the tree as a whole.

use vstd::prelude::*;

use crate::diagnostics::{Counts, Mode};
use crate::git::GitStatus;
use crate::order::{is_sorted, law_stable_sort};
use crate::path::comps;
use crate::tree::model::{all_closed, closed, each_closed, each_with_status, is_fresh};
use crate::tree::model::{last_with, merged_children, open_among, open_dirs, opened};
use crate::tree::model::{opened_node, refreshed_node, status_among, status_at, status_of_node};
use crate::tree::model::{each_with_diag, open_at, survives, with_diag, with_status, ScanView};
use crate::tree::node::{found, found_among, lemma_found_among, with_found, with_found_among};
use crate::tree::node::NodeView;
use crate::tree::node::{size, total};
use crate::tree::rows::{deepest, flat, is_visible, lemma_deepest, rows_among, rows_of, shown};
use crate::tree::rows::{visible_of, OptionsView, RowView};
use crate::tree::sort::{law_node_order_ranks, node_le};

verus! {

/// What is put in place of a node is found where that node was.
pub proof fn law_edit_is_found(n: NodeView, t: Seq<Seq<u8>>, new: NodeView)
    requires
        found(n, t) is Some,
        new.comps() == t,
    ensures
        found(with_found(n, t, new), t) == Some(new),
        with_found(n, t, new).comps() == n.comps(),
    decreases n,
{
    if n.comps() != t {
        let k = lemma_first(n.children, t);
        lemma_found_among(n.children, t, k);
        assert(with_found_among(n.children, t, new) == n.children.update(
            k,
            with_found(n.children[k], t, new),
        ));
        law_edit_is_found(n.children[k], t, new);
        let cs = n.children.update(k, with_found(n.children[k], t, new));
        assert forall|j: int| 0 <= j < k implies found(#[trigger] cs[j], t) is None by {
            assert(cs[j] == n.children[j]);
        }
        lemma_found_among(cs, t, k);
    }
}

/// The first of some nodes below which `t` is found.
pub proof fn lemma_first(s: Seq<NodeView>, t: Seq<Seq<u8>>) -> (k: int)
    requires
        found_among(s, t) is Some,
    ensures
        0 <= k < s.len(),
        found(s[k], t) is Some,
        forall|j: int| 0 <= j < k ==> found(#[trigger] s[j], t) is None,
    decreases s.len(),
{
    if found_among(s.drop_last(), t) is Some {
        let k = lemma_first(s.drop_last(), t);
        assert(s.drop_last()[k] == s[k]);
        assert forall|j: int| 0 <= j < k implies found(#[trigger] s[j], t) is None by {
            assert(s.drop_last()[j] == s[j]);
        }
        k
    } else {
        let k = s.len() - 1;
        assert forall|j: int| 0 <= j < k implies found(#[trigger] s[j], t) is None by {
            lemma_none_before(s.drop_last(), t, j);
            assert(s.drop_last()[j] == s[j]);
        }
        k
    }
}

proof fn lemma_none_before(s: Seq<NodeView>, t: Seq<Seq<u8>>, j: int)
    requires
        found_among(s, t) is None,
        0 <= j < s.len(),
    ensures
        found(s[j], t) is None,
    decreases s.len(),
{
    if j < s.len() - 1 {
        lemma_none_before(s.drop_last(), t, j);
    }
}

/// A node with other children.
pub open spec fn same_but_children(a: Option<NodeView>, b: Option<NodeView>) -> bool {
    match (a, b) {
        (Some(x), Some(y)) => y == (NodeView { children: y.children, ..x }),
        (None, None) => true,
        _ => false,
    }
}

/// Changing a node changes no other but those below it: what is found at any
/// other path is what it was, up to its children.
pub proof fn law_edit_is_local(n: NodeView, t: Seq<Seq<u8>>, new: NodeView, u: Seq<Seq<u8>>)
    requires
        new.comps() == t,
        !t.is_prefix_of(u),
    ensures
        same_but_children(found(n, u), found(with_found(n, t, new), u)),
    decreases n,
{
    let m = with_found(n, t, new);
    if n.comps() == t {
        assert(t != u) by {
            assert(t.is_prefix_of(t)) by {
                assert(t =~= t.subrange(0, t.len() as int));
            }
        }
    } else if n.comps().is_prefix_of(t) {
        assert(m.comps() == n.comps());
        if n.comps() != u && n.comps().is_prefix_of(u) {
            law_edit_among_is_local(n.children, t, new, u);
        }
    }
}

proof fn law_edit_among_is_local(s: Seq<NodeView>, t: Seq<Seq<u8>>, new: NodeView, u: Seq<Seq<u8>>)
    requires
        new.comps() == t,
        !t.is_prefix_of(u),
    ensures
        same_but_children(found_among(s, u), found_among(with_found_among(s, t, new), u)),
    decreases s,
{
    if s.len() > 0 {
        let init = s.drop_last();
        if found_among(init, t) is Some {
            law_edit_among_is_local(init, t, new, u);
            assert(with_found_among(s, t, new).drop_last() =~= with_found_among(init, t, new));
        } else {
            law_edit_is_local(s.last(), t, new, u);
            assert(init.push(with_found(s.last(), t, new)).drop_last() =~= init);
        }
    }
}

/// Changing a node, but for its path and its children, changes no other: what is
/// found at any other path is what it was, up to its children.
pub proof fn law_edit_keeps_the_rest(n: NodeView, t: Seq<Seq<u8>>, new: NodeView, u: Seq<Seq<u8>>)
    requires
        found(n, t) is Some,
        new.comps() == t,
        new.children == found(n, t)->0.children,
        u != t,
    ensures
        same_but_children(found(n, u), found(with_found(n, t, new), u)),
    decreases n,
{
    let m = with_found(n, t, new);
    if n.comps() != t {
        assert(m.comps() == n.comps());
        if n.comps() != u && n.comps().is_prefix_of(u) {
            lemma_edit_among_keeps_the_rest(n.children, t, new, u);
        }
    }
}

proof fn lemma_edit_among_keeps_the_rest(
    s: Seq<NodeView>,
    t: Seq<Seq<u8>>,
    new: NodeView,
    u: Seq<Seq<u8>>,
)
    requires
        found_among(s, t) is Some,
        new.comps() == t,
        new.children == found_among(s, t)->0.children,
        u != t,
    ensures
        same_but_children(found_among(s, u), found_among(with_found_among(s, t, new), u)),
    decreases s,
{
    let init = s.drop_last();
    if found_among(init, t) is Some {
        lemma_edit_among_keeps_the_rest(init, t, new, u);
        assert(with_found_among(s, t, new).drop_last() =~= with_found_among(init, t, new));
    } else {
        law_edit_keeps_the_rest(s.last(), t, new, u);
        assert(init.push(with_found(s.last(), t, new)).drop_last() =~= init);
    }
}

/// Closing a directory closes it and no other.
pub proof fn law_closing_is_exact(root: NodeView, t: Seq<Seq<u8>>, u: Seq<Seq<u8>>)
    ensures
        open_at(closed(root, t), u) == (open_at(root, u) && u != t),
{
    if found(root, t) is Some {
        let n = found(root, t)->0;
        lemma_found_comps(root, t);
        let new = NodeView { expanded: false, ..n };
        if u == t {
            law_edit_is_found(root, t, new);
        } else {
            law_edit_keeps_the_rest(root, t, new, u);
        }
    }
}

/// Laying git's statuses and the diagnostics over the tree opens and closes
/// nothing.
pub proof fn law_overlays_keep_what_is_open(
    n: NodeView,
    st: Map<Seq<Seq<u8>>, GitStatus>,
    files: Map<Seq<Seq<u8>>, Counts>,
    mode: Mode,
    u: Seq<Seq<u8>>,
)
    ensures
        open_at(with_diag(with_status(n, st), files, mode), u) == open_at(n, u),
{
    lemma_status_keeps(n, st, u);
    lemma_diag_keeps(with_status(n, st), files, mode, u);
}

/// Whether what is found at a path is open in both or in neither of two trees.
spec fn open_alike(a: Option<NodeView>, b: Option<NodeView>) -> bool {
    match (a, b) {
        (Some(x), Some(y)) => x.is_dir() == y.is_dir() && x.expanded == y.expanded,
        (None, None) => true,
        _ => false,
    }
}

proof fn lemma_status_keeps(n: NodeView, st: Map<Seq<Seq<u8>>, GitStatus>, u: Seq<Seq<u8>>)
    ensures
        open_alike(found(with_status(n, st), u), found(n, u)),
    decreases n,
{
    if n.comps() != u && n.comps().is_prefix_of(u) && n.is_dir() {
        lemma_status_among_keeps(n.children, st, u);
    }
}

proof fn lemma_status_among_keeps(
    s: Seq<NodeView>,
    st: Map<Seq<Seq<u8>>, GitStatus>,
    u: Seq<Seq<u8>>,
)
    ensures
        open_alike(found_among(each_with_status(s, st), u), found_among(s, u)),
    decreases s,
{
    if s.len() > 0 {
        lemma_status_among_keeps(s.drop_last(), st, u);
        lemma_status_keeps(s.last(), st, u);
        assert(each_with_status(s, st).drop_last() =~= each_with_status(s.drop_last(), st));
    }
}

proof fn lemma_diag_keeps(
    n: NodeView,
    files: Map<Seq<Seq<u8>>, Counts>,
    mode: Mode,
    u: Seq<Seq<u8>>,
)
    ensures
        open_alike(found(with_diag(n, files, mode), u), found(n, u)),
    decreases n,
{
    if n.comps() != u && n.comps().is_prefix_of(u) {
        lemma_diag_among_keeps(n.children, files, mode, u);
    }
}

proof fn lemma_diag_among_keeps(
    s: Seq<NodeView>,
    files: Map<Seq<Seq<u8>>, Counts>,
    mode: Mode,
    u: Seq<Seq<u8>>,
)
    ensures
        open_alike(found_among(each_with_diag(s, files, mode), u), found_among(s, u)),
    decreases s,
{
    if s.len() > 0 {
        lemma_diag_among_keeps(s.drop_last(), files, mode, u);
        lemma_diag_keeps(s.last(), files, mode, u);
        assert(each_with_diag(s, files, mode).drop_last() =~= each_with_diag(
            s.drop_last(),
            files,
            mode,
        ));
    }
}

/// A directory that was opened is found open, with the entries that it was
/// found to hold if it had to be read.
pub proof fn law_opened_is_open(root: NodeView, t: Seq<Seq<u8>>, scan: ScanView)
    requires
        found(root, t) is Some,
        found(root, t)->0.is_dir(),
    ensures
        found(opened(root, t, scan), t) == Some(opened_node(found(root, t)->0, scan)),
        found(opened(root, t, scan), t)->0.expanded,
{
    lemma_found_comps(root, t);
    law_edit_is_found(root, t, opened_node(found(root, t)->0, scan));
}

/// What is found at a path has that path.
pub proof fn lemma_found_comps(n: NodeView, t: Seq<Seq<u8>>)
    requires
        found(n, t) is Some,
    ensures
        found(n, t)->0.comps() == t,
    decreases n,
{
    if n.comps() != t {
        let k = lemma_first(n.children, t);
        lemma_found_among(n.children, t, k);
        lemma_found_comps(n.children[k], t);
    }
}

/// Opening a directory that was read and not changed since does not depend on
/// what it is found to hold.
pub proof fn law_fresh_needs_no_listing(
    root: NodeView,
    t: Seq<Seq<u8>>,
    mtime: Option<i128>,
    a: Option<Seq<NodeView>>,
    b: Option<Seq<NodeView>>,
)
    requires
        found(root, t) is Some ==> !found(root, t)->0.is_dir() || is_fresh(found(root, t)->0, mtime),
    ensures
        opened(root, t, ScanView { mtime, entries: a }) == opened(
            root,
            t,
            ScanView { mtime, entries: b },
        ),
{
}

/// Closing a directory loses nothing: opened again, unchanged, it is as it
/// was, with everything below it.
pub proof fn law_collapse_keeps_the_subtree(
    root: NodeView,
    t: Seq<Seq<u8>>,
    scan: ScanView,
)
    requires
        found(root, t) is Some,
        found(root, t)->0.is_dir(),
        found(root, t)->0.expanded,
        is_fresh(found(root, t)->0, scan.mtime),
    ensures
        opened(closed(root, t), t, scan) == root,
{
    let n = found(root, t)->0;
    let c = NodeView { expanded: false, ..n };
    lemma_found_comps(root, t);
    law_edit_is_found(root, t, c);
    assert(opened_node(c, scan) == n);
    lemma_put_back(root, t, c);
}

proof fn lemma_put_back(n: NodeView, t: Seq<Seq<u8>>, c: NodeView)
    requires
        found(n, t) is Some,
        c.comps() == t,
    ensures
        with_found(with_found(n, t, c), t, found(n, t)->0) == n,
    decreases n,
{
    if n.comps() != t {
        let k = lemma_first(n.children, t);
        let x = found(n, t)->0;
        lemma_found_among(n.children, t, k);
        let inner = with_found(n.children[k], t, c);
        assert(with_found_among(n.children, t, c) == n.children.update(k, inner));
        law_edit_is_found(n.children[k], t, c);
        let cs = n.children.update(k, inner);
        assert forall|j: int| 0 <= j < k implies found(#[trigger] cs[j], t) is None by {
            assert(cs[j] == n.children[j]);
        }
        lemma_found_among(cs, t, k);
        assert(with_found_among(cs, t, x) == cs.update(k, with_found(inner, t, x)));
        lemma_put_back(n.children[k], t, c);
        assert(cs.update(k, n.children[k]) =~= n.children);
    }
}

/// A directory that cannot be read keeps what was known of it.
pub proof fn law_unreadable_keeps_children(n: NodeView, mtime: Option<i128>)
    ensures
        refreshed_node(n, ScanView { mtime, entries: None }) == n,
        opened_node(n, ScanView { mtime, entries: None }).children == n.children,
        opened_node(n, ScanView { mtime, entries: None }).loaded == n.loaded,
{
}

/// A directory that is read again holds what it is found to hold, in order, and
/// each directory that is still the same keeps its state and its subtree.
pub proof fn law_refresh_keeps_survivors(known: Seq<NodeView>, now: Seq<NodeView>, i: int)
    requires
        0 <= i < now.len(),
        forall|j: int| 0 <= j < i ==> (#[trigger] now[j]).comps() != now[i].comps(),
        last_with(known, now[i].comps()) is Some,
        survives(last_with(known, now[i].comps())->0, now[i]),
    ensures
        merged_children(known, now).len() == now.len(),
        merged_children(known, now)[i].comps() == now[i].comps(),
        merged_children(known, now)[i].expanded == last_with(known, now[i].comps())->0.expanded,
        merged_children(known, now)[i].loaded == last_with(known, now[i].comps())->0.loaded,
        merged_children(known, now)[i].children == last_with(known, now[i].comps())->0.children,
{
    lemma_last_with(known, now[i].comps());
}

proof fn lemma_last_with(s: Seq<NodeView>, k: Seq<Seq<u8>>)
    ensures
        last_with(s, k) is Some ==> last_with(s, k)->0.comps() == k,
    decreases s.len(),
{
    if s.len() > 0 {
        lemma_last_with(s.drop_last(), k);
    }
}

/// A directory counts as ignored only if git says so of its own path, whatever
/// is ignored below it.
pub proof fn law_ignored_never_spreads(n: NodeView, st: Map<Seq<Seq<u8>>, GitStatus>)
    requires
        with_status(n, st).git == Some(GitStatus::Ignored),
    ensures
        status_at(st, n.comps()) == Some(GitStatus::Ignored),
{
    if n.is_dir() {
        lemma_ignored_among(n.children, status_at(st, n.comps()), st);
    }
}

proof fn lemma_ignored_among(
    s: Seq<NodeView>,
    start: Option<GitStatus>,
    st: Map<Seq<Seq<u8>>, GitStatus>,
)
    ensures
        status_among(s, start, st) == Some(GitStatus::Ignored) ==> start == Some(
            GitStatus::Ignored,
        ),
    decreases s.len(),
{
    if s.len() > 0 {
        lemma_ignored_among(s.drop_last(), start, st);
    }
}

/// A change below a directory shows at the directory: with at least the
/// priority of the change.
pub proof fn law_changes_carry_up(
    n: NodeView,
    i: int,
    st: Map<Seq<Seq<u8>>, GitStatus>,
)
    requires
        n.is_dir(),
        0 <= i < n.children.len(),
        status_of_node(n.children[i], st) is Some,
        status_of_node(n.children[i], st)->0 != GitStatus::Ignored,
    ensures
        with_status(n, st).git is Some,
        with_status(n, st).git->0.spec_rank() >= status_of_node(
            n.children[i],
            st,
        )->0.spec_rank(),
{
    lemma_carry(n.children, status_at(st, n.comps()), i, st);
}

proof fn lemma_carry(
    s: Seq<NodeView>,
    start: Option<GitStatus>,
    i: int,
    st: Map<Seq<Seq<u8>>, GitStatus>,
)
    requires
        0 <= i < s.len(),
        status_of_node(s[i], st) is Some,
        status_of_node(s[i], st)->0 != GitStatus::Ignored,
    ensures
        status_among(s, start, st) is Some,
        status_among(s, start, st)->0.spec_rank() >= status_of_node(s[i], st)->0.spec_rank(),
    decreases s.len(),
{
    if i < s.len() - 1 {
        lemma_carry(s.drop_last(), start, i, st);
    }
}

/// The status of a directory is its own or that of something directly below it,
/// and none of these that counts has a higher priority: it is their maximum.
pub proof fn law_status_is_the_highest(n: NodeView, st: Map<Seq<Seq<u8>>, GitStatus>)
    requires
        n.is_dir(),
    ensures
        with_status(n, st).git == status_at(st, n.comps()) || exists|i: int|
            0 <= i < n.children.len() && with_status(n, st).git == status_of_node(
                #[trigger] n.children[i],
                st,
            ),
        status_at(st, n.comps()) is Some ==> with_status(n, st).git is Some && with_status(
            n,
            st,
        ).git->0.spec_rank() >= status_at(st, n.comps())->0.spec_rank(),
        forall|i: int|
            0 <= i < n.children.len() && status_of_node(#[trigger] n.children[i], st) is Some
                && status_of_node(n.children[i], st)->0 != GitStatus::Ignored ==> with_status(
                n,
                st,
            ).git is Some && with_status(n, st).git->0.spec_rank() >= status_of_node(
                n.children[i],
                st,
            )->0.spec_rank(),
{
    lemma_status_from(n.children, status_at(st, n.comps()), st);
    assert forall|i: int|
        0 <= i < n.children.len() && status_of_node(#[trigger] n.children[i], st) is Some
            && status_of_node(n.children[i], st)->0 != GitStatus::Ignored implies with_status(
        n,
        st,
    ).git is Some && with_status(n, st).git->0.spec_rank() >= status_of_node(
        n.children[i],
        st,
    )->0.spec_rank() by {
        law_changes_carry_up(n, i, st);
    }
}

proof fn lemma_status_from(
    s: Seq<NodeView>,
    start: Option<GitStatus>,
    st: Map<Seq<Seq<u8>>, GitStatus>,
)
    ensures
        status_among(s, start, st) == start || exists|i: int|
            0 <= i < s.len() && status_among(s, start, st) == status_of_node(#[trigger] s[i], st),
        start is Some ==> status_among(s, start, st) is Some && status_among(
            s,
            start,
            st,
        )->0.spec_rank() >= start->0.spec_rank(),
    decreases s.len(),
{
    if s.len() > 0 {
        let init = s.drop_last();
        lemma_status_from(init, start, st);
        let best = status_among(init, start, st);
        let all = status_among(s, start, st);
        if all == best {
            if best != start {
                let i = choose|i: int| 0 <= i < init.len() && best == status_of_node(
                    #[trigger] init[i],
                    st,
                );
                assert(s[i] == init[i]);
                assert(all == status_of_node(s[i], st));
            }
        } else {
            assert(all == status_of_node(s[s.len() - 1], st));
        }
    }
}

/// After everything was closed only the root is open.
pub proof fn law_collapse_all_leaves_the_root(root: NodeView)
    requires
        root.is_dir(),
        root.expanded,
    ensures
        open_dirs(all_closed(root)) == set![root.comps()],
{
    lemma_none_open(root.children);
    assert(open_dirs(all_closed(root)) =~= set![root.comps()]);
}

proof fn lemma_none_open(s: Seq<NodeView>)
    ensures
        open_among(each_closed(s)) == Set::<Seq<Seq<u8>>>::empty(),
    decreases s.len(),
{
    if s.len() > 0 {
        lemma_none_open(s.drop_last());
        let c = each_closed(s);
        assert(c.drop_last() =~= each_closed(s.drop_last()));
        assert(!c.last().expanded);
        assert(open_dirs(c.last()) =~= Set::empty());
        assert(open_among(c) =~= Set::empty());
    } else {
        assert(open_among(each_closed(s)) =~= Set::empty());
    }
}

/// What is shown of a directory is exactly what is visible of it, in order.
pub proof fn law_shown_is_sorted(s: Seq<NodeView>, opts: OptionsView)
    ensures
        is_sorted(shown(s, opts), node_le(opts.sort, opts.files_first)),
        shown(s, opts).to_multiset() == visible_of(s, opts).to_multiset(),
{
    law_node_order_ranks(opts.sort, opts.files_first);
    law_stable_sort(visible_of(s, opts), node_le(opts.sort, opts.files_first));
}

/// Unless files come first, no file is shown before a directory.
pub proof fn law_dirs_before_files(s: Seq<NodeView>, opts: OptionsView, i: int, j: int)
    requires
        !opts.files_first,
        0 <= i < j < shown(s, opts).len(),
        shown(s, opts)[j].is_dir(),
    ensures
        shown(s, opts)[i].is_dir(),
{
    law_shown_is_sorted(s, opts);
    let le = node_le(opts.sort, opts.files_first);
    assert(le(shown(s, opts)[i], shown(s, opts)[j]));
}

/// The marks of a row are one more than its depth, and begin with those of the
/// rows above it.
pub proof fn law_depth_is_the_number_of_marks(n: NodeView, lasts: Seq<bool>, opts: OptionsView)
    requires
        lasts.len() > 0,
    ensures
        forall|i: int|
            0 <= i < rows_of(n, lasts, opts).len() ==> {
                let r = #[trigger] rows_of(n, lasts, opts)[i];
                &&& r.depth + 1 == r.ancestor_last.len()
                &&& r.ancestor_last.len() >= lasts.len()
                &&& r.ancestor_last.take(lasts.len() as int) == lasts
                &&& i > 0 ==> r.depth >= lasts.len()
            },
    decreases size(n), 0int,
{
    lemma_deepest(n, opts);
    let d = deepest(n, opts);
    let all = rows_of(n, lasts, opts);
    if n.expanded && d.is_dir() {
        let below = rows_among(shown(d.children, opts), lasts, true, opts);
        lemma_marks_among(shown(d.children, opts), lasts, true, opts);
        assert forall|i: int| 0 <= i < all.len() implies {
            let r = #[trigger] all[i];
            &&& r.depth + 1 == r.ancestor_last.len()
            &&& r.ancestor_last.len() >= lasts.len()
            &&& r.ancestor_last.take(lasts.len() as int) == lasts
            &&& i > 0 ==> r.depth >= lasts.len()
        } by {
            if i == 0 {
                assert(lasts.take(lasts.len() as int) =~= lasts);
            } else {
                assert(all[i] == below[i - 1]);
            }
        }
    } else {
        assert(lasts.take(lasts.len() as int) =~= lasts);
    }
}

/// The marks of the rows of siblings begin with those above.
pub proof fn lemma_marks_among(s: Seq<NodeView>, lasts: Seq<bool>, ends: bool, opts: OptionsView)
    ensures
        forall|i: int|
            0 <= i < rows_among(s, lasts, ends, opts).len() ==> {
                let r = #[trigger] rows_among(s, lasts, ends, opts)[i];
                &&& r.depth + 1 == r.ancestor_last.len()
                &&& r.ancestor_last.len() > lasts.len()
                &&& r.ancestor_last.take(lasts.len() as int) == lasts
            },
    decreases total(s), 1int,
{
    if s.len() > 0 {
        assert(size(s.last()) >= 1);
        let a = rows_among(s.drop_last(), lasts, false, opts);
        let b = rows_of(s.last(), lasts.push(ends), opts);
        lemma_marks_among(s.drop_last(), lasts, false, opts);
        law_depth_is_the_number_of_marks(s.last(), lasts.push(ends), opts);
        let all = rows_among(s, lasts, ends, opts);
        assert forall|i: int| 0 <= i < all.len() implies {
            let r = #[trigger] all[i];
            &&& r.depth + 1 == r.ancestor_last.len()
            &&& r.ancestor_last.len() > lasts.len()
            &&& r.ancestor_last.take(lasts.len() as int) == lasts
        } by {
            if i < a.len() {
                assert(all[i] == a[i]);
            } else {
                let r = b[i - a.len()];
                assert(all[i] == r);
                assert(r.ancestor_last.take(lasts.len() as int) =~= r.ancestor_last.take(
                    lasts.push(ends).len() as int,
                ).take(lasts.len() as int));
                assert(lasts.push(ends).take(lasts.len() as int) =~= lasts);
            }
        }
    }
}

/// Whether a node at `t` can be seen below `n`: `n` itself is, or `n` is an
/// open directory with a visible child below which it can be seen.
pub open spec fn in_sight(n: NodeView, t: Seq<Seq<u8>>, opts: OptionsView) -> bool
    decreases n,
{
    n.comps() == t || (n.is_dir() && n.expanded && in_sight_among(n.children, t, opts))
}

/// Whether a node at `t` can be seen below a visible one of some nodes.
pub open spec fn in_sight_among(s: Seq<NodeView>, t: Seq<Seq<u8>>, opts: OptionsView) -> bool
    decreases s,
{
    s.len() > 0 && (in_sight_among(s.drop_last(), t, opts) || (is_visible(s.last(), opts)
        && in_sight(s.last(), t, opts)))
}

/// Whether some row is that of the path `t`.
pub open spec fn has_row(rows: Seq<RowView>, t: Seq<Seq<u8>>) -> bool {
    exists|i: int| 0 <= i < rows.len() && comps((#[trigger] rows[i]).path) == t
}

/// Where chains of folders are not drawn together, a path has a row once every
/// directory on the way to it is open and nothing on the way is hidden. So it
/// is enough to open those directories to bring a path to sight.
pub proof fn law_open_way_makes_a_row(root: NodeView, t: Seq<Seq<u8>>, opts: OptionsView)
    requires
        !opts.group_empty,
        root.comps() != t,
        in_sight(root, t, opts),
    ensures
        has_row(flat(root, opts), t),
{
    lemma_row_among(root, t, Seq::empty(), opts);
}

proof fn lemma_row_among(n: NodeView, t: Seq<Seq<u8>>, lasts: Seq<bool>, opts: OptionsView)
    requires
        !opts.group_empty,
        in_sight_among(n.children, t, opts),
    ensures
        has_row(rows_among(shown(n.children, opts), lasts, true, opts), t),
    decreases n,
{
    let k = lemma_seen_child(n.children, t, opts);
    let c = n.children[k];
    lemma_visible_is_shown(n.children, k, opts);
    let s = shown(n.children, opts);
    let p = choose|p: int| 0 <= p < s.len() && s[p] == c;
    let inner = lasts.push(p == s.len() - 1);
    let rows = rows_of(c, inner, opts);
    assert(deepest(c, opts) == c);
    if c.comps() == t {
        assert(rows[0].path == c.path);
        assert(has_row(rows, t));
    } else {
        lemma_row_among(c, t, inner, opts);
        let below = rows_among(shown(c.children, opts), inner, true, opts);
        let i = choose|i: int| 0 <= i < below.len() && comps((#[trigger] below[i]).path) == t;
        assert(rows[i + 1] == below[i]);
    }
    lemma_rows_within(s, lasts, true, opts, p, t);
}

proof fn lemma_seen_child(s: Seq<NodeView>, t: Seq<Seq<u8>>, opts: OptionsView) -> (k: int)
    requires
        in_sight_among(s, t, opts),
    ensures
        0 <= k < s.len(),
        is_visible(s[k], opts),
        in_sight(s[k], t, opts),
    decreases s.len(),
{
    if in_sight_among(s.drop_last(), t, opts) {
        lemma_seen_child(s.drop_last(), t, opts)
    } else {
        s.len() - 1
    }
}

proof fn lemma_visible_is_shown(s: Seq<NodeView>, k: int, opts: OptionsView)
    requires
        0 <= k < s.len(),
        is_visible(s[k], opts),
    ensures
        exists|p: int| 0 <= p < shown(s, opts).len() && shown(s, opts)[p] == s[k],
{
    broadcast use vstd::seq_lib::group_to_multiset_ensures;

    lemma_visible_kept(s, k, opts);
    law_shown_is_sorted(s, opts);
    assert(visible_of(s, opts).to_multiset().contains(s[k]));
    assert(shown(s, opts).to_multiset().contains(s[k]));
    assert(shown(s, opts).contains(s[k]));
}

proof fn lemma_visible_kept(s: Seq<NodeView>, k: int, opts: OptionsView)
    requires
        0 <= k < s.len(),
        is_visible(s[k], opts),
    ensures
        visible_of(s, opts).contains(s[k]),
    decreases s.len(),
{
    let v = visible_of(s.drop_last(), opts);
    if k < s.len() - 1 {
        lemma_visible_kept(s.drop_last(), k, opts);
        let i = choose|i: int| 0 <= i < v.len() && v[i] == s[k];
        assert(visible_of(s, opts)[i] == s[k]);
    } else {
        assert(visible_of(s, opts)[v.len() as int] == s[k]);
    }
}

proof fn lemma_rows_within(
    s: Seq<NodeView>,
    lasts: Seq<bool>,
    ends: bool,
    opts: OptionsView,
    p: int,
    t: Seq<Seq<u8>>,
)
    requires
        0 <= p < s.len(),
        has_row(rows_of(s[p], lasts.push(p == s.len() - 1 && ends), opts), t),
    ensures
        has_row(rows_among(s, lasts, ends, opts), t),
    decreases s.len(),
{
    let a = rows_among(s.drop_last(), lasts, false, opts);
    let b = rows_of(s.last(), lasts.push(ends), opts);
    let all = rows_among(s, lasts, ends, opts);
    if p < s.len() - 1 {
        lemma_rows_within(s.drop_last(), lasts, false, opts, p, t);
        let i = choose|i: int| 0 <= i < a.len() && comps((#[trigger] a[i]).path) == t;
        assert(all[i] == a[i]);
    } else {
        let i = choose|i: int| 0 <= i < b.len() && comps((#[trigger] b[i]).path) == t;
        assert(all[i + a.len()] == b[i]);
    }
}

} // verus!
