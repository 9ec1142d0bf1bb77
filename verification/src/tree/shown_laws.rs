//! What holds of which nodes are shown: what each way of narrowing the view
//! hides, and that it hides nothing else.

use vstd::prelude::*;

use crate::git::GitStatus;
use crate::order::law_stable_sort;
use crate::path::comps;
use crate::text::holds_text;
use crate::tree::node::{size, total, NodeView};
use crate::tree::rows::{chains, deepest, flat, group_name, is_excluded, is_visible, lemma_deepest};
use crate::tree::rows::{row_of, rows_among, rows_of, shown, visible_of, OptionsView, RowView};
use crate::tree::sort::{law_node_order_ranks, node_le};

verus! {

/// A view that hides nothing.
pub open spec fn wide_open(opts: OptionsView) -> OptionsView {
    OptionsView {
        show_hidden: true,
        show_ignored: true,
        git_clean: false,
        custom_active: false,
        restricts: Seq::empty(),
        ..opts
    }
}

/// Whether a path is in every one of some sets.
spec fn in_all(k: Seq<Seq<u8>>, sets: Seq<Set<Seq<Seq<u8>>>>) -> bool {
    forall|i: int| 0 <= i < sets.len() ==> (#[trigger] sets[i]).contains(k)
}

proof fn lemma_visible_parts(n: NodeView, opts: OptionsView)
    ensures
        is_visible(n, opts) == ((opts.show_hidden || !n.is_hidden()) && (opts.show_ignored || n.git
            != Some(GitStatus::Ignored)) && (opts.git_clean ==> n.git is Some && n.git != Some(
            GitStatus::Ignored,
        )) && (opts.custom_active ==> !is_excluded(n.name, opts.exclude)) && in_all(
            n.comps(),
            opts.restricts,
        )),
{
    let sets = opts.restricts;
    if is_visible(n, opts) {
        assert forall|i: int| 0 <= i < sets.len() implies (#[trigger] sets[i]).contains(
            n.comps(),
        ) by {
            assert(opts.restricts[i].contains(n.comps()));
        }
    }
    if in_all(n.comps(), sets) {
        assert forall|i: int| 0 <= i < opts.restricts.len() implies (
        #[trigger] opts.restricts[i]).contains(n.comps()) by {
            assert(sets[i].contains(n.comps()));
        }
    }
}

/// Where nothing narrows the view, every node is shown.
pub proof fn law_wide_open_shows_all(n: NodeView, opts: OptionsView)
    ensures
        is_visible(n, wide_open(opts)),
{
}

/// Showing only what was changed hides exactly the nodes without a status and
/// the ignored ones: a node is shown with it when it is shown without it and
/// has a status that is not `Ignored`.
pub proof fn law_git_clean_keeps_changes(n: NodeView, opts: OptionsView)
    ensures
        is_visible(n, (OptionsView { git_clean: true, ..opts })) == (is_visible(
            n,
            (OptionsView { git_clean: false, ..opts }),
        ) && n.git is Some && n.git != Some(GitStatus::Ignored)),
{
    lemma_visible_parts(n, (OptionsView { git_clean: true, ..opts }));
    lemma_visible_parts(n, (OptionsView { git_clean: false, ..opts }));
}

/// Not showing hidden nodes hides exactly those whose names begin with a dot.
pub proof fn law_dot_names_are_hidden(n: NodeView, opts: OptionsView)
    ensures
        is_visible(n, (OptionsView { show_hidden: false, ..opts })) == (is_visible(
            n,
            (OptionsView { show_hidden: true, ..opts }),
        ) && !(n.name.len() > 0 && n.name[0] == '.')),
{
    lemma_visible_parts(n, (OptionsView { show_hidden: true, ..opts }));
    lemma_visible_parts(n, (OptionsView { show_hidden: false, ..opts }));
}

/// Not showing ignored nodes hides exactly those with the status `Ignored`.
pub proof fn law_ignored_are_hidden(n: NodeView, opts: OptionsView)
    ensures
        is_visible(n, (OptionsView { show_ignored: false, ..opts })) == (is_visible(
            n,
            (OptionsView { show_ignored: true, ..opts }),
        ) && n.git != Some(GitStatus::Ignored)),
{
    lemma_visible_parts(n, (OptionsView { show_ignored: true, ..opts }));
    lemma_visible_parts(n, (OptionsView { show_ignored: false, ..opts }));
}

/// The custom filter hides exactly the nodes whose names hold one of its texts.
pub proof fn law_custom_hides_its_texts(n: NodeView, opts: OptionsView)
    ensures
        is_visible(n, (OptionsView { custom_active: true, ..opts })) == (is_visible(
            n,
            (OptionsView { custom_active: false, ..opts }),
        ) && forall|i: int|
            0 <= i < opts.exclude.len() ==> !holds_text(n.name, #[trigger] opts.exclude[i])),
{
    lemma_visible_parts(n, (OptionsView { custom_active: true, ..opts }));
    lemma_visible_parts(n, (OptionsView { custom_active: false, ..opts }));
}

/// One more set to keep to hides exactly the nodes that are not in it.
pub proof fn law_restriction_hides_the_rest(
    n: NodeView,
    opts: OptionsView,
    keep: Set<Seq<Seq<u8>>>,
)
    ensures
        is_visible(n, (OptionsView { restricts: opts.restricts.push(keep), ..opts })) == (
        is_visible(n, opts) && keep.contains(comps(n.path))),
{
    let more = opts.restricts.push(keep);
    assert(forall|i: int| 0 <= i < opts.restricts.len() ==> more[i] == #[trigger] opts.restricts[i]);
    assert(more[opts.restricts.len() as int] == keep);
    assert forall|i: int| 0 <= i < opts.restricts.len() && more[i].contains(n.comps()) implies
        (#[trigger] opts.restricts[i]).contains(n.comps()) by {}
    let wide = OptionsView { restricts: more, ..opts };
    if is_visible(n, wide) {
        assert(wide.restricts[opts.restricts.len() as int].contains(n.comps()));
        assert forall|i: int| 0 <= i < opts.restricts.len() implies
            (#[trigger] opts.restricts[i]).contains(n.comps()) by {
            assert(wide.restricts[i].contains(n.comps()));
        }
    }
    if is_visible(n, opts) && keep.contains(n.comps()) {
        assert forall|i: int| 0 <= i < more.len() implies (#[trigger] more[i]).contains(
            n.comps(),
        ) by {
            if i < opts.restricts.len() {
                assert(opts.restricts[i].contains(n.comps()));
            }
        }
    }
}

/// Whether a row may stand in a view: what the view says of dots, of statuses
/// and of the sets to keep to holds of it.
pub open spec fn may_stand(row: RowView, opts: OptionsView) -> bool {
    &&& opts.git_clean ==> row.git is Some
    &&& opts.git_clean || !opts.show_ignored ==> row.git != Some(GitStatus::Ignored)
    &&& !opts.show_hidden ==> !(row.name.len() > 0 && row.name[0] == '.')
    &&& forall|i: int|
        0 <= i < opts.restricts.len() ==> (#[trigger] opts.restricts[i]).contains(comps(row.path))
    &&& opts.custom_active && !opts.group_empty ==> forall|i: int|
        0 <= i < opts.exclude.len() ==> !holds_text(row.name, #[trigger] opts.exclude[i])
}

/// Whether all of some nodes are shown.
spec fn all_shown(s: Seq<NodeView>, opts: OptionsView) -> bool {
    forall|i: int| 0 <= i < s.len() ==> is_visible(#[trigger] s[i], opts)
}

proof fn lemma_visible_are(s: Seq<NodeView>, opts: OptionsView)
    ensures
        all_shown(visible_of(s, opts), opts),
    decreases s.len(),
{
    if s.len() > 0 {
        lemma_visible_are(s.drop_last(), opts);
    }
}

/// What is shown of some nodes are nodes that are to be shown.
pub proof fn law_shown_are_visible(s: Seq<NodeView>, opts: OptionsView, i: int)
    requires
        0 <= i < shown(s, opts).len(),
    ensures
        is_visible(shown(s, opts)[i], opts),
        s.contains(shown(s, opts)[i]),
{
    broadcast use vstd::seq_lib::group_to_multiset_ensures;

    let v = visible_of(s, opts);
    let out = shown(s, opts);
    lemma_visible_are(s, opts);
    law_node_order_ranks(opts.sort, opts.files_first);
    law_stable_sort(v, node_le(opts.sort, opts.files_first));
    assert(out.contains(out[i]));
    assert(v.contains(out[i]));
    let j = v.index_of(out[i]);
    assert(is_visible(v[j], opts));
    lemma_visible_within(s, opts, v[j]);
}

proof fn lemma_visible_within(s: Seq<NodeView>, opts: OptionsView, n: NodeView)
    requires
        visible_of(s, opts).contains(n),
    ensures
        s.contains(n),
    decreases s.len(),
{
    if s.len() > 0 {
        let v = visible_of(s, opts);
        let before = visible_of(s.drop_last(), opts);
        let i = v.index_of(n);
        if i < before.len() {
            assert(before[i] == n);
            assert(before.contains(n));
            lemma_visible_within(s.drop_last(), opts, n);
            let j = s.drop_last().index_of(n);
            assert(s[j] == n);
        } else {
            assert(s[s.len() - 1] == n);
        }
    }
}

/// The name of a chain begins with the name of its first folder; where chains
/// are not drawn as one it is that name.
proof fn lemma_group_name(n: NodeView, opts: OptionsView)
    ensures
        n.name.len() <= group_name(n, opts).len(),
        forall|i: int| 0 <= i < n.name.len() ==> group_name(n, opts)[i] == #[trigger] n.name[i],
        !opts.group_empty ==> group_name(n, opts) == n.name,
        group_name(n, opts).len() > 0 && n.name.len() == 0 ==> group_name(n, opts)[0] == '/',
{
    reveal_strlit("/");
    if chains(n, opts) {
        let rest = group_name(shown(n.children, opts)[0], opts);
        assert(group_name(n, opts) == n.name + "/"@ + rest);
    }
}

proof fn lemma_row_stands(n: NodeView, lasts: Seq<bool>, opts: OptionsView)
    requires
        is_visible(n, opts),
    ensures
        may_stand(row_of(n, lasts, opts), opts),
{
    lemma_group_name(n, opts);
}

proof fn lemma_rows_stand(n: NodeView, lasts: Seq<bool>, opts: OptionsView)
    requires
        is_visible(n, opts),
    ensures
        forall|i: int|
            0 <= i < rows_of(n, lasts, opts).len() ==> may_stand(
                #[trigger] rows_of(n, lasts, opts)[i],
                opts,
            ),
    decreases size(n), 0int,
{
    lemma_deepest(n, opts);
    lemma_row_stands(n, lasts, opts);
    let d = deepest(n, opts);
    let all = rows_of(n, lasts, opts);
    assert(all[0] == row_of(n, lasts, opts));
    if n.expanded && d.is_dir() {
        let s = shown(d.children, opts);
        assert forall|i: int| 0 <= i < s.len() implies is_visible(#[trigger] s[i], opts) by {
            law_shown_are_visible(d.children, opts, i);
        }
        lemma_among_stand(s, lasts, true, opts);
        let below = rows_among(s, lasts, true, opts);
        assert forall|i: int| 0 <= i < all.len() implies may_stand(#[trigger] all[i], opts) by {
            if i > 0 {
                assert(all[i] == below[i - 1]);
            }
        }
    }
}

proof fn lemma_among_stand(s: Seq<NodeView>, lasts: Seq<bool>, ends: bool, opts: OptionsView)
    requires
        all_shown(s, opts),
    ensures
        forall|i: int|
            0 <= i < rows_among(s, lasts, ends, opts).len() ==> may_stand(
                #[trigger] rows_among(s, lasts, ends, opts)[i],
                opts,
            ),
    decreases total(s), 1int,
{
    if s.len() > 0 {
        assert(size(s.last()) >= 1);
        assert(is_visible(s[s.len() - 1], opts));
        assert forall|i: int| 0 <= i < s.drop_last().len() implies is_visible(
            #[trigger] s.drop_last()[i],
            opts,
        ) by {
            assert(is_visible(s[i], opts));
        }
        lemma_among_stand(s.drop_last(), lasts, false, opts);
        lemma_rows_stand(s.last(), lasts.push(ends), opts);
        let before = rows_among(s.drop_last(), lasts, false, opts);
        let own = rows_of(s.last(), lasts.push(ends), opts);
        let all = rows_among(s, lasts, ends, opts);
        assert(all == before + own);
        assert forall|i: int| 0 <= i < all.len() implies may_stand(#[trigger] all[i], opts) by {
            if i < before.len() {
                assert(all[i] == before[i]);
            } else {
                assert(all[i] == own[i - before.len()]);
            }
        }
    }
}

/// Every row keeps to the view: where only changes are shown it has a status
/// and that is not `Ignored`, where ignored nodes are not shown it is not one,
/// where names with a dot are not shown its name does not begin with one, it is
/// in every set that the view keeps to, and the custom filter leaves no name
/// with one of its texts.
pub proof fn law_rows_keep_to_the_view(root: NodeView, opts: OptionsView, i: int)
    requires
        0 <= i < flat(root, opts).len(),
    ensures
        may_stand(flat(root, opts)[i], opts),
{
    let s = shown(root.children, opts);
    assert forall|j: int| 0 <= j < s.len() implies is_visible(#[trigger] s[j], opts) by {
        law_shown_are_visible(root.children, opts, j);
    }
    lemma_among_stand(s, Seq::empty(), true, opts);
}

proof fn lemma_visible_holds(s: Seq<NodeView>, opts: OptionsView, i: int)
    requires
        0 <= i < s.len(),
        is_visible(s[i], opts),
    ensures
        visible_of(s, opts).contains(s[i]),
    decreases s.len(),
{
    let before = visible_of(s.drop_last(), opts);
    let all = visible_of(s, opts);
    if i < s.len() - 1 {
        assert(s.drop_last()[i] == s[i]);
        lemma_visible_holds(s.drop_last(), opts, i);
        let j = before.index_of(s[i]);
        assert(all[j] == s[i]);
    } else {
        assert(all[before.len() as int] == s[i]);
    }
}

/// Every node that is to be shown is shown.
pub proof fn law_visible_are_shown(s: Seq<NodeView>, opts: OptionsView, i: int)
    requires
        0 <= i < s.len(),
        is_visible(s[i], opts),
    ensures
        shown(s, opts).contains(s[i]),
{
    broadcast use vstd::seq_lib::group_to_multiset_ensures;

    let v = visible_of(s, opts);
    lemma_visible_holds(s, opts, i);
    law_node_order_ranks(opts.sort, opts.files_first);
    law_stable_sort(v, node_le(opts.sort, opts.files_first));
    assert(v.to_multiset().count(s[i]) > 0);
}

/// A row says of its node what that is. Where chains are not drawn as one it
/// has the name of the node, and children where the node is a directory that
/// was not read or that has one to be shown.
pub proof fn law_row_shows_its_node(n: NodeView, lasts: Seq<bool>, opts: OptionsView)
    ensures
        ({
            let row = row_of(n, lasts, opts);
            &&& row.path == n.path
            &&& row.kind == n.kind
            &&& row.expanded == n.expanded
            &&& row.executable == n.executable
            &&& row.git == n.git
            &&& row.diag == n.diag
            &&& row.link_to == n.link_to
            &&& row.ancestor_last == lasts
            &&& !opts.group_empty ==> {
                &&& row.name == n.name
                &&& row.group_target is None
                &&& !n.is_dir() ==> !row.has_children
                &&& n.is_dir() && !n.loaded ==> row.has_children
                &&& n.is_dir() && n.loaded ==> row.has_children == exists|i: int|
                    0 <= i < n.children.len() && is_visible(#[trigger] n.children[i], opts)
            }
        }),
{
    lemma_group_name(n, opts);
    if !opts.group_empty && n.is_dir() && n.loaded {
        let s = shown(n.children, opts);
        if s.len() > 0 {
            law_shown_are_visible(n.children, opts, 0);
            let i = n.children.index_of(s[0]);
            assert(is_visible(n.children[i], opts));
        }
        if exists|i: int| 0 <= i < n.children.len() && is_visible(#[trigger] n.children[i], opts) {
            let i = choose|i: int|
                0 <= i < n.children.len() && is_visible(#[trigger] n.children[i], opts);
            law_visible_are_shown(n.children, opts, i);
        }
    }
}

/// A chain that is drawn as one goes from a folder to its only shown child while
/// that is a folder too and the first one is open; its row names them all and
/// acts on the last.
pub proof fn law_chain_is_one_row(n: NodeView, c: NodeView, lasts: Seq<bool>, opts: OptionsView)
    requires
        opts.group_empty,
        n.expanded,
        shown(n.children, opts) == seq![c],
        c.is_dir(),
    ensures
        deepest(n, opts) == deepest(c, opts),
        row_of(n, lasts, opts).name == n.name + "/"@ + row_of(c, lasts, opts).name,
        row_of(n, lasts, opts).path == n.path,
        row_of(n, lasts, opts).has_children == row_of(c, lasts, opts).has_children,
        deepest(n, opts).comps() != n.comps() ==> row_of(n, lasts, opts).group_target == Some(
            deepest(n, opts).path,
        ),
{
    assert(shown(n.children, opts)[0] == c);
    assert(shown(n.children, opts).len() == 1);
    assert(chains(n, opts));
}

/// A closed folder, one with no child or with more than one to be shown, and one
/// whose only one is no folder, ends its chain.
pub proof fn law_chain_ends(n: NodeView, opts: OptionsView)
    requires
        !n.expanded || shown(n.children, opts).len() != 1 || !shown(n.children, opts)[0].is_dir(),
    ensures
        deepest(n, opts) == n,
        group_name(n, opts) == n.name,
{
}

/// A closed root has no rows.
pub proof fn law_closed_root_has_no_rows(root: NodeView, opts: OptionsView)
    requires
        !root.expanded,
    ensures
        flat(root, opts).len() == 0,
{
}

proof fn lemma_closed_rows(s: Seq<NodeView>, lasts: Seq<bool>, ends: bool, opts: OptionsView)
    requires
        forall|i: int| 0 <= i < s.len() ==> !(#[trigger] s[i]).expanded,
    ensures
        rows_among(s, lasts, ends, opts).len() == s.len(),
        forall|i: int|
            0 <= i < s.len() ==> (#[trigger] rows_among(s, lasts, ends, opts)[i]).path == s[i].path,
    decreases s.len(),
{
    if s.len() > 0 {
        let init = s.drop_last();
        assert forall|i: int| 0 <= i < init.len() implies !(#[trigger] init[i]).expanded by {
            assert(init[i] == s[i]);
        }
        lemma_closed_rows(init, lasts, false, opts);
        let before = rows_among(init, lasts, false, opts);
        let own = rows_of(s.last(), lasts.push(ends), opts);
        assert(!s[s.len() - 1].expanded);
        assert(own.len() == 1);
        assert forall|i: int| 0 <= i < s.len() implies (#[trigger] rows_among(
            s,
            lasts,
            ends,
            opts,
        )[i]).path == s[i].path by {
            if i < init.len() {
                assert(before[i].path == init[i].path);
            }
        }
    }
}

/// Where no child of the root is open, the rows are the children that are shown,
/// in their order.
pub proof fn law_rows_are_in_order(root: NodeView, opts: OptionsView, i: int)
    requires
        root.expanded,
        forall|j: int|
            0 <= j < shown(root.children, opts).len() ==> !(#[trigger] shown(
                root.children,
                opts,
            )[j]).expanded,
        0 <= i < shown(root.children, opts).len(),
    ensures
        flat(root, opts).len() == shown(root.children, opts).len(),
        flat(root, opts)[i].path == shown(root.children, opts)[i].path,
        flat(root, opts)[i].depth == 0,
{
    let s = shown(root.children, opts);
    lemma_closed_rows(s, Seq::empty(), true, opts);
    lemma_closed_depth(s, Seq::empty(), true, opts, i);
}

proof fn lemma_closed_depth(
    s: Seq<NodeView>,
    lasts: Seq<bool>,
    ends: bool,
    opts: OptionsView,
    i: int,
)
    requires
        forall|i: int| 0 <= i < s.len() ==> !(#[trigger] s[i]).expanded,
        0 <= i < s.len(),
    ensures
        rows_among(s, lasts, ends, opts)[i].depth == lasts.len(),
    decreases s.len(),
{
    let init = s.drop_last();
    assert forall|j: int| 0 <= j < init.len() implies !(#[trigger] init[j]).expanded by {
        assert(init[j] == s[j]);
    }
    lemma_closed_rows(init, lasts, false, opts);
    assert(!s[s.len() - 1].expanded);
    if i < init.len() {
        lemma_closed_depth(init, lasts, false, opts, i);
        assert(rows_among(s, lasts, ends, opts)[i] == rows_among(init, lasts, false, opts)[i]);
    } else {
        let before = rows_among(init, lasts, false, opts);
        let own = rows_of(s.last(), lasts.push(ends), opts);
        assert(own[0] == row_of(s.last(), lasts.push(ends), opts));
        assert(rows_among(s, lasts, ends, opts) == before + own);
        assert((before + own)[i] == own[0]);
    }
}

/// What an open directory holds follows its own row, one deeper, before anything
/// that comes after it.
pub proof fn law_children_follow(n: NodeView, lasts: Seq<bool>, opts: OptionsView)
    ensures
        rows_of(n, lasts, opts).len() >= 1,
        rows_of(n, lasts, opts)[0] == row_of(n, lasts, opts),
        n.expanded && n.is_dir() && !opts.group_empty ==> rows_of(n, lasts, opts).skip(1)
            == rows_among(shown(n.children, opts), lasts, true, opts),
        !n.expanded || (!n.is_dir() && !opts.group_empty) ==> rows_of(n, lasts, opts).len() == 1,
{
    lemma_deepest(n, opts);
    let all = rows_of(n, lasts, opts);
    if n.expanded && n.is_dir() && !opts.group_empty {
        assert(deepest(n, opts) == n);
        assert(all.skip(1) =~= rows_among(shown(n.children, opts), lasts, true, opts));
    }
}

} // verus!
