//! What holds of the rows of a tree from one to the next.

use vstd::prelude::*;

use crate::tree::laws::{law_depth_is_the_number_of_marks, lemma_marks_among};
use crate::tree::node::{size, total, NodeView};
use crate::tree::rows::{deepest, flat, lemma_deepest, rows_among, rows_of, shown, OptionsView};
use crate::tree::rows::RowView;

verus! {

/// Whether a row is at most one deeper than the one before it, and only if that
/// is open.
pub open spec fn steps_down(rows: Seq<RowView>, i: int) -> bool {
    &&& rows[i + 1].depth <= rows[i].depth + 1
    &&& rows[i + 1].depth == rows[i].depth + 1 ==> rows[i].expanded
}

/// Whether row `j` is the next at the depth of row `i` with only deeper ones
/// between: its next sibling.
pub open spec fn follows(rows: Seq<RowView>, i: int, j: int) -> bool {
    &&& i < j < rows.len()
    &&& rows[j].depth == rows[i].depth
    &&& forall|k: int| i < k < j ==> (#[trigger] rows[k]).depth > rows[i].depth
}

/// Whether a row has a sibling further down.
pub open spec fn has_next(rows: Seq<RowView>, i: int) -> bool {
    exists|j: int| #[trigger] follows(rows, i, j)
}

/// Whether row `i` is the one that row `j` stands below: the nearest above it
/// that is less deep.
pub open spec fn is_parent(rows: Seq<RowView>, i: int, j: int) -> bool {
    &&& 0 <= i < j < rows.len()
    &&& rows[i].depth < rows[j].depth
    &&& forall|k: int| i < k < j ==> (#[trigger] rows[k]).depth >= rows[j].depth
}

/// Whether a row's marks but the last are those of the row that it stands below.
pub open spec fn marks_go_on(rows: Seq<RowView>, i: int, j: int) -> bool {
    rows[j].ancestor_last.drop_last() == rows[i].ancestor_last
}

/// Where the rows of the last of some siblings begin.
spec fn last_start(s: Seq<NodeView>, lasts: Seq<bool>, opts: OptionsView) -> int {
    rows_among(s.drop_last(), lasts, false, opts).len() as int
}

/// What holds of the rows of siblings. Of the row of the last one only its own
/// mark is known, which tells what comes after these rows.
spec fn good_rows(rows: Seq<RowView>, depth: int, last: int, ends: bool) -> bool {
    &&& forall|i: int| 0 <= i < rows.len() ==> (#[trigger] rows[i]).depth >= depth
    &&& forall|i: int| 0 <= i < rows.len() ==> (#[trigger] rows[i]).ancestor_last.len()
        == rows[i].depth + 1
    &&& rows.len() > 0 ==> rows[0].depth == depth
    &&& rows.len() > 0 ==> 0 <= last < rows.len() && rows[last].depth == depth
    &&& forall|i: int| last < i < rows.len() ==> (#[trigger] rows[i]).depth > depth
    &&& forall|i: int| 0 <= i < rows.len() - 1 ==> #[trigger] steps_down(rows, i)
    &&& forall|i: int|
        0 <= i < rows.len() ==> (#[trigger] rows[i]).ancestor_last.last() == if i == last {
            ends
        } else {
            !has_next(rows, i)
        }
    &&& forall|i: int, j: int| #[trigger] is_parent(rows, i, j) ==> marks_go_on(rows, i, j)
}

/// The rows below a node go on with the node's own row.
proof fn lemma_node_rows(n: NodeView, lasts: Seq<bool>, opts: OptionsView)
    requires
        lasts.len() > 0,
    ensures
        good_rows(rows_of(n, lasts, opts), lasts.len() - 1, 0, lasts.last()),
        rows_of(n, lasts, opts).len() > 0,
    decreases size(n), 0int,
{
    lemma_deepest(n, opts);
    law_depth_is_the_number_of_marks(n, lasts, opts);
    let d = deepest(n, opts);
    let all = rows_of(n, lasts, opts);
    if n.expanded && d.is_dir() {
        let s = shown(d.children, opts);
        let below = rows_among(s, lasts, true, opts);
        let p = last_start(s, lasts, opts);
        lemma_sibling_rows(s, lasts, true, opts);
        lemma_marks_among(s, lasts, true, opts);
        assert(all =~= seq![all[0]] + below);
        assert forall|i: int| 0 <= i < all.len() - 1 implies #[trigger] steps_down(all, i) by {
            if i > 0 {
                assert(steps_down(below, i - 1));
            }
        }
        assert forall|i: int| 0 <= i < all.len() implies (#[trigger] all[i]).ancestor_last.last()
            == if i == 0 {
            lasts.last()
        } else {
            !has_next(all, i)
        } by {
            if i > 0 {
                assert(all[i] == below[i - 1]);
                lemma_next_shifts(all, below, 1, i - 1);
                if i - 1 == p {
                    lemma_none_after(below, p);
                }
            }
        }
        assert forall|i: int, j: int| #[trigger] is_parent(all, i, j) implies marks_go_on(
            all,
            i,
            j,
        ) by {
            assert(all[j] == below[j - 1]);
            if i > 0 {
                assert(all[i] == below[i - 1]);
                assert forall|k: int| i - 1 < k < j - 1 implies (#[trigger] below[k]).depth
                    >= below[j - 1].depth by {
                    assert(all[k + 1] == below[k]);
                }
                assert(is_parent(below, i - 1, j - 1));
                assert(marks_go_on(below, i - 1, j - 1));
            } else {
                if j > 1 {
                    assert(all[1].depth >= all[j].depth);
                    assert(all[1] == below[0]);
                }
                let m = below[j - 1].ancestor_last;
                assert(m.len() == lasts.len() + 1);
                assert(m.drop_last() =~= m.take(lasts.len() as int));
            }
        }
    } else {
        assert(all =~= seq![all[0]]);
    }
}

/// The rows of siblings follow on one another.
proof fn lemma_sibling_rows(s: Seq<NodeView>, lasts: Seq<bool>, ends: bool, opts: OptionsView)
    ensures
        good_rows(
            rows_among(s, lasts, ends, opts),
            lasts.len() as int,
            last_start(s, lasts, opts),
            ends,
        ),
        s.len() > 0 ==> rows_among(s, lasts, ends, opts).len() > 0,
    decreases total(s), 1int,
{
    if s.len() > 0 {
        assert(size(s.last()) >= 1);
        let init = s.drop_last();
        let a = rows_among(init, lasts, false, opts);
        let b = rows_of(s.last(), lasts.push(ends), opts);
        let all = rows_among(s, lasts, ends, opts);
        let q = last_start(init, lasts, opts);
        let n = a.len() as int;
        lemma_sibling_rows(init, lasts, false, opts);
        lemma_node_rows(s.last(), lasts.push(ends), opts);
        assert(all =~= a + b);
        assert(last_start(s, lasts, opts) == n);
        assert(all[n] == b[0]);
        assert forall|i: int| 0 <= i < all.len() - 1 implies #[trigger] steps_down(all, i) by {
            if i < n - 1 {
                assert(steps_down(a, i));
            } else if i >= n {
                assert(steps_down(b, i - n));
            } else {
                assert(all[i] == a[i]);
            }
        }
        assert forall|i: int| 0 <= i < all.len() implies (#[trigger] all[i]).ancestor_last.last()
            == if i == n {
            ends
        } else {
            !has_next(all, i)
        } by {
            if i > n {
                assert(all[i] == b[i - n]);
                lemma_next_shifts(all, b, n, i - n);
            } else if i < n {
                assert(all[i] == a[i]);
                if i == q {
                    assert(follows(all, i, n)) by {
                        assert forall|k: int| i < k < n implies (#[trigger] all[k]).depth
                            > all[i].depth by {
                            assert(all[k] == a[k]);
                        }
                    }
                } else {
                    lemma_next_kept(all, a, i, lasts.len() as int, q);
                }
            }
        }
        assert forall|i: int, j: int| #[trigger] is_parent(all, i, j) implies marks_go_on(
            all,
            i,
            j,
        ) by {
            if j < n {
                assert(all[i] == a[i] && all[j] == a[j]);
                assert forall|k: int| i < k < j implies (#[trigger] a[k]).depth >= a[j].depth by {
                    assert(all[k] == a[k]);
                }
                assert(is_parent(a, i, j));
                assert(marks_go_on(a, i, j));
            } else if i >= n {
                assert(all[i] == b[i - n] && all[j] == b[j - n]);
                assert forall|k: int| i - n < k < j - n implies (#[trigger] b[k]).depth >= b[j
                    - n].depth by {
                    assert(all[k + n] == b[k]);
                }
                assert(is_parent(b, i - n, j - n));
                assert(marks_go_on(b, i - n, j - n));
            } else {
                assert(all[i] == a[i]);
                assert(all[j] == b[j - n]);
                if j > n {
                    assert(all[n].depth >= all[j].depth);
                }
            }
        }
    }
}

/// A row at the end of `all`, which is `b`, has the siblings that it has there.
proof fn lemma_next_shifts(all: Seq<RowView>, b: Seq<RowView>, n: int, i: int)
    requires
        0 <= n,
        0 <= i < b.len(),
        all.len() == n + b.len(),
        forall|k: int| 0 <= k < b.len() ==> #[trigger] b[k] == all[k + n],
    ensures
        has_next(all, i + n) == has_next(b, i),
{
    assert(b[i] == all[i + n]);
    if has_next(all, i + n) {
        let j = choose|j: int| #[trigger] follows(all, i + n, j);
        assert(b[j - n] == all[j]);
        assert forall|k: int| i < k < j - n implies (#[trigger] b[k]).depth > b[i].depth by {
            assert(b[k] == all[k + n]);
        }
        assert(follows(b, i, j - n));
    }
    if has_next(b, i) {
        let j = choose|j: int| #[trigger] follows(b, i, j);
        assert(b[j] == all[j + n]);
        assert forall|k: int| i + n < k < j + n implies (#[trigger] all[k]).depth > all[i
            + n].depth by {
            assert(b[k - n] == all[k]);
        }
        assert(follows(all, i + n, j + n));
    }
}

/// A row at the beginning of `all`, which is `a`, has the siblings that it has
/// there, unless it is the last one at the least depth.
proof fn lemma_next_kept(all: Seq<RowView>, a: Seq<RowView>, i: int, depth: int, q: int)
    requires
        0 <= i < a.len() < all.len(),
        0 <= q < a.len(),
        i != q,
        forall|k: int| 0 <= k < a.len() ==> #[trigger] a[k] == all[k],
        forall|k: int| 0 <= k < a.len() ==> (#[trigger] a[k]).depth >= depth,
        a[q].depth == depth,
        forall|k: int| q < k < a.len() ==> (#[trigger] a[k]).depth > depth,
        all[a.len() as int].depth == depth,
    ensures
        has_next(all, i) == has_next(a, i),
{
    let n = a.len() as int;
    assert(a[i] == all[i]);
    if has_next(a, i) {
        let j = choose|j: int| #[trigger] follows(a, i, j);
        assert(a[j] == all[j]);
        assert forall|k: int| i < k < j implies (#[trigger] all[k]).depth > all[i].depth by {
            assert(a[k] == all[k]);
        }
        assert(follows(all, i, j));
    }
    if has_next(all, i) {
        let j = choose|j: int| #[trigger] follows(all, i, j);
        if j < n {
            assert(a[j] == all[j]);
            assert forall|k: int| i < k < j implies (#[trigger] a[k]).depth > a[i].depth by {
                assert(a[k] == all[k]);
            }
            assert(follows(a, i, j));
        } else {
            if j > n {
                assert(all[n].depth > all[i].depth);
            }
            assert(a[i].depth == depth);
            assert(i < q);
            assert(all[q].depth > all[i].depth);
            assert(a[q] == all[q]);
        }
    }
}

proof fn lemma_none_after(rows: Seq<RowView>, p: int)
    requires
        0 <= p < rows.len(),
        forall|i: int| p < i < rows.len() ==> (#[trigger] rows[i]).depth > rows[p].depth,
    ensures
        !has_next(rows, p),
{
    if has_next(rows, p) {
        let j = choose|j: int| #[trigger] follows(rows, p, j);
        assert(rows[j].depth > rows[p].depth);
    }
}

/// The first row is at depth zero, and a row is at most one deeper than the row
/// before it, and that only if the row before it is open.
pub proof fn law_depth_grows_by_one(root: NodeView, opts: OptionsView)
    ensures
        flat(root, opts).len() > 0 ==> flat(root, opts)[0].depth == 0,
        forall|i: int|
            0 <= i < flat(root, opts).len() - 1 ==> #[trigger] steps_down(flat(root, opts), i),
{
    if root.expanded {
        lemma_sibling_rows(shown(root.children, opts), Seq::empty(), true, opts);
    }
}

/// A row has one mark more than it is deep, and the last is set exactly where
/// no sibling of the row comes after it.
pub proof fn law_last_mark_ends_siblings(root: NodeView, opts: OptionsView, i: int)
    requires
        0 <= i < flat(root, opts).len(),
    ensures
        flat(root, opts)[i].ancestor_last.len() == flat(root, opts)[i].depth + 1,
        flat(root, opts)[i].ancestor_last.last() == !has_next(flat(root, opts), i),
{
    let s = shown(root.children, opts);
    let p = last_start(s, Seq::empty(), opts);
    lemma_sibling_rows(s, Seq::empty(), true, opts);
    if i == p {
        lemma_none_after(flat(root, opts), p);
    }
}

/// The marks of a row, but for the last, are those of the row that it stands
/// below, which is one less deep.
pub proof fn law_marks_go_on(root: NodeView, opts: OptionsView, i: int, j: int)
    requires
        is_parent(flat(root, opts), i, j),
    ensures
        marks_go_on(flat(root, opts), i, j),
        flat(root, opts)[i].depth + 1 == flat(root, opts)[j].depth,
{
    let rows = flat(root, opts);
    lemma_sibling_rows(shown(root.children, opts), Seq::empty(), true, opts);
    assert(rows[j].ancestor_last.len() == rows[j].depth + 1);
    assert(rows[i].ancestor_last.len() == rows[i].depth + 1);
}

} // verus!
