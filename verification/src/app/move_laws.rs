//! What holds of the cursor: where each way of moving it leads.

use vstd::prelude::*;

use crate::app::find::{first_from, last_before, lemma_first_from, lemma_last_before};
use crate::app::select::{at_path, changed_above, changed_below, named_below, row_place};
use crate::app::select::sibling_of;
use crate::app::state::{AppView, Mouse, MouseKind};
use crate::git::GitStatus;
use crate::path::{comps, parent_text};
use crate::text::{holds_text, lowercase};
use crate::tree::rows::RowView;

verus! {

/// Whether the cursor is on a row.
pub open spec fn cursor_on(s: AppView, i: int) -> bool {
    0 <= i < s.rows.len() && i <= usize::MAX && s.list.selected == Some(i as usize)
}

/// Whether nothing but the cursor differs.
pub open spec fn only_the_cursor(s: AppView, t: AppView) -> bool {
    t == (AppView { list: crate::app::state::ListState { selected: t.list.selected, ..s.list }, ..s })
}

/// Down and up go one row further, and stay at the last and at the first one.
pub proof fn law_moving_goes_one_row(s: AppView, i: int)
    requires
        cursor_on(s, i),
        s.rows.len() <= usize::MAX,
    ensures
        i + 1 < s.rows.len() ==> cursor_on(s.moved(true), i + 1),
        i + 1 == s.rows.len() ==> cursor_on(s.moved(true), i),
        i > 0 ==> cursor_on(s.moved(false), i - 1),
        i == 0 ==> cursor_on(s.moved(false), 0),
        only_the_cursor(s, s.moved(true)),
        only_the_cursor(s, s.moved(false)),
        i + 1 < s.rows.len() ==> s.moved(true).moved(false) == s,
{
    reveal(AppView::moved);
}

/// Whether two rows are siblings: as deep, and in the same directory.
pub open spec fn are_siblings(a: RowView, b: RowView) -> bool {
    a.depth == b.depth && match (parent_text(a.path), parent_text(b.path)) {
        (Some(x), Some(y)) => comps(x) == comps(y),
        (None, None) => true,
        _ => false,
    }
}

/// The first and the last sibling are siblings, and none comes before the one or
/// after the other.
pub proof fn law_sibling_edges(s: AppView, i: int, j: int)
    requires
        cursor_on(s, i),
        0 <= j < s.rows.len(),
        s.rows.len() <= usize::MAX,
    ensures
        ({
            let first = s.at_sibling_edge(true);
            let last = s.at_sibling_edge(false);
            &&& first.list.selected is Some && first.list.selected->0 <= i
            &&& are_siblings(s.rows[first.list.selected->0 as int], s.rows[i])
            &&& j < first.list.selected->0 ==> !are_siblings(s.rows[j], s.rows[i])
            &&& last.list.selected is Some && i <= last.list.selected->0 < s.rows.len()
            &&& are_siblings(s.rows[last.list.selected->0 as int], s.rows[i])
            &&& j > last.list.selected->0 ==> !are_siblings(s.rows[j], s.rows[i])
            &&& only_the_cursor(s, first)
            &&& only_the_cursor(s, last)
        }),
{
    reveal(AppView::at_sibling_edge);
    let p = sibling_of(s.rows, s.cursor());
    let n = s.rows.len() as int;
    lemma_first_from(p, 0, n);
    lemma_last_before(p, n);
    assert(p(i));
    let a = first_from(p, 0, n);
    let b = last_before(p, n);
    assert(p(a));
    assert(p(b));
    assert(p(j) == are_siblings(s.rows[j], s.rows[i]));
}

/// The next and the previous sibling are siblings with none between; where there
/// is none the cursor stays.
pub proof fn law_sibling_steps(s: AppView, i: int, j: int)
    requires
        cursor_on(s, i),
        0 <= j < s.rows.len(),
        s.rows.len() <= usize::MAX,
    ensures
        ({
            let next = s.at_sibling_step(true);
            let back = s.at_sibling_step(false);
            &&& next.list.selected is Some && i <= next.list.selected->0 < s.rows.len()
            &&& back.list.selected is Some && back.list.selected->0 <= i
            &&& are_siblings(s.rows[next.list.selected->0 as int], s.rows[i])
            &&& are_siblings(s.rows[back.list.selected->0 as int], s.rows[i])
            &&& i < j && (j < next.list.selected->0 || next.list.selected->0 == i)
                ==> !are_siblings(s.rows[j], s.rows[i])
            &&& j < i && (back.list.selected->0 < j || back.list.selected->0 == i)
                ==> !are_siblings(s.rows[j], s.rows[i])
            &&& only_the_cursor(s, next)
            &&& only_the_cursor(s, back)
        }),
{
    reveal(AppView::at_sibling_step);
    let p = sibling_of(s.rows, s.cursor());
    let n = s.rows.len() as int;
    lemma_first_from(p, i + 1, n);
    lemma_last_before(p, i);
    let a = first_from(p, i + 1, n);
    let b = last_before(p, i);
    assert(p(i));
    if a < n {
        assert(p(a));
    }
    if b >= 0 {
        assert(p(b));
    }
    assert(p(j) == are_siblings(s.rows[j], s.rows[i]));
}

/// The cursor goes to a path exactly where that has a row: to the first such
/// row, and nowhere else.
pub proof fn law_cursor_finds_a_path(s: AppView, p: Seq<u8>, j: int)
    requires
        0 <= j < s.rows.len(),
        s.rows.len() <= usize::MAX,
        comps(s.rows[j].path) == comps(p),
    ensures
        s.on_path(p).list.selected is Some,
        s.on_path(p).list.selected->0 <= j,
        comps(s.rows[s.on_path(p).list.selected->0 as int].path) == comps(p),
        only_the_cursor(s, s.on_path(p)),
{
    reveal(AppView::on_path);
    let q = at_path(s.rows, comps(p));
    lemma_first_from(q, 0, s.rows.len() as int);
    assert(q(j));
    assert(q(row_place(s.rows, comps(p))));
}

/// A path without a row leaves the cursor where it is.
pub proof fn law_cursor_stays_without_a_row(s: AppView, p: Seq<u8>)
    requires
        forall|j: int| 0 <= j < s.rows.len() ==> comps((#[trigger] s.rows[j]).path) != comps(p),
    ensures
        s.on_path(p) == s,
{
    reveal(AppView::on_path);
    let q = at_path(s.rows, comps(p));
    let i = row_place(s.rows, comps(p));
    lemma_first_from(q, 0, s.rows.len() as int);
    if i < s.rows.len() {
        assert(q(i));
        assert(comps(s.rows[i].path) == comps(p));
    }
}

/// Whether git says that a row was changed: it has a status, other than
/// `Ignored`.
pub open spec fn has_changed(row: RowView) -> bool {
    row.git matches Some(st) && st != GitStatus::Ignored
}

proof fn lemma_mod(a: int, n: int)
    requires
        n > 0,
    ensures
        0 <= a % n < n,
        0 <= a < n ==> a % n == a,
        n <= a < 2 * n ==> a % n == a - n,
        -n <= a < 0 ==> a % n == a + n,
{
    assert(0 <= a % n < n) by (nonlinear_arith)
        requires
            n > 0,
    ;
    if 0 <= a < n {
        vstd::arithmetic::div_mod::lemma_small_mod(a as nat, n as nat);
    } else if n <= a < 2 * n {
        vstd::arithmetic::div_mod::lemma_small_mod((a - n) as nat, n as nat);
        vstd::arithmetic::div_mod::lemma_mod_add_multiples_vanish(a - n, n);
    } else if -n <= a < 0 {
        vstd::arithmetic::div_mod::lemma_small_mod((a + n) as nat, n as nat);
        vstd::arithmetic::div_mod::lemma_mod_add_multiples_vanish(a, n);
    }
}

/// The row that is `off` rows further down, with the first row after the last.
pub open spec fn row_on(n: int, i: int, off: int) -> int {
    if i + off < n {
        i + off
    } else {
        i + off - n
    }
}

/// The row that is `off` rows further up, with the last row before the first.
pub open spec fn row_back(n: int, i: int, off: int) -> int {
    if i - off >= 0 {
        i - off
    } else {
        i - off + n
    }
}

/// The next change is a changed row, and going on from the cursor, past the end
/// to the beginning, no changed row comes before it. Without any changed row the
/// cursor stays.
pub proof fn law_next_change(s: AppView, i: int, off: int)
    requires
        cursor_on(s, i),
        s.rows.len() <= usize::MAX,
        1 <= off <= s.rows.len(),
        has_changed(s.rows[row_on(s.rows.len() as int, i, off)]),
    ensures
        exists|d: int|
            1 <= d <= off && cursor_on(s.at_change(true), #[trigger] row_on(s.rows.len() as int, i, d))
                && has_changed(s.rows[row_on(s.rows.len() as int, i, d)]) && forall|e: int|
                1 <= e < d ==> !has_changed(s.rows[#[trigger] row_on(s.rows.len() as int, i, e)]),
        only_the_cursor(s, s.at_change(true)),
{
    reveal(AppView::at_change);
    let n = s.rows.len() as int;
    let p = changed_below(s.rows, i);
    lemma_first_from(p, 1, n + 1);
    assert forall|e: int| 1 <= e <= n implies (i + e) % n == #[trigger] row_on(n, i, e) by {
        lemma_mod(i + e, n);
    }
    assert(row_on(n, i, off) == (i + off) % n);
    assert(p(off));
    let d = first_from(p, 1, n + 1);
    assert(p(d));
    assert forall|e: int| 1 <= e < d implies !has_changed(s.rows[#[trigger] row_on(n, i, e)]) by {
        assert(!p(e));
        assert(row_on(n, i, e) == (i + e) % n);
    }
    assert(row_on(n, i, d) == (i + d) % n);
    assert(cursor_on(s.at_change(true), row_on(n, i, d)));
}

/// The previous change, likewise, going back from the cursor.
pub proof fn law_previous_change(s: AppView, i: int, off: int)
    requires
        cursor_on(s, i),
        s.rows.len() <= usize::MAX,
        1 <= off <= s.rows.len(),
        has_changed(s.rows[row_back(s.rows.len() as int, i, off)]),
    ensures
        exists|d: int|
            1 <= d <= off && cursor_on(
                s.at_change(false),
                #[trigger] row_back(s.rows.len() as int, i, d),
            ) && has_changed(s.rows[row_back(s.rows.len() as int, i, d)]) && forall|e: int|
                1 <= e < d ==> !has_changed(s.rows[#[trigger] row_back(s.rows.len() as int, i, e)]),
        only_the_cursor(s, s.at_change(false)),
{
    reveal(AppView::at_change);
    let n = s.rows.len() as int;
    let p = changed_above(s.rows, i);
    lemma_first_from(p, 1, n + 1);
    assert forall|e: int| 1 <= e <= n implies (i - e) % n == #[trigger] row_back(n, i, e) by {
        lemma_mod(i - e, n);
    }
    assert(row_back(n, i, off) == (i - off) % n);
    assert(p(off));
    let d = first_from(p, 1, n + 1);
    assert(p(d));
    assert forall|e: int| 1 <= e < d implies !has_changed(s.rows[#[trigger] row_back(n, i, e)]) by {
        assert(!p(e));
        assert(row_back(n, i, e) == (i - e) % n);
    }
    assert(row_back(n, i, d) == (i - d) % n);
    assert(cursor_on(s.at_change(false), row_back(n, i, d)));
}

/// Where no row was changed, looking for a change says so and moves nothing.
pub proof fn law_no_change_no_move(s: AppView, i: int, down: bool)
    requires
        cursor_on(s, i),
        s.rows.len() <= usize::MAX,
        forall|j: int| 0 <= j < s.rows.len() ==> !has_changed(#[trigger] s.rows[j]),
    ensures
        s.at_change(down).list == s.list,
        s.at_change(down).status is Some,
        s.at_change(down).rows == s.rows,
{
    reveal(AppView::at_change);
    let n = s.rows.len() as int;
    let p = changed_below(s.rows, i);
    let q = changed_above(s.rows, i);
    lemma_first_from(p, 1, n + 1);
    lemma_first_from(q, 1, n + 1);
    let d = first_from(p, 1, n + 1);
    let e = first_from(q, 1, n + 1);
    lemma_mod(i + d, n);
    lemma_mod(i - e, n);
    assert(!has_changed(s.rows[(i + d) % n]));
    assert(!has_changed(s.rows[(i - e) % n]));
    assert(!p(d));
    assert(!q(e));
}

/// Whether the name of a row holds a text, whatever the case.
pub open spec fn name_holds(row: RowView, query: Seq<char>) -> bool {
    holds_text(lowercase(row.name), lowercase(query))
}

/// Searching goes to a row whose name holds what was typed, whatever the case:
/// the first such one below the cursor, going on from the beginning after the
/// end, the row of the cursor last.
pub proof fn law_search_finds_the_next(s: AppView, i: int, query: Seq<char>, off: int)
    requires
        cursor_on(s, i),
        s.rows.len() < usize::MAX,
        1 <= off <= s.rows.len(),
        name_holds(s.rows[row_on(s.rows.len() as int, i, off)], query),
    ensures
        exists|d: int|
            1 <= d <= off && cursor_on(
                s.searched(query),
                #[trigger] row_on(s.rows.len() as int, i, d),
            ) && name_holds(s.rows[row_on(s.rows.len() as int, i, d)], query) && forall|e: int|
                1 <= e < d ==> !name_holds(
                    s.rows[#[trigger] row_on(s.rows.len() as int, i, e)],
                    query,
                ),
        only_the_cursor(s, s.searched(query)),
{
    reveal(AppView::searched);
    let n = s.rows.len() as int;
    let p = named_below(s.rows, i + 1, lowercase(query));
    lemma_first_from(p, 0, n);
    assert forall|e: int| 1 <= e <= n implies (i + 1 + (e - 1)) % n == #[trigger] row_on(
        n,
        i,
        e,
    ) by {
        lemma_mod(i + e, n);
    }
    assert(row_on(n, i, off) == (i + 1 + (off - 1)) % n);
    assert(p(off - 1));
    let d = first_from(p, 0, n) + 1;
    assert(p(d - 1));
    assert forall|e: int| 1 <= e < d implies !name_holds(
        s.rows[#[trigger] row_on(n, i, e)],
        query,
    ) by {
        assert(!p(e - 1));
        assert(row_on(n, i, e) == (i + 1 + (e - 1)) % n);
    }
    assert(row_on(n, i, d) == (i + 1 + (d - 1)) % n);
    assert(cursor_on(s.searched(query), row_on(n, i, d)));
}

/// Where no name holds what was typed, searching says so and moves nothing.
pub proof fn law_search_without_a_match(s: AppView, query: Seq<char>)
    requires
        forall|j: int| 0 <= j < s.rows.len() ==> !name_holds(#[trigger] s.rows[j], query),
    ensures
        s.searched(query).list == s.list,
        s.searched(query).status is Some,
{
    reveal(AppView::searched);
    let n = s.rows.len() as int;
    let start = match s.list.selected {
        Some(i) => i + 1,
        None => 0,
    };
    let p = named_below(s.rows, start, lowercase(query));
    lemma_first_from(p, 0, n);
    let d = first_from(p, 0, n);
    if d < n {
        lemma_mod(start + d, n);
        assert(p(d));
        assert(name_holds(s.rows[(start + d) % n], query));
    }
}

/// The wheel moves the cursor by one row. A click on a row puts the cursor
/// there and acts as Enter does; one beside the rows does nothing, and where the
/// mouse is switched off nothing does.
pub proof fn law_mouse(s: AppView, m: Mouse, i: int)
    requires
        s.rows.len() <= usize::MAX,
    ensures
        !s.config.mouse ==> s.moused(m) == s,
        s.config.mouse && m.kind == MouseKind::ScrollDown ==> s.moused(m) == s.touched_now().moved(
            true,
        ),
        s.config.mouse && m.kind == MouseKind::ScrollUp ==> s.moused(m) == s.touched_now().moved(
            false,
        ),
        s.config.mouse && m.kind == MouseKind::Other ==> s.moused(m) == s,
        s.config.mouse && m.kind == MouseKind::LeftDown && s.list_area.y <= m.row < s.list_area.y
            + s.list_area.height && i == s.list.offset + (m.row - s.list_area.y) && i
            < s.rows.len() ==> s.moused(m) == s.touched_now().at_row(i).chosen(),
        s.config.mouse && m.kind == MouseKind::LeftDown && (m.row < s.list_area.y || m.row
            >= s.list_area.y + s.list_area.height || s.list.offset + (m.row - s.list_area.y)
            >= s.rows.len()) ==> s.moused(m) == s,
{
    reveal(AppView::moused);
}

} // verus!
