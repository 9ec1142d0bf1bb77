//! What holds of the explorer as a whole.

use vstd::prelude::*;

use crate::app::find::lemma_first_from;
use crate::app::files::text_comps;
use crate::app::live::{closed_each, not_among, opens, upward};
use crate::app::nav::{flipped_one, Filter};
use crate::app::reload::scan_or_nothing;
use crate::app::select::{at_path, row_place};
use crate::app::state::{AppView, Opening, StepView, Toggles, Transfer, FOLLOW_INPUT_GRACE};
use crate::app::view::near_row;
use crate::clipboard::{holds_path, law_take_off, left_out};
use crate::filter::{after_dir, after_entries, RulesView, WalkEntryView, WalkView};
use crate::git::GitData;
use crate::keymap::{resolved, Action, Key};
use crate::order::{is_ranking, law_stable_sort, stable_sort};
use crate::path::comps;
use crate::paths::{lemma_ordered_holds, listed, ordered};
use crate::tree::depth::no_higher;
use crate::tree::laws::{law_closing_is_exact, law_overlays_keep_what_is_open};
use crate::tree::model::{new_root, open_at, open_dirs, opened, ScanView, TreeView};
use crate::tree::node::NodeView;
use crate::tree::reload_laws::to_reopen;
use crate::ui_overlays::OverlayView;

verus! {

/// Closing some directories closes them and no others, in whatever order.
pub proof fn law_closing_each_is_exact(root: NodeView, dirs: Seq<Seq<u8>>, u: Seq<Seq<u8>>)
    ensures
        open_at(closed_each(root, dirs), u) == (open_at(root, u) && !holds_path(dirs, u)),
    decreases dirs.len(),
{
    if dirs.len() > 0 {
        let init = dirs.drop_last();
        law_closing_each_is_exact(root, init, u);
        law_closing_is_exact(closed_each(root, init), comps(dirs.last()), u);
        assert(holds_path(dirs, u) == (holds_path(init, u) || comps(dirs.last()) == u)) by {
            if holds_path(dirs, u) {
                let i = choose|i: int| 0 <= i < dirs.len() && comps(#[trigger] dirs[i]) == u;
                if i < init.len() {
                    assert(comps(init[i]) == u);
                }
            }
            if holds_path(init, u) {
                let i = choose|i: int| 0 <= i < init.len() && comps(#[trigger] init[i]) == u;
                assert(comps(dirs[i]) == u);
            }
            assert(dirs[dirs.len() - 1] == dirs.last());
        }
    }
}

/// Whether each of some paths, finitely many, is written by its text.
pub open spec fn well_written(m: Map<Seq<Seq<u8>>, Seq<u8>>) -> bool {
    m.dom().finite() && forall|k: Seq<Seq<u8>>| #[trigger] m.contains_key(k) ==> comps(m[k]) == k
}

proof fn lemma_no_higher_ranks()
    ensures
        is_ranking(no_higher()),
{
}

proof fn lemma_listed(m: Map<Seq<Seq<u8>>, Seq<u8>>, u: Seq<Seq<u8>>)
    requires
        well_written(m),
    ensures
        holds_path(stable_sort(listed(m), no_higher()), u) == m.contains_key(u),
{
    broadcast use vstd::seq_lib::group_to_multiset_ensures;

    let ks = ordered(m.dom());
    let ts = listed(m);
    let sorted = stable_sort(ts, no_higher());
    lemma_ordered_holds(m.dom());
    lemma_no_higher_ranks();
    law_stable_sort(ts, no_higher());
    if m.contains_key(u) {
        assert(ks.contains(u));
        let i = ks.index_of(u);
        assert(ts[i] == m[u]);
        assert(ts.to_multiset().count(m[u]) > 0);
        assert(sorted.contains(m[u]));
        let j = sorted.index_of(m[u]);
        assert(comps(sorted[j]) == u);
    }
    if holds_path(sorted, u) {
        let j = choose|j: int| 0 <= j < sorted.len() && comps(#[trigger] sorted[j]) == u;
        assert(sorted.contains(sorted[j]));
        assert(ts.contains(sorted[j]));
        let i = ts.index_of(sorted[j]);
        assert(ks.contains(ks[i]));
        assert(m.contains_key(ks[i]));
    }
}

/// When the filter is cleared, exactly the directories are closed that it opened
/// and that the user has not touched since: every other one stays as it was.
pub proof fn law_clearing_closes_what_the_filter_opened(s: AppView, u: Seq<Seq<u8>>)
    requires
        well_written(s.filter_auto_expanded),
    ensures
        open_at(s.filter_cleared().tree.root, u) == (open_at(s.tree.root, u)
            && !s.filter_auto_expanded.contains_key(u)),
        s.filter_cleared().live_filter is None,
{
    reveal(AppView::filter_cleared);
    reveal(AppView::overlaid);
    let dirs = stable_sort(listed(s.filter_auto_expanded), no_higher());
    lemma_listed(s.filter_auto_expanded, u);
    law_closing_each_is_exact(s.tree.root, dirs, u);
    law_overlays_keep_what_is_open(
        closed_each(s.tree.root, dirs),
        s.git.statuses,
        s.diagnostics,
        s.diagnostics_mode,
        u,
    );
}

/// The filter never answers for a directory that was open before it looked.
pub proof fn law_filter_opens_only_what_is_closed(
    s: AppView,
    scan: crate::filter::LiveScanView,
    i: int,
)
    requires
        0 <= i < s.filter_opens(scan).len(),
    ensures
        !open_dirs(s.tree.root).contains(comps(s.filter_opens(scan)[i])),
{
    lemma_not_among(scan.expand, open_dirs(s.tree.root), i);
}

proof fn lemma_not_among(paths: Seq<Seq<u8>>, set: Set<Seq<Seq<u8>>>, i: int)
    requires
        0 <= i < not_among(paths, set).len(),
    ensures
        !set.contains(comps(not_among(paths, set)[i])),
    decreases paths.len(),
{
    if paths.len() > 0 {
        let init = not_among(paths.drop_last(), set);
        if i < init.len() {
            lemma_not_among(paths.drop_last(), set, i);
        }
    }
}

/// A directory that the user opened or closed while filtering is left alone when
/// the filter is cleared, and so are those above it.
pub proof fn law_user_takes_over(s: AppView, p: Seq<u8>, u: Seq<Seq<u8>>)
    requires
        s.live_filter is Some,
        well_written(s.filter_auto_expanded),
        upward(comps(s.tree.root.path), comps(p)).contains(u),
    ensures
        open_at(s.user_expanded(p).filter_cleared().tree.root, u) == open_at(s.tree.root, u),
{
    reveal(AppView::user_expanded);
    let t = s.user_expanded(p);
    let m = s.filter_auto_expanded;
    assert(t.filter_auto_expanded.dom() =~= m.dom().difference(
        upward(comps(s.tree.root.path), comps(p)),
    ));
    law_clearing_closes_what_the_filter_opened(t, u);
}

/// A filter without a text restricts nothing: the rows are those that are shown
/// without a filter, and nothing has to be walked for it.
pub proof fn law_empty_filter_restricts_nothing(s: AppView)
    requires
        s.live_filter == Some(Seq::<char>::empty()),
    ensures
        !s.must_walk(),
        s.options() == (AppView { live_filter: None, ..s }).options(),
{
}

/// A walk keeps to the question that it was started with.
pub proof fn law_walk_keeps_its_question(
    w: WalkView,
    es: Option<Seq<WalkEntryView>>,
    rules: RulesView,
)
    ensures
        ({
            let f = after_dir(w, es, rules).found;
            &&& f.query == w.found.query
            &&& f.root == w.found.root
            &&& f.show_hidden == w.found.show_hidden
            &&& f.show_ignored == w.found.show_ignored
            &&& f.custom_active == w.found.custom_active
        }),
{
    if w.stack.len() > 0 && es is Some {
        lemma_entries_keep(
            WalkView { stack: w.stack.drop_last(), ..w },
            w.stack.last(),
            es->0,
            rules,
        );
    }
}

proof fn lemma_entries_keep(w: WalkView, dir: Seq<u8>, es: Seq<WalkEntryView>, rules: RulesView)
    ensures
        ({
            let f = after_entries(w, dir, es, rules).found;
            &&& f.query == w.found.query
            &&& f.root == w.found.root
            &&& f.show_hidden == w.found.show_hidden
            &&& f.show_ignored == w.found.show_ignored
            &&& f.custom_active == w.found.custom_active
        }),
    decreases es.len(),
{
    if es.len() > 0 {
        lemma_entries_keep(w, dir, es.drop_last(), rules);
    }
}

/// A walk that asks what the filter asks answers it: once it is through, the
/// rows can be made without another.
pub proof fn law_walk_answers_the_filter(s: AppView, w: WalkView)
    requires
        s.query() is Some,
        w.found.query == s.query()->0,
        w.found.root == s.tree.root.path,
        w.found.show_hidden == s.tree.show_hidden,
        w.found.show_ignored == s.tree.show_ignored,
        w.found.custom_active == s.toggles.custom_active,
    ensures
        s.must_walk() ==> !s.walked(w).must_walk(),
        s.walked(w).live_scan->0.visible == w.found.visible,
{
    reveal(AppView::walked);
}

/// The rows that are made are the rows of the tree, and the cursor is on one of
/// them, if there is any. Where the path that it is to stay on has a row, it is
/// on that row.
pub proof fn law_cursor_stays_on_its_path(s: AppView, p: Seq<u8>)
    requires
        !s.must_walk(),
    ensures
        ({
            let t = s.rows_made(Some(p));
            &&& t.list.selected is Some == (t.rows.len() > 0)
            &&& t.rows.len() > 0 && t.rows.len() <= usize::MAX ==> t.list.selected->0 < t.rows.len()
            &&& row_place(t.rows, comps(p)) < t.rows.len() && t.rows.len() <= usize::MAX
                ==> comps(t.rows[t.list.selected->0 as int].path) == comps(p)
        }),
{
    reveal(AppView::rows_made);
    let t = s.rows_made(Some(p));
    let n = t.rows.len() as int;
    lemma_first_from(at_path(t.rows, comps(p)), 0, n);
    if near_row(t.rows, comps(s.tree.root.path), p) is Some {
        lemma_near_row(t.rows, comps(s.tree.root.path), p);
    }
}

proof fn lemma_near_row(
    rows: Seq<crate::tree::rows::RowView>,
    root: Seq<Seq<u8>>,
    t: Seq<u8>,
)
    requires
        near_row(rows, root, t) is Some,
    ensures
        0 <= near_row(rows, root, t)->0 < rows.len(),
    decreases comps(t).len(),
{
    lemma_first_from(at_path(rows, comps(t)), 0, rows.len() as int);
    if row_place(rows, comps(t)) >= rows.len() {
        crate::path::lemma_parent(t);
        lemma_near_row(rows, root, crate::path::parent_text(t)->0);
    }
}

/// While the user acts on the tree, a file that the editor names by itself moves
/// nothing: it is only taken note of, to be brought into view later.
pub proof fn law_follow_waits(
    s: AppView,
    p: Seq<u8>,
    own: Option<Seq<u8>>,
    ups: Seq<Option<Seq<u8>>>,
)
    requires
        s.recent_input(),
    ensures
        ({
            let t = s.sighted(p, true, own, ups);
            &&& t.tree == s.tree
            &&& t.rows == s.rows
            &&& t.list == s.list
            &&& t.agenda == s.agenda
            &&& t.pending_reveal == t.current_file
            &&& t.pending_reveal is Some
        }),
{
    reveal(AppView::sighted);
}

/// A file that the user asked for is brought into view at once, and so is one
/// that the editor names by itself while the user is idle.
pub proof fn law_reveal_acts_at_once(
    s: AppView,
    p: Seq<u8>,
    follow: bool,
    own: Option<Seq<u8>>,
    ups: Seq<Option<Seq<u8>>>,
)
    requires
        !follow || !s.recent_input(),
    ensures
        ({
            let t = s.sighted(p, follow, own, ups);
            &&& t.pending_reveal is None
            &&& t.current_file is Some
            &&& t.agenda == seq![StepView::Reveal(t.current_file->0)] + s.agenda
        }),
{
    reveal(AppView::sighted);
}

/// What waits to be brought into view does not wait for ever: when its time has
/// come, and nothing happens, it is brought into view.
pub proof fn law_waiting_reveal_comes(s: AppView, now: u64)
    requires
        s.pending_reveal is Some,
        s.reveal_due()->0 <= now,
        s.last_input is Some ==> s.last_input->0 + FOLLOW_INPUT_GRACE <= u64::MAX,
    ensures
        s.due() is Some,
        s.due()->0 <= now,
        s.waited(now).pending_reveal is None,
        s.waited(now).agenda == s.agenda.push(StepView::Reveal(s.pending_reveal->0)),
{
    reveal(AppView::flushed);
    assert(s.agenda + seq![StepView::Reveal(s.pending_reveal->0)] =~= s.agenda.push(
        StepView::Reveal(s.pending_reveal->0),
    ));
}

/// A message goes away when its time has come.
pub proof fn law_message_goes_away(s: AppView, now: u64)
    requires
        s.status_deadline is Some,
        s.status_deadline->0 <= now,
    ensures
        s.due() is Some,
        s.due()->0 <= now,
        s.waited(now).status is None,
{
    reveal(AppView::flushed);
}

/// A key that asks for nothing and begins nothing changes nothing, and does not
/// count as acting on the tree.
pub proof fn law_inert_key_does_nothing(s: AppView, key: Key)
    requires
        s.overlay == OverlayView::Closed,
        !s.live_editing,
        resolved(key, s.pending) == (Action::Nothing, Seq::<char>::empty()),
    ensures
        s.keyed(key) == (AppView { pending: Seq::empty(), ..s }),
{
    reveal(AppView::keyed);
    reveal(AppView::tree_keyed);
}

/// A key that begins a sequence counts as acting on the tree.
pub proof fn law_beginning_key_counts(s: AppView, key: Key)
    requires
        s.overlay == OverlayView::Closed,
        !s.live_editing,
        resolved(key, s.pending).0 == Action::Nothing,
        resolved(key, s.pending).1.len() > 0,
    ensures
        s.keyed(key).last_input == Some(s.now),
        s.keyed(key).pending == resolved(key, s.pending).1,
        s.keyed(key).recent_input(),
{
    reveal(AppView::keyed);
    reveal(AppView::tree_keyed);
}

/// What could not be removed or moved stays bookmarked, and what could does not.
pub proof fn law_survivors_stay_marked(s: AppView, k: Seq<Seq<u8>>)
    ensures
        s.removed_all().marks.contains_key(k) == (s.marks.contains_key(k) && !text_comps(
            s.batch.gone,
        ).contains(k)),
        s.sent_all(Transfer::Marked).marks.contains_key(k) == (s.marks.contains_key(k)
            && !text_comps(s.batch.gone).contains(k)),
        s.removed_all().selection.contains_key(k) == (s.selection.contains_key(k) && !text_comps(
            s.batch.gone,
        ).contains(k)),
{
    reveal(AppView::removed_all);
    reveal(AppView::sent_all);
    reveal(AppView::moved_marked);
}

/// What was cut and could not be pasted stays on the clipboard, and nothing else
/// does. What was copied stays.
pub proof fn law_cut_failures_stay(s: AppView, k: Seq<Seq<u8>>)
    ensures
        holds_path(s.sent_all(Transfer::Cut).clipboard.paths, k) == (holds_path(
            s.clipboard.paths,
            k,
        ) && !holds_path(s.batch.gone, k)),
        s.sent_all(Transfer::Copy).clipboard == s.clipboard,
{
    reveal(AppView::sent_all);
    reveal(AppView::pasted);
    law_take_off(s.clipboard.paths, s.batch.gone, k);
    if left_out(s.clipboard.paths, s.batch.gone).len() == 0 {
        assert(!holds_path(Seq::<Seq<u8>>::empty(), k));
        assert(!holds_path(left_out(s.clipboard.paths, s.batch.gone), k));
    }
}

/// Whatever changes the bookmarks has them kept next, before anything else is
/// done, but for what is already on its way.
pub proof fn law_changed_marks_are_kept(
    s: AppView,
    p: Seq<u8>,
    target: Seq<u8>,
    failed: Option<Seq<char>>,
)
    ensures
        s.mark_toggled().marks != s.marks ==> s.mark_toggled().agenda.len() > 0
            && s.mark_toggled().agenda[0] == StepView::Save,
        s.removed_all().agenda[0] == StepView::Save,
        s.sent_all(Transfer::Marked).agenda[0] == StepView::Save,
        ({
            let t = s.sent_one(p, target, Transfer::Cut, failed);
            t.marks != s.marks ==> t.agenda.len() > 0 && t.agenda[0] == StepView::Save
        }),
{
    reveal(AppView::mark_toggled);
    reveal(AppView::removed_all);
    reveal(AppView::sent_all);
    reveal(AppView::moved_marked);
    reveal(AppView::sent_one);
}

/// Flipping a toggle turns it on where it is off, and off where it is on, and
/// makes the rows anew.
pub proof fn law_toggle_flips(s: AppView, f: Filter)
    ensures
        s.filter_toggled(f).is_on(f) == !s.is_on(f),
        s.filter_toggled(f).agenda == seq![StepView::RowsHere] + s.agenda,
{
    reveal(AppView::filter_toggled);
}

/// Flipping one of the toggles twice leaves them as they were.
pub proof fn law_flipping_twice(t: Toggles, f: Filter)
    ensures
        flipped_one(flipped_one(t, f), f) == t,
{
}

/// A filter does not come along to another directory.
pub proof fn law_new_root_drops_the_filter(s: AppView, p: Seq<u8>)
    ensures
        s.rooted(p).live_filter is None,
        !s.rooted(p).live_editing,
        s.rooted(p).live_scan is None,
        s.rooted(p).filter_auto_expanded == Map::<Seq<Seq<u8>>, Seq<u8>>::empty(),
        !s.rooted(p).must_walk(),
{
    reveal(AppView::rooted);
}

/// A scan that finds the statuses as they were leaves what the filter found
/// alone; one that failed leaves the statuses alone as well.
pub proof fn law_same_statuses_keep_the_scan(s: AppView, result: Option<GitData>)
    requires
        result is Some ==> result->0.statuses@ == s.git.statuses,
    ensures
        s.git_done(result).live_scan == s.live_scan,
        s.git_done(result).git.statuses == s.git.statuses,
{
    reveal(AppView::git_done);
}

/// Reading the tree again puts the root, just read, in its place, and opens the
/// directories that were open, one after the other, before anything else is
/// done; the rest of the tree's settings stay.
pub proof fn law_reread_opens_again(s: AppView, scan: Option<ScanView>)
    ensures
        s.reread(scan).tree == (TreeView {
            root: new_root(s.tree.root.path, scan_or_nothing(scan)),
            ..s.tree
        }),
        s.reread(scan).agenda == opens(to_reopen(s.tree.root), Opening::Present) + s.agenda,
{
    reveal(AppView::reread);
    reveal(AppView::root_read);
}

/// A directory that is opened again is opened as it is found, and nothing else
/// is opened with it; where it is gone, nothing changes.
pub proof fn law_opening_again_is_exact(s: AppView, p: Seq<u8>, scan: Option<ScanView>)
    ensures
        s.dir_opened(p, Opening::Present, scan) == match scan {
            Some(found) => AppView {
                tree: TreeView { root: opened(s.tree.root, comps(p), found), ..s.tree },
                ..s
            },
            None => s,
        },
{
    reveal(AppView::dir_opened);
}

} // verus!
