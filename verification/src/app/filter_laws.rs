//! What holds of the filter while it is typed, and of what else changes what is
//! known of the tree.

use vstd::prelude::*;

use crate::app::keys::help_after;
use crate::app::laws::well_written;
use crate::app::live::claimed;
use crate::app::run::asked;
use crate::app::state::{AppView, AskView, Opening, ReplyView, StepView};
use crate::clipboard::holds_path;
use crate::diagnostics::{reported, Counts, Mode};
use crate::filter::{after_dir, LiveScanView, WalkEntryView, WalkView};
use crate::ipc::DiagnosticsUpdate;
use crate::keymap::Key;
use crate::path::{comps, lemma_parent, parent_text, Path};
use crate::paths::listed;
use crate::tree::model::{chain_from, dirs_among, dirs_below, open_dirs, opened, with_open};
use crate::tree::laws::{law_edit_is_found, lemma_found_comps};
use crate::tree::model::{refreshed_node, ScanView, TreeView};
use crate::tree::node::{found, NodeView};
use crate::tree::reload_laws::lemma_texts;
use crate::tree::rows::RowView;
use crate::ui_overlays::{HelpState, OverlayView};

verus! {

/// What was found for one question does not answer another: with other text, for
/// another root or with another toggle it is looked for anew.
pub proof fn law_other_questions_are_asked_anew(s: AppView, q: Seq<char>, scan: LiveScanView)
    requires
        s.live_filter == Some(q),
        q.len() > 0,
        s.live_scan == Some(scan),
        scan.query != q || comps(scan.root) != comps(s.tree.root.path) || scan.show_hidden
            != s.tree.show_hidden || scan.show_ignored != s.tree.show_ignored || scan.custom_active
            != s.toggles.custom_active,
    ensures
        s.filtered().agenda.len() == s.agenda.len() + 2,
        s.filtered().agenda[0] matches StepView::Walk(w) && w.found.query == q && w.found.root
            == s.tree.root.path && w.found.show_hidden == s.tree.show_hidden
            && w.found.show_ignored == s.tree.show_ignored && w.found.custom_active
            == s.toggles.custom_active && w.found.visible == Set::<Seq<Seq<u8>>>::empty()
            && w.stack == seq![s.tree.root.path],
        s.filtered().agenda[1] == StepView::Filtered,
{
    reveal(AppView::filtered);
}

/// The rows wait for what a filter finds: where that is not known yet it is
/// looked for first, and the rows are made afterwards.
pub proof fn law_rows_wait_for_the_walk(s: AppView, q: Seq<char>, preserve: Option<Seq<u8>>)
    requires
        s.live_filter == Some(q),
        q.len() > 0,
        s.live_scan is None,
    ensures
        s.rows_made(preserve).agenda.len() == s.agenda.len() + 2,
        s.rows_made(preserve).agenda[0] matches StepView::Walk(w) && w.found.query == q
            && w.found.root == s.tree.root.path,
        s.rows_made(preserve).agenda[1] == StepView::Rows(preserve),
        s.rows_made(preserve).rows == s.rows,
{
    reveal(AppView::rows_made);
}

/// A walk reads the directory on top of its stack, and goes on with what it held
/// until nothing is left; what it found is kept.
pub proof fn law_walk_goes_on(s: AppView, w: WalkView, es: Option<Seq<WalkEntryView>>)
    ensures
        asked(s, StepView::Walk(w)) == if w.stack.len() > 0 {
            Some(AskView::Walk(w.stack.last()))
        } else {
            None
        },
        s.answered(StepView::Walk(w), ReplyView::Entries(es)).agenda == seq![
            StepView::Walk(after_dir(w, es, s.walk_rules())),
        ] + s.agenda,
        s.stepped(StepView::Walk(w)).live_scan matches Some(f) && f.visible == w.found.visible
            && f.query == w.found.query && f.truncated == w.found.truncated,
{
    reveal(AppView::answered);
    reveal(AppView::walked_on);
    reveal(AppView::stepped);
    reveal(AppView::stepped_on);
    reveal(AppView::walked);
}

proof fn lemma_claimed(m: Map<Seq<Seq<u8>>, Seq<u8>>, dirs: Seq<Seq<u8>>, k: Seq<Seq<u8>>)
    ensures
        claimed(m, dirs).contains_key(k) == (m.contains_key(k) || holds_path(dirs, k)),
    decreases dirs.len(),
{
    if dirs.len() > 0 {
        let init = dirs.drop_last();
        lemma_claimed(m, init, k);
        if holds_path(init, k) {
            let i = choose|i: int| 0 <= i < init.len() && comps(#[trigger] init[i]) == k;
            assert(comps(dirs[i]) == k);
        }
        if holds_path(dirs, k) {
            let i = choose|i: int| 0 <= i < dirs.len() && comps(#[trigger] dirs[i]) == k;
            if i < init.len() {
                assert(comps(init[i]) == k);
            }
        }
        if comps(dirs.last()) == k {
            assert(comps(dirs[dirs.len() - 1]) == k);
        }
    }
}

/// Narrowing the view opens directories first, then lays what is known over
/// them, then makes the rows anew with the cursor where it was; the filter
/// answers for what it opened, and for what it answered for before.
pub proof fn law_narrowing(s: AppView, scan: LiveScanView, k: Seq<Seq<u8>>)
    requires
        0 < scan.expand.len() <= 500,
    ensures
        ({
            let t = s.narrowed(scan);
            let dirs = s.filter_opens(scan);
            let n = dirs.len() as int;
            &&& t.agenda.len() == n + 2 + s.agenda.len()
            &&& forall|i: int|
                0 <= i < n ==> t.agenda[i] == (StepView::Open {
                    path: #[trigger] dirs[i],
                    how: Opening::Chain,
                })
            &&& t.agenda[n] == StepView::Overlays
            &&& t.agenda[n + 1] == StepView::Rows(s.selected_path())
            &&& t.filter_auto_expanded.contains_key(k) == (s.filter_auto_expanded.contains_key(k)
                || holds_path(dirs, k))
            &&& t.tree == s.tree
        }),
{
    reveal(AppView::narrowed);
    lemma_claimed(s.filter_auto_expanded, s.filter_opens(scan), k);
}

/// When the user opens or closes a directory, the filter answers for it no
/// longer, nor for any above it inside the root; for the others it still does.
pub proof fn law_user_answers_from_now_on(s: AppView, p: Seq<u8>, k: Seq<Seq<u8>>)
    requires
        k.len() > 0,
    ensures
        s.live_filter is Some ==> s.stepped(
            StepView::Note(p),
        ).filter_auto_expanded.contains_key(k) == (s.filter_auto_expanded.contains_key(k) && k
            != comps(p) && !(comps(s.tree.root.path).is_prefix_of(k) && k.is_prefix_of(comps(p)))),
        s.live_filter is None ==> s.stepped(StepView::Note(p)) == s,
{
    reveal(AppView::stepped);
    reveal(AppView::user_expanded);
}

/// When chains begin to be drawn as one, every open directory, and no other, is
/// opened anew with its chain; then the rows are made.
pub proof fn law_grouping_opens_chains(s: AppView, u: Seq<Seq<u8>>)
    requires
        !s.toggles.group_empty,
    ensures
        ({
            let t = s.group_toggled();
            let n = t.agenda.len() - s.agenda.len() - 2;
            &&& n >= 0
            &&& t.agenda[n] == StepView::Overlays
            &&& t.agenda[n + 1] == StepView::RowsHere
            &&& forall|i: int|
                0 <= i < n ==> ((#[trigger] t.agenda[i]) matches StepView::Open { path, how } && how
                    == Opening::Chain)
            &&& (exists|i: int|
                0 <= i < n && comps((#[trigger] t.agenda[i])->Open_path) == u) == open_dirs(
                s.tree.root,
            ).contains(u)
        }),
{
    reveal(AppView::group_toggled);
    let m = with_open(s.tree.root, Map::empty());
    let dirs = listed(m);
    let t = s.group_toggled();
    let n = t.agenda.len() - s.agenda.len() - 2;
    lemma_texts(s.tree.root, Map::empty());
    assert(well_written(m));
    crate::app::file_laws::law_listed_is_exact(m, u);
    assert(n == dirs.len());
    assert forall|i: int| 0 <= i < n implies t.agenda[i] == (StepView::Open {
        path: #[trigger] dirs[i],
        how: Opening::Chain,
    }) by {}
    assert forall|i: int| 0 <= i < n implies ((#[trigger] t.agenda[i]) matches StepView::Open {
        path,
        how,
    } && how == Opening::Chain) by {
        assert(t.agenda[i] == (StepView::Open { path: dirs[i], how: Opening::Chain }));
    }
    if exists|i: int| 0 <= i < n && comps((#[trigger] t.agenda[i])->Open_path) == u {
        let i = choose|i: int| 0 <= i < n && comps((#[trigger] t.agenda[i])->Open_path) == u;
        assert(t.agenda[i] == (StepView::Open { path: dirs[i], how: Opening::Chain }));
        assert(comps(dirs[i]) == u);
        assert(holds_path(dirs, u));
    }
    if holds_path(dirs, u) {
        let i = choose|i: int| 0 <= i < dirs.len() && comps(#[trigger] dirs[i]) == u;
        assert(t.agenda[i] == (StepView::Open { path: dirs[i], how: Opening::Chain }));
    }
}

/// A report on a file is noted and laid over the tree where it changes
/// something; where diagnostics are switched off it is dropped.
pub proof fn law_reports_are_noted(s: AppView, u: DiagnosticsUpdate, k: Seq<Seq<u8>>)
    ensures
        s.diagnostics_mode == Mode::Off ==> s.file_diagnosed(u) == s,
        s.diagnostics_mode != Mode::Off ==> {
            let t = s.file_diagnosed(u);
            &&& u.counts.errors > 0 || u.counts.warnings > 0 ==> t.diagnostics.contains_key(
                u.path.comps(),
            ) && t.diagnostics[u.path.comps()] == u.counts
            &&& u.counts.errors == 0 && u.counts.warnings == 0 ==> !t.diagnostics.contains_key(
                u.path.comps(),
            )
            &&& k != u.path.comps() ==> t.diagnostics.contains_key(k)
                == s.diagnostics.contains_key(k)
            &&& t.diagnostics == s.diagnostics ==> t.agenda == s.agenda
            &&& t.diagnostics != s.diagnostics ==> t.agenda.len() == s.agenda.len() + 2
                && t.agenda[0] == StepView::Overlays && t.agenda[1] == if s.live_filter is Some {
                StepView::Filtered
            } else {
                StepView::RowsHere
            }
        },
{
    reveal(AppView::file_diagnosed);
}

/// A list of reports replaces all that was known, if it is newer than the last
/// one from its sender; otherwise nothing changes.
pub proof fn law_lists_replace_all(
    s: AppView,
    sender: Seq<char>,
    seq: u64,
    files: Seq<(Path, Counts)>,
    from: Seq<char>,
    at: u64,
)
    ensures
        s.diagnostics_mode == Mode::Off ==> s.all_diagnosed(sender, seq, files) == s,
        s.diagnostics_mode != Mode::Off && (s.gate is None || (s.gate == Some((from, at)) && (from
            != sender || seq > at))) ==> s.all_diagnosed(sender, seq, files).diagnostics
            == reported(files) && s.all_diagnosed(sender, seq, files).gate == Some((sender, seq)),
        s.gate == Some((sender, at)) && seq <= at ==> s.all_diagnosed(sender, seq, files) == s,
{
}

/// In a list of reports the last one on a file counts, and one without errors
/// and warnings takes the file out.
pub proof fn law_last_report_counts(list: Seq<(Path, Counts)>, p: Path, c: Counts, k: Seq<Seq<u8>>)
    ensures
        ({
            let all = reported(list.push((p, c)));
            &&& c.errors > 0 || c.warnings > 0 ==> all.contains_key(p.comps()) && all[p.comps()]
                == c
            &&& c.errors == 0 && c.warnings == 0 ==> !all.contains_key(p.comps())
            &&& k != p.comps() ==> all.contains_key(k) == reported(list).contains_key(k) && (
            all.contains_key(k) ==> all[k] == reported(list)[k])
        }),
        reported(Seq::empty()).dom() == Set::<Seq<Seq<u8>>>::empty(),
{
    assert(list.push((p, c)).drop_last() =~= list);
}

proof fn lemma_dirs_among(s: Seq<NodeView>, p: Seq<u8>)
    ensures
        dirs_among(s).contains(p) == exists|i: int|
            0 <= i < s.len() && (#[trigger] s[i]).is_dir() && s[i].path == p,
    decreases s.len(),
{
    if s.len() > 0 {
        let init = s.drop_last();
        let before = dirs_among(init);
        let all = dirs_among(s);
        lemma_dirs_among(init, p);
        if before.contains(p) {
            let i = before.index_of(p);
            assert(all[i] == p);
            let j = choose|j: int|
                0 <= j < init.len() && (#[trigger] init[j]).is_dir() && init[j].path == p;
            assert(s[j] == init[j]);
        }
        if s.last().is_dir() && s.last().path == p {
            assert(all[before.len() as int] == p);
            assert(s[s.len() - 1] == s.last());
        }
        if all.contains(p) {
            let i = all.index_of(p);
            if i < before.len() {
                assert(before[i] == p);
            }
        }
        if exists|i: int| 0 <= i < s.len() && (#[trigger] s[i]).is_dir() && s[i].path == p {
            let i = choose|i: int| 0 <= i < s.len() && (#[trigger] s[i]).is_dir() && s[i].path == p;
            if i < init.len() {
                assert(init[i] == s[i]);
            }
        }
    }
}

/// Opening all below a directory opens it and goes on with each directory in it,
/// the first of them next.
#[verifier::rlimit(60)]
pub proof fn law_opening_all_goes_down(s: AppView, p: Seq<u8>, scan: Option<ScanView>, q: Seq<u8>)
    requires
        scan is Some,
    ensures
        ({
            let t = s.answered(StepView::OpenAll(p), ReplyView::Scan(scan));
            let root = opened(s.tree.root, comps(p), scan->0);
            let dirs = dirs_below(root, comps(p));
            &&& t.tree == (TreeView { root, ..s.tree })
            &&& t.agenda.len() == dirs.len() + s.agenda.len()
            &&& forall|i: int|
                0 <= i < dirs.len() ==> #[trigger] t.agenda[i] == StepView::OpenAll(
                    dirs[dirs.len() - 1 - i],
                )
            &&& crate::tree::node::found(root, comps(p)) matches Some(n) ==> dirs.contains(q)
                == exists|i: int|
                0 <= i < n.children.len() && (#[trigger] n.children[i]).is_dir()
                    && n.children[i].path == q
        }),
{
    reveal(AppView::answered);
    reveal(AppView::all_opened);
    let root = opened(s.tree.root, comps(p), scan->0);
    if let Some(n) = crate::tree::node::found(root, comps(p)) {
        lemma_dirs_among(n.children, q);
    }
}

/// Opening a directory opens it; where chains are drawn as one and it is the
/// first of one, the next of the chain is opened after it, and otherwise nothing
/// else is.
#[verifier::rlimit(60)]
pub proof fn law_opening_goes_along_chains(s: AppView, p: Seq<u8>, scan: ScanView)
    ensures
        ({
            let root = opened(s.tree.root, comps(p), scan);
            let next = chain_from(root, comps(p), s.tree.show_hidden, s.tree.show_ignored);
            let single = s.answered(
                StepView::Open { path: p, how: Opening::Single },
                ReplyView::Scan(Some(scan)),
            );
            let chain = s.answered(
                StepView::Open { path: p, how: Opening::Chain },
                ReplyView::Scan(Some(scan)),
            );
            &&& single.tree.root == root && single.agenda == s.agenda
            &&& chain.tree.root == root
            &&& !s.tree.group_empty || next is None ==> chain.agenda == s.agenda
            &&& s.tree.group_empty ==> (next matches Some(q) ==> chain.agenda == seq![
                StepView::Open { path: q, how: Opening::Chain },
            ] + s.agenda)
        }),
{
    reveal(AppView::answered);
    reveal(AppView::dir_opened);
}

/// Where the path that the cursor was on has no row any more, the cursor goes to
/// the directory that held it, if that is inside the root and has one.
pub proof fn law_cursor_goes_up(
    rows: Seq<RowView>,
    root: Seq<Seq<u8>>,
    p: Seq<u8>,
    cursor: int,
    j: int,
)
    requires
        rows.len() <= usize::MAX,
        forall|i: int| 0 <= i < rows.len() ==> comps((#[trigger] rows[i]).path) != comps(p),
        parent_text(p) is Some,
        root.is_prefix_of(comps(parent_text(p)->0)),
        0 <= j < rows.len(),
        comps(rows[j].path) == comps(parent_text(p)->0),
    ensures
        crate::app::view::landing_row(rows, root, Some(p), cursor) matches Some(i) && i < rows.len()
            && comps(rows[i as int].path) == comps(parent_text(p)->0),
{
    let up = parent_text(p)->0;
    let a = crate::app::select::at_path(rows, comps(p));
    let b = crate::app::select::at_path(rows, comps(up));
    let n = rows.len() as int;
    crate::app::find::lemma_first_from(a, 0, n);
    crate::app::find::lemma_first_from(b, 0, n);
    lemma_parent(p);
    let i = crate::app::find::first_from(a, 0, n);
    if i < n {
        assert(a(i));
        assert(comps(rows[i].path) == comps(p));
    }
    assert(b(j));
    let k = crate::app::find::first_from(b, 0, n);
    assert(b(k));
    assert(crate::app::view::near_row(rows, root, up) == Some(k));
    assert(crate::app::view::near_row(rows, root, p) == Some(k));
}

/// Clearing the filter forgets it, what it found and what it opened, and makes
/// the rows anew.
pub proof fn law_cleared_filter_is_forgotten(s: AppView)
    ensures
        s.unfiltered().live_filter is None,
        !s.unfiltered().live_editing,
        s.unfiltered().live_scan is None,
        s.unfiltered().filter_auto_expanded.dom() == Set::<Seq<Seq<u8>>>::empty(),
        s.unfiltered().agenda == seq![StepView::RowsHere] + s.agenda,
        s.unfiltered().selection == s.selection,
        s.unfiltered().tree.show_hidden == s.tree.show_hidden,
{
    reveal(AppView::filter_cleared);
    reveal(AppView::overlaid);
}

/// A directory that is read again is what reading it again makes of it, and
/// every other one stays as it is.
pub proof fn law_refresh_is_exact(s: AppView, p: Seq<u8>, scan: ScanView, n: NodeView)
    requires
        found(s.tree.root, comps(p)) == Some(n),
    ensures
        found(s.answered(StepView::Refresh(p), ReplyView::Scan(Some(scan))).tree.root, comps(p))
            == Some(refreshed_node(n, scan)),
        s.answered(StepView::Refresh(p), ReplyView::Scan(Some(scan))).tree.show_hidden
            == s.tree.show_hidden,
{
    reveal(AppView::answered);
    reveal(AppView::dir_refreshed);
    lemma_found_comps(s.tree.root, comps(p));
    law_edit_is_found(s.tree.root, comps(p), refreshed_node(n, scan));
}

/// While a filter is typed, keys that neither type nor end it do nothing.
#[verifier::rlimit(60)]
pub proof fn law_other_keys_leave_the_filter(s: AppView, key: Key)
    requires
        s.overlay is Closed,
        s.live_editing,
        key.code is Down || key.code is Up || key.code is Left || key.code is Right
            || key.code is Tab || key.code is Delete || key.code is Home || key.code is End
            || key.code is Other,
    ensures
        s.keyed(key).live_filter == s.live_filter,
        s.keyed(key).live_editing,
        s.keyed(key).agenda == s.agenda,
        s.keyed(key).list == s.list,
        s.keyed(key).tree == s.tree,
{
    reveal(AppView::keyed);
    reveal(AppView::live_keyed);
}

/// Keys over the help do to it what they are for, and nothing else.
#[verifier::rlimit(60)]
pub proof fn law_help_keys(s: AppView, h: HelpState, key: Key)
    requires
        s.overlay == OverlayView::Help(h),
    ensures
        help_after(h.scroll, s.list_area, key.code) matches Some(n) ==> s.keyed(key).overlay
            == OverlayView::Help(HelpState { scroll: n }),
        help_after(h.scroll, s.list_area, key.code) is None ==> s.keyed(key).overlay is Closed,
        s.keyed(key).agenda == s.agenda,
        s.keyed(key).list == s.list,
{
    reveal(AppView::keyed);
    reveal(AppView::help_keyed);
}

/// Where a filter opens nothing, because nothing has to be opened or because it
/// would be too much, the rows are all that is made anew.
pub proof fn law_narrowing_without_opening(s: AppView, scan: LiveScanView)
    requires
        scan.expand.len() == 0 || scan.expand.len() > 500,
    ensures
        s.narrowed(scan).agenda == seq![StepView::Rows(s.selected_path())] + s.agenda,
        s.narrowed(scan).tree == s.tree,
{
    reveal(AppView::narrowed);
    assert(s.narrowed(scan).agenda =~= seq![StepView::Rows(s.selected_path())] + s.agenda);
}

/// Where neither the path that the cursor was on nor any directory above it has
/// a row, the cursor keeps its place, or goes to the last row where there are
/// fewer.
pub proof fn law_cursor_keeps_its_place(
    rows: Seq<RowView>,
    root: Seq<Seq<u8>>,
    p: Seq<u8>,
    cursor: int,
)
    requires
        0 < rows.len() <= usize::MAX,
        0 <= cursor,
        forall|i: int|
            0 <= i < rows.len() ==> !comps((#[trigger] rows[i]).path).is_prefix_of(comps(p)),
    ensures
        crate::app::view::landing_row(rows, root, Some(p), cursor) == Some(
            if cursor < rows.len() {
                cursor as usize
            } else {
                (rows.len() - 1) as usize
            },
        ),
{
    lemma_nothing_near(rows, root, p, comps(p));
}

proof fn lemma_nothing_near(
    rows: Seq<RowView>,
    root: Seq<Seq<u8>>,
    t: Seq<u8>,
    k: Seq<Seq<u8>>,
)
    requires
        comps(t).is_prefix_of(k),
        forall|i: int| 0 <= i < rows.len() ==> !comps((#[trigger] rows[i]).path).is_prefix_of(k),
    ensures
        crate::app::view::near_row(rows, root, t) is None,
    decreases comps(t).len(),
{
    let a = crate::app::select::at_path(rows, comps(t));
    let n = rows.len() as int;
    crate::app::find::lemma_first_from(a, 0, n);
    let i = crate::app::find::first_from(a, 0, n);
    if i < n {
        assert(a(i));
        assert(comps(rows[i].path) == comps(t));
    }
    if let Some(up) = parent_text(t) {
        lemma_parent(t);
        assert(comps(up) =~= k.subrange(0, comps(up).len() as int));
        lemma_nothing_near(rows, root, up, k);
    }
}

} // verus!
