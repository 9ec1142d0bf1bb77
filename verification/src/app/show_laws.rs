//! What holds of what is shown: what opens and closes, what each toggle
//! changes, and what is typed where.

use vstd::prelude::*;

use crate::app::keys::{edit_of, edited, help_after, help_end, Edit};
use crate::app::live::not_among;
use crate::app::move_laws::cursor_on;
use crate::app::nav::Filter;
use crate::app::state::{AppView, EffectView, Opening, StepView};
use crate::app::view::landing_row;
use crate::editor::OpenMode;
use crate::filter::LiveScanView;
use crate::keymap::{Key, KeyCode};
use crate::path::{comps, parent_text};
use crate::style::Rect;
use crate::tree::laws::{law_closing_is_exact, law_collapse_all_leaves_the_root};
use crate::tree::model::{open_at, open_dirs};
use crate::tree::rows::{flat, RowView};
use crate::ui_overlays::{InputView, OverlayView};

verus! {

/// Enter on an open directory closes it and no other; on a closed one it has it
/// opened; either way the rows are made anew with the cursor on it. On a file it
/// has the editor open that file and changes nothing in the tree.
pub proof fn law_choosing(s: AppView, i: int, u: Seq<Seq<u8>>)
    requires
        cursor_on(s, i),
    ensures
        ({
            let row = s.rows[i];
            let t = s.chosen();
            &&& row.kind.spec_is_dir() && open_at(s.tree.root, comps(row.path)) ==> {
                &&& open_at(t.tree.root, u) == (open_at(s.tree.root, u) && u != comps(row.path))
                &&& t.agenda == seq![
                    StepView::Note(row.path),
                    StepView::Overlays,
                    StepView::Rows(Some(row.path)),
                ] + s.agenda
            }
            &&& row.kind.spec_is_dir() && !open_at(s.tree.root, comps(row.path)) ==> {
                &&& t.tree == s.tree
                &&& t.agenda == seq![
                    StepView::Open { path: row.path, how: Opening::Chain },
                    StepView::Note(row.path),
                    StepView::Overlays,
                    StepView::Rows(Some(row.path)),
                ] + s.agenda
            }
            &&& !row.kind.spec_is_dir() ==> {
                &&& t.tree == s.tree
                &&& t.agenda == seq![
                    StepView::Do(EffectView::Open { path: row.path, mode: OpenMode::Open }),
                ] + s.agenda
                &&& t.current_file == Some(row.path)
                &&& t.opened.contains(comps(row.path))
            }
        }),
{
    reveal(AppView::chosen);
    let row = s.rows[i];
    law_closing_is_exact(s.tree.root, comps(row.path), u);
    assert(s.current() == Some(row));
    if row.kind.spec_is_dir() && !open_at(s.tree.root, comps(row.path)) {
        assert(s.chosen().agenda =~= seq![
            StepView::Open { path: row.path, how: Opening::Chain },
            StepView::Note(row.path),
            StepView::Overlays,
            StepView::Rows(Some(row.path)),
        ] + s.agenda);
    }
}

/// The other ways to open what is under the cursor: a file in a split of the
/// editor that the key names, or shown there without leaving, a directory not
/// at all; anything with what the system has for it.
pub proof fn law_other_ways_to_open(s: AppView, i: int, mode: OpenMode)
    requires
        cursor_on(s, i),
    ensures
        ({
            let row = s.rows[i];
            &&& row.kind.spec_is_dir() ==> s.opened_in(mode) == s && s.previewed() == s
            &&& !row.kind.spec_is_dir() ==> {
                &&& s.opened_in(mode).agenda == seq![
                    StepView::Do(EffectView::Open { path: row.path, mode }),
                ] + s.agenda
                &&& s.opened_in(mode).current_file == Some(row.path)
                &&& s.previewed().agenda == seq![StepView::Do(EffectView::Preview(row.path))]
                    + s.agenda
                &&& s.previewed().current_file == Some(row.path)
            }
            &&& s.system_opened().agenda == seq![StepView::Do(EffectView::SystemOpen(row.path))]
                + s.agenda
            &&& s.system_opened().current_file == s.current_file
        }),
{
    reveal(AppView::opened_in);
    reveal(AppView::previewed);
    reveal(AppView::system_opened);
}

/// Expanding has a closed directory opened and goes one row down from an open
/// one; a file is left alone. Collapsing closes an open directory and no other,
/// and goes to the directory that holds anything else, but not to the root.
pub proof fn law_unfolding_and_folding(s: AppView, i: int, u: Seq<Seq<u8>>)
    requires
        cursor_on(s, i),
    ensures
        ({
            let row = s.rows[i];
            let dir = row.kind.spec_is_dir();
            &&& dir && !row.expanded ==> s.unfolded().agenda.len() == s.agenda.len() + 4
                && s.unfolded().agenda[0] == (StepView::Open {
                path: row.path,
                how: Opening::Chain,
            }) && s.unfolded().tree == s.tree
            &&& dir && row.expanded ==> s.unfolded() == s.moved(true)
            &&& !dir ==> s.unfolded() == s
            &&& dir && row.expanded ==> {
                &&& open_at(s.folded().tree.root, u) == (open_at(s.tree.root, u) && u != comps(
                    row.path,
                ))
                &&& s.folded().agenda == seq![
                    StepView::Note(row.path),
                    StepView::Rows(Some(row.path)),
                ] + s.agenda
            }
            &&& !(dir && row.expanded) ==> s.folded().tree == s.tree && s.folded().agenda
                == s.agenda
            &&& !(dir && row.expanded) && parent_text(row.path) is Some ==> s.folded() == if comps(
                parent_text(row.path)->0,
            ) == comps(s.tree.root.path) {
                s
            } else {
                s.on_path(parent_text(row.path)->0)
            }
            &&& parent_text(row.path) matches Some(up) ==> s.at_parent() == s.on_path(up)
        }),
{
    reveal(AppView::unfolded);
    reveal(AppView::folded);
    reveal(AppView::at_parent);
    reveal(AppView::on_path);
    law_closing_is_exact(s.tree.root, comps(s.rows[i].path), u);
}

/// Expanding all begins at the root and makes the rows anew; collapsing all
/// leaves the root as the only open directory. The filter answers for no
/// directory after either.
pub proof fn law_all_open_or_closed(s: AppView)
    requires
        s.tree.root.is_dir(),
        s.tree.root.expanded,
    ensures
        s.all_unfolded().agenda == seq![
            StepView::OpenAll(s.tree.root.path),
            StepView::Disown,
            StepView::Overlays,
            StepView::RowsHere,
        ] + s.agenda,
        open_dirs(s.all_folded().tree.root) == set![comps(s.tree.root.path)],
        s.all_folded().agenda == seq![StepView::RowsHere] + s.agenda,
        s.all_folded().filter_auto_expanded.dom() == Set::<Seq<Seq<u8>>>::empty(),
{
    reveal(AppView::all_unfolded);
    reveal(AppView::all_folded);
    law_collapse_all_leaves_the_root(s.tree.root);
}

/// Each toggle changes what it is for in what is shown, and nothing else: the
/// first the hidden and the ignored nodes together, the others one thing each.
pub proof fn law_each_toggle_is_its_own(s: AppView)
    ensures
        ({
            let o = s.options();
            let hidden = s.filter_toggled(Filter::Hidden).options();
            let clean = s.filter_toggled(Filter::GitClean).options();
            let custom = s.filter_toggled(Filter::Custom).options();
            let buffer = s.filter_toggled(Filter::NoBuffer);
            let mark = s.filter_toggled(Filter::NoBookmark);
            &&& hidden.show_hidden == !o.show_hidden
            &&& hidden.show_ignored == !o.show_hidden
            &&& hidden.git_clean == o.git_clean && hidden.custom_active == o.custom_active
            &&& hidden.restricts == o.restricts && hidden.group_empty == o.group_empty
            &&& clean.git_clean == !o.git_clean
            &&& clean.show_hidden == o.show_hidden && clean.show_ignored == o.show_ignored
            &&& clean.custom_active == o.custom_active && clean.restricts == o.restricts
            &&& custom.custom_active == !o.custom_active
            &&& custom.show_hidden == o.show_hidden && custom.show_ignored == o.show_ignored
            &&& custom.git_clean == o.git_clean && custom.restricts == o.restricts
            &&& buffer.toggles.no_buffer == !s.toggles.no_buffer
            &&& buffer.toggles.no_bookmark == s.toggles.no_bookmark
            &&& buffer.options().show_hidden == o.show_hidden
            &&& buffer.options().git_clean == o.git_clean
            &&& mark.toggles.no_bookmark == !s.toggles.no_bookmark
            &&& mark.toggles.no_buffer == s.toggles.no_buffer
            &&& mark.options().show_hidden == o.show_hidden
            &&& mark.options().git_clean == o.git_clean
        }),
{
    reveal(AppView::filter_toggled);
}

/// Drawing chains as one row is one toggle for the rows and for what opens; when
/// it goes on, every directory that is open is opened anew with its chain.
pub proof fn law_grouping_is_one_toggle(s: AppView)
    ensures
        s.group_toggled().options().group_empty == !s.options().group_empty,
        s.group_toggled().tree.group_empty == !s.options().group_empty,
        s.group_toggled().tree.root == s.tree.root,
        s.options().group_empty ==> s.group_toggled().agenda == seq![StepView::RowsHere]
            + s.agenda,
{
    reveal(AppView::group_toggled);
}

/// A bookmark is set where there is none and taken away where there is one, on
/// the path under the cursor alone; the same holds of the selection, after which
/// the cursor goes one row down.
pub proof fn law_marking_flips_one(s: AppView, i: int, k: Seq<Seq<u8>>)
    requires
        cursor_on(s, i),
    ensures
        ({
            let p = s.rows[i].path;
            let m = s.mark_toggled();
            let v = s.select_toggled();
            &&& m.marks.contains_key(k) == if k == comps(p) {
                !s.marks.contains_key(k)
            } else {
                s.marks.contains_key(k)
            }
            &&& m.selection == s.selection
            &&& m.agenda == seq![StepView::Save, StepView::Rows(Some(p))] + s.agenda
            &&& v.selection.contains_key(k) == if k == comps(p) {
                !s.selection.contains_key(k)
            } else {
                s.selection.contains_key(k)
            }
            &&& v.marks == s.marks
            &&& v.agenda == seq![StepView::Rows(Some(p)), StepView::Down] + s.agenda
        }),
{
    reveal(AppView::mark_toggled);
    reveal(AppView::select_toggled);
}

/// Escape clears one thing at a time: the filter where there is one, and only
/// where there is none the selection; what is pending in the end.
pub proof fn law_escape_clears_in_turn(s: AppView)
    ensures
        s.live_filter is Some ==> s.cleared().live_filter is None && s.cleared().selection
            == s.selection,
        s.live_filter is None && (exists|k: Seq<Seq<u8>>| #[trigger] s.selection.contains_key(k))
            ==> s.cleared().selection.dom() == Set::<Seq<Seq<u8>>>::empty()
            && s.cleared().agenda == seq![StepView::RowsHere] + s.agenda,
        s.live_filter is None ==> s.cleared().pending.len() == 0 && s.cleared().tree == s.tree,
        s.cleared().marks == s.marks,
        s.cleared().clipboard == s.clipboard,
{
    reveal(AppView::cleared);
    reveal(AppView::filter_cleared);
    reveal(AppView::overlaid);
    if exists|k: Seq<Seq<u8>>| #[trigger] s.selection.contains_key(k) {
        let k = choose|k: Seq<Seq<u8>>| #[trigger] s.selection.contains_key(k);
        assert(s.selection.dom().contains(k));
    }
}

/// A filter starts empty and is typed: a character goes to its end, Backspace
/// takes the last one away, Enter keeps it, Escape drops it, Control-C quits.
pub proof fn law_filter_is_typed(s: AppView, q: Seq<char>, key: Key)
    requires
        s.overlay is Closed,
        s.live_editing,
        s.live_filter == Some(q),
    ensures
        s.filter_started().live_filter == Some(Seq::<char>::empty()),
        s.filter_started().live_editing,
        ({
            let t = s.keyed(key);
            let plain = !key.ctrl && !key.alt;
            &&& key.ctrl && key.code == KeyCode::Char('c') ==> t.should_quit
            &&& key.code is Esc ==> t.live_filter is None && !t.live_editing
            &&& key.code is Enter ==> t.live_filter == Some(q) && !t.live_editing
            &&& plain ==> (key.code matches KeyCode::Char(c) ==> t.live_filter == Some(q.push(c))
                && t.live_editing)
            &&& key.code is Backspace ==> t.live_editing && t.live_filter == Some(
                if q.len() > 0 {
                    q.drop_last()
                } else {
                    q
                },
            )
            &&& key.alt && key.code is Char && !key.ctrl ==> t.live_filter == Some(q)
            &&& t.marks == s.marks
        }),
{
    reveal(AppView::keyed);
    reveal(AppView::live_keyed);
    reveal(AppView::filter_started);
    reveal(AppView::filter_cleared);
    reveal(AppView::overlaid);
    reveal(AppView::filtered);
    reveal(AppView::narrowed);
}

proof fn lemma_not_among_keeps(paths: Seq<Seq<u8>>, set: Set<Seq<Seq<u8>>>, i: int)
    requires
        0 <= i < paths.len(),
        !set.contains(comps(paths[i])),
    ensures
        not_among(paths, set).contains(paths[i]),
    decreases paths.len(),
{
    let rest = not_among(paths.drop_last(), set);
    if i < paths.len() - 1 {
        assert(paths.drop_last()[i] == paths[i]);
        lemma_not_among_keeps(paths.drop_last(), set, i);
        let j = rest.index_of(paths[i]);
        assert(not_among(paths, set)[j] == paths[i]);
    } else {
        assert(not_among(paths, set)[rest.len() as int] == paths[i]);
    }
}

/// A filter opens every directory that has to be open for what it found to be
/// seen, unless there are more than five hundred of them; then it opens none,
/// and says so.
pub proof fn law_filter_opens_what_it_must(s: AppView, scan: LiveScanView, i: int)
    requires
        0 <= i < scan.expand.len(),
    ensures
        scan.expand.len() <= 500 ==> open_dirs(s.tree.root).contains(comps(scan.expand[i]))
            || s.filter_opens(scan).contains(scan.expand[i]),
        scan.expand.len() > 500 ==> s.filter_opens(scan).len() == 0 && s.narrowed(scan).status is Some,
        scan.truncated ==> s.narrowed(scan).status is Some,
        !scan.truncated && scan.expand.len() <= 500 ==> s.narrowed(scan).status is None,
{
    reveal(AppView::narrowed);
    if !open_dirs(s.tree.root).contains(comps(scan.expand[i])) {
        lemma_not_among_keeps(scan.expand, open_dirs(s.tree.root), i);
    }
}

/// A filter that was typed and not yet looked for is looked for; one that was is
/// not looked for again, and the rows are made anew; an empty one is not looked
/// for at all.
pub proof fn law_filter_is_looked_for(s: AppView, q: Seq<char>)
    requires
        s.live_filter == Some(q),
    ensures
        q.len() == 0 ==> s.filtered().agenda == seq![StepView::RowsHere] + s.agenda
            && s.filtered().live_scan is None,
        q.len() > 0 && s.live_scan is None ==> ({
            let t = s.filtered();
            &&& t.agenda.len() == s.agenda.len() + 2
            &&& t.agenda[0] matches StepView::Walk(w) && w.found.query == q && w.found.root
                == s.tree.root.path && w.found.show_hidden == s.tree.show_hidden
                && w.found.show_ignored == s.tree.show_ignored && w.found.custom_active
                == s.toggles.custom_active && w.stack == seq![s.tree.root.path] && w.walked == 0
            &&& t.agenda[1] == StepView::Filtered
        }),
        q.len() > 0 ==> (s.live_scan matches Some(scan) ==> scan.query == q && comps(scan.root)
            == comps(s.tree.root.path) && scan.show_hidden == s.tree.show_hidden
            && scan.show_ignored == s.tree.show_ignored && scan.custom_active
            == s.toggles.custom_active ==> s.filtered().live_scan == s.live_scan
            && s.filtered().agenda.len() > 0 && s.filtered().agenda[s.filtered().agenda.len()
            - s.agenda.len() - 1] == StepView::Rows(s.selected_path())),
        q.len() > 0 ==> (s.live_scan matches Some(scan) ==> scan.query != q
            ==> s.filtered().agenda.len() == s.agenda.len() + 2
            && s.filtered().agenda[0] is Walk),
{
    reveal(AppView::filtered);
    reveal(AppView::narrowed);
}

/// A walk is made with the configuration as it is: what git says, what is left
/// out, whether folders are always shown; directories that change too much are
/// stayed out of exactly where there is no repository.
pub proof fn law_walk_follows_the_configuration(s: AppView)
    ensures
        s.walk_rules().show_folders == s.config.live_filter_show_folders,
        s.walk_rules().prune == (s.git.toplevel is None),
        s.walk_rules().statuses == s.git.statuses,
        s.walk_rules().exclude.len() == s.config.exclude@.len(),
        forall|i: int|
            0 <= i < s.config.exclude@.len() ==> s.walk_rules().exclude[i]
                == #[trigger] s.config.exclude@[i]@,
{
}

/// Whether a path is one of some, inside the root, or a directory strictly below
/// the root and above one of them.
pub open spec fn leads_to(k: Seq<Seq<u8>>, root: Seq<Seq<u8>>, base: Set<Seq<Seq<u8>>>) -> bool {
    exists|b: Seq<Seq<u8>>| #[trigger]
        base.contains(b) && root.is_prefix_of(b) && (k == b || (root.is_prefix_of(k) && k != root
            && k.is_prefix_of(b)))
}

/// With only the bookmarked shown, or only the files that were open, the rows
/// are those and what leads to them; with both, what is in both. Without a
/// filter nothing else restricts them.
pub proof fn law_restrictions(s: AppView, k: Seq<Seq<u8>>)
    requires
        s.live_filter is None,
    ensures
        ({
            let root = comps(s.tree.root.path);
            let r = s.options().restricts;
            &&& !s.toggles.no_bookmark && !s.toggles.no_buffer ==> r.len() == 0
            &&& s.toggles.no_bookmark && !s.toggles.no_buffer ==> r.len() == 1 && r[0].contains(k)
                == leads_to(k, root, s.marks.dom())
            &&& !s.toggles.no_bookmark && s.toggles.no_buffer ==> r.len() == 1 && r[0].contains(k)
                == leads_to(k, root, s.opened)
            &&& s.toggles.no_bookmark && s.toggles.no_buffer ==> r.len() == 2 && r[0].contains(k)
                == leads_to(k, root, s.marks.dom()) && r[1].contains(k) == leads_to(
                k,
                root,
                s.opened,
            )
        }),
{
}

/// With a filter, what it found is what restricts the rows.
pub proof fn law_filter_restricts(s: AppView, scan: LiveScanView, q: Seq<char>)
    requires
        s.live_filter == Some(q),
        q.len() > 0,
        s.live_scan == Some(scan),
    ensures
        s.options().restricts.len() >= 1,
        s.options().restricts[0] == scan.visible,
        s.options().show_hidden == s.tree.show_hidden,
        s.options().git_clean == s.toggles.git_clean,
{
}

/// The cursor is on a row exactly where there is one.
pub proof fn law_cursor_is_on_a_row(
    rows: Seq<RowView>,
    root: Seq<Seq<u8>>,
    preserve: Option<Seq<u8>>,
    cursor: int,
)
    requires
        0 <= cursor,
        rows.len() <= usize::MAX,
    ensures
        landing_row(rows, root, preserve, cursor) is Some == (rows.len() > 0),
        landing_row(rows, root, preserve, cursor) matches Some(i) ==> i < rows.len(),
        preserve is None ==> (landing_row(rows, root, preserve, cursor) matches Some(i) ==> i
            == if cursor < rows.len() {
            cursor
        } else {
            rows.len() - 1
        }),
{
    if let Some(p) = preserve {
        lemma_near_is_a_row(rows, root, p);
    }
}

proof fn lemma_near_is_a_row(rows: Seq<RowView>, root: Seq<Seq<u8>>, t: Seq<u8>)
    ensures
        crate::app::view::near_row(rows, root, t) matches Some(i) ==> 0 <= i < rows.len(),
    decreases comps(t).len(),
{
    let p = crate::app::select::at_path(rows, comps(t));
    crate::app::find::lemma_first_from(p, 0, rows.len() as int);
    if let Some(up) = parent_text(t) {
        crate::path::lemma_parent(t);
        lemma_near_is_a_row(rows, root, up);
    }
}

/// Making the rows shows the tree as the options say, with the tree unchanged.
pub proof fn law_rows_show_the_tree(s: AppView, preserve: Option<Seq<u8>>)
    requires
        s.live_filter is None,
    ensures
        s.rows_made(preserve).rows == flat(s.tree.root, s.options()),
        s.rows_made(preserve).tree == s.tree,
        s.rows_made(preserve).agenda == s.agenda,
        s.stepped(StepView::RowsHere) == s.rows_made(s.selected_path()),
        s.stepped(StepView::Rows(preserve)) == s.rows_made(preserve),
{
    reveal(AppView::rows_made);
    reveal(AppView::stepped);
}

/// What each key does to what is typed: a character goes in before the cursor;
/// Backspace takes away the one before it and Delete the one behind it; the
/// arrows, Home and End move the cursor and keep the text.
pub proof fn law_editing(v: InputView, c: char)
    ensures
        edited(v, Edit::Type(c)).typed() == v.before.push(c) + v.after,
        edited(v, Edit::Type(c)).before == v.before.push(c),
        v.before.len() > 0 ==> edited(v, Edit::Backspace).typed() == v.before.take(
            v.before.len() - 1,
        ) + v.after && edited(v, Edit::Backspace).after == v.after,
        v.before.len() == 0 ==> edited(v, Edit::Backspace) == v,
        v.after.len() > 0 ==> edited(v, Edit::Delete).typed() == v.before + v.after.skip(1)
            && edited(v, Edit::Delete).before == v.before,
        v.after.len() == 0 ==> edited(v, Edit::Delete) == v,
        edited(v, Edit::Left).typed() == v.typed(),
        edited(v, Edit::Right).typed() == v.typed(),
        edited(v, Edit::Home).typed() == v.typed(),
        edited(v, Edit::End).typed() == v.typed(),
        v.before.len() > 0 ==> edited(v, Edit::Left).before.len() == v.before.len() - 1,
        v.after.len() > 0 ==> edited(v, Edit::Right).before.len() == v.before.len() + 1,
        edited(v, Edit::Home).before.len() == 0,
        edited(v, Edit::End).after.len() == 0,
        edited(v, Edit::Left).kind == v.kind && edited(v, Edit::Type(c)).kind == v.kind,
{
    crate::ui_overlays::law_moving_keeps_the_text(v);
    assert(Seq::<char>::empty() + v.typed() =~= v.typed());
    assert(v.typed() + Seq::<char>::empty() =~= v.typed());
    if v.before.len() > 0 {
        assert(v.before.drop_last() =~= v.before.take(v.before.len() - 1));
    }
    if v.after.len() > 0 {
        assert(v.after.drop_first() =~= v.after.skip(1));
    }
}

/// The keys that edit: a character by itself is typed, and those with Control
/// that move and delete as in a shell do that.
pub proof fn law_editing_keys(key: Key)
    ensures
        key.code matches KeyCode::Char(c) ==> {
            &&& !key.ctrl && !key.alt ==> edit_of(key) == Edit::Type(c)
            &&& key.ctrl && c == 'b' ==> edit_of(key) == Edit::Left
            &&& key.ctrl && c == 'f' ==> edit_of(key) == Edit::Right
            &&& key.ctrl && c == 'a' ==> edit_of(key) == Edit::Home
            &&& key.ctrl && c == 'e' ==> edit_of(key) == Edit::End
            &&& key.ctrl && c == 'd' ==> edit_of(key) == Edit::Delete
            &&& key.ctrl || key.alt ==> !(edit_of(key) is Type)
        },
        key.code is Backspace ==> edit_of(key) == Edit::Backspace,
        key.code is Delete ==> edit_of(key) == Edit::Delete,
        key.code is Left ==> edit_of(key) == Edit::Left,
        key.code is Right ==> edit_of(key) == Edit::Right,
        key.code is Home ==> edit_of(key) == Edit::Home,
        key.code is End ==> edit_of(key) == Edit::End,
        key.code is Tab || key.code is Up || key.code is Down || key.code is PageUp
            || key.code is PageDown || key.code is F || key.code is Other ==> edit_of(key)
            == Edit::Nothing,
{
}

/// While something is typed, Escape drops it and does nothing else, Enter hands
/// it in, and any other key edits it.
pub proof fn law_prompt_keys(s: AppView, v: InputView, key: Key)
    requires
        s.overlay == OverlayView::Input(v),
    ensures
        key.code is Esc ==> s.keyed(key).overlay is Closed && s.keyed(key).agenda == s.agenda
            && s.keyed(key).tree == s.tree && s.keyed(key).list == s.list,
        key.code is Enter ==> s.keyed(key) == (AppView {
            overlay: OverlayView::Closed,
            last_input: Some(s.now),
            ..s
        }).submitted(v),
        !(key.code is Esc) && !(key.code is Enter) ==> s.keyed(key).overlay == OverlayView::Input(
            edited(v, edit_of(key)),
        ) && s.keyed(key).agenda == s.agenda,
{
    reveal(AppView::keyed);
    reveal(AppView::input_keyed);
}

/// A popup with what is known of a file goes away with any key.
pub proof fn law_info_goes_away(s: AppView, key: Key)
    requires
        s.overlay is Info,
    ensures
        s.keyed(key).overlay is Closed,
        s.keyed(key).agenda == s.agenda,
        s.keyed(key).list == s.list,
{
    reveal(AppView::keyed);
}

/// The help scrolls by a line or a page, never past its end or its beginning,
/// and goes to either; keys that do not scroll close it.
pub proof fn law_help_scrolls(scroll: u16, area: Rect)
    requires
        scroll <= help_end(area),
    ensures
        help_after(scroll, area, KeyCode::Char('j')) == help_after(scroll, area, KeyCode::Down),
        help_after(scroll, area, KeyCode::Char('k')) == help_after(scroll, area, KeyCode::Up),
        help_after(scroll, area, KeyCode::Down) == Some(
            if scroll < help_end(area) {
                (scroll + 1) as u16
            } else {
                scroll
            },
        ),
        help_after(scroll, area, KeyCode::Up) == Some(
            if scroll > 0 {
                (scroll - 1) as u16
            } else {
                0
            },
        ),
        help_after(scroll, area, KeyCode::PageDown) matches Some(n) && scroll <= n <= help_end(
            area,
        ) && (n == help_end(area) || n - scroll >= area.height - 1),
        help_after(scroll, area, KeyCode::PageUp) matches Some(n) && n <= scroll && (n == 0
            || scroll - n >= area.height - 1),
        help_after(scroll, area, KeyCode::Char('d')) == help_after(scroll, area, KeyCode::PageDown),
        help_after(scroll, area, KeyCode::Char(' ')) == help_after(scroll, area, KeyCode::PageDown),
        help_after(scroll, area, KeyCode::Char('u')) == help_after(scroll, area, KeyCode::PageUp),
        help_after(scroll, area, KeyCode::Char('g')) == Some(0u16),
        help_after(scroll, area, KeyCode::Home) == Some(0u16),
        help_after(scroll, area, KeyCode::Char('G')) == Some(help_end(area)),
        help_after(scroll, area, KeyCode::End) == Some(help_end(area)),
        help_after(scroll, area, KeyCode::Esc) is None,
        help_after(scroll, area, KeyCode::Enter) is None,
        help_after(scroll, area, KeyCode::Char('q')) is None,
        help_after(scroll, area, KeyCode::Char('?')) is None,
{
}

} // verus!
