//! What holds of the work on files: what is asked for is done, to what was
//! asked and to nothing else.

use vstd::prelude::*;

use crate::app::files::{confirm_for, confirmed_paths, confirmed_trash, RenameKind};
use crate::app::key_laws::{law_copying_actions, law_filing_actions, law_marking_actions};
use crate::app::laws::well_written;
use crate::app::names::{dir_prefix, is_absolute_text, typed_from, typed_path};
use crate::app::run::asked;
use crate::app::state::{AppView, AskView, EffectView, ReplyView, StepView, Transfer};
use crate::clipboard::{holds_path, ClipOp};
use crate::keymap::{Action, Key, KeyCode};
use crate::path::{comps, is_name, join_text, lemma_comps, lemma_join_name, lemma_resolved_text};
use crate::path::{parent_text, resolved};
use crate::paths::{lemma_ordered_holds, listed, ordered};
use crate::text::{lossy_text, trimmed};
use crate::tree::ops::{law_paste_never_replaces, name_text, paste_try, pasted_as};
use crate::tree::sort::name_parts;
use crate::ui_overlays::{ConfirmView, InputView, KindView, OverlayView};

verus! {

/// Whether a plan comes to removing some paths, each once and in order, all of
/// them into the trash or all for good, before what was planned already.
pub open spec fn removes(
    plan: Seq<StepView>,
    before: Seq<StepView>,
    paths: Seq<Seq<u8>>,
    trash: bool,
) -> bool {
    &&& plan.len() == paths.len() + 1 + before.len()
    &&& forall|i: int|
        0 <= i < paths.len() ==> plan[i] == (StepView::Remove { path: #[trigger] paths[i], trash })
    &&& plan[paths.len() as int] == StepView::Removed
    &&& plan.skip(paths.len() as int + 1) == before
}

/// Some paths as a list: each of them is in it once.
pub proof fn law_listed_is_exact(m: Map<Seq<Seq<u8>>, Seq<u8>>, u: Seq<Seq<u8>>)
    requires
        well_written(m),
    ensures
        holds_path(listed(m), u) == m.contains_key(u),
        forall|i: int, j: int|
            0 <= i < j < listed(m).len() ==> comps(#[trigger] listed(m)[i]) != comps(
                #[trigger] listed(m)[j],
            ),
{
    let ks = ordered(m.dom());
    let ts = listed(m);
    lemma_ordered_holds(m.dom());
    assert forall|i: int| 0 <= i < ts.len() implies comps(#[trigger] ts[i]) == ks[i] by {
        assert(ks.contains(ks[i]));
        assert(m.contains_key(ks[i]));
    }
    if m.contains_key(u) {
        assert(ks.contains(u));
        let i = ks.index_of(u);
        assert(comps(ts[i]) == u);
    }
    if holds_path(ts, u) {
        let i = choose|i: int| 0 <= i < ts.len() && comps(#[trigger] ts[i]) == u;
        assert(ks.contains(ks[i]));
    }
    assert forall|i: int, j: int| 0 <= i < j < ts.len() implies comps(#[trigger] ts[i]) != comps(
        #[trigger] ts[j],
    ) by {
        assert(crate::paths::path_order(ks[i], ks[j]) < 0);
        crate::paths::lemma_path_order(ks[i], ks[j]);
    }
}

/// What is asked for as trash is only put into the trash, and what is asked for
/// as removal is removed: confirming plans, for exactly the paths that were
/// asked about, removals of that kind.
pub proof fn law_confirmed_is_what_was_asked(s: AppView, targets: Seq<Seq<u8>>, trash: bool)
    ensures
        removes(
            s.confirmed(confirm_for(targets, trash).kind).agenda,
            s.agenda,
            targets,
            trash,
        ),
        s.confirmed(confirm_for(targets, trash).kind).marks == s.marks,
        s.confirmed(confirm_for(targets, trash).kind).selection == s.selection,
        s.confirmed(confirm_for(targets, trash).kind).tree == s.tree,
{
    reveal(AppView::confirmed);
    let t = s.confirmed(confirm_for(targets, trash).kind);
    if targets.len() == 1 {
        assert(targets =~= seq![targets[0]]);
    }
    assert(t.agenda.skip(targets.len() as int + 1) =~= s.agenda);
}

/// A path that goes to the trash is never removed for good, and the other way
/// round, when its turn comes.
pub proof fn law_trash_is_trash(s: AppView, p: Seq<u8>)
    ensures
        asked(s, StepView::Remove { path: p, trash: true }) == Some(AskView::Trash(p)),
        asked(s, StepView::Remove { path: p, trash: false }) == Some(AskView::Remove(p)),
{
}

/// The paths that an action is about: the selected ones, or the one under the
/// cursor where none is; the bookmarked ones for the actions on bookmarks.
pub open spec fn concerned(s: AppView, bookmarks: bool) -> Seq<Seq<u8>> {
    if bookmarks {
        listed(s.marks)
    } else if exists|k: Seq<Seq<u8>>| #[trigger] s.selection.contains_key(k) {
        listed(s.selection)
    } else {
        match s.list.selected {
            Some(i) => if i < s.rows.len() {
                seq![s.rows[i as int].path]
            } else {
                Seq::empty()
            },
            None => Seq::empty(),
        }
    }
}

proof fn lemma_targets(s: AppView)
    ensures
        s.targets() == concerned(s, false),
{
    if exists|k: Seq<Seq<u8>>| #[trigger] s.selection.contains_key(k) {
        let k = choose|k: Seq<Seq<u8>>| #[trigger] s.selection.contains_key(k);
        assert(s.selection.dom().contains(k));
    } else {
        assert forall|k: Seq<Seq<u8>>| !s.selection.dom().contains(k) by {
            assert(!s.selection.contains_key(k));
        }
        assert(s.selection.dom() =~= Set::empty());
    }
}

/// The action that removes.
pub open spec fn removal(trash: bool, bookmarks: bool) -> Action {
    if bookmarks {
        if trash {
            Action::BulkTrash
        } else {
            Action::BulkDelete
        }
    } else {
        if trash {
            Action::Trash
        } else {
            Action::Delete
        }
    }
}

proof fn lemma_removal(s: AppView, trash: bool, bookmarks: bool)
    ensures
        s.dispatched(removal(trash, bookmarks)) == if bookmarks {
            s.hushed().removing_marked(trash)
        } else {
            s.hushed().delete_started(trash)
        },
{
    if bookmarks {
        law_marking_actions(s);
    } else {
        law_filing_actions(s);
    }
}

/// A question about some paths, and what answers it.
spec fn asks_about(v: ConfirmView, paths: Seq<Seq<u8>>, trash: bool) -> bool {
    &&& confirmed_paths(v.kind) == paths
    &&& confirmed_trash(v.kind) == trash
}

proof fn lemma_asks(s: AppView, trash: bool, bookmarks: bool)
    ensures
        ({
            let t = s.dispatched(removal(trash, bookmarks));
            let paths = concerned(s, bookmarks);
            &&& t.agenda == s.agenda
            &&& t.tree == s.tree
            &&& t.marks == s.marks
            &&& t.selection == s.selection
            &&& paths.len() == 0 ==> t.overlay == s.overlay
            &&& paths.len() > 0 ==> (t.overlay matches OverlayView::Confirm(v) && asks_about(
                v,
                paths,
                trash,
            ))
        }),
{
    lemma_removal(s, trash, bookmarks);
    let h = s.hushed();
    let paths = concerned(s, bookmarks);
    if paths.len() == 1 {
        assert(paths =~= seq![paths[0]]);
    }
    if bookmarks {
        reveal(AppView::removing_marked);
    } else {
        lemma_targets(h);
        assert(concerned(h, false) == concerned(s, false));
        reveal(AppView::delete_started);
    }
}

proof fn lemma_answers(t: AppView, v: ConfirmView, key: Key, paths: Seq<Seq<u8>>, trash: bool)
    requires
        t.overlay == OverlayView::Confirm(v),
        asks_about(v, paths, trash),
    ensures
        key.code == KeyCode::Char('y') || key.code == KeyCode::Char('Y') ==> removes(
            t.keyed(key).agenda,
            t.agenda,
            paths,
            trash,
        ) && t.keyed(key).overlay is Closed,
        key.code == KeyCode::Char('n') || key.code == KeyCode::Char('N') || key.code
            == KeyCode::Esc ==> t.keyed(key).agenda == t.agenda && t.keyed(key).overlay is Closed,
        !(key.code == KeyCode::Char('y') || key.code == KeyCode::Char('Y') || key.code
            == KeyCode::Char('n') || key.code == KeyCode::Char('N') || key.code == KeyCode::Esc)
            ==> t.keyed(key).agenda == t.agenda && t.keyed(key).overlay == t.overlay,
{
    reveal(AppView::keyed);
    reveal(AppView::confirm_keyed);
    if key.code == KeyCode::Char('y') || key.code == KeyCode::Char('Y') {
        reveal(AppView::confirmed);
        assert(t.keyed(key).agenda.skip(paths.len() as int + 1) =~= t.agenda);
    }
}

/// Each of the four actions that remove asks first, and the answer decides: with
/// `y` exactly the paths that the action is about are removed, into the trash
/// for the two that say so and for good for the two others; with `n` or Escape
/// nothing is; no other key does anything.
pub proof fn law_removing_asks_first(s: AppView, trash: bool, bookmarks: bool, key: Key)
    ensures
        ({
            let t = s.dispatched(removal(trash, bookmarks));
            let paths = concerned(s, bookmarks);
            &&& t.agenda == s.agenda
            &&& t.tree == s.tree
            &&& t.marks == s.marks
            &&& t.selection == s.selection
            &&& paths.len() == 0 ==> t.overlay == s.overlay
            &&& paths.len() > 0 ==> {
                &&& t.overlay is Confirm
                &&& key.code == KeyCode::Char('y') || key.code == KeyCode::Char('Y') ==> removes(
                    t.keyed(key).agenda,
                    s.agenda,
                    paths,
                    trash,
                ) && t.keyed(key).overlay is Closed
                &&& key.code == KeyCode::Char('n') || key.code == KeyCode::Char('N') || key.code
                    == KeyCode::Esc ==> t.keyed(key).agenda == s.agenda
                    && t.keyed(key).overlay is Closed
                &&& !(key.code == KeyCode::Char('y') || key.code == KeyCode::Char('Y') || key.code
                    == KeyCode::Char('n') || key.code == KeyCode::Char('N') || key.code
                    == KeyCode::Esc) ==> t.keyed(key).agenda == s.agenda && t.keyed(key).overlay
                    == t.overlay
            }
        }),
{
    lemma_asks(s, trash, bookmarks);
    let t = s.dispatched(removal(trash, bookmarks));
    let paths = concerned(s, bookmarks);
    if paths.len() > 0 {
        lemma_answers(t, t.overlay->Confirm_0, key, paths, trash);
    }
}

/// A removal that went well is noted, and one that did not is not: the path
/// counts as gone exactly in the first case.
pub proof fn law_only_what_went_is_gone(s: AppView, p: Seq<u8>, trash: bool, r: ReplyView)
    ensures
        ({
            let t = s.answered(StepView::Remove { path: p, trash }, r);
            &&& r == ReplyView::Done(None) ==> t.batch.gone == s.batch.gone.push(p)
                && t.batch.failed == s.batch.failed
            &&& r != ReplyView::Done(None) ==> t.batch.gone == s.batch.gone && t.batch.failed is Some
            &&& t.agenda == s.agenda
            &&& t.marks == s.marks
        }),
{
    reveal(AppView::answered);
    reveal(AppView::file_answered);
    reveal(AppView::removed_one);
}

/// Cutting and copying put the paths that they are about on the clipboard, as
/// cut or as copied, and change nothing on disk.
pub proof fn law_clipboard_takes_the_targets(s: AppView, op: ClipOp, k: Seq<Seq<u8>>)
    ensures
        ({
            let t = s.dispatched(if op == ClipOp::Cut {
                Action::Cut
            } else {
                Action::Copy
            });
            let paths = concerned(s, false);
            &&& paths.len() == 0 ==> t.clipboard == s.clipboard
            &&& paths.len() > 0 ==> {
                &&& t.clipboard.paths == paths
                &&& t.clipboard.is_cut(k) == (op == ClipOp::Cut && holds_path(paths, k))
                &&& t.clipboard.is_copied(k) == (op == ClipOp::Copy && holds_path(paths, k))
                &&& t.agenda == seq![StepView::RowsHere] + s.agenda
            }
            &&& t.selection == s.selection
            &&& t.marks == s.marks
        }),
{
    law_copying_actions(s);
    reveal(AppView::clipped);
    lemma_targets(s.hushed());
    assert(concerned(s.hushed(), false) == concerned(s, false));
}

/// The directory that pasting and creating are about: the directory under the
/// cursor (the last of a chain that is drawn as one), or the one that holds the
/// file there, or the root.
pub open spec fn place_at_cursor(s: AppView) -> Seq<u8> {
    if s.list.selected is Some && s.list.selected->0 < s.rows.len() {
        let row = s.rows[s.list.selected->0 as int];
        if row.kind.spec_is_dir() {
            if row.group_target is Some {
                row.group_target->0
            } else {
                row.path
            }
        } else if parent_text(row.path) is Some {
            parent_text(row.path)->0
        } else {
            s.tree.root.path
        }
    } else {
        s.tree.root.path
    }
}

/// Whether a plan comes to sending some paths to a directory, each once and in
/// order, before what was planned already.
pub open spec fn sends(
    plan: Seq<StepView>,
    before: Seq<StepView>,
    paths: Seq<Seq<u8>>,
    dest: Seq<u8>,
    kind: Transfer,
) -> bool {
    &&& plan.len() == paths.len() + 1 + before.len()
    &&& forall|i: int|
        0 <= i < paths.len() ==> plan[i] == (StepView::Send {
            path: #[trigger] paths[i],
            dest,
            kind,
        })
    &&& plan[paths.len() as int] == StepView::Sent(kind)
    &&& plan.skip(paths.len() as int + 1) == before
}

/// Pasting sends exactly what is on the clipboard to the directory at the
/// cursor, as cut or as copied; an empty clipboard sends nothing. Moving the
/// bookmarked sends exactly those.
pub proof fn law_pasting_sends_the_clipboard(s: AppView)
    ensures
        s.clipboard.paths.len() > 0 ==> sends(
            s.dispatched(Action::Paste).agenda,
            s.agenda,
            s.clipboard.paths,
            place_at_cursor(s),
            if s.clipboard.op == Some(ClipOp::Cut) {
                Transfer::Cut
            } else {
                Transfer::Copy
            },
        ),
        s.clipboard.paths.len() == 0 ==> s.dispatched(Action::Paste).agenda == s.agenda,
        s.dispatched(Action::Paste).clipboard == s.clipboard,
        listed(s.marks).len() > 0 ==> sends(
            s.dispatched(Action::BulkMove).agenda,
            s.agenda,
            listed(s.marks),
            place_at_cursor(s),
            Transfer::Marked,
        ),
        listed(s.marks).len() == 0 ==> s.dispatched(Action::BulkMove).agenda == s.agenda,
        s.dispatched(Action::BulkMove).marks == s.marks,
{
    let h = s.hushed();
    assert(s.dispatched(Action::Paste) == h.pasting()) by {
        law_copying_actions(s);
    }
    assert(s.dispatched(Action::BulkMove) == h.moving_marked()) by {
        law_marking_actions(s);
    }
    reveal(AppView::pasting);
    reveal(AppView::moving_marked);
    assert(h.dir_context() == place_at_cursor(s));
    let t = s.dispatched(Action::Paste);
    assert(t.agenda.skip(s.clipboard.paths.len() as int + 1) =~= s.agenda || s.clipboard.paths.len()
        == 0);
    let u = s.dispatched(Action::BulkMove);
    assert(u.agenda.skip(listed(s.marks).len() as int + 1) =~= s.agenda || listed(s.marks).len() == 0);
}

/// What is sent is first looked up at its destination, and goes there under a
/// name that is free. What was copied is copied; what was cut or bookmarked is
/// moved.
pub proof fn law_sent_is_put(
    s: AppView,
    p: Seq<u8>,
    dest: Seq<u8>,
    kind: Transfer,
    taken: Seq<Seq<u8>>,
    target: Seq<u8>,
)
    ensures
        asked(s, StepView::Send { path: p, dest, kind }) == Some(
            AskView::Taken { path: p, dest },
        ),
        ({
            let t = s.answered(StepView::Send { path: p, dest, kind }, ReplyView::Taken(taken));
            &&& t.agenda.len() == s.agenda.len() + 1
            &&& t.agenda[0] matches StepView::Put { path, target, kind: how } && path == p && how
                == kind
            &&& t.agenda.skip(1) == s.agenda
        }),
        asked(s, StepView::Put { path: p, target, kind: Transfer::Copy }) == Some(
            AskView::Copy { from: p, to: target },
        ),
        asked(s, StepView::Put { path: p, target, kind: Transfer::Cut }) == Some(
            AskView::Move { from: p, to: target },
        ),
        asked(s, StepView::Put { path: p, target, kind: Transfer::Marked }) == Some(
            AskView::Move { from: p, to: target },
        ),
{
    reveal(AppView::answered);
    reveal(AppView::file_answered);
    reveal(AppView::transfer_answered);
    let t = s.answered(StepView::Send { path: p, dest, kind }, ReplyView::Taken(taken));
    assert(t.agenda.skip(1) =~= s.agenda);
}

/// What was moved counts as gone and what was copied does not; the last place
/// that something went to is where the view goes. What failed changes neither.
pub proof fn law_put_is_noted(
    s: AppView,
    p: Seq<u8>,
    target: Seq<u8>,
    kind: Transfer,
    r: ReplyView,
)
    ensures
        ({
            let t = s.answered(StepView::Put { path: p, target, kind }, r);
            &&& r == ReplyView::Done(None) ==> {
                &&& t.batch.gone == if kind == Transfer::Copy {
                    s.batch.gone
                } else {
                    s.batch.gone.push(p)
                }
                &&& t.batch.last == Some(target)
                &&& t.batch.failed == s.batch.failed
                &&& kind != Transfer::Cut ==> t.marks == s.marks && t.selection == s.selection
                &&& kind == Transfer::Cut ==> !t.selection.contains_key(comps(p))
                &&& kind == Transfer::Cut && comps(p) != comps(target) ==> !t.marks.contains_key(
                    comps(p),
                )
                &&& kind == Transfer::Cut && s.marks.contains_key(comps(p))
                    ==> t.marks.contains_key(comps(target))
            }
            &&& r != ReplyView::Done(None) ==> {
                &&& t.batch.gone == s.batch.gone
                &&& t.batch.last == s.batch.last
                &&& t.batch.failed is Some
                &&& t.marks == s.marks
                &&& t.selection == s.selection
            }
        }),
{
    reveal(AppView::answered);
    reveal(AppView::file_answered);
    reveal(AppView::transfer_answered);
}

/// After what was sent, the tree is read again, and what was put last is brought
/// into view.
pub proof fn law_view_goes_where_it_was_put(s: AppView, cut: bool)
    ensures
        ({
            let t = s.sent_all(if cut {
                Transfer::Cut
            } else {
                Transfer::Copy
            });
            &&& t.agenda.len() > 0 && t.agenda[0] == StepView::Reload
            &&& s.batch.last matches Some(p) ==> t.agenda == seq![
                StepView::Reload,
                StepView::Reveal(p),
            ] + s.agenda
        }),
        s.sent_all(Transfer::Marked).agenda[1] == StepView::Reload,
        s.removed_all().agenda[1] == StepView::Reload,
{
    reveal(AppView::sent_all);
    reveal(AppView::pasted);
    reveal(AppView::moved_marked);
    reveal(AppView::removed_all);
}

/// Creating offers the directory at the cursor; what is typed decides: with a
/// slash at its end a directory is created, without one a file, at the path
/// that was typed, and never outside the tree unless that path begins with a
/// slash.
pub proof fn law_creating_does_what_is_typed(s: AppView, v: InputView)
    requires
        v.kind is Create,
        trimmed(v.typed()).len() > 0,
        trimmed(v.typed()).last() != '/',
    ensures
        ({
            let value = trimmed(v.typed());
            let t = s.submitted(v);
            match typed_path(s.tree.root.path, value) {
                Some(p) => t.agenda == seq![
                    StepView::Create { path: p, is_dir: false, label: value },
                ] + s.agenda,
                None => t.agenda == s.agenda,
            }
        }),
{
    reveal(AppView::submitted);
    reveal(AppView::creating);
    reveal_with_fuel(crate::text::drop_end, 1);
}

/// A slash at the end of what is typed makes a directory of what would be a
/// file.
pub proof fn law_slash_makes_a_directory(s: AppView, v: InputView, value: Seq<char>)
    requires
        v.kind is Create,
        value.len() > 0,
        value.last() != '/',
        trimmed(v.typed()) == value.push('/'),
    ensures
        match typed_path(s.tree.root.path, value) {
            Some(p) => s.submitted(v).agenda == seq![
                StepView::Create { path: p, is_dir: true, label: value },
            ] + s.agenda,
            None => s.submitted(v).agenda == s.agenda,
        },
{
    reveal(AppView::submitted);
    reveal(AppView::creating);
    reveal_with_fuel(crate::text::drop_end, 2);
    assert(value.push('/').drop_last() =~= value);
}

/// What is created, renamed, moved or told about is what the step says.
pub proof fn law_steps_ask_what_they_say(
    s: AppView,
    p: Seq<u8>,
    q: Seq<u8>,
    is_dir: bool,
    text: Seq<char>,
    git: Option<crate::git::GitStatus>,
)
    ensures
        asked(s, StepView::Create { path: p, is_dir, label: text }) == Some(
            AskView::Create { path: p, is_dir },
        ),
        asked(s, StepView::Rename { from: p, to: q, done: text }) == Some(
            AskView::Move { from: p, to: q },
        ),
        asked(s, StepView::Inspect { path: p, name: text, git }) == Some(AskView::Inspect(p)),
{
}

/// What was created or renamed is brought into view after the tree was read
/// again; where that failed, nothing is planned.
pub proof fn law_new_path_is_shown(
    s: AppView,
    p: Seq<u8>,
    q: Seq<u8>,
    is_dir: bool,
    text: Seq<char>,
    r: ReplyView,
)
    ensures
        ({
            let t = s.answered(StepView::Create { path: p, is_dir, label: text }, r);
            &&& r == ReplyView::Done(None) ==> t.agenda.len() == s.agenda.len() + 3 && t.agenda[0]
                == StepView::Reload && t.agenda[1] == StepView::Reveal(p)
            &&& r != ReplyView::Done(None) ==> t.agenda == s.agenda && t.status is Some
        }),
        ({
            let t = s.answered(StepView::Rename { from: q, to: p, done: text }, r);
            &&& r == ReplyView::Done(None) ==> t.agenda.len() == s.agenda.len() + 3 && t.agenda[0]
                == StepView::Reload && t.agenda[1] == StepView::Reveal(p)
            &&& r != ReplyView::Done(None) ==> t.agenda == s.agenda && t.status is Some
        }),
{
    reveal(AppView::answered);
    reveal(AppView::file_answered);
    reveal(AppView::created);
    reveal(AppView::renamed);
}

/// Each way of renaming is about the path under the cursor, and offers what it
/// is there to change, with the cursor at its end: the whole name, or the name
/// up to its extension.
pub proof fn law_renaming_offers_the_name(s: AppView, i: int)
    requires
        0 <= i < s.rows.len(),
        s.list.selected == Some(i as usize),
        i <= usize::MAX,
    ensures
        ({
            let row = s.rows[i];
            let full = s.rename_started(RenameKind::Basename2Full).overlay;
            let stem = s.rename_started(RenameKind::Basename).overlay;
            let path = s.rename_started(RenameKind::Full).overlay;
            let dirs = s.rename_started(RenameKind::OmitFilename).overlay;
            &&& full matches OverlayView::Input(v) && v.before == row.name && v.after.len() == 0
                && v.kind == (KindView::Rename { path: row.path })
            &&& stem matches OverlayView::Input(v) && v.before == crate::tree::sort::name_parts(
                row.name,
            ).0 && v.after.len() == 0 && v.kind == (KindView::RenameBasename { path: row.path })
            &&& path matches OverlayView::Input(v) && v.before == crate::app::names::relative(
                row.path,
                s.tree.root.path,
            ) && v.after.len() == 0 && v.kind == (KindView::RenameFull { path: row.path })
            &&& dirs matches OverlayView::Input(v) && v.after.len() == 0 && v.kind
                == (KindView::RenameFull { path: row.path })
        }),
{
    reveal(AppView::rename_started);
}

/// Renaming renames the path that it was started for and no other, whatever is
/// typed: what is planned is at most one step, and that moves this path.
pub proof fn law_renaming_moves_its_path(s: AppView, v: InputView, p: Seq<u8>)
    requires
        v.kind == (KindView::Rename { path: p }) || v.kind == (KindView::RenameBasename { path: p })
            || v.kind == (KindView::RenameFull { path: p }),
    ensures
        ({
            let t = s.submitted(v);
            &&& t.agenda == s.agenda || (t.agenda.len() == s.agenda.len() + 1 && t.agenda.skip(1)
                == s.agenda && (t.agenda[0] matches StepView::Rename { from, to, done } && from
                == p))
            &&& t.tree == s.tree
            &&& t.marks == s.marks
        }),
{
    reveal(AppView::submitted);
    reveal(AppView::renaming);
    reveal(AppView::renaming_full);
    let t = s.submitted(v);
    if t.agenda.len() == s.agenda.len() + 1 {
        assert(t.agenda.skip(1) =~= s.agenda);
    }
}

/// The texts that are put on the system's clipboard: the name of what is under
/// the cursor, or its whole path.
pub proof fn law_yanked_text(s: AppView, i: int)
    requires
        0 <= i < s.rows.len(),
        s.list.selected == Some(i as usize),
        i <= usize::MAX,
    ensures
        s.dispatched(Action::CopyFilename).agenda == seq![
            StepView::Do(EffectView::CopyText(s.rows[i].name)),
        ] + s.agenda,
        s.dispatched(Action::CopyAbspath).agenda == seq![
            StepView::Do(EffectView::CopyText(lossy_text(s.rows[i].path))),
        ] + s.agenda,
        s.dispatched(Action::CopyRelpath).agenda == seq![
            StepView::Do(
                EffectView::CopyText(
                    crate::app::names::relative(s.rows[i].path, s.tree.root.path),
                ),
            ),
        ] + s.agenda,
        s.dispatched(Action::FileInfo).agenda == seq![
            StepView::Inspect {
                path: s.rows[i].path,
                name: s.rows[i].name,
                git: s.rows[i].git,
            },
        ] + s.agenda,
{
    law_copying_actions(s);
    reveal(AppView::yanked);
    reveal(AppView::inspecting);
}

/// Bookmarks are written out exactly where the configuration says that they are
/// kept.
pub proof fn law_marks_are_kept_where_asked(s: AppView)
    ensures
        s.config.bookmarks_persist ==> s.saved().agenda.len() == s.agenda.len() + 1 && (
        s.saved().agenda[0] matches StepView::Do(EffectView::SaveMarks(_))),
        !s.config.bookmarks_persist ==> s.saved().agenda == s.agenda,
        s.saved().marks == s.marks,
{
    reveal(AppView::saved);
}

/// A plain name that is typed for a path means an entry beside it; with an
/// extension to keep, that is put behind it; a whole path means that path.
pub proof fn law_renaming_goes_to_the_name(s: AppView, v: InputView, p: Seq<u8>, dir: Seq<u8>)
    requires
        trimmed(v.typed()).len() > 0,
        parent_text(p) == Some(dir),
        resolved(comps(dir)) == comps(dir),
        comps(s.tree.root.path).is_prefix_of(comps(dir)),
        is_name(vstd::utf8::encode_utf8(trimmed(v.typed()))),
    ensures
        v.kind == (KindView::Rename { path: p }) ==> s.submitted(v).agenda.len() == s.agenda.len()
            + 1 && (s.submitted(v).agenda[0] matches StepView::Rename { from, to, done } && from
            == p && comps(to) == comps(dir).push(vstd::utf8::encode_utf8(trimmed(v.typed())))),
        v.kind == (KindView::RenameFull { path: p }) && resolved(comps(s.tree.root.path)) == comps(
            s.tree.root.path,
        ) ==> s.submitted(v).agenda.len() == s.agenda.len() + 1 && (
        s.submitted(v).agenda[0] matches StepView::Rename { from, to, done } && from == p && comps(
            to,
        ) == comps(s.tree.root.path).push(vstd::utf8::encode_utf8(trimmed(v.typed())))),
{
    reveal(AppView::submitted);
    reveal(AppView::renaming);
    reveal(AppView::renaming_full);
    let value = trimmed(v.typed());
    lemma_typed_name(dir, s.tree.root.path, value);
    if resolved(comps(s.tree.root.path)) == comps(s.tree.root.path) {
        lemma_typed_name(s.tree.root.path, s.tree.root.path, value);
    }
}

proof fn lemma_typed_name(dir: Seq<u8>, root: Seq<u8>, text: Seq<char>)
    requires
        is_name(vstd::utf8::encode_utf8(text)),
        resolved(comps(dir)) == comps(dir),
        comps(root).is_prefix_of(comps(dir)),
    ensures
        !is_absolute_text(text),
        typed_from(dir, root, text) matches Some(t) && comps(t) == comps(dir).push(
            vstd::utf8::encode_utf8(text),
        ),
{
    let name = vstd::utf8::encode_utf8(text);
    assert(name[0] != 47u8) by {
        if name[0] == 47u8 {
            assert(name.contains(47u8));
        }
    }
    let whole = join_text(dir, name);
    lemma_join_name(dir, name);
    lemma_comps(whole);
    let cs = comps(whole);
    assert(cs.drop_last() =~= comps(dir));
    lemma_resolved_text(cs);
    assert(resolved(cs) == comps(dir).push(name));
    let r = comps(root);
    assert(r == comps(dir).subrange(0, r.len() as int));
    assert(r =~= resolved(cs).subrange(0, r.len() as int));
}

/// Renaming without the extension keeps that: it is the same as typing the new
/// name with the extension behind it.
pub proof fn law_extension_is_kept(s: AppView, v: InputView, p: Seq<u8>)
    requires
        v.kind == (KindView::RenameBasename { path: p }),
        trimmed(v.typed()).len() > 0,
    ensures
        ({
            let value = trimmed(v.typed());
            let ext = name_parts(name_text(p)).1;
            &&& ext.len() > 0 ==> s.submitted(v) == s.renaming(p, value + "."@ + ext)
            &&& ext.len() == 0 ==> s.submitted(v) == s.renaming(p, value)
        }),
{
    reveal(AppView::submitted);
}

/// What is typed to search for is searched for; nothing typed does nothing,
/// whatever it was for.
pub proof fn law_submitting(s: AppView, v: InputView)
    ensures
        trimmed(v.typed()).len() == 0 ==> s.submitted(v) == s,
        trimmed(v.typed()).len() > 0 && v.kind is Search ==> s.submitted(v) == s.searched(
            trimmed(v.typed()),
        ),
{
    reveal(AppView::submitted);
}

/// The prompt to create begins with the directory at the cursor, from the root
/// on, and a slash.
pub proof fn law_create_prompt(s: AppView)
    ensures
        s.create_started().overlay matches OverlayView::Input(v) && v.kind is Create
            && v.after.len() == 0 && v.before == dir_prefix(
            place_at_cursor(s),
            s.tree.root.path,
        ),
        s.create_started().agenda == s.agenda,
{
    reveal(AppView::create_started);
    assert(s.dir_context() == place_at_cursor(s));
}

/// What is known of a file is shown under its name, with its bookmark.
pub proof fn law_info_is_shown(
    s: AppView,
    p: Seq<u8>,
    name: Seq<char>,
    git: Option<crate::git::GitStatus>,
    meta: Option<crate::app::state::MetaView>,
)
    ensures
        s.answered(
            StepView::Inspect { path: p, name, git },
            ReplyView::Meta(meta),
        ).overlay matches OverlayView::Info(v) && v.title == name && v.lines
            == crate::app::names::info_lines(p, meta, git, s.marks.contains_key(comps(p))),
        s.answered(StepView::Inspect { path: p, name, git }, ReplyView::Meta(meta)).agenda
            == s.agenda,
{
    reveal(AppView::answered);
    reveal(AppView::file_answered);
    reveal(AppView::transfer_answered);
}

/// The steps that end a batch, move the cursor or keep the bookmarks do that.
pub proof fn law_steps_do_what_they_say(s: AppView, p: Seq<u8>, kind: Transfer)
    ensures
        s.stepped(StepView::Removed) == s.removed_all(),
        s.stepped(StepView::Sent(kind)) == s.sent_all(kind),
        s.stepped(StepView::Save) == s.saved(),
        s.stepped(StepView::Select(p)) == s.on_path(p),
        s.stepped(StepView::Down) == s.moved(true),
        s.stepped(StepView::Filtered) == s.filtered(),
        s.stepped(StepView::Overlays) == s.overlaid(),
        s.stepped(StepView::Reloaded(Some(p))) == s.reloaded(Some(p)),
        s.sent_all(Transfer::Cut) == s.pasted(true),
        s.sent_all(Transfer::Copy) == s.pasted(false),
{
    reveal(AppView::stepped);
    reveal(AppView::stepped_on);
    reveal(AppView::sent_all);
}

/// What is sent goes to a place in the directory: the first name tried for it
/// there that is not taken.
pub proof fn law_sent_finds_a_free_name(
    s: AppView,
    p: Seq<u8>,
    dest: Seq<u8>,
    kind: Transfer,
    taken: Seq<Seq<u8>>,
    set: Set<Seq<Seq<u8>>>,
    free: int,
)
    requires
        forall|k: Seq<Seq<u8>>| #[trigger] set.contains(k) == holds_path(taken, k),
        0 <= free < u64::MAX,
        !holds_path(taken, comps(paste_try(dest, p, free))),
    ensures
        ({
            let t = s.answered(StepView::Send { path: p, dest, kind }, ReplyView::Taken(taken));
            t.agenda[0] matches StepView::Put { path, target, kind: how } && !holds_path(
                taken,
                comps(target),
            ) && pasted_as(dest, p, set, target)
        }),
{
    reveal(AppView::answered);
    reveal(AppView::file_answered);
    reveal(AppView::transfer_answered);
    assert(crate::app::files::text_comps(taken) =~= set) by {
        assert forall|k: Seq<Seq<u8>>|
            crate::app::files::text_comps(taken).contains(k) == set.contains(k) by {
            assert(set.contains(k) == holds_path(taken, k));
        }
    }
    assert(!set.contains(comps(paste_try(dest, p, free))));
    law_paste_never_replaces(dest, p, set, free);
}

/// A batch begins with nothing done, and knows how many there are.
pub proof fn law_batch_begins_empty(s: AppView, targets: Seq<Seq<u8>>, trash: bool)
    requires
        targets.len() <= usize::MAX,
    ensures
        ({
            let b = s.confirmed(confirm_for(targets, trash).kind).batch;
            &&& b.total == targets.len()
            &&& b.ok == 0 && b.gone.len() == 0 && b.failed is None && b.last is None
        }),
        s.clipboard.paths.len() > 0 && s.clipboard.paths.len() <= usize::MAX ==> ({
            let b = s.pasting().batch;
            &&& b.total == s.clipboard.paths.len()
            &&& b.ok == 0 && b.gone.len() == 0 && b.failed is None && b.last is None
        }),
{
    reveal(AppView::confirmed);
    reveal(AppView::pasting);
    if targets.len() == 1 {
        assert(targets =~= seq![targets[0]]);
    }
}

} // verus!
