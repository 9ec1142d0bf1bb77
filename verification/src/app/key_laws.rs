//! What holds of the keys: which action each one stands for, and what that
//! action does.

use vstd::prelude::*;

use crate::app::files::{PathKind, RenameKind};
use crate::app::nav::Filter;
use crate::app::state::AppView;
use crate::clipboard::ClipOp;
use crate::editor::OpenMode;
use crate::keymap::{resolved, Action, Key, KeyCode};

verus! {

/// An action that does not move the cursor is left to the next to look at.
proof fn lemma_past_moving(s: AppView, a: Action)
    requires
        !(a is Quit),
        !(a is Down),
        !(a is Up),
        !(a is FirstSibling),
        !(a is LastSibling),
        !(a is NextSibling),
        !(a is PrevSibling),
        !(a is CursorParent),
        !(a is NextGit),
        !(a is PrevGit),
    ensures
        s.after_move(a) == s.after_opening(a),
{
    reveal(AppView::after_move);
}

proof fn lemma_past_opening(s: AppView, a: Action)
    requires
        !(a is OpenOrToggle),
        !(a is Expand),
        !(a is CollapseOrParent),
        !(a is CdInto),
        !(a is RootParent),
        !(a is ExpandAll),
        !(a is CollapseAll),
        !(a is Preview),
        !(a is VSplit),
        !(a is HSplit),
        !(a is SystemOpen),
    ensures
        s.after_opening(a) == s.after_filing(a),
{
    reveal(AppView::after_opening);
}

proof fn lemma_past_filing(s: AppView, a: Action)
    requires
        !(a is Create),
        !(a is Delete),
        !(a is Trash),
        !(a is Rename),
        !(a is RenameBasename),
        !(a is RenameFull),
        !(a is RenameOmitFilename),
        !(a is Cut),
        !(a is Copy),
        !(a is Paste),
        !(a is CopyFilename),
        !(a is CopyRelpath),
        !(a is CopyAbspath),
        !(a is FileInfo),
    ensures
        s.after_filing(a) == s.after_showing(a),
{
    reveal(AppView::after_filing);
}

proof fn lemma_past_showing(s: AppView, a: Action)
    requires
        !(a is ToggleMark),
        !(a is BulkDelete),
        !(a is BulkTrash),
        !(a is BulkMove),
        !(a is ToggleHidden),
        !(a is ToggleGitClean),
        !(a is ToggleCustom),
        !(a is ToggleNoBuffer),
        !(a is ToggleNoBookmark),
        !(a is ToggleGroupEmpty),
        !(a is ToggleSelect),
    ensures
        s.after_showing(a) == s.after_asking(a),
{
    reveal(AppView::after_showing);
}

/// The actions that move the cursor.
pub proof fn law_moving_actions(s: AppView)
    ensures
        s.dispatched(Action::Down) == s.hushed().moved(true),
        s.dispatched(Action::Up) == s.hushed().moved(false),
        s.dispatched(Action::FirstSibling) == s.hushed().at_sibling_edge(true),
        s.dispatched(Action::LastSibling) == s.hushed().at_sibling_edge(false),
        s.dispatched(Action::NextSibling) == s.hushed().at_sibling_step(true),
        s.dispatched(Action::PrevSibling) == s.hushed().at_sibling_step(false),
        s.dispatched(Action::CursorParent) == s.hushed().at_parent(),
        s.dispatched(Action::NextGit) == s.hushed().at_change(true),
        s.dispatched(Action::PrevGit) == s.hushed().at_change(false),
        s.dispatched(Action::Quit) == (AppView { should_quit: true, ..s.hushed() }),
{
    reveal(AppView::after_move);
}

/// The actions that open and close.
pub proof fn law_opening_actions(s: AppView)
    ensures
        s.dispatched(Action::OpenOrToggle) == s.hushed().chosen(),
        s.dispatched(Action::Expand) == s.hushed().unfolded(),
        s.dispatched(Action::CollapseOrParent) == s.hushed().folded(),
        s.dispatched(Action::CdInto) == s.hushed().cd_in(),
        s.dispatched(Action::RootParent) == s.hushed().cd_up(),
        s.dispatched(Action::ExpandAll) == s.hushed().all_unfolded(),
        s.dispatched(Action::CollapseAll) == s.hushed().all_folded(),
        s.dispatched(Action::Preview) == s.hushed().previewed(),
        s.dispatched(Action::VSplit) == s.hushed().opened_in(OpenMode::VSplit),
        s.dispatched(Action::HSplit) == s.hushed().opened_in(OpenMode::HSplit),
        s.dispatched(Action::SystemOpen) == s.hushed().system_opened(),
{
    let h = s.hushed();
    lemma_past_moving(h, Action::OpenOrToggle);
    lemma_past_moving(h, Action::Expand);
    lemma_past_moving(h, Action::CollapseOrParent);
    lemma_past_moving(h, Action::CdInto);
    lemma_past_moving(h, Action::RootParent);
    lemma_past_moving(h, Action::ExpandAll);
    lemma_past_moving(h, Action::CollapseAll);
    lemma_past_moving(h, Action::Preview);
    lemma_past_moving(h, Action::VSplit);
    lemma_past_moving(h, Action::HSplit);
    lemma_past_moving(h, Action::SystemOpen);
    reveal(AppView::after_opening);
}

/// The actions that create, remove and rename.
pub proof fn law_filing_actions(s: AppView)
    ensures
        s.dispatched(Action::Create) == s.hushed().create_started(),
        s.dispatched(Action::Delete) == s.hushed().delete_started(false),
        s.dispatched(Action::Trash) == s.hushed().delete_started(true),
        s.dispatched(Action::Rename) == s.hushed().rename_started(RenameKind::Basename2Full),
        s.dispatched(Action::RenameBasename) == s.hushed().rename_started(RenameKind::Basename),
        s.dispatched(Action::RenameFull) == s.hushed().rename_started(RenameKind::Full),
        s.dispatched(Action::RenameOmitFilename) == s.hushed().rename_started(RenameKind::OmitFilename),
{
    let h = s.hushed();
    lemma_past_moving(h, Action::Create);
    lemma_past_opening(h, Action::Create);
    lemma_past_moving(h, Action::Delete);
    lemma_past_opening(h, Action::Delete);
    lemma_past_moving(h, Action::Trash);
    lemma_past_opening(h, Action::Trash);
    lemma_past_moving(h, Action::Rename);
    lemma_past_opening(h, Action::Rename);
    lemma_past_moving(h, Action::RenameBasename);
    lemma_past_opening(h, Action::RenameBasename);
    lemma_past_moving(h, Action::RenameFull);
    lemma_past_opening(h, Action::RenameFull);
    lemma_past_moving(h, Action::RenameOmitFilename);
    lemma_past_opening(h, Action::RenameOmitFilename);
    reveal(AppView::after_filing);
}

/// The actions that copy, and the one that tells about a file.
pub proof fn law_copying_actions(s: AppView)
    ensures
        s.dispatched(Action::Cut) == s.hushed().clipped(ClipOp::Cut),
        s.dispatched(Action::Copy) == s.hushed().clipped(ClipOp::Copy),
        s.dispatched(Action::Paste) == s.hushed().pasting(),
        s.dispatched(Action::CopyFilename) == s.hushed().yanked(PathKind::Filename),
        s.dispatched(Action::CopyRelpath) == s.hushed().yanked(PathKind::Relative),
        s.dispatched(Action::CopyAbspath) == s.hushed().yanked(PathKind::Absolute),
        s.dispatched(Action::FileInfo) == s.hushed().inspecting(),
{
    let h = s.hushed();
    lemma_past_moving(h, Action::Cut);
    lemma_past_opening(h, Action::Cut);
    lemma_past_moving(h, Action::Copy);
    lemma_past_opening(h, Action::Copy);
    lemma_past_moving(h, Action::Paste);
    lemma_past_opening(h, Action::Paste);
    lemma_past_moving(h, Action::CopyFilename);
    lemma_past_opening(h, Action::CopyFilename);
    lemma_past_moving(h, Action::CopyRelpath);
    lemma_past_opening(h, Action::CopyRelpath);
    lemma_past_moving(h, Action::CopyAbspath);
    lemma_past_opening(h, Action::CopyAbspath);
    lemma_past_moving(h, Action::FileInfo);
    lemma_past_opening(h, Action::FileInfo);
    reveal(AppView::after_filing);
}

/// The actions on bookmarks and on the selection.
pub proof fn law_marking_actions(s: AppView)
    ensures
        s.dispatched(Action::ToggleMark) == s.hushed().mark_toggled(),
        s.dispatched(Action::BulkDelete) == s.hushed().removing_marked(false),
        s.dispatched(Action::BulkTrash) == s.hushed().removing_marked(true),
        s.dispatched(Action::BulkMove) == s.hushed().moving_marked(),
        s.dispatched(Action::ToggleSelect) == s.hushed().select_toggled(),
{
    let h = s.hushed();
    lemma_past_moving(h, Action::ToggleMark);
    lemma_past_opening(h, Action::ToggleMark);
    lemma_past_filing(h, Action::ToggleMark);
    lemma_past_moving(h, Action::BulkDelete);
    lemma_past_opening(h, Action::BulkDelete);
    lemma_past_filing(h, Action::BulkDelete);
    lemma_past_moving(h, Action::BulkTrash);
    lemma_past_opening(h, Action::BulkTrash);
    lemma_past_filing(h, Action::BulkTrash);
    lemma_past_moving(h, Action::BulkMove);
    lemma_past_opening(h, Action::BulkMove);
    lemma_past_filing(h, Action::BulkMove);
    lemma_past_moving(h, Action::ToggleSelect);
    lemma_past_opening(h, Action::ToggleSelect);
    lemma_past_filing(h, Action::ToggleSelect);
    reveal(AppView::after_showing);
}

/// The actions on what is shown.
pub proof fn law_showing_actions(s: AppView)
    ensures
        s.dispatched(Action::ToggleHidden) == s.hushed().filter_toggled(Filter::Hidden),
        s.dispatched(Action::ToggleGitClean) == s.hushed().filter_toggled(Filter::GitClean),
        s.dispatched(Action::ToggleCustom) == s.hushed().filter_toggled(Filter::Custom),
        s.dispatched(Action::ToggleNoBuffer) == s.hushed().filter_toggled(Filter::NoBuffer),
        s.dispatched(Action::ToggleNoBookmark) == s.hushed().filter_toggled(Filter::NoBookmark),
        s.dispatched(Action::ToggleGroupEmpty) == s.hushed().group_toggled(),
{
    let h = s.hushed();
    lemma_past_moving(h, Action::ToggleHidden);
    lemma_past_opening(h, Action::ToggleHidden);
    lemma_past_filing(h, Action::ToggleHidden);
    lemma_past_moving(h, Action::ToggleGitClean);
    lemma_past_opening(h, Action::ToggleGitClean);
    lemma_past_filing(h, Action::ToggleGitClean);
    lemma_past_moving(h, Action::ToggleCustom);
    lemma_past_opening(h, Action::ToggleCustom);
    lemma_past_filing(h, Action::ToggleCustom);
    lemma_past_moving(h, Action::ToggleNoBuffer);
    lemma_past_opening(h, Action::ToggleNoBuffer);
    lemma_past_filing(h, Action::ToggleNoBuffer);
    lemma_past_moving(h, Action::ToggleNoBookmark);
    lemma_past_opening(h, Action::ToggleNoBookmark);
    lemma_past_filing(h, Action::ToggleNoBookmark);
    lemma_past_moving(h, Action::ToggleGroupEmpty);
    lemma_past_opening(h, Action::ToggleGroupEmpty);
    lemma_past_filing(h, Action::ToggleGroupEmpty);
    reveal(AppView::after_showing);
}

/// The actions that ask for something to be typed, and the others.
pub proof fn law_asking_actions(s: AppView)
    ensures
        s.dispatched(Action::LiveFilterStart) == s.hushed().filter_started(),
        s.dispatched(Action::LiveFilterClear) == s.hushed().unfiltered(),
        s.dispatched(Action::ClearSelect) == s.hushed().cleared(),
        s.dispatched(Action::Refresh).agenda.len() == s.agenda.len() + 2,
        s.dispatched(Action::Refresh).agenda[0] == crate::app::state::StepView::Reload,
        s.dispatched(Action::Help).overlay matches crate::ui_overlays::OverlayView::Help(h)
            && h.scroll == 0,
        s.dispatched(Action::SearchNode).overlay matches crate::ui_overlays::OverlayView::Input(v)
            && v.kind is Search && v.typed().len() == 0,
        s.dispatched(Action::Nothing) == s.hushed(),
{
    let h = s.hushed();
    lemma_past_moving(h, Action::LiveFilterStart);
    lemma_past_opening(h, Action::LiveFilterStart);
    lemma_past_filing(h, Action::LiveFilterStart);
    lemma_past_showing(h, Action::LiveFilterStart);
    lemma_past_moving(h, Action::LiveFilterClear);
    lemma_past_opening(h, Action::LiveFilterClear);
    lemma_past_filing(h, Action::LiveFilterClear);
    lemma_past_showing(h, Action::LiveFilterClear);
    lemma_past_moving(h, Action::ClearSelect);
    lemma_past_opening(h, Action::ClearSelect);
    lemma_past_filing(h, Action::ClearSelect);
    lemma_past_showing(h, Action::ClearSelect);
    lemma_past_moving(h, Action::Refresh);
    lemma_past_opening(h, Action::Refresh);
    lemma_past_filing(h, Action::Refresh);
    lemma_past_showing(h, Action::Refresh);
    lemma_past_moving(h, Action::Help);
    lemma_past_opening(h, Action::Help);
    lemma_past_filing(h, Action::Help);
    lemma_past_showing(h, Action::Help);
    lemma_past_moving(h, Action::SearchNode);
    lemma_past_opening(h, Action::SearchNode);
    lemma_past_filing(h, Action::SearchNode);
    lemma_past_showing(h, Action::SearchNode);
    lemma_past_moving(h, Action::Nothing);
    lemma_past_opening(h, Action::Nothing);
    lemma_past_filing(h, Action::Nothing);
    lemma_past_showing(h, Action::Nothing);
    reveal(AppView::after_asking);
}

/// The action that a character stands for when nothing is pending.
pub open spec fn means(c: char, action: Action) -> bool {
    forall|key: Key|
        key.code == KeyCode::Char(c) && !key.ctrl ==> #[trigger] resolved(key, Seq::empty()) == (
            action,
            Seq::<char>::empty(),
        )
}

/// The action that a character stands for with Control held.
pub open spec fn ctrl_means(c: char, action: Action) -> bool {
    forall|key: Key|
        key.code == KeyCode::Char(c) && key.ctrl ==> #[trigger] resolved(key, Seq::empty()) == (
            action,
            Seq::<char>::empty(),
        )
}

/// The action that a character stands for after others.
pub open spec fn after_means(pending: Seq<char>, c: char, action: Action) -> bool {
    forall|key: Key|
        key.code == KeyCode::Char(c) ==> #[trigger] resolved(key, pending) == (
            action,
            Seq::<char>::empty(),
        )
}

/// The keys of the table of keys, those with a letter: each stands for what the
/// table says.
pub proof fn law_letters_stand_for_actions()
    ensures
        means('q', Action::Quit),
        means('j', Action::Down),
        means('k', Action::Up),
        means('K', Action::FirstSibling),
        means('J', Action::LastSibling),
        means('>', Action::NextSibling),
        means('<', Action::PrevSibling),
        means('o', Action::OpenOrToggle),
        means('l', Action::Expand),
        means('h', Action::CollapseOrParent),
        means('P', Action::CursorParent),
        means('-', Action::RootParent),
        means('E', Action::ExpandAll),
        means('W', Action::CollapseAll),
        means('L', Action::ToggleGroupEmpty),
        means('s', Action::SystemOpen),
        means('a', Action::Create),
        means('d', Action::Delete),
        means('D', Action::Trash),
        means('r', Action::Rename),
        means('e', Action::RenameBasename),
        means('u', Action::RenameFull),
        means('x', Action::Cut),
        means('c', Action::Copy),
        means('p', Action::Paste),
        means('y', Action::CopyFilename),
        means('Y', Action::CopyRelpath),
        means('m', Action::ToggleMark),
        means('.', Action::ToggleHidden),
        means('C', Action::ToggleGitClean),
        means('U', Action::ToggleCustom),
        means('B', Action::ToggleNoBuffer),
        means('M', Action::ToggleNoBookmark),
        means('f', Action::LiveFilterStart),
        means('F', Action::LiveFilterClear),
        means('S', Action::SearchNode),
        means('v', Action::ToggleSelect),
        means('R', Action::Refresh),
        means('?', Action::Help),
{
}

/// The keys with Control, and those of two or three characters.
pub proof fn law_chords_stand_for_actions()
    ensures
        ctrl_means('v', Action::VSplit),
        ctrl_means('x', Action::HSplit),
        ctrl_means(']', Action::CdInto),
        ctrl_means('r', Action::RenameOmitFilename),
        ctrl_means('k', Action::FileInfo),
        after_means(seq!['g'], 'y', Action::CopyAbspath),
        after_means(seq!['g'], '?', Action::Help),
        after_means(seq![']'], 'c', Action::NextGit),
        after_means(seq!['['], 'c', Action::PrevGit),
        after_means(seq!['b'], 'd', Action::BulkDelete),
        after_means(seq!['b'], 't', Action::BulkTrash),
        after_means(seq!['b', 'm'], 'v', Action::BulkMove),
        forall|key: Key|
            key.code == KeyCode::Char('m') ==> #[trigger] resolved(key, seq!['b']) == (
                Action::Nothing,
                seq!['b', 'm'],
            ),
{
    reveal_strlit("g");
    reveal_strlit("]");
    reveal_strlit("[");
    reveal_strlit("b");
    reveal_strlit("bm");
    assert("g"@ =~= seq!['g']);
    assert("]"@ =~= seq![']']);
    assert("["@ =~= seq!['[']);
    assert("b"@ =~= seq!['b']);
    assert("bm"@ =~= seq!['b', 'm']);
    assert(seq!['b'][0] == 'b' && seq!['g'][0] == 'g' && seq![']'][0] == ']' && seq!['['][0] == '[');
    assert(seq!['b', 'm'].len() == 2);
}

/// The characters that wait for more: they stand for nothing by themselves, and
/// are kept.
pub proof fn law_beginnings_wait(key: Key)
    requires
        !key.ctrl,
        key.code == KeyCode::Char('g') || key.code == KeyCode::Char(']') || key.code
            == KeyCode::Char('[') || key.code == KeyCode::Char('b'),
    ensures
        resolved(key, Seq::empty()) == (Action::Nothing, seq![key.code->Char_0]),
{
}

/// The characters that stand for something, or wait for more.
pub open spec fn is_bound(c: char) -> bool {
    let letters = seq![
        'q', 'j', 'k', 'K', 'J', '>', '<', 'o', 'l', 'h', 'P', '-', 'E', 'W', 'L', 's', 'a', 'd',
        'D', 'r', 'e', 'u', 'x', 'c', 'p', 'y', 'Y', 'm', '.', 'I', 'C', 'U', 'B', 'M', 'f', 'F',
        'S', 'v', 'R', '?', 'g', ']', '[', 'b',
    ];
    letters.contains(c)
}

/// No other character stands for anything, nor does any but five with Control;
/// and a sequence that is none is forgotten and does nothing.
pub proof fn law_other_keys_do_nothing(key: Key, c: char)
    requires
        key.code == KeyCode::Char(c),
    ensures
        !key.ctrl && !is_bound(c) ==> resolved(key, Seq::empty()) == (
            Action::Nothing,
            Seq::<char>::empty(),
        ),
        key.ctrl && c != 'v' && c != 'x' && c != ']' && c != 'r' && c != 'k' ==> resolved(
            key,
            Seq::empty(),
        ) == (Action::Nothing, Seq::<char>::empty()),
        c != 'y' && c != 'e' && c != '?' ==> resolved(key, seq!['g']) == (
            Action::Nothing,
            Seq::<char>::empty(),
        ),
        c != 'c' ==> resolved(key, seq![']']) == (Action::Nothing, Seq::<char>::empty()),
        c != 'c' ==> resolved(key, seq!['[']) == (Action::Nothing, Seq::<char>::empty()),
        c != 'd' && c != 't' && c != 'm' ==> resolved(key, seq!['b']) == (
            Action::Nothing,
            Seq::<char>::empty(),
        ),
        c != 'v' ==> resolved(key, seq!['b', 'm']) == (Action::Nothing, Seq::<char>::empty()),
{
    reveal_strlit("g");
    reveal_strlit("]");
    reveal_strlit("[");
    reveal_strlit("b");
    reveal_strlit("bm");
    assert("g"@[0] == 'g' && "]"@[0] == ']' && "["@[0] == '[' && "b"@[0] == 'b');
    assert("bm"@.len() == 2);
    assert(seq!['g'][0] == 'g' && seq![']'][0] == ']' && seq!['['][0] == '[' && seq!['b'][0]
        == 'b');
    let letters = seq![
        'q', 'j', 'k', 'K', 'J', '>', '<', 'o', 'l', 'h', 'P', '-', 'E', 'W', 'L', 's', 'a', 'd',
        'D', 'r', 'e', 'u', 'x', 'c', 'p', 'y', 'Y', 'm', '.', 'I', 'C', 'U', 'B', 'M', 'f', 'F',
        'S', 'v', 'R', '?', 'g', ']', '[', 'b',
    ];
    assert(letters[0] == 'q');
    assert(letters[1] == 'j');
    assert(letters[2] == 'k');
    assert(letters[3] == 'K');
    assert(letters[4] == 'J');
    assert(letters[5] == '>');
    assert(letters[6] == '<');
    assert(letters[7] == 'o');
    assert(letters[8] == 'l');
    assert(letters[9] == 'h');
    assert(letters[10] == 'P');
    assert(letters[11] == '-');
    assert(letters[12] == 'E');
    assert(letters[13] == 'W');
    assert(letters[14] == 'L');
    assert(letters[15] == 's');
    assert(letters[16] == 'a');
    assert(letters[17] == 'd');
    assert(letters[18] == 'D');
    assert(letters[19] == 'r');
    assert(letters[20] == 'e');
    assert(letters[21] == 'u');
    assert(letters[22] == 'x');
    assert(letters[23] == 'c');
    assert(letters[24] == 'p');
    assert(letters[25] == 'y');
    assert(letters[26] == 'Y');
    assert(letters[27] == 'm');
    assert(letters[28] == '.');
    assert(letters[29] == 'I');
    assert(letters[30] == 'C');
    assert(letters[31] == 'U');
    assert(letters[32] == 'B');
    assert(letters[33] == 'M');
    assert(letters[34] == 'f');
    assert(letters[35] == 'F');
    assert(letters[36] == 'S');
    assert(letters[37] == 'v');
    assert(letters[38] == 'R');
    assert(letters[39] == '?');
    assert(letters[40] == 'g');
    assert(letters[41] == ']');
    assert(letters[42] == '[');
    assert(letters[43] == 'b');
}

/// The keys that are no characters.
pub proof fn law_named_keys_stand_for_actions(key: Key)
    requires
        !key.ctrl,
    ensures
        key.code is Down ==> resolved(key, Seq::empty()).0 == Action::Down,
        key.code is Up ==> resolved(key, Seq::empty()).0 == Action::Up,
        key.code is Enter ==> resolved(key, Seq::empty()).0 == Action::OpenOrToggle,
        key.code is Right ==> resolved(key, Seq::empty()).0 == Action::Expand,
        key.code is Left || key.code is Backspace ==> resolved(key, Seq::empty()).0
            == Action::CollapseOrParent,
        key.code is Tab ==> resolved(key, Seq::empty()).0 == Action::Preview,
        key.code is Delete ==> resolved(key, Seq::empty()).0 == Action::Delete,
        key.code is Esc ==> resolved(key, Seq::empty()).0 == Action::ClearSelect,
        key.code is Home || key.code is End || key.code is PageUp || key.code is PageDown
            || key.code is F || key.code is Other ==> resolved(key, Seq::empty()).0
            == Action::Nothing,
{
}

/// A key does to the tree what its action does, with nothing pending
/// afterwards but what the key began; the input counts from now.
pub proof fn law_keys_do_their_actions(s: AppView, key: Key)
    requires
        s.overlay is Closed,
        !s.live_editing,
        resolved(key, s.pending).0 != Action::Nothing,
    ensures
        s.keyed(key) == (AppView {
            pending: resolved(key, s.pending).1,
            last_input: Some(s.now),
            ..s
        }).dispatched(resolved(key, s.pending).0),
{
    reveal(AppView::keyed);
    reveal(AppView::tree_keyed);
}

} // verus!
