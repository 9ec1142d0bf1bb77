//! Keys and what they ask for. A sequence of several keys is followed through
//! the text of the keys pressed so far.

use vstd::prelude::*;

use crate::text::same_text;

verus! {

/// What the user can ask for.
#[derive(Clone, Copy, Debug, PartialEq, Eq, Structural)]
pub enum Action {
    Nothing,
    Quit,
    Down,
    Up,
    FirstSibling,
    LastSibling,
    NextSibling,
    PrevSibling,
    OpenOrToggle,
    Expand,
    CollapseOrParent,
    CursorParent,
    CdInto,
    RootParent,
    ExpandAll,
    CollapseAll,
    NextGit,
    PrevGit,
    Preview,
    VSplit,
    HSplit,
    SystemOpen,
    Create,
    Delete,
    Trash,
    Rename,
    RenameBasename,
    RenameFull,
    RenameOmitFilename,
    Cut,
    Copy,
    Paste,
    CopyFilename,
    CopyRelpath,
    CopyAbspath,
    FileInfo,
    ToggleMark,
    BulkDelete,
    BulkTrash,
    BulkMove,
    ToggleHidden,
    ToggleIgnored,
    ToggleGitClean,
    ToggleCustom,
    ToggleNoBuffer,
    ToggleNoBookmark,
    ToggleGroupEmpty,
    LiveFilterStart,
    LiveFilterClear,
    SearchNode,
    Refresh,
    Help,
    ToggleSelect,
    ClearSelect,
}

/// A key.
#[derive(Clone, Copy, Debug, PartialEq, Eq, Structural)]
pub enum KeyCode {
    Char(char),
    Enter,
    Esc,
    Backspace,
    Delete,
    Tab,
    Left,
    Right,
    Up,
    Down,
    Home,
    End,
    PageUp,
    PageDown,
    F(u8),
    /// Any key that means nothing here.
    Other,
}

/// A key as it was pressed.
#[derive(Clone, Copy, Debug, PartialEq, Eq, Structural)]
pub struct Key {
    pub code: KeyCode,
    pub ctrl: bool,
    pub alt: bool,
}

/// What a key asks for by itself.
pub open spec fn plain_action(code: KeyCode) -> Action {
    match code {
        KeyCode::Char('q') => Action::Quit,
        KeyCode::Char('j') => Action::Down,
        KeyCode::Char('k') => Action::Up,
        KeyCode::Char('K') => Action::FirstSibling,
        KeyCode::Char('J') => Action::LastSibling,
        KeyCode::Char('>') => Action::NextSibling,
        KeyCode::Char('<') => Action::PrevSibling,
        KeyCode::Char('o') => Action::OpenOrToggle,
        KeyCode::Char('l') => Action::Expand,
        KeyCode::Char('h') => Action::CollapseOrParent,
        KeyCode::Char('P') => Action::CursorParent,
        KeyCode::Char('-') => Action::RootParent,
        KeyCode::Char('E') => Action::ExpandAll,
        KeyCode::Char('W') => Action::CollapseAll,
        KeyCode::Char('L') => Action::ToggleGroupEmpty,
        KeyCode::Char('s') => Action::SystemOpen,
        KeyCode::Char('a') => Action::Create,
        KeyCode::Char('d') => Action::Delete,
        KeyCode::Char('D') => Action::Trash,
        KeyCode::Char('r') => Action::Rename,
        KeyCode::Char('e') => Action::RenameBasename,
        KeyCode::Char('u') => Action::RenameFull,
        KeyCode::Char('x') => Action::Cut,
        KeyCode::Char('c') => Action::Copy,
        KeyCode::Char('p') => Action::Paste,
        KeyCode::Char('y') => Action::CopyFilename,
        KeyCode::Char('Y') => Action::CopyRelpath,
        KeyCode::Char('m') => Action::ToggleMark,
        KeyCode::Char('.') => Action::ToggleHidden,
        KeyCode::Char('I') => Action::ToggleIgnored,
        KeyCode::Char('C') => Action::ToggleGitClean,
        KeyCode::Char('U') => Action::ToggleCustom,
        KeyCode::Char('B') => Action::ToggleNoBuffer,
        KeyCode::Char('M') => Action::ToggleNoBookmark,
        KeyCode::Char('f') => Action::LiveFilterStart,
        KeyCode::Char('F') => Action::LiveFilterClear,
        KeyCode::Char('S') => Action::SearchNode,
        KeyCode::Char('v') => Action::ToggleSelect,
        KeyCode::Char('R') => Action::Refresh,
        KeyCode::Char('?') => Action::Help,
        KeyCode::Down => Action::Down,
        KeyCode::Up => Action::Up,
        KeyCode::Enter => Action::OpenOrToggle,
        KeyCode::Right => Action::Expand,
        KeyCode::Backspace => Action::CollapseOrParent,
        KeyCode::Left => Action::CollapseOrParent,
        KeyCode::Tab => Action::Preview,
        KeyCode::Delete => Action::Delete,
        KeyCode::Esc => Action::ClearSelect,
        _ => Action::Nothing,
    }
}

/// What a key asks for with control held.
pub open spec fn ctrl_action(code: KeyCode) -> Action {
    match code {
        KeyCode::Char('v') => Action::VSplit,
        KeyCode::Char('x') => Action::HSplit,
        KeyCode::Char(']') => Action::CdInto,
        KeyCode::Char('r') => Action::RenameOmitFilename,
        KeyCode::Char('k') => Action::FileInfo,
        _ => Action::Nothing,
    }
}

/// What a key asks for after the keys of `pending`.
pub open spec fn chord_action(pending: Seq<char>, code: KeyCode) -> Action {
    if pending == "g"@ {
        match code {
            KeyCode::Char('y') => Action::CopyAbspath,
            KeyCode::Char('e') => Action::CopyFilename,
            KeyCode::Char('?') => Action::Help,
            _ => Action::Nothing,
        }
    } else if pending == "]"@ && code == KeyCode::Char('c') {
        Action::NextGit
    } else if pending == "["@ && code == KeyCode::Char('c') {
        Action::PrevGit
    } else if pending == "b"@ {
        match code {
            KeyCode::Char('d') => Action::BulkDelete,
            KeyCode::Char('t') => Action::BulkTrash,
            _ => Action::Nothing,
        }
    } else if pending == "bm"@ && code == KeyCode::Char('v') {
        Action::BulkMove
    } else {
        Action::Nothing
    }
}

/// Whether a key begins a sequence.
pub open spec fn begins_chord(code: KeyCode) -> bool {
    code == KeyCode::Char('g') || code == KeyCode::Char(']') || code == KeyCode::Char('[') || code
        == KeyCode::Char('b')
}

/// What a key asks for after the keys of `pending`, and the keys of the
/// sequence that it begins or goes on with.
pub open spec fn resolved(key: Key, pending: Seq<char>) -> (Action, Seq<char>) {
    if pending.len() > 0 {
        if pending == "b"@ && key.code == KeyCode::Char('m') {
            (Action::Nothing, "bm"@)
        } else {
            (chord_action(pending, key.code), Seq::empty())
        }
    } else if key.ctrl {
        (ctrl_action(key.code), Seq::empty())
    } else if begins_chord(key.code) {
        (Action::Nothing, seq![key.code->Char_0])
    } else {
        (plain_action(key.code), Seq::empty())
    }
}

fn plain(code: KeyCode) -> (r: Action)
    ensures
        r == plain_action(code),
{
    match code {
        KeyCode::Char('q') => Action::Quit,
        KeyCode::Char('j') => Action::Down,
        KeyCode::Char('k') => Action::Up,
        KeyCode::Char('K') => Action::FirstSibling,
        KeyCode::Char('J') => Action::LastSibling,
        KeyCode::Char('>') => Action::NextSibling,
        KeyCode::Char('<') => Action::PrevSibling,
        KeyCode::Char('o') => Action::OpenOrToggle,
        KeyCode::Char('l') => Action::Expand,
        KeyCode::Char('h') => Action::CollapseOrParent,
        KeyCode::Char('P') => Action::CursorParent,
        KeyCode::Char('-') => Action::RootParent,
        KeyCode::Char('E') => Action::ExpandAll,
        KeyCode::Char('W') => Action::CollapseAll,
        KeyCode::Char('L') => Action::ToggleGroupEmpty,
        KeyCode::Char('s') => Action::SystemOpen,
        KeyCode::Char('a') => Action::Create,
        KeyCode::Char('d') => Action::Delete,
        KeyCode::Char('D') => Action::Trash,
        KeyCode::Char('r') => Action::Rename,
        KeyCode::Char('e') => Action::RenameBasename,
        KeyCode::Char('u') => Action::RenameFull,
        KeyCode::Char('x') => Action::Cut,
        KeyCode::Char('c') => Action::Copy,
        KeyCode::Char('p') => Action::Paste,
        KeyCode::Char('y') => Action::CopyFilename,
        KeyCode::Char('Y') => Action::CopyRelpath,
        KeyCode::Char('m') => Action::ToggleMark,
        KeyCode::Char('.') => Action::ToggleHidden,
        KeyCode::Char('I') => Action::ToggleIgnored,
        KeyCode::Char('C') => Action::ToggleGitClean,
        KeyCode::Char('U') => Action::ToggleCustom,
        KeyCode::Char('B') => Action::ToggleNoBuffer,
        KeyCode::Char('M') => Action::ToggleNoBookmark,
        KeyCode::Char('f') => Action::LiveFilterStart,
        KeyCode::Char('F') => Action::LiveFilterClear,
        KeyCode::Char('S') => Action::SearchNode,
        KeyCode::Char('v') => Action::ToggleSelect,
        KeyCode::Char('R') => Action::Refresh,
        KeyCode::Char('?') => Action::Help,
        KeyCode::Down => Action::Down,
        KeyCode::Up => Action::Up,
        KeyCode::Enter => Action::OpenOrToggle,
        KeyCode::Right => Action::Expand,
        KeyCode::Backspace => Action::CollapseOrParent,
        KeyCode::Left => Action::CollapseOrParent,
        KeyCode::Tab => Action::Preview,
        KeyCode::Delete => Action::Delete,
        KeyCode::Esc => Action::ClearSelect,
        _ => Action::Nothing,
    }
}

fn with_ctrl(code: KeyCode) -> (r: Action)
    ensures
        r == ctrl_action(code),
{
    match code {
        KeyCode::Char('v') => Action::VSplit,
        KeyCode::Char('x') => Action::HSplit,
        KeyCode::Char(']') => Action::CdInto,
        KeyCode::Char('r') => Action::RenameOmitFilename,
        KeyCode::Char('k') => Action::FileInfo,
        _ => Action::Nothing,
    }
}

fn resolve_pending(pending: &str, key: Key) -> (r: (Action, String))
    requires
        pending@.len() > 0,
    ensures
        (r.0, r.1@) == resolved(key, pending@),
{
    proof {
        reveal_strlit("g");
        reveal_strlit("]");
        reveal_strlit("[");
        reveal_strlit("b");
        reveal_strlit("bm");
        assert("g"@[0] == 'g' && "]"@[0] == ']' && "["@[0] == '[' && "b"@[0] == 'b');
        assert("bm"@.len() == 2);
    }
    let none = String::new();
    assert(none@ =~= Seq::empty());
    if same_text(pending, "g") {
        let action = match key.code {
            KeyCode::Char('y') => Action::CopyAbspath,
            KeyCode::Char('e') => Action::CopyFilename,
            KeyCode::Char('?') => Action::Help,
            _ => Action::Nothing,
        };
        return (action, none);
    }
    if same_text(pending, "]") {
        let action = match key.code {
            KeyCode::Char('c') => Action::NextGit,
            _ => Action::Nothing,
        };
        return (action, none);
    }
    if same_text(pending, "[") {
        let action = match key.code {
            KeyCode::Char('c') => Action::PrevGit,
            _ => Action::Nothing,
        };
        return (action, none);
    }
    if same_text(pending, "b") {
        return match key.code {
            KeyCode::Char('d') => (Action::BulkDelete, none),
            KeyCode::Char('t') => (Action::BulkTrash, none),
            KeyCode::Char('m') => (Action::Nothing, "bm".to_owned()),
            _ => (Action::Nothing, none),
        };
    }
    if same_text(pending, "bm") {
        let action = match key.code {
            KeyCode::Char('v') => Action::BulkMove,
            _ => Action::Nothing,
        };
        return (action, none);
    }
    (Action::Nothing, none)
}

/// What a key asks for after the keys of `pending`, and the keys of the
/// sequence that it begins or goes on with.
pub fn resolve(key: Key, pending: &str) -> (r: (Action, String))
    ensures
        (r.0, r.1@) == resolved(key, pending@),
{
    if !pending.is_empty() {
        return resolve_pending(pending, key);
    }
    let none = String::new();
    assert(none@ =~= Seq::empty());
    if key.ctrl {
        return (with_ctrl(key.code), none);
    }
    match key.code {
        KeyCode::Char(c) => {
            if c == 'g' || c == ']' || c == '[' || c == 'b' {
                let mut begun = String::new();
                begun.push(c);
                assert(begun@ =~= seq![c]);
                return (Action::Nothing, begun);
            }
        },
        _ => {},
    }
    (plain(key.code), none)
}

/// A sequence that has begun ends with the second key after its first at the
/// latest, and a key that asks for something ends it.
pub proof fn law_sequences_end(pending: Seq<char>, second: Key, third: Key)
    requires
        pending.len() > 0,
    ensures
        resolved(second, pending).1.len() == 0 || resolved(
            third,
            resolved(second, pending).1,
        ).1.len() == 0,
        resolved(second, pending).0 != Action::Nothing ==> resolved(second, pending).1.len() == 0,
{
    reveal_strlit("b");
    reveal_strlit("bm");
    assert("bm"@.len() == 2);
    assert("b"@.len() == 1);
}

} // verus!
