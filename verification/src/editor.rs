//! How a file is brought into the editor that runs beside the tree: which
//! command to run or which line to send, with the path quoted.

use vstd::prelude::*;

use crate::path::{join_text, Path};
use crate::text::{join2, join3, lossy_text, pieces, read_lossy, replace_all};
use crate::text::{replace_char, replaced, replaced_all, same_text, split, split_whitespace};
use crate::text::{to_chars, views, words};

verus! {

/// Where a file is to be opened.
#[derive(Clone, Copy, Debug, PartialEq, Eq, Structural)]
pub enum OpenMode {
    Open,
    VSplit,
    HSplit,
}

impl OpenMode {
    /// The editor's command that lets the user pick a split.
    pub open spec fn spec_helix_cmd(self) -> Seq<char> {
        match self {
            OpenMode::Open => ":open-pick"@,
            OpenMode::VSplit => ":vsplit-pick"@,
            OpenMode::HSplit => ":hsplit-pick"@,
        }
    }

    /// The editor's plain command.
    pub open spec fn spec_helix_cmd_plain(self) -> Seq<char> {
        match self {
            OpenMode::Open => ":open"@,
            OpenMode::VSplit => ":vsplit"@,
            OpenMode::HSplit => ":hsplit"@,
        }
    }

    /// The name of the mode, for templates and scripts.
    pub open spec fn spec_name(self) -> Seq<char> {
        match self {
            OpenMode::Open => "open"@,
            OpenMode::VSplit => "vsplit"@,
            OpenMode::HSplit => "hsplit"@,
        }
    }

    /// The editor's command that lets the user pick a split.
    pub fn helix_cmd(self) -> (r: &'static str)
        ensures
            r@ == self.spec_helix_cmd(),
    {
        match self {
            OpenMode::Open => ":open-pick",
            OpenMode::VSplit => ":vsplit-pick",
            OpenMode::HSplit => ":hsplit-pick",
        }
    }

    /// The editor's plain command.
    pub fn helix_cmd_plain(self) -> (r: &'static str)
        ensures
            r@ == self.spec_helix_cmd_plain(),
    {
        match self {
            OpenMode::Open => ":open",
            OpenMode::VSplit => ":vsplit",
            OpenMode::HSplit => ":hsplit",
        }
    }

    /// The name of the mode, for templates and scripts.
    pub fn name(self) -> (r: &'static str)
        ensures
            r@ == self.spec_name(),
    {
        match self {
            OpenMode::Open => "open",
            OpenMode::VSplit => "vsplit",
            OpenMode::HSplit => "hsplit",
        }
    }
}

/// A text in single quotes for a shell. A quote in it ends the quoting, is
/// written behind a backslash, and begins it again.
pub open spec fn posix_quoted(s: Seq<char>) -> Seq<char> {
    "'"@ + replaced(s, '\'', "'\\''"@) + "'"@
}

/// A text in single quotes for the editor's command line. A quote in it is
/// written twice.
pub open spec fn helix_quoted(s: Seq<char>) -> Seq<char> {
    "'"@ + replaced(s, '\'', "''"@) + "'"@
}

/// Quotes a path for a shell.
pub fn posix_quote(p: &Path) -> (r: String)
    ensures
        r@ == posix_quoted(lossy_text(p@)),
{
    let text = p.display();
    join3("'", replace_char(text.as_str(), '\'', "'\\''").as_str(), "'")
}

/// Quotes a path for the editor's command line.
pub fn helix_quote(p: &Path) -> (r: String)
    ensures
        r@ == helix_quoted(lossy_text(p@)),
{
    let text = p.display();
    join3("'", replace_char(text.as_str(), '\'', "''").as_str(), "'")
}

/// What a shell reads from a word that is made of pieces in single quotes and
/// of characters behind a backslash; `None` for anything else.
pub open spec fn shell_word(s: Seq<char>, quoted: bool) -> Option<Seq<char>>
    decreases s.len(),
{
    if s.len() == 0 {
        if quoted {
            None
        } else {
            Some(s)
        }
    } else if s[0] == '\'' {
        shell_word(s.skip(1), !quoted)
    } else if quoted {
        match shell_word(s.skip(1), true) {
            Some(rest) => Some(seq![s[0]] + rest),
            None => None,
        }
    } else if s[0] == '\\' && s.len() >= 2 {
        match shell_word(s.skip(2), false) {
            Some(rest) => Some(seq![s[1]] + rest),
            None => None,
        }
    } else {
        None
    }
}

/// A quoted text is one word for a shell, and that word is the text: nothing in
/// it is expanded, and nothing ends it early.
pub proof fn law_posix_quote_is_literal(s: Seq<char>)
    ensures
        shell_word(posix_quoted(s), false) == Some(s),
{
    reveal_strlit("'");
    let q = posix_quoted(s);
    let inner = replaced(s, '\'', "'\\''"@) + "'"@;
    assert(q =~= "'"@ + inner);
    assert(q[0] == '\'');
    assert(q.skip(1) =~= inner);
    lemma_posix_inner(s);
}

proof fn lemma_posix_inner(s: Seq<char>)
    ensures
        shell_word(replaced(s, '\'', "'\\''"@) + "'"@, true) == Some(s),
    decreases s.len(),
{
    reveal_strlit("'");
    reveal_strlit("'\\''");
    let esc = "'\\''"@;
    let end = "'"@;
    let w = replaced(s, '\'', esc) + end;
    if s.len() == 0 {
        assert(w =~= end);
        assert(w.skip(1) =~= Seq::empty());
        assert(shell_word(w.skip(1), false) == Some(w.skip(1)));
        assert(s =~= w.skip(1));
    } else {
        lemma_posix_inner(s.skip(1));
        let rest = replaced(s.skip(1), '\'', esc) + end;
        if s[0] == '\'' {
            assert(w =~= esc + rest);
            assert(w[0] == '\'' && w[1] == '\\' && w[2] == '\'' && w[3] == '\'');
            let a = w.skip(1);
            let b = a.skip(2);
            let c = b.skip(1);
            assert(a[0] == '\\' && a[1] == '\'');
            assert(b[0] == '\'');
            assert(c =~= rest);
            assert(shell_word(c, true) == Some(s.skip(1)));
            assert(shell_word(b, false) == Some(s.skip(1)));
            assert(seq![s[0]] + s.skip(1) =~= s);
            assert(shell_word(a, false) == Some(s));
        } else {
            assert(w =~= seq![s[0]] + rest);
            assert(w[0] == s[0]);
            assert(w.skip(1) =~= rest);
            assert(seq![s[0]] + s.skip(1) =~= s);
        }
    }
}

/// What the editor reads from the inside of a word in single quotes, up to the
/// quote that ends it; `None` when the word ends early or not at all.
pub open spec fn helix_word(s: Seq<char>) -> Option<Seq<char>>
    decreases s.len(),
{
    if s.len() == 0 {
        None
    } else if s[0] != '\'' {
        match helix_word(s.skip(1)) {
            Some(rest) => Some(seq![s[0]] + rest),
            None => None,
        }
    } else if s.len() >= 2 && s[1] == '\'' {
        match helix_word(s.skip(2)) {
            Some(rest) => Some(seq![s[0]] + rest),
            None => None,
        }
    } else if s.len() == 1 {
        Some(Seq::empty())
    } else {
        None
    }
}

/// A quoted text is one word for the editor, and that word is the text.
pub proof fn law_helix_quote_is_literal(s: Seq<char>)
    ensures
        helix_quoted(s)[0] == '\'',
        helix_word(helix_quoted(s).skip(1)) == Some(s),
{
    reveal_strlit("'");
    let q = helix_quoted(s);
    let inner = replaced(s, '\'', "''"@) + "'"@;
    assert(q =~= "'"@ + inner);
    assert(q.skip(1) =~= inner);
    lemma_helix_inner(s);
}

proof fn lemma_helix_inner(s: Seq<char>)
    ensures
        helix_word(replaced(s, '\'', "''"@) + "'"@) == Some(s),
    decreases s.len(),
{
    reveal_strlit("'");
    reveal_strlit("''");
    let esc = "''"@;
    let end = "'"@;
    let w = replaced(s, '\'', esc) + end;
    if s.len() == 0 {
        assert(w =~= end);
        assert(s =~= Seq::empty());
    } else {
        lemma_helix_inner(s.skip(1));
        let rest = replaced(s.skip(1), '\'', esc) + end;
        assert(seq![s[0]] + s.skip(1) =~= s);
        if s[0] == '\'' {
            assert(w =~= esc + rest);
            assert(w[0] == '\'' && w[1] == '\'');
            assert(w.skip(2) =~= rest);
        } else {
            assert(w =~= seq![s[0]] + rest);
            assert(w.skip(1) =~= rest);
        }
    }
}

/// Whether a character may stand in the name of a session.
pub open spec fn is_session_char(c: char) -> bool {
    ||| 'a' <= c <= 'z'
    ||| 'A' <= c <= 'Z'
    ||| '0' <= c <= '9'
    ||| c == '-'
    ||| c == '_'
}

/// A name with an underscore in place of everything that may not stand in it.
pub open spec fn sanitized(s: Seq<char>) -> Seq<char> {
    s.map_values(
        |c: char|
            if is_session_char(c) {
                c
            } else {
                '_'
            },
    )
}

/// Makes a name fit for a session.
pub fn sanitize(s: &str) -> (r: String)
    ensures
        r@ == sanitized(s@),
{
    let v = to_chars(s);
    let mut out = String::new();
    let mut i: usize = 0;
    while i < v.len()
        invariant
            v@ == s@,
            i <= v@.len(),
            out@ == sanitized(s@.take(i as int)),
        decreases v@.len() - i,
    {
        let c = v[i];
        let ghost held = out@;
        if ('a' <= c && c <= 'z') || ('A' <= c && c <= 'Z') || ('0' <= c && c <= '9') || c == '-'
            || c == '_' {
            out.push(c);
        } else {
            out.push('_');
        }
        assert(out@ =~= sanitized(s@.take(i + 1)));
        i += 1;
    }
    assert(s@.take(i as int) =~= s@);
    out
}

/// The name of the session: that of the multiplexer, made fit, or `default`.
pub fn session_name(raw: Option<&str>) -> (r: String)
    ensures
        r@ == sanitized(match raw {
            Some(s) => s@,
            None => "default"@,
        }),
{
    match raw {
        Some(s) => sanitize(s),
        None => sanitize("default"),
    }
}

/// The runtime directory: the one that was given, or `/tmp`.
pub fn runtime_dir(given: Option<&[u8]>) -> (r: Path)
    ensures
        r@ == if given is Some && given->0@.len() > 0 {
            given->0@
        } else {
            vstd::utf8::encode_utf8("/tmp"@)
        },
{
    if let Some(p) = given {
        if p.len() > 0 {
            return Path::from_bytes(vstd::slice::slice_to_vec(p));
        }
    }
    Path::new("/tmp")
}

/// Where the editor listens: the place that was given, if any, and otherwise a
/// file named after the session, in a folder of the runtime directory.
pub fn helix_socket_path(given: Option<&[u8]>, runtime: &Path, session: &str) -> (r: Path)
    ensures
        r@ == if given is Some && given->0@.len() > 0 {
            given->0@
        } else {
            join_text(
                join_text(runtime@, vstd::utf8::encode_utf8("helix"@)),
                vstd::utf8::encode_utf8(session@ + ".sock"@),
            )
        },
{
    if let Some(p) = given {
        if p.len() > 0 {
            return Path::from_bytes(vstd::slice::slice_to_vec(p));
        }
    }
    runtime.join(&Path::new("helix")).join(&Path::new(join2(session, ".sock").as_str()))
}

/// Where the dispatch script is looked for, below the home directory.
pub fn dispatch_script(home: &Path) -> (r: Path)
    ensures
        r@ == join_text(
            home@,
            vstd::utf8::encode_utf8("projects/helix-files/scripts/dispatch-to-editor.sh"@),
        ),
{
    home.join(&Path::new("projects/helix-files/scripts/dispatch-to-editor.sh"))
}

/// A path, taken in the working directory if it does not begin at the root.
pub fn absolutize(path: &Path, cwd: Option<&Path>) -> (r: Path)
    ensures
        r@ == if path@.len() > 0 && path@[0] == 47u8 {
            path@
        } else {
            match cwd {
                Some(dir) => join_text(dir@, path@),
                None => path@,
            }
        },
{
    if path.is_absolute() {
        return path.copy();
    }
    match cwd {
        Some(dir) => dir.join(path),
        None => path.copy(),
    }
}

/// What brings a file into the editor.
#[derive(Debug)]
pub enum OpenPlan {
    /// A command for the shell.
    Shell(String),
    /// The dispatch script, with the mode and the path. If it fails, the
    /// editor's socket is tried.
    Script { script: Path, mode: OpenMode, path: Path },
    /// The editor's socket.
    Socket { mode: OpenMode, path: Path },
}

/// The command that a template comes to.
pub open spec fn filled_template(tmpl: Seq<char>, mode: OpenMode, path: Seq<u8>) -> Seq<char> {
    replaced_all(
        replaced_all(tmpl, "{mode}"@, mode.spec_name()),
        "{path}"@,
        posix_quoted(lossy_text(path)),
    )
}

/// How to open a file: by the user's command if there is one, and otherwise by
/// the script if there is one.
pub fn open(path: &Path, mode: OpenMode, open_command: Option<&str>, script: Option<&Path>) -> (r:
    OpenPlan)
    ensures
        match open_command {
            Some(tmpl) => r is Shell && r->Shell_0@ == filled_template(tmpl@, mode, path@),
            None => match script {
                Some(s) => r is Script && r->Script_script@ == s@ && r->Script_mode == mode
                    && r->Script_path@ == path@,
                None => r is Socket && r->Socket_mode == mode && r->Socket_path@ == path@,
            },
        },
{
    match open_command {
        Some(tmpl) => {
            proof {
                reveal_strlit("{mode}");
                reveal_strlit("{path}");
            }
            let named = replace_all(tmpl, "{mode}", mode.name());
            OpenPlan::Shell(replace_all(named.as_str(), "{path}", posix_quote(path).as_str()))
        },
        None => match script {
            Some(s) => OpenPlan::Script { script: s.copy(), mode, path: path.copy() },
            None => OpenPlan::Socket { mode, path: path.copy() },
        },
    }
}

/// The line that opens a file in the editor. Only where there is a multiplexer
/// to bring the editor to the front may the user be asked to pick a split.
pub fn open_line(path: &Path, mode: OpenMode, multiplexer: bool) -> (r: String)
    ensures
        r@ == opening_line(path@, mode, multiplexer),
{
    let cmd = if multiplexer {
        mode.helix_cmd()
    } else {
        mode.helix_cmd_plain()
    };
    join3(cmd, " ", helix_quote(path).as_str())
}

/// How it stands with the editor's socket.
#[derive(Clone, Copy, Debug, PartialEq, Eq, Structural)]
pub enum SocketState {
    /// There is none.
    Absent,
    /// There is one, and nothing was sent yet.
    Ready,
    /// The line was sent.
    Sent,
    /// The line could not be sent.
    Failed,
}

/// What is done next to bring a file into the editor.
#[derive(Debug)]
pub enum DispatchStep {
    /// Send a line to the editor's socket.
    Send(String),
    /// Bring the editor to the front.
    Focus,
    /// Start another editor in a pane of its own.
    NewPane(Path),
    Done,
}

/// What is done next, with texts in place of the string and the path.
pub enum DispatchView {
    Send(Seq<char>),
    Focus,
    NewPane(Seq<u8>),
    Done,
}

impl View for DispatchStep {
    type V = DispatchView;

    open spec fn view(&self) -> DispatchView {
        match self {
            DispatchStep::Send(line) => DispatchView::Send(line@),
            DispatchStep::Focus => DispatchView::Focus,
            DispatchStep::NewPane(path) => DispatchView::NewPane(path@),
            DispatchStep::Done => DispatchView::Done,
        }
    }
}

/// The line that opens a file in the editor.
pub open spec fn opening_line(path: Seq<u8>, mode: OpenMode, multiplexer: bool) -> Seq<char> {
    (if multiplexer {
        mode.spec_helix_cmd()
    } else {
        mode.spec_helix_cmd_plain()
    }) + " "@ + helix_quoted(lossy_text(path))
}

/// What is done next: the socket is tried first, and where that does not work,
/// a pane is opened, if there is a multiplexer to open one.
pub open spec fn dispatch_next(
    path: Seq<u8>,
    mode: OpenMode,
    socket: SocketState,
    multiplexer: bool,
) -> DispatchView {
    match socket {
        SocketState::Ready => DispatchView::Send(opening_line(path, mode, multiplexer)),
        SocketState::Sent => if multiplexer {
            DispatchView::Focus
        } else {
            DispatchView::Done
        },
        SocketState::Absent | SocketState::Failed => if multiplexer {
            DispatchView::NewPane(path)
        } else {
            DispatchView::Done
        },
    }
}

/// What is done next to bring a file into the editor, where neither a command
/// nor a script did so.
pub fn internal_dispatch(
    path: &Path,
    mode: OpenMode,
    socket: SocketState,
    multiplexer: bool,
) -> (r: DispatchStep)
    ensures
        r@ == dispatch_next(path@, mode, socket, multiplexer),
{
    match socket {
        SocketState::Ready => DispatchStep::Send(open_line(path, mode, multiplexer)),
        SocketState::Sent => if multiplexer {
            DispatchStep::Focus
        } else {
            DispatchStep::Done
        },
        SocketState::Absent | SocketState::Failed => if multiplexer {
            DispatchStep::NewPane(path.copy())
        } else {
            DispatchStep::Done
        },
    }
}

/// Without a multiplexer no other program gets the terminal that the tree is
/// drawn on: all that is ever done is to send a line.
pub proof fn law_terminal_is_left_alone(path: Seq<u8>, mode: OpenMode, socket: SocketState)
    ensures
        dispatch_next(path, mode, socket, false) is Send || dispatch_next(path, mode, socket, false)
            is Done,
{
}

/// A file that the editor was told to open is not opened a second time.
pub proof fn law_opened_once(path: Seq<u8>, mode: OpenMode, multiplexer: bool)
    ensures
        dispatch_next(path, mode, SocketState::Sent, multiplexer) is Focus || dispatch_next(
            path,
            mode,
            SocketState::Sent,
            multiplexer,
        ) is Done,
{
}

/// The line that shows a file in the editor without bringing it to the front.
pub fn preview_line(path: &Path) -> (r: String)
    ensures
        r@ == ":open "@ + helix_quoted(lossy_text(path@)),
{
    join2(":open ", helix_quote(path).as_str())
}

/// Whether a line of a list of panes is that of the terminal with a title.
pub open spec fn is_pane(line: Seq<char>, title: Seq<char>) -> bool {
    let w = words(line);
    w.len() >= 3 && w[1] == "terminal"@ && w[2] == title
}

/// The number of the first terminal pane with a title, from a list of panes.
pub open spec fn pane_in(lines: Seq<Seq<char>>, title: Seq<char>) -> Option<Seq<char>>
    decreases lines.len(),
{
    if lines.len() == 0 {
        None
    } else if is_pane(lines[0], title) {
        Some(words(lines[0])[0])
    } else {
        pane_in(lines.skip(1), title)
    }
}

/// Finds the number of the terminal pane with a title in what the multiplexer
/// printed.
pub fn resolve_pane_id(printed: &[u8], title: &str) -> (r: Option<String>)
    ensures
        match r {
            Some(id) => pane_in(pieces(lossy_text(printed@), '\n'), title@) == Some(id@),
            None => pane_in(pieces(lossy_text(printed@), '\n'), title@) is None,
        },
{
    let text = read_lossy(printed);
    let lines = split(text.as_str(), '\n');
    let ghost ls = pieces(text@, '\n');
    let mut i: usize = 0;
    assert(ls.skip(0) =~= ls);
    while i < lines.len()
        invariant
            i <= lines@.len(),
            views(lines@) == ls,
            ls == pieces(lossy_text(printed@), '\n'),
            pane_in(ls, title@) == pane_in(ls.skip(i as int), title@),
        decreases lines@.len() - i,
    {
        let f = split_whitespace(lines[i].as_str());
        let ghost w = words(lines@[i as int]@);
        proof {
            assert(views(lines@)[i as int] == lines@[i as int]@);
            assert(ls.skip(i as int)[0] == lines@[i as int]@);
            assert(ls.skip(i as int).skip(1) =~= ls.skip(i + 1));
            assert(views(f@).len() == f@.len());
            if f@.len() >= 3 {
                assert(views(f@)[0] == f@[0]@);
                assert(views(f@)[1] == f@[1]@);
                assert(views(f@)[2] == f@[2]@);
            }
        }
        if f.len() >= 3 && same_text(f[1].as_str(), "terminal") && same_text(f[2].as_str(), title) {
            return Some(f[0].clone());
        }
        i += 1;
    }
    assert(ls.skip(i as int) =~= Seq::empty());
    None
}

} // verus!
