//! What holds of how the program is started and of what it goes by.

use vstd::prelude::*;

use crate::cli::{asked, OptsView};
use crate::config::config_home_text;
use crate::editor::{dispatch_next, opening_line, pane_in, is_pane, sanitized, is_session_char};
use crate::document::{table_at, text_at};
use crate::editor::{filled_template, helix_quoted, posix_quoted, DispatchView, OpenMode};
use crate::editor::SocketState;
use crate::fuzzy::{clashes, fuzzy_score, matches_query};
use crate::path::join_text;
use crate::text::{all_ascii, lossy_text, replaced_all, words};
use crate::text_laws::law_replacing_a_pattern;
use crate::watcher::{churn_below, ignored_below, is_churn, is_churn_comp};

verus! {

proof fn lemma_flags_differ()
    ensures
        "-h"@.len() == 2,
        "--help"@.len() == 6,
        "--root"@.len() == 6,
        "--theme"@.len() == 7,
        "--root="@.len() == 7,
        "--theme="@.len() == 8,
        "--help"@[2] == 'h',
        "--root"@[2] == 'r',
        "--theme"@[2] == 't',
        "--root="@[2] == 'r',
        "--theme="@[2] == 't',
        "--root="@[6] == '=',
        "-h"@[0] == '-',
        "--help"@[0] == '-',
        "--root"@[0] == '-',
        "--theme"@[0] == '-',
        "--root="@[0] == '-',
        "--theme="@[0] == '-',
{
    reveal_strlit("-h");
    reveal_strlit("--help");
    reveal_strlit("--root");
    reveal_strlit("--theme");
    reveal_strlit("--root=");
    reveal_strlit("--theme=");
}

/// The arguments are gone through from the first to the last. `--root` and
/// `--theme` take the argument behind them, and fail without one; the forms with
/// an equals sign take what stands behind that.
pub proof fn law_flags_take_values(v: Seq<char>, rest: Seq<Seq<char>>, o: OptsView)
    ensures
        asked(Seq::empty(), o) == Ok::<OptsView, Seq<char>>(o),
        asked(seq!["--root"@, v] + rest, o) == asked(rest, OptsView { root: Some(v), ..o }),
        asked(seq!["--theme"@, v] + rest, o) == asked(rest, OptsView { theme: Some(v), ..o }),
        asked(seq!["--root"@], o) is Err,
        asked(seq!["--theme"@], o) is Err,
        asked(seq!["--root="@ + v] + rest, o) == asked(rest, OptsView { root: Some(v), ..o }),
        asked(seq!["--theme="@ + v] + rest, o) == asked(rest, OptsView { theme: Some(v), ..o }),
{
    lemma_flags_differ();
    let a = seq!["--root"@, v] + rest;
    assert(a[0] == "--root"@);
    assert(a.skip(1)[0] == v);
    assert(a.skip(1).skip(1) =~= rest);
    let b = seq!["--theme"@, v] + rest;
    assert(b[0] == "--theme"@);
    assert(b.skip(1)[0] == v);
    assert(b.skip(1).skip(1) =~= rest);
    assert(seq!["--root"@].skip(1).len() == 0);
    assert(seq!["--theme"@].skip(1).len() == 0);
    let r = "--root="@ + v;
    let c = seq![r] + rest;
    assert(c[0] == r);
    assert(c.skip(1) =~= rest);
    assert(r.take(7) =~= "--root="@);
    assert(r.skip(7) =~= v);
    assert(r[2] == 'r' && r[6] == '=' && r.len() >= 7);
    let t = "--theme="@ + v;
    let d = seq![t] + rest;
    assert(d[0] == t);
    assert(d.skip(1) =~= rest);
    assert(t.take(8) =~= "--theme="@);
    assert(t.skip(8) =~= v);
    assert(t[2] == 't' && t.len() >= 8);
    assert(t.take(7)[2] == 't');
}

/// `-h` and `--help` ask for help; an argument that is no flag is the root; any
/// other flag is refused.
pub proof fn law_other_arguments(a: Seq<char>, rest: Seq<Seq<char>>, o: OptsView)
    ensures
        asked(seq!["-h"@] + rest, o) == asked(rest, OptsView { help: true, ..o }),
        asked(seq!["--help"@] + rest, o) == asked(rest, OptsView { help: true, ..o }),
        a.len() == 0 || a[0] != '-' ==> asked(seq![a] + rest, o) == asked(
            rest,
            OptsView { root: Some(a), ..o },
        ),
        a.len() > 0 && a[0] == '-' && a != "-h"@ && a != "--help"@ && a != "--root"@ && a
            != "--theme"@ && !crate::text::begins_with(a, "--root="@) && !crate::text::begins_with(
            a,
            "--theme="@,
        ) ==> asked(seq![a] + rest, o) is Err,
{
    lemma_flags_differ();
    assert((seq!["-h"@] + rest).skip(1) =~= rest);
    assert((seq!["--help"@] + rest).skip(1) =~= rest);
    assert((seq![a] + rest).skip(1) =~= rest);
    assert((seq![a] + rest)[0] == a);
    if a.len() == 0 || a[0] != '-' {
        assert(crate::text::begins_with(a, "--root="@) ==> a.take(7)[0] == a[0]);
        assert(crate::text::begins_with(a, "--theme="@) ==> a.take(8)[0] == a[0]);
    }
}

/// The configuration is looked for where the environment says; where that says
/// nothing, or an empty text, in `.config` below the home directory.
pub proof fn law_config_home(given: Seq<u8>, home: Option<Seq<u8>>)
    ensures
        given.len() > 0 ==> config_home_text(Some(given), home) == Some(given),
        given.len() == 0 ==> config_home_text(Some(given), home) == config_home_text(None, home),
        home matches Some(h) ==> config_home_text(None, home) == Some(
            join_text(h, vstd::utf8::encode_utf8(".config"@)),
        ),
        home is None ==> config_home_text(None, home) is None,
{
}

/// The commands and names of the three ways to open a file, told apart.
pub proof fn law_open_modes()
    ensures
        OpenMode::Open.spec_helix_cmd() == ":open-pick"@,
        OpenMode::VSplit.spec_helix_cmd() == ":vsplit-pick"@,
        OpenMode::HSplit.spec_helix_cmd() == ":hsplit-pick"@,
        OpenMode::Open.spec_helix_cmd_plain() == ":open"@,
        OpenMode::VSplit.spec_helix_cmd_plain() == ":vsplit"@,
        OpenMode::HSplit.spec_helix_cmd_plain() == ":hsplit"@,
        OpenMode::Open.spec_name() == "open"@,
        OpenMode::VSplit.spec_name() == "vsplit"@,
        OpenMode::HSplit.spec_name() == "hsplit"@,
{
}

/// What is sent to the editor: the command of the mode, a blank and the path in
/// quotes. Only with a multiplexer may the editor ask which split to take.
pub proof fn law_line_for_the_editor(path: Seq<u8>, mode: OpenMode)
    ensures
        opening_line(path, mode, true) == mode.spec_helix_cmd() + " "@ + helix_quoted(
            lossy_text(path),
        ),
        opening_line(path, mode, false) == mode.spec_helix_cmd_plain() + " "@ + helix_quoted(
            lossy_text(path),
        ),
{
}

/// A file goes to the editor's socket where there is one. Once it was sent the
/// editor is brought to the front, with a multiplexer; where it could not be, a
/// new editor is started, with a multiplexer. Without one nothing follows.
pub proof fn law_dispatch(path: Seq<u8>, mode: OpenMode, multiplexer: bool)
    ensures
        dispatch_next(path, mode, SocketState::Ready, multiplexer) == DispatchView::Send(
            opening_line(path, mode, multiplexer),
        ),
        dispatch_next(path, mode, SocketState::Sent, true) is Focus,
        dispatch_next(path, mode, SocketState::Absent, true) == DispatchView::NewPane(path),
        dispatch_next(path, mode, SocketState::Failed, true) == DispatchView::NewPane(path),
        dispatch_next(path, mode, SocketState::Sent, false) is Done,
        dispatch_next(path, mode, SocketState::Absent, false) is Done,
        dispatch_next(path, mode, SocketState::Failed, false) is Done,
{
}

/// The name of a session is as long as what it was made of; letters, digits,
/// hyphens and underscores stay, and anything else becomes an underscore.
pub proof fn law_session_names(s: Seq<char>, i: int)
    requires
        0 <= i < s.len(),
    ensures
        sanitized(s).len() == s.len(),
        is_session_char(sanitized(s)[i]),
        sanitized(s)[i] == if ('a' <= s[i] <= 'z') || ('A' <= s[i] <= 'Z') || ('0' <= s[i] <= '9')
            || s[i] == '-' || s[i] == '_' {
            s[i]
        } else {
            '_'
        },
{
}

/// The pane that is found is the first one that is a terminal with the title,
/// and its first word is its name; where there is none, none is found.
pub proof fn law_pane_is_the_first(lines: Seq<Seq<char>>, title: Seq<char>, i: int)
    requires
        0 <= i < lines.len(),
        words(lines[i]).len() >= 3,
        words(lines[i])[1] == "terminal"@,
        words(lines[i])[2] == title,
        forall|j: int| 0 <= j < i ==> !is_pane(#[trigger] lines[j], title),
    ensures
        pane_in(lines, title) == Some(words(lines[i])[0]),
    decreases lines.len(),
{
    if i > 0 {
        let rest = lines.skip(1);
        assert(!is_pane(lines[0], title));
        assert(rest[i - 1] == lines[i]);
        assert forall|j: int| 0 <= j < i - 1 implies !is_pane(#[trigger] rest[j], title) by {
            assert(rest[j] == lines[j + 1]);
        }
        law_pane_is_the_first(rest, title, i - 1);
    }
}

/// The names of directories that change too much, and no others.
pub proof fn law_churn_names(name: Seq<char>)
    ensures
        is_churn("node_modules"@),
        is_churn("target"@),
        is_churn("build"@),
        is_churn(".ccls-cache"@),
        is_churn(".zig-cache"@),
        is_churn(name) ==> name == "node_modules"@ || name == "target"@ || name == "build"@ || name
            == ".ccls-cache"@ || name == ".zig-cache"@,
        is_churn(name) ==> is_churn_comp(vstd::utf8::encode_utf8(name)),
{
}

/// Whether a directory changes too much, somewhere in a path.
pub open spec fn passes_churn(rel: Seq<Seq<u8>>, to: int) -> bool {
    exists|i: int| 0 <= i < to && is_churn_comp(#[trigger] rel[i])
}

/// What changes below a directory that changes too much is ignored, however
/// deep below the root that directory lies; the directory itself, and anything
/// that is not below one, is not. What counts as inside includes the directory.
pub proof fn law_churn_is_ignored(root: Seq<Seq<u8>>, rel: Seq<Seq<u8>>)
    ensures
        ignored_below(root, root + rel) == passes_churn(rel, rel.len() - 1),
        churn_below(root, root + rel) == passes_churn(rel, rel.len() as int),
{
    let p = root + rel;
    assert(root =~= p.subrange(0, root.len() as int));
    if passes_churn(rel, rel.len() - 1) {
        let i = choose|i: int| 0 <= i < rel.len() - 1 && is_churn_comp(#[trigger] rel[i]);
        assert(p[root.len() + i] == rel[i]);
    }
    if passes_churn(rel, rel.len() as int) {
        let i = choose|i: int| 0 <= i < rel.len() && is_churn_comp(#[trigger] rel[i]);
        assert(p[root.len() + i] == rel[i]);
    }
    if ignored_below(root, p) {
        let i = choose|i: int|
            root.len() <= i < p.len() - 1 && is_churn_comp(#[trigger] p[i]);
        assert(rel[i - root.len()] == p[i]);
    }
    if churn_below(root, p) {
        let i = choose|i: int| root.len() <= i < p.len() && is_churn_comp(#[trigger] p[i]);
        assert(rel[i - root.len()] == p[i]);
    }
}

/// What lies outside the root is never ignored.
pub proof fn law_outside_is_not_ignored(root: Seq<Seq<u8>>, path: Seq<Seq<u8>>)
    requires
        !root.is_prefix_of(path),
    ensures
        !ignored_below(root, path),
        !churn_below(root, path),
{
}

/// Nothing typed matches every name. Otherwise a name matches exactly when it
/// has a score, as long as neither it nor what is typed is out of all
/// proportion.
pub proof fn law_matching(query: Seq<char>, name: Seq<char>)
    ensures
        matches_query(Seq::empty(), name),
        query.len() > 0 && all_ascii(query) && query.len() <= 2520 && vstd::utf8::encode_utf8(
            name,
        ).len() <= 65535 && !clashes(query, name) ==> matches_query(query, name) == (fuzzy_score(
            query,
            name,
        ) is Some),
        query.len() > 0 && matches_query(query, name) ==> fuzzy_score(query, name) is Some,
{
    let bytes = vstd::utf8::encode_utf8(name).len();
    if bytes <= 65535 {
        assert(bytes * 2520 <= 65535 * 2520) by (nonlinear_arith)
            requires
                bytes <= 65535,
        ;
        assert(65535 * 2520 <= 4294967295);
        assert(usize::MAX >= 4294967295);
    }
}

proof fn lemma_skips_plain(s: Seq<char>, t: Seq<char>, pat: Seq<char>, with: Seq<char>)
    requires
        pat.len() > 0,
        pat[0] == '{',
        !s.contains('{'),
    ensures
        replaced_all(s + t, pat, with) == s + replaced_all(t, pat, with),
    decreases s.len(),
{
    if s.len() == 0 {
        assert(s + t =~= t);
        assert(s + replaced_all(t, pat, with) =~= replaced_all(t, pat, with));
    } else {
        let rest = s.drop_first();
        assert(!rest.contains('{')) by {
            if rest.contains('{') {
                let i = rest.index_of('{');
                assert(s[i + 1] == '{');
            }
        }
        lemma_skips_plain(rest, t, pat, with);
        let all = seq![s[0]] + (rest + t);
        assert(s + t =~= all);
        assert(s[0] != '{');
        assert(!pat.is_prefix_of(all)) by {
            if pat.is_prefix_of(all) {
                assert(pat[0] == all[0]);
            }
        }
        law_replacing_a_pattern(rest + t, s[0], pat, with);
        assert(s + replaced_all(t, pat, with) =~= seq![s[0]] + (rest + replaced_all(t, pat, with)));
    }
}

/// The user's command has the name of the mode and the path, in quotes, where it
/// names them, and is otherwise as it was written.
pub proof fn law_command_is_filled_in(
    a: Seq<char>,
    b: Seq<char>,
    c: Seq<char>,
    mode: OpenMode,
    path: Seq<u8>,
)
    requires
        !a.contains('{'),
        !b.contains('{'),
        !c.contains('{'),
    ensures
        filled_template(a + ("{mode}"@ + (b + ("{path}"@ + c))), mode, path) == a + (
        mode.spec_name() + (b + (posix_quoted(lossy_text(path)) + c))),
{
    let m = "{mode}"@;
    let p = "{path}"@;
    let name = mode.spec_name();
    let quoted = posix_quoted(lossy_text(path));
    reveal_strlit("{mode}");
    reveal_strlit("{path}");
    reveal_strlit("open");
    reveal_strlit("vsplit");
    reveal_strlit("hsplit");
    let none = Seq::<char>::empty();
    // The mode.
    lemma_skips_plain(a, m + (b + (p + c)), m, name);
    law_replacing_a_pattern(b + (p + c), 'x', m, name);
    lemma_skips_plain(b, p + c, m, name);
    lemma_path_stays(c, name);
    let named = a + (name + (b + (p + c)));
    assert(replaced_all(a + (m + (b + (p + c))), m, name) == named);
    // The path.
    assert(!name.contains('{')) by {
        if name.contains('{') {
            let i = name.index_of('{');
            assert(name[i] == '{');
        }
    }
    lemma_skips_plain(a, name + (b + (p + c)), p, quoted);
    lemma_skips_plain(name, b + (p + c), p, quoted);
    lemma_skips_plain(b, p + c, p, quoted);
    law_replacing_a_pattern(c, 'x', p, quoted);
    lemma_skips_plain(c, none, p, quoted);
    assert(c + none =~= c);
    assert(replaced_all(none, p, quoted) == none);
}

/// The place of the path is no place of the mode.
proof fn lemma_path_stays(c: Seq<char>, with: Seq<char>)
    requires
        !c.contains('{'),
    ensures
        replaced_all("{path}"@ + c, "{mode}"@, with) == "{path}"@ + c,
{
    reveal_strlit("{mode}");
    reveal_strlit("{path}");
    let m = "{mode}"@;
    let s = "{path}"@ + c;
    let rest = "path}"@ + c;
    let none = Seq::<char>::empty();
    reveal_strlit("path}");
    assert(s =~= seq!['{'] + rest);
    assert(!m.is_prefix_of(s)) by {
        if m.is_prefix_of(s) {
            assert(m[1] == s[1]);
        }
    }
    law_replacing_a_pattern(rest, '{', m, with);
    assert(!rest.contains('{')) by {
        if rest.contains('{') {
            let i = rest.index_of('{');
            if i < 5 {
                assert("path}"@[i] == '{');
            } else {
                assert(c[i - 5] == '{');
            }
        }
    }
    lemma_skips_plain(rest, none, m, with);
    assert(rest + none =~= rest);
    assert(replaced_all(none, m, with) == none);
}

/// What is asked for in a document is the first entry under its name: its text
/// where it is one, its table where it is one.
pub proof fn law_first_entry_counts(
    key: Seq<char>,
    other: Seq<char>,
    text: Option<Seq<char>>,
    table: Option<Seq<(Seq<char>, Option<Seq<char>>)>>,
    d: Seq<(Seq<char>, Option<Seq<char>>, Option<Seq<(Seq<char>, Option<Seq<char>>)>>)>,
)
    requires
        other != key,
    ensures
        text_at(seq![(key, text, table)] + d, key) == text,
        table_at(seq![(key, text, table)] + d, key) == table,
        text_at(seq![(other, text, table)] + d, key) == text_at(d, key),
        table_at(seq![(other, text, table)] + d, key) == table_at(d, key),
{
    assert((seq![(key, text, table)] + d)[0].0 == key);
    assert((seq![(other, text, table)] + d).skip(1) =~= d);
}

} // verus!
