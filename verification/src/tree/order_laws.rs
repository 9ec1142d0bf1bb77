//! What holds of the order of nodes, of what is laid over them, and of what
//! reading a directory brings.

use vstd::prelude::*;

use crate::diagnostics::{is_below, mode_named, Counts, Diag, Mode, Severity};
use crate::git::GitStatus;
use crate::order::{char_order, law_stable_sort, lex};
use crate::path::comps;
use crate::text::{lowercase, text_order};
use crate::tree::model::{chain_nodes, diag_of, each_with_diag, each_with_status, kept_order};
use crate::tree::model::{last_with, loaded_node, merged_children, new_root, next_in_chain};
use crate::tree::model::{opened_node, refreshed_node, status_of_node, with_diag, with_status, ScanView};
use crate::tree::node::NodeView;
use crate::tree::rows::{shown, OptionsView};
use crate::tree::sort::{law_node_order_ranks, name_parts, node_le, node_order, sort_named};
use crate::tree::sort::SortMode;
use crate::watcher::is_churn;

verus! {

/// Texts are ordered as in a dictionary: by the first character in which they
/// differ, and one that the other goes on from comes first.
pub proof fn law_dictionary_order(same: Seq<char>, x: char, y: char, a: Seq<char>, b: Seq<char>)
    ensures
        x < y ==> text_order(same + (seq![x] + a), same + (seq![y] + b)) < 0,
        x > y ==> text_order(same + (seq![x] + a), same + (seq![y] + b)) > 0,
        text_order(same, same + (seq![x] + a)) < 0,
        text_order(same + (seq![x] + a), same) > 0,
        text_order(same, same) == 0,
    decreases same.len(),
{
    let f = char_order();
    let p = same + (seq![x] + a);
    let q = same + (seq![y] + b);
    if same.len() == 0 {
        assert(p =~= seq![x] + a);
        assert(q =~= seq![y] + b);
        assert(p[0] == x && q[0] == y);
        assert(lex(f, same, same) == 0);
    } else {
        let rest = same.drop_first();
        law_dictionary_order(rest, x, y, a, b);
        assert(p.drop_first() =~= rest + (seq![x] + a));
        assert(q.drop_first() =~= rest + (seq![y] + b));
        assert(p[0] == same[0] && q[0] == same[0]);
    }
}

/// Directories come before files, or after them where files come first, whatever
/// the nodes are sorted by.
pub proof fn law_kinds_stay_apart(a: NodeView, b: NodeView, mode: SortMode)
    requires
        a.is_dir(),
        !b.is_dir(),
    ensures
        node_order(a, b, mode, false) < 0,
        node_order(b, a, mode, false) > 0,
        node_order(a, b, mode, true) > 0,
        node_order(b, a, mode, true) < 0,
{
}

/// Nodes of one kind are sorted by their names, whatever the case; by when they
/// were changed, the last changed first and those of which that is not known at
/// the end; or by their extensions, whatever the case. What is equal in that is
/// sorted by name.
pub proof fn law_sorting(a: NodeView, b: NodeView, files_first: bool)
    requires
        a.is_dir() == b.is_dir(),
    ensures
        node_order(a, b, SortMode::Name, files_first) == text_order(
            lowercase(a.name),
            lowercase(b.name),
        ),
        a.mtime is Some && b.mtime is Some && a.mtime->0 > b.mtime->0 ==> node_order(
            a,
            b,
            SortMode::Modified,
            files_first,
        ) < 0,
        a.mtime is Some && b.mtime is None ==> node_order(a, b, SortMode::Modified, files_first)
            < 0,
        a.mtime is None && b.mtime is Some ==> node_order(a, b, SortMode::Modified, files_first)
            > 0,
        a.mtime == b.mtime ==> node_order(a, b, SortMode::Modified, files_first) == text_order(
            lowercase(a.name),
            lowercase(b.name),
        ),
        ({
            let x = lowercase(name_parts(a.name).1);
            let y = lowercase(name_parts(b.name).1);
            &&& text_order(x, y) < 0 ==> node_order(a, b, SortMode::Extension, files_first) < 0
            &&& text_order(x, y) > 0 ==> node_order(a, b, SortMode::Extension, files_first) > 0
            &&& text_order(x, y) == 0 ==> node_order(a, b, SortMode::Extension, files_first)
                == text_order(lowercase(a.name), lowercase(b.name))
        }),
        node_order(a, b, SortMode::FileType, files_first) == node_order(
            a,
            b,
            SortMode::Extension,
            files_first,
        ),
{
}

/// Of two nodes that are shown the one that comes first in the order is shown
/// first.
pub proof fn law_order_is_kept(s: Seq<NodeView>, opts: OptionsView, i: int, j: int)
    requires
        0 <= i < shown(s, opts).len(),
        0 <= j < shown(s, opts).len(),
        node_order(shown(s, opts)[i], shown(s, opts)[j], opts.sort, opts.files_first) < 0,
        node_order(shown(s, opts)[j], shown(s, opts)[i], opts.sort, opts.files_first) > 0,
    ensures
        i < j,
{
    crate::tree::laws::law_shown_is_sorted(s, opts);
    let le = node_le(opts.sort, opts.files_first);
    if j < i {
        assert(le(shown(s, opts)[j], shown(s, opts)[i]));
    }
}

/// The names of the ways to sort; anything else means by name.
pub proof fn law_sort_names(s: Seq<char>)
    ensures
        sort_named("name"@) == SortMode::Name,
        sort_named("modified"@) == SortMode::Modified,
        sort_named("mtime"@) == SortMode::Modified,
        sort_named("extension"@) == SortMode::Extension,
        sort_named("ext"@) == SortMode::Extension,
        sort_named("filetype"@) == SortMode::FileType,
        sort_named("type"@) == SortMode::FileType,
        sort_named(s) != SortMode::Name ==> s == "modified"@ || s == "mtime"@ || s == "extension"@
            || s == "ext"@ || s == "filetype"@ || s == "type"@,
{
    reveal_strlit("name");
    reveal_strlit("modified");
    reveal_strlit("mtime");
    reveal_strlit("extension");
    reveal_strlit("ext");
    reveal_strlit("filetype");
    reveal_strlit("type");
    assert("name"@[0] == 'n');
    assert("modified"@[0] == 'm' && "modified"@[1] == 'o');
    assert("mtime"@[0] == 'm' && "mtime"@[1] == 't');
    assert("extension"@[0] == 'e' && "extension"@.len() == 9);
    assert("ext"@[0] == 'e' && "ext"@.len() == 3);
    assert("filetype"@[0] == 'f');
    assert("type"@[0] == 't');
}

/// A name is its stem, a dot and its extension; a dot at its beginning begins no
/// extension, and without any other there is none.
pub proof fn law_name_parts(stem: Seq<char>, ext: Seq<char>)
    requires
        !ext.contains('.'),
    ensures
        stem.len() > 0 ==> name_parts(stem + (seq!['.'] + ext)) == (stem, ext),
        name_parts(seq!['.'] + ext) == (seq!['.'] + ext, Seq::<char>::empty()),
        name_parts(ext) == (ext, Seq::<char>::empty()),
{
    let name = stem + (seq!['.'] + ext);
    let k = stem.len() as int;
    assert(name[k] == '.');
    assert forall|i: int| k < i < name.len() implies name[i] != '.' by {
        assert(name[i] == ext[i - k - 1]);
    }
    crate::text::lemma_last_index(name, '.');
    crate::text::lemma_last_index_is(name, '.', k);
    assert(name.take(k) =~= stem);
    assert(name.skip(k + 1) =~= ext);
    let dotted = seq!['.'] + ext;
    assert(dotted[0] == '.');
    assert forall|i: int| 0 < i < dotted.len() implies dotted[i] != '.' by {
        assert(dotted[i] == ext[i - 1]);
    }
    crate::text::lemma_last_index_is(dotted, '.', 0);
    crate::text::lemma_last_index(ext, '.');
}

/// Laying statuses over the tree gives each node its own, and leaves all else:
/// the root and, one for one, its children.
pub proof fn law_statuses_reach_each_node(n: NodeView, st: Map<Seq<Seq<u8>>, GitStatus>, i: int)
    requires
        n.is_dir(),
        0 <= i < n.children.len(),
    ensures
        with_status(n, st).git == status_of_node(n, st),
        with_status(n, st).children.len() == n.children.len(),
        with_status(n, st).children[i] == with_status(n.children[i], st),
        with_status(n, st).path == n.path && with_status(n, st).name == n.name,
        with_status(n, st).expanded == n.expanded && with_status(n, st).diag == n.diag,
{
    lemma_each_status(n.children, st);
}

proof fn lemma_each_status(s: Seq<NodeView>, st: Map<Seq<Seq<u8>>, GitStatus>)
    ensures
        each_with_status(s, st).len() == s.len(),
        forall|i: int|
            0 <= i < s.len() ==> #[trigger] each_with_status(s, st)[i] == with_status(s[i], st),
    decreases s.len(),
{
    if s.len() > 0 {
        let init = s.drop_last();
        lemma_each_status(init, st);
        assert forall|i: int| 0 <= i < s.len() implies #[trigger] each_with_status(s, st)[i]
            == with_status(s[i], st) by {
            if i < init.len() {
                assert(each_with_status(init, st)[i] == with_status(init[i], st));
                assert(init[i] == s[i]);
            }
        }
    }
}

/// A file has the status that git gives it, and none where git gives none. So
/// does a directory without children.
pub proof fn law_files_have_their_status(n: NodeView, st: Map<Seq<Seq<u8>>, GitStatus>)
    requires
        !n.is_dir() || n.children.len() == 0,
    ensures
        st.contains_key(n.comps()) ==> status_of_node(n, st) == Some(st[n.comps()]),
        !st.contains_key(n.comps()) ==> status_of_node(n, st) is None,
{
}

/// Laying diagnostics over the tree gives each node its own, and leaves all
/// else.
pub proof fn law_diagnostics_reach_each_node(
    n: NodeView,
    files: Map<Seq<Seq<u8>>, Counts>,
    mode: Mode,
    i: int,
)
    requires
        0 <= i < n.children.len(),
    ensures
        with_diag(n, files, mode).diag == diag_of(n, files, mode),
        with_diag(n, files, mode).children.len() == n.children.len(),
        with_diag(n, files, mode).children[i] == with_diag(n.children[i], files, mode),
        with_diag(n, files, mode).path == n.path && with_diag(n, files, mode).git == n.git,
        with_diag(n, files, mode).expanded == n.expanded,
{
    lemma_each_diag(n.children, files, mode);
}

proof fn lemma_each_diag(s: Seq<NodeView>, files: Map<Seq<Seq<u8>>, Counts>, mode: Mode)
    ensures
        each_with_diag(s, files, mode).len() == s.len(),
        forall|i: int|
            0 <= i < s.len() ==> #[trigger] each_with_diag(s, files, mode)[i] == with_diag(s[i], files, mode),
    decreases s.len(),
{
    if s.len() > 0 {
        let init = s.drop_last();
        lemma_each_diag(init, files, mode);
        assert forall|i: int| 0 <= i < s.len() implies #[trigger] each_with_diag(s, files, mode)[i]
            == with_diag(s[i], files, mode) by {
            if i < init.len() {
                assert(each_with_diag(init, files, mode)[i] == with_diag(init[i], files, mode));
                assert(init[i] == s[i]);
            }
        }
    }
}

/// Whether a file below a directory has errors.
pub open spec fn errors_below(files: Map<Seq<Seq<u8>>, Counts>, d: Seq<Seq<u8>>) -> bool {
    exists|k: Seq<Seq<u8>>| #[trigger] files.contains_key(k) && is_below(d, k) && files[k].errors > 0
}

/// Whether a file below a directory has warnings and no errors.
pub open spec fn warnings_below(files: Map<Seq<Seq<u8>>, Counts>, d: Seq<Seq<u8>>) -> bool {
    exists|k: Seq<Seq<u8>>| #[trigger]
        files.contains_key(k) && is_below(d, k) && files[k].errors == 0 && files[k].warnings > 0
}

/// What is shown of the diagnostics. A file with errors shows how many; one
/// with warnings alone shows those where warnings are shown. A directory shows
/// errors where a file below it has some, and otherwise warnings, likewise.
/// Switched off, nothing is shown.
pub proof fn law_diagnostics_shown(n: NodeView, files: Map<Seq<Seq<u8>>, Counts>, mode: Mode)
    ensures
        mode == Mode::Off ==> diag_of(n, files, mode) is None,
        !n.is_dir() && !files.contains_key(n.comps()) ==> diag_of(n, files, mode) is None,
        !n.is_dir() && files.contains_key(n.comps()) && mode != Mode::Off ==> {
            let c = files[n.comps()];
            &&& c.errors > 0 ==> diag_of(n, files, mode) == Some(
                Diag { severity: Severity::Error, count: c.errors },
            )
            &&& c.errors == 0 && c.warnings > 0 ==> diag_of(n, files, mode) == if mode
                == Mode::Warnings {
                Some(Diag { severity: Severity::Warning, count: c.warnings })
            } else {
                None
            }
            &&& c.errors == 0 && c.warnings == 0 ==> diag_of(n, files, mode) is None
        },
        n.is_dir() && mode != Mode::Off ==> {
            let d = diag_of(n, files, mode);
            &&& errors_below(files, n.comps()) ==> (d matches Some(x) && x.severity
                == Severity::Error)
            &&& !errors_below(files, n.comps()) && warnings_below(files, n.comps()) && mode
                == Mode::Warnings ==> (d matches Some(x) && x.severity == Severity::Warning)
            &&& !errors_below(files, n.comps()) && (mode == Mode::Errors || !warnings_below(
                files,
                n.comps(),
            )) ==> d is None
        },
{
    let k = n.comps();
    if errors_below(files, k) {
        let f = choose|f: Seq<Seq<u8>>| #[trigger]
            files.contains_key(f) && is_below(k, f) && files[f].errors > 0;
        assert(files[f].spec_severity() == Some(Severity::Error));
        assert(crate::diagnostics::any_below(files, k, Severity::Error));
    }
    if warnings_below(files, k) {
        let f = choose|f: Seq<Seq<u8>>| #[trigger]
            files.contains_key(f) && is_below(k, f) && files[f].errors == 0 && files[f].warnings
                > 0;
        assert(files[f].spec_severity() == Some(Severity::Warning));
        assert(crate::diagnostics::any_below(files, k, Severity::Warning));
    }
    if crate::diagnostics::any_below(files, k, Severity::Error) {
        let f = choose|f: Seq<Seq<u8>>|
            #[trigger] files.contains_key(f) && is_below(k, f) && files[f].spec_severity() == Some(
                Severity::Error,
            );
        assert(files[f].errors > 0);
    }
    if crate::diagnostics::any_below(files, k, Severity::Warning) {
        let f = choose|f: Seq<Seq<u8>>|
            #[trigger] files.contains_key(f) && is_below(k, f) && files[f].spec_severity() == Some(
                Severity::Warning,
            );
        assert(files[f].warnings > 0 && files[f].errors == 0);
    }
}

/// The names of the three modes, and no others.
pub proof fn law_mode_names(s: Seq<char>)
    ensures
        mode_named("off"@) == Some(Mode::Off),
        mode_named("errors"@) == Some(Mode::Errors),
        mode_named("warnings"@) == Some(Mode::Warnings),
        mode_named(s) is Some == (s == "off"@ || s == "errors"@ || s == "warnings"@),
{
    reveal_strlit("off");
    reveal_strlit("errors");
    reveal_strlit("warnings");
    assert("off"@.len() == 3);
    assert("errors"@.len() == 6);
}

/// A directory that was not read has, once it could be, all the entries that
/// were found and no others; one that was read, and a file, stay as they are.
pub proof fn law_reading_brings_the_entries(n: NodeView, scan: ScanView)
    ensures
        n.is_dir() && !n.loaded && scan.entries is Some ==> {
            let m = loaded_node(n, scan);
            &&& m.loaded
            &&& m.children.to_multiset() == scan.entries->0.to_multiset()
            &&& m.loaded_mtime == scan.mtime
            &&& m.path == n.path && m.expanded == n.expanded
        },
        !n.is_dir() || n.loaded || scan.entries is None ==> loaded_node(n, scan) == n,
{
    if scan.entries is Some {
        law_node_order_ranks(SortMode::Name, false);
        law_stable_sort(scan.entries->0, node_le(SortMode::Name, false));
    }
}

/// A new root is open and has what was found in it, by name, directories first.
pub proof fn law_new_root_holds_the_entries(path: Seq<u8>, scan: ScanView)
    ensures
        new_root(path, scan).path == path,
        new_root(path, scan).expanded,
        new_root(path, scan).is_dir(),
        scan.entries is Some ==> new_root(path, scan).children.to_multiset()
            == scan.entries->0.to_multiset() && new_root(path, scan).loaded,
        scan.entries is None ==> !new_root(path, scan).loaded,
{
    if scan.entries is Some {
        law_node_order_ranks(SortMode::Name, false);
        law_stable_sort(scan.entries->0, node_le(SortMode::Name, false));
    }
}

/// A directory that is read again has exactly the entries that are there now:
/// as many, in their order, each with its path, its time and its size.
pub proof fn law_rereading_brings_the_entries(n: NodeView, scan: ScanView, i: int)
    requires
        n.is_dir(),
        n.loaded,
        scan.entries is Some,
        0 <= i < scan.entries->0.len(),
    ensures
        ({
            let now = kept_order(scan.entries->0);
            let m = refreshed_node(n, scan);
            &&& m.children.len() == scan.entries->0.len()
            &&& now.len() == scan.entries->0.len()
            &&& m.children[i].comps() == now[i].comps()
            &&& m.children[i].is_dir() == now[i].is_dir()
            &&& m.children[i].mtime == now[i].mtime
            &&& m.children[i].len == now[i].len
            &&& m.children[i].executable == now[i].executable
            &&& m.loaded_mtime == scan.mtime
            &&& m.expanded == n.expanded && m.path == n.path && m.loaded
        }),
{
    let now = kept_order(scan.entries->0);
    law_node_order_ranks(SortMode::Name, false);
    law_stable_sort(scan.entries->0, node_le(SortMode::Name, false));
    vstd::seq_lib::to_multiset_len(now);
    vstd::seq_lib::to_multiset_len(scan.entries->0);
    assert(merged_children(n.children, now).len() == now.len());
    lemma_last_with_comps(n.children, now[i].comps());
}

proof fn lemma_last_with_comps(s: Seq<NodeView>, k: Seq<Seq<u8>>)
    ensures
        crate::tree::model::last_with(s, k) matches Some(e) ==> e.comps() == k,
    decreases s.len(),
{
    if s.len() > 0 {
        lemma_last_with_comps(s.drop_last(), k);
    }
}

/// An opened directory is open, a file is left alone. One that was read and has
/// not changed since is not read again.
pub proof fn law_opening_a_node(n: NodeView, scan: ScanView)
    ensures
        n.is_dir() ==> opened_node(n, scan).expanded,
        !n.is_dir() ==> opened_node(n, scan) == n,
        n.is_dir() && n.loaded && n.loaded_mtime is Some && scan.mtime == n.loaded_mtime
            ==> opened_node(n, scan).children == n.children,
        n.is_dir() && !n.loaded && scan.entries is Some ==> opened_node(n, scan).loaded,
        opened_node(n, scan).path == n.path,
{
}

/// Whether a node counts for a chain: hidden and ignored ones only where those
/// are shown.
pub open spec fn counts(c: NodeView, show_hidden: bool, show_ignored: bool) -> bool {
    &&& c.name.len() > 0 && c.name[0] == '.' ==> show_hidden
    &&& c.git == Some(GitStatus::Ignored) ==> show_ignored
}

proof fn lemma_chain_nodes(s: Seq<NodeView>, show_hidden: bool, show_ignored: bool)
    ensures
        ({
            let v = chain_nodes(s, show_hidden, show_ignored);
            &&& forall|i: int|
                0 <= i < v.len() ==> counts(#[trigger] v[i], show_hidden, show_ignored)
                    && s.contains(v[i])
            &&& forall|i: int|
                0 <= i < s.len() && counts(#[trigger] s[i], show_hidden, show_ignored)
                    ==> v.contains(s[i])
            &&& v.len() <= s.len()
        }),
    decreases s.len(),
{
    if s.len() > 0 {
        let init = s.drop_last();
        let b = chain_nodes(init, show_hidden, show_ignored);
        let v = chain_nodes(s, show_hidden, show_ignored);
        lemma_chain_nodes(init, show_hidden, show_ignored);
        assert forall|i: int| 0 <= i < v.len() implies counts(
            #[trigger] v[i],
            show_hidden,
            show_ignored,
        ) && s.contains(v[i]) by {
            if i < b.len() {
                assert(v[i] == b[i]);
                let j = init.index_of(b[i]);
                assert(s[j] == b[i]);
            } else {
                assert(s[s.len() - 1] == v[i]);
            }
        }
        assert forall|i: int|
            0 <= i < s.len() && counts(#[trigger] s[i], show_hidden, show_ignored) implies v.contains(
            s[i],
        ) by {
            if i < init.len() {
                assert(init[i] == s[i]);
                let j = b.index_of(s[i]);
                assert(v[j] == s[i]);
            } else {
                assert(v[b.len() as int] == s[i]);
            }
        }
    }
}

/// A chain goes on to a directory exactly where that is the only child that
/// counts, and its name does not say that it changes too much.
pub proof fn law_chains_go_on(dir: NodeView, c: NodeView, show_hidden: bool, show_ignored: bool)
    requires
        dir.is_dir(),
    ensures
        next_in_chain(dir, show_hidden, show_ignored) == Some(c) ==> {
            &&& c.is_dir()
            &&& dir.children.contains(c)
            &&& counts(c, show_hidden, show_ignored)
            &&& !is_churn(c.name)
            &&& forall|i: int|
                0 <= i < dir.children.len() && counts(
                    #[trigger] dir.children[i],
                    show_hidden,
                    show_ignored,
                ) ==> dir.children[i] == c
        },
        dir.children == seq![c] && c.is_dir() && counts(c, show_hidden, show_ignored) && !is_churn(
            c.name,
        ) ==> next_in_chain(dir, show_hidden, show_ignored) == Some(c),
{
    let v = chain_nodes(dir.children, show_hidden, show_ignored);
    lemma_chain_nodes(dir.children, show_hidden, show_ignored);
    if next_in_chain(dir, show_hidden, show_ignored) == Some(c) {
        assert(v[0] == c);
        assert(counts(v[0], show_hidden, show_ignored));
        assert forall|i: int|
            0 <= i < dir.children.len() && counts(
                #[trigger] dir.children[i],
                show_hidden,
                show_ignored,
            ) implies dir.children[i] == c by {
            let j = v.index_of(dir.children[i]);
            assert(v[j] == dir.children[i]);
        }
    }
    if dir.children == seq![c] && counts(c, show_hidden, show_ignored) {
        assert(dir.children[0] == c);
        assert(v.contains(dir.children[0]));
        let j = v.index_of(c);
        assert(v[j] == c);
        assert(v.len() <= 1);
    }
}

/// A directory that was read and has changed since is read again when it is
/// opened: its children are those that are there now.
pub proof fn law_stale_directory_is_read_again(n: NodeView, scan: ScanView)
    requires
        n.is_dir(),
        n.loaded,
        n.loaded_mtime is None || scan.mtime != n.loaded_mtime,
        scan.entries is Some,
    ensures
        opened_node(n, scan).children == refreshed_node(n, scan).children,
        opened_node(n, scan).loaded_mtime == scan.mtime,
{
}

/// What is still the same directory keeps what was known of it when the one
/// above is read again: whether it is open, and its children. What has become
/// something else, or leads elsewhere, or was not known, is as it was found.
pub proof fn law_only_the_same_survives(known: Seq<NodeView>, now: Seq<NodeView>, i: int)
    requires
        0 <= i < now.len(),
        forall|j: int| 0 <= j < i ==> (#[trigger] now[j]).comps() != now[i].comps(),
    ensures
        last_with(known, now[i].comps()) is None ==> merged_children(known, now)[i] == now[i],
        last_with(known, now[i].comps()) matches Some(e) ==> {
            let m = merged_children(known, now)[i];
            &&& e.kind != now[i].kind ==> m == now[i]
            &&& !e.is_dir() ==> m == now[i]
            &&& e.link_to is Some != now[i].link_to is Some ==> m == now[i]
            &&& e.link_to is Some && now[i].link_to is Some && comps(e.link_to->0) != comps(
                now[i].link_to->0,
            ) ==> m == now[i]
            &&& e.kind == now[i].kind && e.is_dir() && e.link_to == now[i].link_to ==> m.children
                == e.children && m.expanded == e.expanded && m.loaded == e.loaded
        },
{
}

} // verus!
