//! What holds in general, tried on given values.

use treelix::app::names::{
    ask_bulk, dir_prefix_text, human_ago, name_anew, octal, parent_prefix_text, path_typed,
    relative_text, shorten, NewName,
};
use treelix::app::state::Age;
use treelix::cli::{parse_args, start, Start};
use treelix::clipboard::{ClipOp, Clipboard};
use treelix::config::{helix_config_dir, treelix_config_dir, Config};
use treelix::diagnostics::{Counts, DiagnosticsData, Severity};
use treelix::editor::{
    absolutize, dispatch_script, helix_socket_path, internal_dispatch, open, open_line, preview_line,
    resolve_pane_id, runtime_dir, session_name, DispatchStep, OpenMode, OpenPlan, SocketState,
};
use treelix::filter::{EntryKind, FilterWalk, WalkEntry, WalkRules, FILTER_WALK_CAP};
use treelix::fuzzy::name_matches;
use treelix::git::{scan, toplevel, AfterScan, GitStatus, ScanSchedule};
use treelix::ipc::{
    fold_line, parse_line, reveal_request, socket_path, Batch, Line, Message, SnapshotGate,
};
use treelix::keymap::{resolve, Action, Key, KeyCode};
use treelix::marks::Marks;
use treelix::path::Path;
use treelix::paths::{compare_paths, PathMap, PathSet};
use treelix::style::{Color, Style};
use treelix::text::{contains_text, decimal, parse_number, replace_char, split_whitespace, trim};
use treelix::theme::{
    from_chain, helix_runtime_themes, helix_theme_files, helix_theme_name, theme_file, Theme,
    ThemeChain,
};
use treelix::tree::sort::SortMode;
use treelix::ui_overlays::{wrap_words, InputKind, InputState};
use treelix::watcher::{weigh, Burst, FsChange, RawEvent};

fn path(s: &str) -> Path {
    Path::new(s)
}

#[test]
fn paths_resolve_and_join() {
    assert_eq!(path("/a/./b/../c").resolve(), path("/a/c"));
    assert_eq!(path("/../a").resolve(), path("/a"));
    let once = path("/a/b/../c").resolve();
    assert_eq!(once.resolve(), once, "resolving twice is resolving once");
    assert_eq!(path("/a/b").join(&path("c")), path("/a/b/c"));
    assert_eq!(path("/a/b").join(&path("/c")), path("/c"));
    assert_eq!(path("/a/b").join(&path("c")).parent(), Some(path("/a/b")));
    assert_eq!(path("/").parent(), None);
    assert!(path("/a/bc").starts_with(&path("/a")));
    assert!(!path("/ab").starts_with(&path("/a")));
    assert_eq!(path("/a/b/c").strip_prefix(&path("/a")), Some(path("b/c")));
    assert!(path("/a//b/").same(&path("/a/b")));
}

#[test]
fn bytes_that_are_no_text_are_replaced() {
    let p = Path::from_bytes(vec![47, 97, 255, 98]);
    assert_eq!(p.display(), "/a\u{fffd}b");
    assert_eq!(path("/é").display(), "/é");
}

#[test]
fn paths_are_ordered_by_component() {
    assert!(compare_paths(&path("/a/b"), &path("/a.b")) < 0);
    assert!(compare_paths(&path("/b"), &path("/a/z")) > 0);
    assert_eq!(compare_paths(&path("/a/b"), &path("/a//b")), 0);
}

#[test]
fn a_set_of_paths_is_kept_in_order() {
    let mut set = PathSet::new();
    assert!(set.insert(path("/b")));
    assert!(set.insert(path("/a")));
    assert!(!set.insert(path("/b/")), "the same path");
    assert_eq!(set.list(), vec![path("/a"), path("/b")]);
    assert!(set.remove(&path("/a")));
    assert_eq!(set.len(), 1);
}

#[test]
fn numbers_read_back() {
    for n in [0u64, 7, 10, 4242, u64::MAX] {
        assert_eq!(parse_number(&decimal(n), u64::MAX), Some(n));
    }
    assert_eq!(parse_number("300", 255), None);
    assert_eq!(parse_number("x", 255), None);
    assert_eq!(octal(0o755), "755");
    assert_eq!(octal(0), "0");
}

#[test]
fn texts_are_searched_and_parted() {
    assert!(contains_text("abcabd", "abd"));
    assert!(!contains_text("abc", "cb"));
    assert_eq!(trim(" \t a b \u{a0}"), "a b");
    assert_eq!(split_whitespace(" a  b\tc "), vec!["a", "b", "c"]);
    assert_eq!(replace_char("it's", '\'', "''"), "it''s");
}

#[test]
fn typed_paths_stay_inside() {
    let root = path("/r");
    assert_eq!(path_typed(&root, "a/../b"), Some(path("/r/b")));
    assert_eq!(path_typed(&root, "../b"), None);
    assert_eq!(path_typed(&root, "a/../../r/b"), Some(path("/r/b")));
    assert_eq!(path_typed(&root, "/elsewhere"), Some(path("/elsewhere")));
    assert!(matches!(name_anew(&path("/r/s/a"), &root, "/x"), NewName::Absolute));
    assert!(matches!(name_anew(&path("/r/s/a"), &root, "../../x"), NewName::Escapes));
    match name_anew(&path("/r/s/a"), &root, "../b") {
        NewName::To(p) => assert_eq!(p, path("/r/b")),
        other => panic!("expected a path, got {other:?}"),
    }
}

#[test]
fn paths_are_named_from_the_root() {
    let root = path("/r");
    assert_eq!(relative_text(&path("/r/a/b"), &root), "a/b");
    assert_eq!(relative_text(&path("/x"), &root), "/x");
    assert_eq!(dir_prefix_text(&path("/r/a"), &root), "a/");
    assert_eq!(dir_prefix_text(&root, &root), "");
    assert_eq!(parent_prefix_text(&path("/r/a/b"), &root), "a/");
    assert_eq!(shorten(&path("/r/a")), "a");
    assert_eq!(shorten(&path("/")), "/");
    let four = vec![path("/r/a"), path("/r/b"), path("/r/c"), path("/r/d")];
    assert_eq!(
        ask_bulk("delete", &four, &root),
        "delete 4 bookmarked item(s)? [a, b, c, +1 more]"
    );
}

#[test]
fn ages_in_words() {
    assert_eq!(human_ago(Age::Seconds(59)), "59s ago");
    assert_eq!(human_ago(Age::Seconds(60)), "1m ago");
    assert_eq!(human_ago(Age::Seconds(7200)), "2h ago");
    assert_eq!(human_ago(Age::Seconds(86400 * 3)), "3d ago");
    assert_eq!(human_ago(Age::Future), "in the future");
}

#[test]
fn the_command_line() {
    let args = |v: &[&str]| -> Vec<String> { v.iter().map(|s| s.to_string()).collect() };
    let o = parse_args(&args(&["--root", "/x", "--theme=nord", "-h"])).unwrap();
    assert_eq!(o.root, Some(path("/x")));
    assert_eq!(o.theme.as_deref(), Some("nord"));
    assert!(o.help);
    assert_eq!(parse_args(&args(&["dir"])).unwrap().root, Some(path("dir")));
    assert_eq!(
        parse_args(&args(&["--root"])).err().as_deref(),
        Some("--root requires a value")
    );
    assert_eq!(
        parse_args(&args(&["--theme"])).err().as_deref(),
        Some("--theme requires a value")
    );
    assert_eq!(parse_args(&args(&["-x"])).err().as_deref(), Some("unknown flag: -x"));
    assert!(matches!(start(&args(&["treelix", "reveal"])), Start::RevealUsage));
    assert!(matches!(start(&args(&["treelix", "reveal", "p"])), Start::Reveal(p) if p == "p"));
    assert!(matches!(start(&args(&["treelix", "--bad"])), Start::Wrong(_)));
    assert!(matches!(start(&args(&["treelix"])), Start::Tree(o) if o.root.is_none()));
}

#[test]
fn where_settings_are() {
    let home: Option<&[u8]> = Some("/home/u".as_bytes());
    let given: Option<&[u8]> = Some("/cfg".as_bytes());
    let empty: Option<&[u8]> = Some("".as_bytes());
    assert_eq!(treelix_config_dir(given, home), Some(path("/cfg/treelix")));
    assert_eq!(treelix_config_dir(empty, home), Some(path("/home/u/.config/treelix")));
    assert_eq!(helix_config_dir(None, home), Some(path("/home/u/.config/helix")));
    assert_eq!(helix_config_dir(None, None), None);
    let c = Config::default();
    assert_eq!(c.scrolloff, 1);
    assert!(c.live_filter_show_folders);
}

#[test]
fn where_the_editor_listens() {
    assert_eq!(session_name(Some("my project!")), "my_project_");
    assert_eq!(session_name(None), "default");
    assert_eq!(runtime_dir(None), path("/tmp"));
    assert_eq!(runtime_dir(Some("/run/u".as_bytes())), path("/run/u"));
    assert_eq!(
        helix_socket_path(None, &path("/run/u"), "s"),
        path("/run/u/helix/s.sock")
    );
    assert_eq!(
        helix_socket_path(Some("/x.sock".as_bytes()), &path("/run/u"), "s"),
        path("/x.sock")
    );
    assert_eq!(
        socket_path(None, Some(&path("/run/u")), "s"),
        path("/run/u/treelix/s.sock")
    );
    assert_eq!(socket_path(None, None, "s"), path("/tmp/treelix/s.sock"));
    assert_eq!(absolutize(&path("a"), Some(&path("/w"))), path("/w/a"));
    assert_eq!(absolutize(&path("/a"), Some(&path("/w"))), path("/a"));
}

#[test]
fn how_a_file_is_opened() {
    let p = path("/a b");
    match open(&p, OpenMode::VSplit, Some("edit {path}"), None) {
        OpenPlan::Shell(cmd) => assert!(cmd.contains("'/a b'"), "{cmd}"),
        other => panic!("expected a command, got {other:?}"),
    }
    let script = dispatch_script(&path("/home/u"));
    assert!(matches!(
        open(&p, OpenMode::Open, None, Some(&script)),
        OpenPlan::Script { .. }
    ));
    assert!(matches!(open(&p, OpenMode::Open, None, None), OpenPlan::Socket { .. }));
    assert_eq!(open_line(&p, OpenMode::Open, false), ":open '/a b'");
    assert_eq!(preview_line(&p), ":open '/a b'");
    let listing = "PANE_ID TYPE TITLE\nterminal_3 terminal editor\nplugin_1 plugin editor\n";
    assert_eq!(
        resolve_pane_id(listing.as_bytes(), "editor").as_deref(),
        Some("terminal_3")
    );
    assert_eq!(resolve_pane_id(listing.as_bytes(), "other"), None);
}

#[test]
fn a_reveal_request_reads_back() {
    let line = reveal_request("/a b", None).unwrap();
    assert_eq!(line, "reveal /a b");
    match parse_line(&line) {
        Some(Line::Reveal(r)) => assert_eq!(r.path, path("/a b")),
        other => panic!("expected a reveal, got {other:?}"),
    }
    assert_eq!(
        reveal_request("x", Some(&path("/w"))).as_deref(),
        Some("reveal /w/x")
    );
    assert_eq!(reveal_request("a\nreveal /b", None), None);
}

#[test]
fn snapshots_are_taken_in_their_order() {
    let mut gate = SnapshotGate { last: None };
    assert!(gate.accept("a".to_string(), 5));
    assert!(!gate.accept("a".to_string(), 5));
    assert!(!gate.accept("a".to_string(), 4));
    assert!(gate.accept("b".to_string(), 1), "another sender");
    assert!(gate.accept("b".to_string(), 2));
}

#[test]
fn scans_are_scheduled() {
    let mut s = ScanSchedule::default();
    assert!(s.request());
    assert!(!s.request(), "one runs");
    assert_eq!(s.finished(true), AfterScan::Rerun);
    assert_eq!(s.finished(false), AfterScan::Retry(1000));
    assert_eq!(s.finished(true), AfterScan::Idle);
    assert!(s.request());
}

#[test]
fn what_git_prints() {
    let top = toplevel(Some("/repo\n".as_bytes()));
    assert_eq!(top, Some(path("/repo")));
    let data = scan(top, Some("!! build/\0A  x\0".as_bytes())).unwrap();
    assert_eq!(data.statuses.get(&path("/repo/build")), Some(&GitStatus::Ignored));
    assert_eq!(data.statuses.get(&path("/repo/x")), Some(&GitStatus::Staged));
    assert!(scan(Some(path("/repo")), None).is_none(), "git failed");
    assert_eq!(
        GitStatus::Dirty.dominant(GitStatus::Ignored),
        GitStatus::Dirty
    );
    assert_eq!(
        GitStatus::Dirty.dominant(GitStatus::Staged),
        GitStatus::Staged
    );
}

#[test]
fn reports_are_local_and_can_be_undone() {
    let mut data = DiagnosticsData::default();
    data.update(path("/r/a"), Counts { errors: 1, warnings: 0 });
    data.update(path("/r/b"), Counts { errors: 0, warnings: 1 });
    data.update(path("/r/a"), Counts { errors: 0, warnings: 0 });
    assert_eq!(data.for_file(&path("/r/a"), Severity::Warning), None);
    assert_eq!(data.for_file(&path("/r/b"), Severity::Warning).map(|d| d.count), Some(1));
    assert_eq!(
        data.worst_under(&path("/r"), Severity::Warning).map(|d| d.severity),
        Some(Severity::Warning)
    );
}

#[test]
fn bookmarks_read_back() {
    let mut marks = Marks::load(None);
    assert!(marks.toggle(&path("/b")));
    assert!(marks.toggle(&path("/a b")));
    let text = marks.save();
    assert_eq!(text, "/a b\n/b");
    let again = Marks::load(Some(&text));
    assert!(again.contains(&path("/b")) && again.contains(&path("/a b")));
    assert_eq!(again.all().len(), 2);
    assert!(!marks.toggle(&path("/b")), "twice is never");
    assert!(!marks.contains(&path("/b")));
    assert!(marks.remap(&path("/a b"), &path("/c")));
    assert!(marks.contains(&path("/c")) && !marks.contains(&path("/a b")));
    assert!(!marks.remap(&path("/nothing"), &path("/d")));
    marks.remove_all(&vec![path("/c")]);
    assert!(marks.all().is_empty());
}

#[test]
fn the_clipboard_keeps_what_is_left() {
    let mut c = Clipboard::default();
    c.set(ClipOp::Cut, vec![path("/a"), path("/b")]);
    c.take_off(&vec![path("/a")]);
    assert!(c.is_cut(&path("/b")) && !c.is_cut(&path("/a")));
    assert!(!c.is_copied(&path("/b")));
    c.take_off(&vec![path("/b")]);
    assert!(c.is_empty());
    assert_eq!(c.op, None);
}

#[test]
fn typing_and_moving() {
    let mut s = InputState::new("p", "añb".to_string(), InputKind::Search);
    s.left();
    s.backspace();
    assert_eq!(s.buffer, "ab");
    s.insert('é');
    assert_eq!(s.buffer, "aéb");
    s.backspace();
    assert_eq!(s.buffer, "ab", "undone");
    s.home();
    s.delete();
    assert_eq!(s.buffer, "b");
    s.right();
    s.right();
    s.insert('!');
    assert_eq!(s.buffer, "b!");
    s.end();
    s.left();
    assert_eq!(s.buffer, "b!", "moving keeps the text");
}

#[test]
fn words_are_wrapped() {
    assert_eq!(wrap_words("", 5), vec![""]);
    assert_eq!(wrap_words("a b c", 3), vec!["a b", "c"]);
    assert_eq!(wrap_words("a b", 0), vec!["a b"]);
}

#[test]
fn key_sequences_end() {
    let key = |c: char| Key { code: KeyCode::Char(c), ctrl: false, alt: false };
    assert_eq!(resolve(key('z'), "g"), (Action::Nothing, String::new()));
    assert_eq!(resolve(key('?'), "").0, Action::Help);
    let esc = Key { code: KeyCode::Esc, ctrl: false, alt: false };
    assert_eq!(resolve(esc, "").0, Action::ClearSelect);
}

#[test]
fn styles_lie_over_each_other() {
    let red = Style { fg: Some(Color::Rgb(255, 0, 0)), ..Style::default() };
    let bold = Style::default().bold();
    let both = red.patch(bold);
    assert_eq!(both.fg, Some(Color::Rgb(255, 0, 0)));
    assert!(both.mods.bold);
    assert_eq!(both.patch(Style::default()), both);
}

#[test]
fn themes_are_read() {
    let text = "[palette]\nsun = \"#ff8800\"\n[styles]\ndirectory = \"sun / none / bold\"\n";
    let t = Theme::from_toml_str(text).unwrap();
    assert_eq!(t.directory.fg, Some(Color::Rgb(0xff, 0x88, 0x00)));
    assert_eq!(t.text, Style::default(), "what is not named is left open");
    assert!(Theme::from_toml_str("= no toml").is_none());
    assert_eq!(Theme::load("missing", None, None), Theme::default());
    assert_eq!(theme_file(&path("/c"), "x"), path("/c/themes/x.toml"));
}

#[test]
fn the_editors_theme_is_taken_over() {
    assert_eq!(helix_theme_name("theme = \"nord\"\n").as_deref(), Some("nord"));
    assert_eq!(helix_theme_name("x = 1\n"), None);
    let rt = helix_runtime_themes(Some("/rt".as_bytes()), None).unwrap();
    assert_eq!(
        helix_theme_files(&path("/h"), Some(&rt), "nord"),
        vec![path("/h/themes/nord.toml"), path("/rt/themes/nord.toml")]
    );
    let mut chain = ThemeChain::new();
    let next = chain.add(Some("inherits = \"base\"\n\"ui.text\" = \"#010203\"\n"));
    assert_eq!(next.as_deref(), Some("base"));
    assert_eq!(chain.add(Some("\"ui.text\" = \"#ffffff\"\n")), None);
    let t = from_chain(chain).unwrap();
    assert_eq!(t.text.fg, Some(Color::Rgb(1, 2, 3)), "the nearer one wins");
    assert!(from_chain(ThemeChain::new()).is_none());
}

#[test]
fn bursts_are_put_together() {
    let root = path("/r");
    assert!(weigh(&root, vec![path("/r/node_modules/x")], false).is_none());
    assert!(weigh(&root, vec![path("/r/node_modules/x")], true).is_none());
    assert!(matches!(weigh(&root, Vec::new(), true), Some(RawEvent::Rescan)));
    let mut burst = Burst::new();
    burst.add_event(weigh(&root, vec![path("/r/a"), path("/r/b")], false).unwrap());
    burst.add_event(weigh(&root, vec![path("/r/a")], false).unwrap());
    match burst.finish() {
        FsChange::Paths(set) => assert_eq!(set.len(), 2),
        other => panic!("expected paths, got {other:?}"),
    }
    let mut burst = Burst::new();
    burst.add_event(RawEvent::Paths(vec![path("/r/a")]));
    burst.add_event(RawEvent::Rescan);
    assert!(matches!(burst.finish(), FsChange::Rescan));
}

fn matcher() -> nucleo_matcher::Matcher {
    nucleo_matcher::Matcher::new(nucleo_matcher::Config::DEFAULT)
}

#[test]
fn names_match_loosely() {
    let mut m = matcher();
    assert!(name_matches(&mut m, "dtx", "deep.txt"));
    assert!(name_matches(&mut m, "DEEP", "deep.txt"));
    assert!(!name_matches(&mut m, "xyz", "deep.txt"));
    assert!(name_matches(&mut m, "", "anything"));
}

#[test]
fn long_names_and_queries_match() {
    let mut m = matcher();
    let long = format!("{}needle{}", "-".repeat(3000), "-".repeat(70_000));
    assert!(name_matches(&mut m, "needle", &long));
    assert!(!name_matches(&mut m, "nowhere", &long));
    let word = "a".repeat(2520);
    assert!(name_matches(&mut m, &word, &"a".repeat(90_000)), "the score stays in its range");
    assert!(name_matches(&mut m, &word, &word));
    let words = "a ".repeat(60_000);
    assert!(name_matches(&mut m, &words, "a"));
    assert!(!name_matches(&mut m, &"a".repeat(60_000), &word));
    let longer = "a".repeat(2521);
    assert!(!name_matches(&mut m, &longer, &longer), "the score would leave its range");
}

#[test]
fn backslashes_count_twice_beside_other_than_ascii() {
    let mut m = matcher();
    let half = format!("\u{e9}{}", "\\".repeat(1259));
    let name = format!("\u{e9}{}", "\\".repeat(2517));
    assert!(name_matches(&mut m, &half, &name), "1260 and 1259 more");
    let more = format!("\u{e9}{}", "\\".repeat(1260));
    assert!(!name_matches(&mut m, &more, &"\\".repeat(2600)));
    let ascii = "\\".repeat(2520);
    assert!(name_matches(&mut m, &ascii, &"\\".repeat(3000)));
}

#[test]
fn names_match_in_other_scripts() {
    let mut m = matcher();
    assert!(name_matches(&mut m, "\u{3bb}\u{3cc}\u{3b3}\u{3bf}\u{3c2}", "\u{39b}\u{3cc}\u{3b3}\u{3bf}\u{3c2}.txt"));
    assert!(name_matches(&mut m, "\u{3c3}\u{3bf}", "\u{3c2} \u{3c3}\u{3bf}"));
    assert!(name_matches(&mut m, "\u{e9}t\u{e9}", "\u{c9}t\u{e9} 10 \u{b5}m"));
    assert!(!name_matches(&mut m, "\u{e9}t\u{e9}", "ete"), "accents that are typed count");
    assert!(name_matches(&mut m, "ete", "\u{e9}t\u{e9}"), "those that are not do not");
    assert!(
        !name_matches(&mut m, "\u{3bc}\u{e9}", "\u{b5}\u{e9}\u{3bc}x\u{e9}"),
        "the sign is read as the letter in one place and not in another"
    );
    assert!(name_matches(&mut m, "\u{3bc}\u{e9}", "\u{3bc}x\u{e9}"));
}

#[test]
fn a_walk_reaches_what_matches() {
    let mut m = matcher();
    let statuses: PathMap<GitStatus> = PathMap::new();
    let exclude: Vec<String> = Vec::new();
    let rules = WalkRules {
        show_folders: false,
        prune: true,
        statuses: &statuses,
        exclude: &exclude,
    };
    let entry = |name: &str, kind: EntryKind| WalkEntry { name: name.as_bytes().to_vec(), kind };
    let mut walk = FilterWalk::new("deep", &path("/r"), false, false, false);
    assert_eq!(walk.next_dir(), Some(&path("/r")));
    walk.read(
        Some(vec![
            entry("sub", EntryKind::Directory),
            entry("node_modules", EntryKind::Directory),
            entry(".git", EntryKind::Directory),
            entry("other", EntryKind::LinkedDirectory(None)),
        ]),
        &rules,
        &mut m,
    );
    assert_eq!(walk.next_dir(), Some(&path("/r/sub")), "nothing else is walked");
    walk.read(Some(vec![entry("deep.txt", EntryKind::Leaf)]), &rules, &mut m);
    assert_eq!(walk.next_dir(), None);
    let found = walk.finish();
    assert!(found.visible.contains(&path("/r/sub/deep.txt")));
    assert!(found.visible.contains(&path("/r/sub")));
    assert!(!found.visible.contains(&path("/r/node_modules")));
    assert_eq!(found.expand, vec![path("/r"), path("/r/sub")]);
    assert!(!found.truncated);
    assert!(found.holds("deep", &path("/r"), false, false, false));
    assert!(!found.holds("dee", &path("/r"), false, false, false));
}

#[test]
fn a_walk_is_cut_off() {
    let mut m = matcher();
    let statuses: PathMap<GitStatus> = PathMap::new();
    let exclude: Vec<String> = Vec::new();
    let rules = WalkRules {
        show_folders: true,
        prune: false,
        statuses: &statuses,
        exclude: &exclude,
    };
    let mut walk = FilterWalk::new("q", &path("/r"), false, false, false);
    let many = (0..FILTER_WALK_CAP + 1)
        .map(|_| WalkEntry { name: ".x".as_bytes().to_vec(), kind: EntryKind::Leaf })
        .collect();
    walk.read(Some(many), &rules, &mut m);
    assert_eq!(walk.next_dir(), None);
    assert!(walk.finish().truncated);
}

#[test]
fn orders_have_names() {
    assert_eq!(SortMode::parse("MTIME"), SortMode::Modified);
    assert_eq!(SortMode::parse("ext"), SortMode::Extension);
    assert_eq!(SortMode::parse("whatever"), SortMode::Name);
}

#[test]
fn a_file_takes_one_way_into_the_editor() {
    let p = path("/r/it's.md");
    let step = |socket, multiplexer| internal_dispatch(&p, OpenMode::VSplit, socket, multiplexer);
    match step(SocketState::Ready, true) {
        DispatchStep::Send(line) => assert_eq!(line, ":vsplit-pick '/r/it''s.md'"),
        other => panic!("{other:?}"),
    }
    match step(SocketState::Ready, false) {
        DispatchStep::Send(line) => assert_eq!(line, ":vsplit '/r/it''s.md'"),
        other => panic!("{other:?}"),
    }
    assert!(matches!(step(SocketState::Sent, true), DispatchStep::Focus));
    assert!(matches!(step(SocketState::Sent, false), DispatchStep::Done));
    for socket in [SocketState::Absent, SocketState::Failed] {
        match step(socket, true) {
            DispatchStep::NewPane(at) => assert_eq!(at, p),
            other => panic!("{other:?}"),
        }
        assert!(matches!(step(socket, false), DispatchStep::Done));
    }
}

#[test]
fn a_path_that_is_asked_for_does_not_end_a_snapshot() {
    let mut batch: Option<Batch> = None;
    let lines = [
        "diagnostics-begin a b 7",
        "diagnostics 1 0 /r/x",
        "reveal-follow /r/y",
        "diagnostics 0 2 /r/z",
        "reveal /r/w",
        "diagnostics-end 7",
    ];
    let mut found: Vec<String> = Vec::new();
    for l in lines {
        match fold_line(&mut batch, parse_line(l).unwrap()) {
            Some(Message::Reveal(r)) => found.push(format!("{} {}", r.path.display(), r.follow)),
            Some(Message::DiagnosticsSnapshot { sender, seq, files }) => {
                let names: Vec<String> = files.iter().map(|(p, _)| p.display()).collect();
                found.push(format!("{sender} {seq} {}", names.join(",")));
            }
            Some(other) => panic!("{other:?}"),
            None => {}
        }
    }
    assert_eq!(found, ["/r/y true", "/r/w false", "a b 7 /r/x,/r/z"]);
    assert!(batch.is_none());
}

#[test]
fn lines_take_as_many_words_as_fit() {
    assert_eq!(wrap_words("aa bb cc\tdddddd e", 5), ["aa bb", "cc", "dddddd", "e"]);
    assert_eq!(wrap_words("aa\u{b}bb\u{c}cc", 8), ["aa bb cc"]);
}
