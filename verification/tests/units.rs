//! The parts of the library, one by one.

use treelix::diagnostics::{Counts, Diag, DiagnosticsData, Mode, Severity};
use treelix::editor::{helix_quote, posix_quote, sanitize};
use treelix::git::{classify, parse_porcelain_z, GitStatus};
use treelix::ipc::{fold_line, parse_line, Batch, Line, Message};
use treelix::keymap::{resolve, Action, Key, KeyCode};
use treelix::path::Path;
use treelix::paths::PathMap;
use treelix::render::builder::indent_prefix;
use treelix::render::icons::{
    by_name, ARROW_CLOSED, ARROW_OPEN, BOOKMARK, FILE_DEFAULT, FOLDER_CLOSED, FOLDER_OPEN, SYMLINK,
};
use treelix::style::Color;
use treelix::theme::{parse_hex, parse_style, Palette, Theme};
use treelix::tree::sort::split_name;
use treelix::ui_overlays::wrap_words;
use treelix::watcher::{inside_ignored, is_ignored};

fn path(s: &str) -> Path {
    Path::new(s)
}

fn counts(errors: u32, warnings: u32) -> Counts {
    Counts { errors, warnings }
}

fn severity_under(data: &DiagnosticsData, dir: &str, min: Severity) -> Option<Severity> {
    data.worst_under(&path(dir), min).map(|d| d.severity)
}

#[test]
fn mode_parses_and_gates_severity() {
    assert_eq!(Mode::parse("off"), Some(Mode::Off));
    assert_eq!(Mode::parse("errors"), Some(Mode::Errors));
    assert_eq!(Mode::parse("warnings"), Some(Mode::Warnings));
    assert_eq!(Mode::parse("hints"), None);
    assert_eq!(Mode::Off.min_severity(), None);
    assert_eq!(Mode::Errors.min_severity(), Some(Severity::Error));
    assert_eq!(Mode::Warnings.min_severity(), Some(Severity::Warning));
}

#[test]
fn errors_dominate_and_warnings_respect_the_floor() {
    let both = counts(2, 5);
    assert_eq!(
        both.shown(Severity::Warning),
        Some(Diag { severity: Severity::Error, count: 2 })
    );
    let warn = counts(0, 3);
    assert_eq!(
        warn.shown(Severity::Warning),
        Some(Diag { severity: Severity::Warning, count: 3 })
    );
    assert_eq!(warn.shown(Severity::Error), None, "errors-only mode hides it");
    assert_eq!(counts(0, 0).shown(Severity::Warning), None);
}

#[test]
fn update_reports_changes_and_forgets_clean_files() {
    let mut data = DiagnosticsData::default();
    let file = path("/r/src/a.rs");
    assert!(data.update(file.copy(), counts(1, 0)));
    assert!(!data.update(file.copy(), counts(1, 0)), "same counts: no change");
    assert!(data.update(file.copy(), counts(1, 2)));
    assert!(data.update(file.copy(), counts(0, 0)), "cleared");
    assert_eq!(data.for_file(&file, Severity::Warning), None);
    assert!(!data.update(file, counts(0, 0)), "clearing twice: no change");
    assert!(data.no_tallies(), "no tallies left behind");
}

#[test]
fn directories_inherit_the_worst_severity_below_them() {
    let mut data = DiagnosticsData::default();
    data.update(path("/r/src/deep/a.rs"), counts(0, 1));
    data.update(path("/r/src/b.rs"), counts(0, 2));
    data.update(path("/r/other/c.rs"), counts(3, 0));
    assert_eq!(
        severity_under(&data, "/r/src", Severity::Warning),
        Some(Severity::Warning)
    );
    assert_eq!(severity_under(&data, "/r/src", Severity::Error), None);
    assert_eq!(severity_under(&data, "/r", Severity::Warning), Some(Severity::Error));
    assert_eq!(
        severity_under(&data, "/r/src/deep/a.rs", Severity::Warning),
        None,
        "a file is not under itself"
    );
    assert_eq!(
        severity_under(&data, "/r/srcx", Severity::Warning),
        None,
        "prefix must be a path component"
    );

    // Tallies follow changes: an error turning into a warning, and clearing.
    data.update(path("/r/other/c.rs"), counts(0, 1));
    assert_eq!(severity_under(&data, "/r", Severity::Warning), Some(Severity::Warning));
    data.update(path("/r/other/c.rs"), counts(0, 0));
    assert_eq!(severity_under(&data, "/r/other", Severity::Warning), None);
    assert_eq!(severity_under(&data, "/r", Severity::Warning), Some(Severity::Warning));
}

#[test]
fn replace_swaps_the_whole_set_and_reports_whether_it_changed() {
    let mut data = DiagnosticsData::default();
    data.update(path("/r/a.rs"), counts(1, 0));
    data.update(path("/r/b.rs"), counts(0, 1));
    let same = vec![
        (path("/r/b.rs"), counts(0, 1)),
        (path("/r/a.rs"), counts(1, 0)),
        (path("/r/clean.rs"), counts(0, 0)),
    ];
    assert!(!data.replace(same), "same files and counts: no change");
    let next = vec![(path("/r/sub/c.rs"), counts(0, 2))];
    assert!(data.replace(next));
    assert_eq!(data.for_file(&path("/r/a.rs"), Severity::Warning), None);
    assert_eq!(
        severity_under(&data, "/r/sub", Severity::Warning),
        Some(Severity::Warning)
    );
    assert_eq!(
        severity_under(&data, "/r", Severity::Warning),
        Some(Severity::Warning),
        "tallies rebuilt from the snapshot"
    );
    assert!(data.replace(Vec::new()), "emptying is a change");
    assert!(data.no_tallies());
}

#[test]
fn sanitize_session() {
    assert_eq!(sanitize("my project!"), "my_project_");
    assert_eq!(sanitize("ok-name_1"), "ok-name_1");
}

#[test]
fn helix_quote_escapes_for_command_line() {
    // Plain path: wrapped in single quotes, unchanged inside.
    assert_eq!(helix_quote(&path("/a/b.txt")), "'/a/b.txt'");
    // Spaces stay inside the single quotes (one argument on the helix side).
    assert_eq!(helix_quote(&path("/a b/c d.txt")), "'/a b/c d.txt'");
    // `%` must stay literal: single quotes prevent helix's expansion.
    assert_eq!(helix_quote(&path("/x/50%.txt")), "'/x/50%.txt'");
    assert_eq!(
        helix_quote(&path("/x/%sh{touch X}.txt")),
        "'/x/%sh{touch X}.txt'"
    );
    // Embedded single quote is doubled (helix single-quote escaping).
    assert_eq!(helix_quote(&path("/x/it's.txt")), "'/x/it''s.txt'");
    assert_eq!(helix_quote(&path("/x/a''b.txt")), "'/x/a''''b.txt'");
    // A double quote inside a single-quoted token is literal, no escaping.
    assert_eq!(helix_quote(&path("/x/a\"b.txt")), "'/x/a\"b.txt'");
}

#[test]
fn posix_quote_neutralizes_shell_metacharacters() {
    // Plain path unchanged inside single quotes.
    assert_eq!(posix_quote(&path("/a/b.txt")), "'/a/b.txt'");
    // Command substitution and separators are inert inside single quotes.
    assert_eq!(
        posix_quote(&path("/x/a$(rm -rf ~).md")),
        "'/x/a$(rm -rf ~).md'"
    );
    assert_eq!(posix_quote(&path("/x/a;b.md")), "'/x/a;b.md'");
    assert_eq!(posix_quote(&path("/x/a b*.md")), "'/x/a b*.md'");
    // An embedded single quote closes, escapes a literal quote, reopens.
    assert_eq!(posix_quote(&path("/x/a'b.md")), "'/x/a'\\''b.md'");
    assert_eq!(
        posix_quote(&path("/x/'; rm -rf ~ #.md")),
        "'/x/'\\''; rm -rf ~ #.md'"
    );
}

fn code(x: char, y: char) -> GitStatus {
    classify(x as u8, y as u8)
}

#[test]
fn classify_codes() {
    assert_eq!(code('?', '?'), GitStatus::Untracked);
    assert_eq!(code('!', '!'), GitStatus::Ignored);
    assert_eq!(code(' ', 'M'), GitStatus::Dirty);
    assert_eq!(code('M', ' '), GitStatus::Staged);
    assert_eq!(code('M', 'M'), GitStatus::Staged);
    assert_eq!(code(' ', 'D'), GitStatus::Deleted);
    assert_eq!(code('R', ' '), GitStatus::Renamed);
    assert_eq!(code('U', 'U'), GitStatus::Conflict);
    assert_eq!(code('A', ' '), GitStatus::Staged);
}

#[test]
fn priority_order() {
    assert!(GitStatus::Staged > GitStatus::Dirty);
    assert!(GitStatus::Dirty > GitStatus::Untracked);
    assert!(GitStatus::Untracked > GitStatus::Ignored);
    assert!(GitStatus::Staged.rank() > GitStatus::Dirty.rank());
    assert!(GitStatus::Dirty.rank() > GitStatus::Untracked.rank());
    assert!(GitStatus::Untracked.rank() > GitStatus::Ignored.rank());
}

#[test]
fn parse_simple() {
    let top = path("/repo");
    let mut map = PathMap::new();
    parse_porcelain_z(" M file.txt\0?? new.rs\0".as_bytes(), &top, &mut map);
    assert_eq!(map.get(&path("/repo/file.txt")), Some(&GitStatus::Dirty));
    assert_eq!(map.get(&path("/repo/new.rs")), Some(&GitStatus::Untracked));
}

#[test]
fn parse_rename_skips_orig() {
    let top = path("/repo");
    let mut map = PathMap::new();
    parse_porcelain_z("R  new.txt\0old.txt\0 M other\0".as_bytes(), &top, &mut map);
    assert_eq!(map.get(&path("/repo/new.txt")), Some(&GitStatus::Renamed));
    assert_eq!(map.get(&path("/repo/other")), Some(&GitStatus::Dirty));
    assert!(!map.contains(&path("/repo/old.txt")));
}

#[test]
fn parse_explicit_and_follow() {
    let Line::Reveal(r) = parse_line("reveal /a/b.txt").unwrap() else {
        panic!("expected a reveal");
    };
    assert_eq!(r.path, path("/a/b.txt"));
    assert!(!r.follow);

    let Line::Reveal(r) = parse_line("reveal-follow /a/b.txt").unwrap() else {
        panic!("expected a reveal");
    };
    assert_eq!(r.path, path("/a/b.txt"));
    assert!(r.follow);
}

#[test]
fn parse_preserves_path_whitespace() {
    // Trailing whitespace is a legal part of a unix file name.
    let Line::Reveal(r) = parse_line("reveal /a/trailing ").unwrap() else {
        panic!("expected a reveal");
    };
    assert_eq!(r.path, path("/a/trailing "));
    // Interior spaces too.
    let Line::Reveal(r) = parse_line("reveal-follow /a/has space/f.txt").unwrap() else {
        panic!("expected a reveal");
    };
    assert_eq!(r.path, path("/a/has space/f.txt"));
}

#[test]
fn parse_rejects_junk() {
    assert!(parse_line("").is_none());
    assert!(parse_line("reveal").is_none());
    assert!(parse_line("reveal ").is_none());
    assert!(parse_line("reveal-follow ").is_none());
    assert!(parse_line("revealx /a").is_none());
    assert!(parse_line("open /a").is_none());
}

#[test]
fn parses_diagnostics_with_counts_first_and_verbatim_path() {
    let Line::Diagnostics(d) = parse_line("diagnostics 2 5 /a/has space/f.rs ").unwrap() else {
        panic!("expected diagnostics");
    };
    assert_eq!(d.path, path("/a/has space/f.rs "));
    assert_eq!(d.counts, Counts { errors: 2, warnings: 5 });
    let Line::Diagnostics(d) = parse_line("diagnostics 0 0 /a/f.rs").unwrap() else {
        panic!("expected diagnostics");
    };
    assert!(d.counts.is_empty(), "both zero clears the file");
    assert!(parse_line("diagnostics 1 /a/f.rs").is_none(), "missing a count");
    assert!(parse_line("diagnostics x 1 /a/f.rs").is_none(), "not a number");
    assert!(parse_line("diagnostics 1 1 ").is_none(), "empty path");
    assert!(parse_line("diagnostics 1 1").is_none());
    assert!(parse_line("unknown-command /a").is_none(), "ignored, not an error");
}

#[test]
fn snapshot_batches_are_delivered_whole_and_only_when_well_formed() {
    let mut batch: Option<Batch> = None;
    assert!(fold_line(&mut batch, parse_line("diagnostics-begin 7").unwrap()).is_none());
    assert!(fold_line(&mut batch, parse_line("diagnostics 1 0 /a.rs").unwrap()).is_none());
    assert!(fold_line(&mut batch, parse_line("diagnostics 0 2 /b c.rs").unwrap()).is_none());
    let Some(Message::DiagnosticsSnapshot { sender, seq, files }) =
        fold_line(&mut batch, parse_line("diagnostics-end 7").unwrap())
    else {
        panic!("expected a snapshot");
    };
    assert_eq!(seq, 7);
    assert_eq!(sender, "", "no sender given");
    assert_eq!(
        files,
        vec![(path("/a.rs"), counts(1, 0)), (path("/b c.rs"), counts(0, 2))]
    );
    assert!(batch.is_none(), "the batch is consumed");

    // An empty snapshot is still a snapshot (everything clear).
    fold_line(&mut batch, parse_line("diagnostics-begin 8").unwrap());
    assert!(matches!(
        fold_line(&mut batch, parse_line("diagnostics-end 8").unwrap()),
        Some(Message::DiagnosticsSnapshot { seq: 8, files, .. }) if files.is_empty()
    ));

    // With a sender: `diagnostics-begin <sender> <seq>`.
    assert_eq!(
        parse_line("diagnostics-begin hx-4242-17 12"),
        Some(Line::Begin { sender: "hx-4242-17".into(), seq: 12 })
    );

    // A mismatched end drops the batch instead of applying a partial one.
    fold_line(&mut batch, parse_line("diagnostics-begin 9").unwrap());
    fold_line(&mut batch, parse_line("diagnostics 1 0 /a.rs").unwrap());
    assert!(fold_line(&mut batch, parse_line("diagnostics-end 3").unwrap()).is_none());
    assert!(batch.is_none());
    assert!(parse_line("diagnostics-begin x").is_none());
    assert!(parse_line("diagnostics-end").is_none());

    // Outside a batch, a diagnostics line stands on its own.
    assert!(matches!(
        fold_line(&mut batch, parse_line("diagnostics 1 0 /a.rs").unwrap()),
        Some(Message::Diagnostics(_))
    ));
}

fn key(c: char) -> Key {
    Key { code: KeyCode::Char(c), ctrl: false, alt: false }
}

fn ctrl(c: char) -> Key {
    Key { code: KeyCode::Char(c), ctrl: true, alt: false }
}

#[test]
fn basic_keys() {
    assert_eq!(resolve(key('j'), "").0, Action::Down);
    assert_eq!(resolve(key('a'), "").0, Action::Create);
    assert_eq!(resolve(ctrl('v'), "").0, Action::VSplit);
    assert_eq!(resolve(key('.'), "").0, Action::ToggleHidden);
    assert_eq!(resolve(key('f'), "").0, Action::LiveFilterStart);
}

#[test]
fn g_prefix() {
    let (action, pending) = resolve(key('g'), "");
    assert_eq!(action, Action::Nothing);
    assert_eq!(pending, "g");
    assert_eq!(resolve(key('y'), "g").0, Action::CopyAbspath);
    assert_eq!(resolve(key('?'), "g").0, Action::Help);
}

#[test]
fn git_nav_prefixes() {
    assert_eq!(resolve(key(']'), "").1, "]");
    assert_eq!(resolve(key('c'), "]").0, Action::NextGit);
    assert_eq!(resolve(key('c'), "[").0, Action::PrevGit);
}

#[test]
fn bulk_sequences() {
    assert_eq!(resolve(key('b'), "").1, "b");
    assert_eq!(resolve(key('d'), "b").0, Action::BulkDelete);
    assert_eq!(resolve(key('t'), "b").0, Action::BulkTrash);
    // bmv is three keys.
    assert_eq!(resolve(key('m'), "b").1, "bm");
    assert_eq!(resolve(key('v'), "bm").0, Action::BulkMove);
}

#[test]
fn indent_markers() {
    assert_eq!(indent_prefix(&[]), "");
    assert_eq!(indent_prefix(&[true]), "└ ");
    assert_eq!(indent_prefix(&[false]), "├ ");
    assert_eq!(indent_prefix(&[false, true]), "│ └ ");
    assert_eq!(indent_prefix(&[true, false]), "  ├ ");
}

#[test]
fn resolves_by_extension() {
    assert_eq!(by_name("main.rs"), "\u{e7a8}");
    assert_eq!(by_name("notes.md"), "\u{e73e}");
    assert_eq!(by_name("init.lua"), "\u{e620}");
    assert_eq!(by_name("data.json"), "\u{e60b}");
}

#[test]
fn resolves_by_filename_over_extension() {
    // Cargo.toml hits the filename table, not the generic .toml extension.
    assert_eq!(by_name("Cargo.toml"), "\u{e7a8}");
    assert_ne!(by_name("Cargo.toml"), by_name("config.toml"));
}

#[test]
fn unknown_falls_back() {
    assert_eq!(by_name("mystery.qqq"), FILE_DEFAULT);
}

#[test]
fn icons_are_never_empty() {
    for g in [
        FOLDER_CLOSED,
        FOLDER_OPEN,
        FILE_DEFAULT,
        SYMLINK,
        ARROW_CLOSED,
        ARROW_OPEN,
        BOOKMARK,
    ] {
        assert!(!g.is_empty());
    }
    for f in [
        "main.rs",
        "app.ts",
        "index.js",
        "page.tsx",
        "style.css",
        "data.json",
        "notes.md",
        "init.lua",
        "build.gradle.kts",
        "server.go",
        "script.py",
        "Cargo.toml",
        "package.json",
        "Dockerfile",
        "Makefile",
        ".gitignore",
        "README.md",
        "photo.png",
        "archive.zip",
        "song.mp3",
    ] {
        assert!(!by_name(f).is_empty(), "empty icon for {f}");
    }
}

#[test]
fn builtin_parses() {
    let t = Theme::default();
    // directory should be the frost1 cyan, bold.
    assert_eq!(t.directory.fg, Some(Color::Rgb(0x74, 0xBC, 0xD9)));
    assert!(t.directory.mods.bold);
}

#[test]
fn parse_style_spec() {
    let mut pal = Palette::new();
    pal.insert("red".to_string(), Color::Rgb(255, 0, 0));
    let s = parse_style("red / none / bold,italic", &pal).unwrap();
    assert_eq!(s.fg, Some(Color::Rgb(255, 0, 0)));
    assert_eq!(s.bg, None);
    assert!(s.mods.bold);
    assert!(s.mods.italic);
}

#[test]
fn hex_parsing() {
    assert_eq!(parse_hex("#1A1F28"), Some(Color::Rgb(0x1A, 0x1F, 0x28)));
    assert_eq!(parse_hex("bad"), None);
}

#[test]
fn split_name_handles_dotfiles() {
    assert_eq!(split_name("foo.txt"), ("foo".into(), "txt".into()));
    assert_eq!(split_name(".bashrc"), (".bashrc".into(), "".into()));
    assert_eq!(split_name("Makefile"), ("Makefile".into(), "".into()));
}

#[test]
fn wrap_words_keeps_segments_within_width() {
    let segs = wrap_words("live filter (files; E first for all) / clear", 12);
    assert!(segs.len() > 1, "long desc should wrap to multiple rows");
    for s in &segs {
        assert!(s.chars().count() <= 12, "segment {s:?} exceeds width");
    }
    // No information is lost: joining segments reproduces the words.
    assert_eq!(
        segs.join(" ").split_whitespace().collect::<Vec<_>>(),
        "live filter (files; E first for all) / clear"
            .split_whitespace()
            .collect::<Vec<_>>()
    );
}

#[test]
fn wrap_words_short_desc_is_single_segment() {
    assert_eq!(wrap_words("down / up", 40), vec!["down / up".to_string()]);
}

#[test]
fn wrap_words_long_word_gets_its_own_line() {
    // A single token wider than the column is placed alone rather than dropped.
    let segs = wrap_words("supercalifragilistic word", 8);
    assert_eq!(segs[0], "supercalifragilistic");
    assert_eq!(segs[1], "word");
}

#[test]
fn ignores_only_paths_inside_ignored_dirs() {
    let r = path("/r");
    // Interior churn is dropped...
    assert!(is_ignored(&r, &path("/r/node_modules/pkg")));
    assert!(is_ignored(&r, &path("/r/node_modules/pkg/index.js")));
    assert!(is_ignored(&r, &path("/r/a/target/debug/bin")));
    // ...but the ignored directory's own lifecycle events pass through,
    // so its parent listing stays truthful.
    assert!(!is_ignored(&r, &path("/r/node_modules")));
    assert!(!is_ignored(&r, &path("/r/a/target")));
    assert!(!is_ignored(&r, &path("/r/build")));
    // Ordinary paths are never dropped.
    assert!(!is_ignored(&r, &path("/r/src/main.rs")));
    // A FILE named like an ignored dir is the final component: kept.
    assert!(!is_ignored(&r, &path("/r/src/build")));
}

#[test]
fn root_prefix_components_are_not_treated_as_ignored() {
    let root = path("/Users/kody/build/app");
    assert!(
        !is_ignored(&root, &path("/Users/kody/build/app/src/main.rs")),
        "the `build` ABOVE the root must not mark paths ignored"
    );
    assert!(
        !inside_ignored(&root, &path("/Users/kody/build/app/src/main.rs")),
        "rescan confinement must also ignore the root prefix"
    );
    // A real node_modules BELOW this awkward root is still ignored.
    assert!(is_ignored(
        &root,
        &path("/Users/kody/build/app/node_modules/x/i.js")
    ));
}
