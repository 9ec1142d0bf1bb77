//! The explorer as a whole, on a disk that is only in memory.

use std::collections::BTreeMap;

use ratatui::backend::TestBackend;
use ratatui::widgets::{List, ListState as Scrolled};
use ratatui::Terminal;

use treelix::app::files::{PathKind, RenameKind};
use treelix::app::run::Turn;
use treelix::app::state::{
    Age, App, AppEvent, Ask, Effect, FileMeta, FileType, Mouse, MouseKind, Reply,
    FOLLOW_INPUT_GRACE, STATUS_TIMEOUT,
};
use treelix::clipboard::ClipOp;
use treelix::config::Config;
use treelix::diagnostics::{Counts, Diag, Severity};
use treelix::editor::OpenMode;
use treelix::filter::{EntryKind, WalkEntry};
use treelix::git::{GitData, GitStatus};
use treelix::ipc::{DiagnosticsUpdate, Reveal};
use treelix::keymap::{Action, Key, KeyCode};
use treelix::layout::frame_areas;
use treelix::path::Path;
use treelix::paths::{PathMap, PathSet};
use treelix::style::Rect;
use treelix::theme::Theme;
use treelix::tree::model::DirScan;
use treelix::tree::node::{Node, NodeKind};
use treelix::tree::ops::ancestors;
use treelix::ui_overlays::{ConfirmKind, InputKind, InputState, Overlay};
use treelix::watcher::FsChange;

/// The entries of a disk, each with whether it is a directory, and a clock that
/// counts the changes.
struct Disk {
    entries: BTreeMap<String, bool>,
    changed: BTreeMap<String, i128>,
    clock: i128,
    effects: Vec<Effect>,
    asked: Vec<Ask>,
}

impl Disk {
    fn empty() -> Disk {
        let mut d = Disk {
            entries: BTreeMap::new(),
            changed: BTreeMap::new(),
            clock: 0,
            effects: Vec::new(),
            asked: Vec::new(),
        };
        d.add("/r", true);
        d
    }

    fn touch_parent(&mut self, p: &str) {
        self.clock += 1;
        if let Some(i) = p.rfind('/') {
            self.changed.insert(p[..i].to_string(), self.clock);
        }
    }

    fn add(&mut self, p: &str, is_dir: bool) {
        self.entries.insert(p.to_string(), is_dir);
        self.touch_parent(p);
        if is_dir {
            self.changed.insert(p.to_string(), self.clock);
        }
    }

    fn has(&self, p: &str) -> bool {
        self.entries.contains_key(p)
    }

    fn remove(&mut self, p: &str) -> Option<String> {
        if !self.has(p) {
            return Some("not found".to_string());
        }
        let below = format!("{p}/");
        self.entries.retain(|k, _| k != p && !k.starts_with(&below));
        self.touch_parent(p);
        None
    }

    fn copy(&mut self, from: &str, to: &str) -> Option<String> {
        if !self.has(from) {
            return Some("not found".to_string());
        }
        if self.has(to) {
            return Some("already exists".to_string());
        }
        let below = format!("{from}/");
        let all: Vec<(String, bool)> = self
            .entries
            .iter()
            .filter(|(k, _)| *k == from || k.starts_with(&below))
            .map(|(k, d)| (format!("{to}{}", &k[from.len()..]), *d))
            .collect();
        for (k, d) in all {
            self.add(&k, d);
        }
        None
    }

    fn children(&self, dir: &str) -> Vec<(String, bool)> {
        let below = format!("{dir}/");
        self.entries
            .iter()
            .filter(|(k, _)| k.starts_with(&below) && !k[below.len()..].contains('/'))
            .map(|(k, d)| (k.clone(), *d))
            .collect()
    }

    fn scan(&self, p: &Path) -> Option<DirScan> {
        let dir = p.display();
        if self.entries.get(&dir) != Some(&true) {
            return None;
        }
        let nodes = self
            .children(&dir)
            .into_iter()
            .map(|(k, is_dir)| {
                let kind = if is_dir { NodeKind::Directory } else { NodeKind::File };
                Node::new(Path::new(&k), kind, false, None)
            })
            .collect();
        Some(DirScan { mtime: self.changed.get(&dir).copied(), entries: Some(nodes) })
    }

    fn actual(&self, p: &Path) -> Option<Path> {
        if self.has(&p.display()) {
            Some(p.copy())
        } else {
            None
        }
    }

    fn reply(&mut self, app: &App, ask: &Ask) -> Reply {
        match ask {
            Ask::Open(p) => Reply::Scan(self.scan(p).map(|s| {
                if app.wants_listing(p, s.mtime) {
                    s
                } else {
                    DirScan { mtime: s.mtime, entries: None }
                }
            })),
            Ask::Read(p) => Reply::Scan(self.scan(p)),
            Ask::Resolve(p) => Reply::Real {
                own: self.actual(p),
                ups: ancestors(p).iter().map(|a| self.actual(a)).collect(),
            },
            Ask::Walk(p) => Reply::Entries(Some(
                self.children(&p.display())
                    .into_iter()
                    .map(|(k, is_dir)| WalkEntry {
                        name: k[k.rfind('/').unwrap() + 1..].as_bytes().to_vec(),
                        kind: if is_dir { EntryKind::Directory } else { EntryKind::Leaf },
                    })
                    .collect(),
            )),
            Ask::Taken { dest, .. } => Reply::Taken(
                self.children(&dest.display())
                    .iter()
                    .map(|(k, _)| Path::new(k))
                    .collect(),
            ),
            Ask::Inspect(p) => Reply::Meta(self.entries.get(&p.display()).map(|d| FileMeta {
                file_type: if *d { FileType::Directory } else { FileType::File },
                size: Some("1 B".to_string()),
                age: Some(Age::Seconds(90)),
                mode: Some(0o100644),
            })),
            Ask::Create { path, is_dir } => {
                let p = path.display();
                if self.has(&p) {
                    return Reply::Done(Some("already exists".to_string()));
                }
                for up in ancestors(path).iter().rev() {
                    let u = up.display();
                    if u.starts_with("/r") && !self.has(&u) {
                        self.add(&u, true);
                    }
                }
                self.add(&p, *is_dir);
                Reply::Done(None)
            }
            Ask::Move { from, to } => {
                let (f, t) = (from.display(), to.display());
                let failed = self.copy(&f, &t);
                if failed.is_none() {
                    self.remove(&f);
                }
                Reply::Done(failed)
            }
            Ask::Copy { from, to } => Reply::Done(self.copy(&from.display(), &to.display())),
            Ask::Remove(p) | Ask::Trash(p) => Reply::Done(self.remove(&p.display())),
        }
    }

    /// Does all that the explorer has to do.
    fn settle(&mut self, app: &mut App) {
        loop {
            match app.step() {
                Turn::Idle => return,
                Turn::Again => {}
                Turn::Do(e) => self.effects.push(e),
                Turn::Ask(ask) => {
                    let reply = self.reply(app, &ask);
                    self.asked.push(ask);
                    app.answer(reply);
                }
            }
        }
    }

    fn event(&mut self, app: &mut App, ev: AppEvent) {
        let now = app.now;
        app.handle_event(ev, now);
        self.settle(app);
    }

    fn key(&mut self, app: &mut App, code: KeyCode) {
        self.event(app, AppEvent::Key(Key { code, ctrl: false, alt: false }));
    }

    fn keys(&mut self, app: &mut App, text: &str) {
        for c in text.chars() {
            self.key(app, KeyCode::Char(c));
        }
    }

    fn dispatch(&mut self, app: &mut App, action: Action) {
        app.dispatch(action);
        self.settle(app);
    }

    fn start(&mut self, config: Config) -> App {
        let root = Path::new("/r");
        let scan = self.scan(&root).unwrap();
        let mut app = App::new(root, scan, config, Theme::default(), None, 0);
        self.settle(&mut app);
        self.asked.clear();
        app
    }
}

fn path(s: &str) -> Path {
    Path::new(s)
}

/// A tree with a closed directory: `sub/deep.txt` and `a.txt`.
fn app_with_tree() -> (App, Disk, Path, Path) {
    let mut disk = Disk::empty();
    disk.add("/r/sub", true);
    disk.add("/r/sub/deep.txt", false);
    disk.add("/r/a.txt", false);
    let app = disk.start(Config::default());
    (app, disk, path("/r"), path("/r/sub/deep.txt"))
}

fn diag_of(app: &App, p: &Path) -> Option<Diag> {
    app.rows.iter().find(|r| r.path == *p).and_then(|r| r.diag)
}

fn visible(app: &App, p: &Path) -> bool {
    app.rows.iter().any(|r| r.path == *p)
}

fn names(app: &App) -> Vec<String> {
    app.rows.iter().map(|r| r.name.clone()).collect()
}

fn is_open(app: &App, p: &str) -> bool {
    app.tree.collect_expanded().contains(&path(p))
}

fn report(p: &Path, errors: u32, warnings: u32) -> AppEvent {
    AppEvent::Diagnostics(DiagnosticsUpdate {
        path: p.copy(),
        counts: Counts { errors, warnings },
    })
}

fn show(p: &Path, follow: bool) -> AppEvent {
    AppEvent::Reveal(Reveal { path: p.copy(), follow })
}

fn selected(app: &App) -> Option<String> {
    app.selected_path().map(|p| p.display())
}

fn status(app: &App) -> String {
    app.status.clone().unwrap_or_default()
}

#[test]
fn diagnostics_color_the_file_and_its_collapsed_folder_until_cleared() {
    let (mut app, mut disk, _root, deep) = app_with_tree();
    let sub = path("/r/sub");
    assert!(!visible(&app, &deep), "sub starts collapsed");

    disk.event(&mut app, report(&deep, 2, 1));
    assert_eq!(
        diag_of(&app, &sub),
        Some(Diag { severity: Severity::Error, count: 0 }),
        "a collapsed folder shows the worst severity inside it"
    );
    assert_eq!(diag_of(&app, &path("/r/a.txt")), None);

    disk.event(&mut app, show(&deep, false));
    assert_eq!(
        diag_of(&app, &deep),
        Some(Diag { severity: Severity::Error, count: 2 }),
        "the file shows its error count once visible"
    );

    disk.event(&mut app, report(&deep, 0, 1));
    assert_eq!(diag_of(&app, &deep).map(|d| d.severity), Some(Severity::Warning));
    assert_eq!(diag_of(&app, &sub).map(|d| d.severity), Some(Severity::Warning));

    disk.event(&mut app, report(&deep, 0, 0));
    assert_eq!(diag_of(&app, &deep), None, "cleared");
    assert_eq!(diag_of(&app, &sub), None);
}

#[test]
fn diagnostics_mode_errors_hides_warnings_and_off_ignores_everything() {
    for (mode, expect_warning, expect_error) in
        [("errors", None, Some(Severity::Error)), ("off", None, None)]
    {
        let mut disk = Disk::empty();
        disk.add("/r/a.txt", false);
        let mut config = Config::default();
        config.diagnostics = mode.to_string();
        let mut app = disk.start(config);
        let file = path("/r/a.txt");
        disk.event(&mut app, report(&file, 0, 4));
        assert_eq!(diag_of(&app, &file).map(|d| d.severity), expect_warning, "{mode}");
        disk.event(&mut app, report(&file, 1, 4));
        assert_eq!(diag_of(&app, &file).map(|d| d.severity), expect_error, "{mode}");
    }
}

const TEST_W: u16 = 40;
const TEST_H: u16 = 20;
const VIEWPORT: usize = 18;

/// Draws the rows as the list widget does, and keeps where it scrolled to.
fn draw(app: &mut App) -> Vec<String> {
    let screen = Rect { x: 0, y: 0, width: TEST_W, height: TEST_H };
    let areas = frame_areas(screen);
    app.fit_view(areas.list);
    let items: Vec<String> = app
        .items()
        .iter()
        .map(|l| l.iter().map(|s| s.text.as_str()).collect())
        .collect();
    let mut state = Scrolled::default()
        .with_offset(app.list.offset)
        .with_selected(app.list.selected);
    let list = List::new(items).scroll_padding(app.config.scrolloff);
    let mut terminal = Terminal::new(TestBackend::new(TEST_W, TEST_H)).unwrap();
    terminal
        .draw(|f| {
            let at = ratatui::layout::Rect {
                x: areas.list.x,
                y: areas.list.y,
                width: areas.list.width,
                height: areas.list.height,
            };
            f.render_stateful_widget(list, at, &mut state);
        })
        .unwrap();
    app.list.offset = state.offset();
    let buf = terminal.backend().buffer();
    (0..TEST_H)
        .map(|y| {
            (0..TEST_W)
                .map(|x| buf.cell((x, y)).unwrap().symbol().to_string())
                .collect()
        })
        .collect()
}

#[test]
fn shrinking_rows_keeps_viewport_bottom_anchored() {
    let mut disk = Disk::empty();
    disk.add("/r/dir", true);
    for i in 0..40 {
        disk.add(&format!("/r/dir/f{i:02}.txt"), false);
    }
    for i in 0..30 {
        disk.add(&format!("/r/file{i:02}.txt"), false);
    }
    let mut app = disk.start(Config::default());
    disk.dispatch(&mut app, Action::Expand);
    assert_eq!(app.rows.len(), 71);
    app.list.selected = Some(app.rows.len() - 1);
    draw(&mut app);
    assert!(app.list.offset > 33, "offset went deep");
    disk.dispatch(&mut app, Action::CollapseAll);
    let screen = draw(&mut app);
    assert_eq!(app.rows.len(), 31);
    assert_eq!(app.list.offset, app.rows.len() - VIEWPORT);
    assert!(
        screen[VIEWPORT].contains("file29"),
        "last row pinned to the pane bottom: {:?}",
        screen[VIEWPORT]
    );
    assert!(!screen[1].trim().is_empty(), "no blank rows at the top of the pane");
}

fn many_dirs() -> Disk {
    let mut disk = Disk::empty();
    for d in 0..25 {
        disk.add(&format!("/r/d{d:02}"), true);
        for f in 0..5 {
            disk.add(&format!("/r/d{d:02}/c{f}.txt"), false);
        }
    }
    disk
}

#[test]
fn expanding_a_dir_on_the_bottom_row_reveals_children() {
    let mut disk = many_dirs();
    let mut app = disk.start(Config::default());
    app.list.selected = Some(app.rows.len() - 1);
    let screen = draw(&mut app);
    assert!(screen[VIEWPORT].contains("d24"), "d24 on the bottom row");
    disk.dispatch(&mut app, Action::Expand);
    let screen = draw(&mut app);
    let text = screen[1..=VIEWPORT].join("\n");
    assert!(
        text.contains("c0.txt"),
        "children of the expanded dir are visible: {text}"
    );
}

#[test]
fn expanding_at_bottom_reveals_a_child_even_with_scrolloff_zero() {
    let mut disk = many_dirs();
    let mut config = Config::default();
    config.scrolloff = 0;
    let mut app = disk.start(config);
    app.list.selected = Some(app.rows.len() - 1);
    let screen = draw(&mut app);
    assert!(screen[VIEWPORT].contains("d24"), "d24 on the bottom row");
    disk.dispatch(&mut app, Action::Expand);
    let screen = draw(&mut app);
    let text = screen[1..=VIEWPORT].join("\n");
    assert!(
        text.contains("c0.txt"),
        "at least the first child is visible at scrolloff 0: {text}"
    );
}

fn scroll_of(app: &App) -> u16 {
    match &app.overlay {
        Overlay::Help(h) => h.scroll,
        _ => panic!("the help must be open"),
    }
}

#[test]
fn help_scrolls_and_only_non_scroll_keys_dismiss() {
    let (mut app, mut disk, _root, _deep) = app_with_tree();
    // Give the help a small viewport so its content is scrollable.
    app.list_area = Rect { x: 0, y: 1, width: 30, height: 6 };
    disk.dispatch(&mut app, Action::Help);
    assert!(matches!(app.overlay, Overlay::Help(_)), "help opened");

    // j scrolls down without dismissing.
    disk.keys(&mut app, "j");
    let s1 = scroll_of(&app);
    assert!(s1 >= 1, "j scrolled down");
    // k scrolls back up.
    disk.keys(&mut app, "k");
    assert_eq!(scroll_of(&app), s1 - 1);
    // G jumps to the bottom; g back to the top.
    disk.keys(&mut app, "G");
    assert!(scroll_of(&app) >= 1, "G scrolled to a positive max");
    disk.keys(&mut app, "g");
    assert_eq!(scroll_of(&app), 0, "g returned to top");
    // q dismisses.
    disk.keys(&mut app, "q");
    assert!(matches!(app.overlay, Overlay::Closed), "q closes help");

    // A non-scroll key (e.g. 'z') also dismisses.
    disk.dispatch(&mut app, Action::Help);
    disk.keys(&mut app, "z");
    assert!(matches!(app.overlay, Overlay::Closed), "unrelated key closes help");
}

#[test]
fn set_and_clear_status_do_not_recurse() {
    let (mut app, _disk, _root, _deep) = app_with_tree();
    app.set_status("hello".to_string());
    assert_eq!(app.status.as_deref(), Some("hello"));
    assert!(app.status_deadline.is_some(), "deadline should be armed");
    app.clear_status();
    assert_eq!(app.status, None);
    assert!(app.status_deadline.is_none(), "deadline should be disarmed");
}

#[test]
fn explicit_reveal_applies_immediately() {
    let (mut app, mut disk, _root, deep) = app_with_tree();
    assert!(!visible(&app, &deep), "sub collapsed at startup");
    disk.event(&mut app, show(&deep, false));
    assert_eq!(app.current_file.as_ref(), Some(&deep));
    assert!(app.pending_reveal.is_none(), "explicit reveal is never deferred");
    assert!(visible(&app, &deep), "sub expanded, deep revealed");
    assert_eq!(app.selected_path().as_ref(), Some(&deep));
}

#[test]
fn follow_reveal_is_deferred_while_driving() {
    let (mut app, mut disk, _root, deep) = app_with_tree();
    app.touch(); // user just acted -> within the grace window
    disk.event(&mut app, show(&deep, true));
    // Highlight updates immediately...
    assert_eq!(app.current_file.as_ref(), Some(&deep));
    // ...but the expand + cursor move is held back.
    assert_eq!(app.pending_reveal.as_ref(), Some(&deep));
    assert!(!visible(&app, &deep), "deferred: sub stays collapsed");
}

#[test]
fn follow_reveal_applies_when_idle() {
    let (mut app, mut disk, _root, deep) = app_with_tree();
    app.last_input = None; // not driving the tree
    disk.event(&mut app, show(&deep, true));
    assert!(app.pending_reveal.is_none());
    assert!(visible(&app, &deep), "idle follow reveals immediately");
}

#[test]
fn deferred_reveal_applies_on_next_event_once_idle() {
    let (mut app, mut disk, _root, deep) = app_with_tree();
    app.touch();
    disk.event(&mut app, show(&deep, true));
    assert_eq!(app.pending_reveal.as_ref(), Some(&deep), "deferred");
    assert!(!visible(&app, &deep));

    // User goes idle; the next event (any kind) flushes the pending reveal
    // before it is handled.
    app.last_input = None;
    disk.event(&mut app, AppEvent::Redraw);
    assert!(app.pending_reveal.is_none(), "pending reveal consumed");
    assert!(visible(&app, &deep), "tree synced to the editor's buffer");
}

fn type_filter(app: &mut App, disk: &mut Disk, query: &str) {
    disk.keys(app, "f");
    disk.keys(app, query);
}

#[test]
fn live_filter_finds_file_in_collapsed_dir() {
    let (mut app, mut disk, _root, deep) = app_with_tree();
    assert!(!visible(&app, &deep), "sub collapsed at startup");
    type_filter(&mut app, &mut disk, "deep");
    assert!(
        visible(&app, &deep),
        "filter must scan disk and auto-expand to the match; rows: {:?}",
        names(&app)
    );
    // The non-matching sibling file is filtered out.
    assert!(!names(&app).iter().any(|n| n == "a.txt"));
}

#[test]
fn filter_can_hide_folders_without_matches() {
    let mut disk = Disk::empty();
    disk.add("/r/sub", true);
    disk.add("/r/sub/deep.txt", false);
    disk.add("/r/unrelated", true);
    disk.add("/r/unrelated/other.txt", false);
    for show in [false, true] {
        let mut config = Config::default();
        config.live_filter_show_folders = show;
        let mut app = disk.start(config);
        type_filter(&mut app, &mut disk, "deep");
        assert!(visible(&app, &path("/r/sub/deep.txt")), "match shown");
        assert!(visible(&app, &path("/r/sub")), "ancestor of the match stays visible");
        assert_eq!(visible(&app, &path("/r/unrelated")), show);
        assert!(!visible(&app, &path("/r/unrelated/other.txt")));
    }
}

#[test]
fn clearing_filter_restores_expansion_state() {
    let (mut app, mut disk, _root, deep) = app_with_tree();
    type_filter(&mut app, &mut disk, "deep");
    assert!(visible(&app, &deep), "filter expanded sub");
    disk.key(&mut app, KeyCode::Esc); // clear while editing
    assert!(app.live_filter.is_none());
    assert!(
        !visible(&app, &deep),
        "sub must be collapsed again after the filter is cleared"
    );
    assert!(names(&app).iter().any(|n| n == "a.txt"), "full tree is back");
}

#[test]
fn narrowing_query_after_enter_persists() {
    // Enter keeps the filter active for navigation; rows stay restricted.
    let (mut app, mut disk, _root, deep) = app_with_tree();
    type_filter(&mut app, &mut disk, "deep");
    disk.key(&mut app, KeyCode::Enter);
    assert!(app.live_filter.is_some(), "Enter keeps the filter");
    assert!(visible(&app, &deep));
    // F (LiveFilterClear) restores the pre-filter tree.
    disk.keys(&mut app, "F");
    assert!(app.live_filter.is_none());
    assert!(!visible(&app, &deep));
}

#[test]
fn clear_only_undoes_filter_opened_dirs() {
    let (mut app, mut disk, _root, _deep) = app_with_tree();
    disk.add("/r/other", true);
    disk.add("/r/other/note.txt", false);
    disk.event(&mut app, AppEvent::Fs(FsChange::Rescan));

    // User opens `other` by hand (pre-filter).
    app.select_path(&path("/r/other"));
    disk.dispatch(&mut app, Action::Expand);
    assert!(is_open(&app, "/r/other"));

    // Filter opens `sub` to reach sub/deep.txt.
    type_filter(&mut app, &mut disk, "deep");
    assert!(is_open(&app, "/r/sub"));

    // Clear (Esc, since we're still in edit mode): filter-opened `sub`
    // collapses; user-opened `other` stays open.
    disk.key(&mut app, KeyCode::Esc);
    assert!(is_open(&app, "/r/other"), "pre-existing user expansion survives clear");
    assert!(!is_open(&app, "/r/sub"), "filter-opened dir collapses on clear");
}

#[test]
fn clear_does_not_reopen_a_dir_the_user_collapsed_while_parked() {
    let (mut app, mut disk, _root, _deep) = app_with_tree();
    // Open `sub` by hand pre-filter so it's part of the "before" state.
    app.select_path(&path("/r/sub"));
    disk.dispatch(&mut app, Action::Expand);
    type_filter(&mut app, &mut disk, "deep");
    disk.key(&mut app, KeyCode::Enter); // park
    // User collapses `sub` while parked.
    app.select_path(&path("/r/sub"));
    disk.dispatch(&mut app, Action::CollapseOrParent);
    assert!(!is_open(&app, "/r/sub"));
    // Clear must NOT re-expand it.
    disk.keys(&mut app, "F");
    assert!(
        !is_open(&app, "/r/sub"),
        "a dir collapsed while parked stays collapsed after clear"
    );
}

#[test]
fn what_the_user_opens_while_filtering_stays_open() {
    let (mut app, mut disk, _root, deep) = app_with_tree();
    type_filter(&mut app, &mut disk, "deep");
    disk.key(&mut app, KeyCode::Enter);
    // Closed and opened again by hand, `sub` is the user's.
    app.select_path(&path("/r/sub"));
    disk.dispatch(&mut app, Action::CollapseOrParent);
    disk.dispatch(&mut app, Action::Expand);
    disk.keys(&mut app, "F");
    assert!(is_open(&app, "/r/sub"));
    assert!(visible(&app, &deep));
}

#[test]
fn cursor_falls_back_to_nearest_ancestor_not_raw_index() {
    let (mut app, mut disk, _root, deep) = app_with_tree();
    disk.event(&mut app, show(&deep, false));
    assert_eq!(app.selected_path().as_ref(), Some(&deep));
    type_filter(&mut app, &mut disk, "a.txt"); // matches only root/a.txt, not deep
    let sel = selected(&app).unwrap();
    assert!(
        sel == "/r/sub" || sel == "/r/a.txt",
        "cursor landed sensibly, got {sel:?}"
    );
}

#[test]
fn empty_filter_query_restricts_nothing() {
    let (mut app, mut disk, _root, _deep) = app_with_tree();
    let before: Vec<Path> = app.rows.iter().map(|r| r.path.copy()).collect();
    disk.keys(&mut app, "f");
    assert!(app.live_scan.is_none(), "no scan for an empty query");
    let after: Vec<Path> = app.rows.iter().map(|r| r.path.copy()).collect();
    assert_eq!(before, after, "rows unchanged by an empty filter");
}

#[test]
fn cd_drops_live_filter_state() {
    let (mut app, mut disk, _root, deep) = app_with_tree();
    type_filter(&mut app, &mut disk, "deep");
    disk.key(&mut app, KeyCode::Enter);
    assert!(app.live_filter.is_some());
    app.set_root(path("/r/sub"));
    disk.settle(&mut app);
    assert!(app.live_filter.is_none(), "cd clears the filter");
    assert!(
        app.filter_auto_expanded.is_empty(),
        "cd drops the tracked auto-expansions"
    );
    assert!(visible(&app, &deep), "new root renders normally after cd");
}

#[test]
fn bulk_delete_partial_failure_keeps_survivor_marks() {
    let (mut app, mut disk, _root, _deep) = app_with_tree();
    let a = path("/r/a.txt");
    let ghost = path("/r/ghost.txt"); // never exists on disk
    app.marks.toggle(&a);
    app.marks.toggle(&ghost);
    app.run_confirm(ConfirmKind::BulkDelete(vec![ghost.copy(), a.copy()]));
    disk.settle(&mut app);
    assert!(!disk.has("/r/a.txt"), "existing file removed despite earlier failure");
    assert!(!app.marks.contains(&a), "removed path unmarked");
    assert!(app.marks.contains(&ghost), "failed path keeps its mark for retry");
    assert!(
        status(&app).contains("1 of 2"),
        "status reports partial result: {:?}",
        app.status
    );
    assert_eq!(status(&app), "removed 1 of 2 (not found)");
}

#[test]
fn create_rejects_root_escape() {
    let (mut app, mut disk, _root, _deep) = app_with_tree();
    app.submit_input(InputState::new(
        " create ",
        "../escaped.txt".to_string(),
        InputKind::Create,
    ));
    disk.settle(&mut app);
    assert!(!disk.has("/escaped.txt"), "no file may be created outside the root");
    assert!(
        status(&app).contains("rejected"),
        "status explains the rejection: {:?}",
        app.status
    );
    assert_eq!(status(&app), "create rejected: path escapes the tree root");
}

#[test]
fn rename_rejects_root_escape_and_existing_target() {
    let (mut app, mut disk, _root, _deep) = app_with_tree();
    // Escape via `..` in the rename prompt.
    app.do_rename(path("/r/a.txt"), "../stolen.txt");
    disk.settle(&mut app);
    assert!(disk.has("/r/a.txt"), "source untouched");
    assert!(!disk.has("/stolen.txt"));
    assert_eq!(status(&app), "rename rejected: path escapes the tree root");
    // An absolute path is no name.
    app.do_rename(path("/r/a.txt"), "/r/b.txt");
    disk.settle(&mut app);
    assert_eq!(status(&app), "rename rejected: absolute path (use rename-full)");
    // Renaming onto an existing file is refused.
    disk.add("/r/b.txt", false);
    app.do_rename(path("/r/a.txt"), "b.txt");
    disk.settle(&mut app);
    assert!(disk.has("/r/a.txt") && disk.has("/r/b.txt"));
    assert_eq!(status(&app), "rename failed: already exists");
}

#[test]
fn fs_rescan_reloads_expanded_tree() {
    let (mut app, mut disk, _root, deep) = app_with_tree();
    disk.event(&mut app, show(&deep, false));
    assert!(visible(&app, &deep), "sub expanded");

    // Change the tree on disk with no per-path notification.
    disk.add("/r/sub/missed.txt", false);
    disk.event(&mut app, AppEvent::Fs(FsChange::Rescan));
    assert!(
        visible(&app, &path("/r/sub/missed.txt")),
        "rescan re-reads expanded dirs and surfaces the missed file"
    );
    assert_eq!(app.selected_path().as_ref(), Some(&deep), "the cursor stays");
}

#[test]
fn acting_key_arms_grace_but_inert_key_does_not() {
    let (mut app, mut disk, _root, _deep) = app_with_tree();
    app.last_input = None;
    disk.keys(&mut app, "j"); // resolves to Down -> acts
    assert!(app.last_input.is_some(), "a mapped key must arm the grace window");

    let (mut app2, mut disk2, _r2, _d2) = app_with_tree();
    app2.last_input = None;
    disk2.key(&mut app2, KeyCode::F(9)); // unmapped, no pending chord -> inert
    assert!(
        app2.last_input.is_none(),
        "an unmapped key must not arm the grace window"
    );
}

#[test]
fn chord_prefix_arms_grace() {
    let (mut app, mut disk, _root, _deep) = app_with_tree();
    app.last_input = None;
    disk.keys(&mut app, "g");
    assert!(!app.pending.is_empty(), "g starts a multi-key sequence");
    assert!(app.last_input.is_some(), "a chord prefix arms the grace window");
}

#[test]
fn a_waiting_reveal_comes_by_itself() {
    let (mut app, mut disk, _root, deep) = app_with_tree();
    app.touch();
    disk.event(&mut app, show(&deep, true));
    assert_eq!(app.next_wake(), Some(FOLLOW_INPUT_GRACE));
    app.on_timeout(FOLLOW_INPUT_GRACE - 1);
    disk.settle(&mut app);
    assert!(!visible(&app, &deep));
    app.on_timeout(FOLLOW_INPUT_GRACE);
    disk.settle(&mut app);
    assert!(visible(&app, &deep));
    assert_eq!(app.next_wake(), None);
}

#[test]
fn a_message_goes_away_by_itself() {
    let (mut app, _disk, _root, _deep) = app_with_tree();
    app.set_status("hello".to_string());
    assert_eq!(app.next_wake(), Some(STATUS_TIMEOUT));
    app.on_timeout(STATUS_TIMEOUT - 1);
    assert_eq!(status(&app), "hello");
    app.on_timeout(STATUS_TIMEOUT);
    assert_eq!(app.status, None);
}

#[test]
fn a_reveal_that_is_not_there_opens_the_way_and_moves_nothing() {
    let (mut app, mut disk, _root, _deep) = app_with_tree();
    let before = selected(&app);
    disk.event(&mut app, show(&path("/r/sub/unsaved.txt"), false));
    assert!(is_open(&app, "/r/sub"));
    assert_eq!(selected(&app), before);
    disk.event(&mut app, show(&path("/elsewhere/x"), false));
    assert_eq!(selected(&app), before);
}

#[test]
fn only_what_was_read_is_read_again() {
    let (mut app, mut disk, _root, _deep) = app_with_tree();
    disk.add("/r/new.txt", false);
    let mut changed = PathSet::new();
    changed.insert(path("/r/new.txt"));
    changed.insert(path("/r/sub/hidden.txt"));
    disk.event(&mut app, AppEvent::Fs(FsChange::Paths(changed)));
    assert!(visible(&app, &path("/r/new.txt")));
    let read: Vec<String> = disk
        .asked
        .iter()
        .filter_map(|a| match a {
            Ask::Read(p) => Some(p.display()),
            _ => None,
        })
        .collect();
    assert_eq!(read, vec!["/r".to_string()], "the closed directory was never read");
}

fn scanned(list: &[(&str, GitStatus)]) -> AppEvent {
    let mut map = PathMap::new();
    for (p, s) in list {
        map.insert(path(p), *s);
    }
    AppEvent::Git(Some(GitData { toplevel: Some(path("/r")), statuses: map }))
}

#[test]
fn one_scan_runs_at_a_time_and_none_is_lost() {
    let (mut app, mut disk, _root, _deep) = app_with_tree();
    let scans = |d: &Disk| {
        d.effects
            .iter()
            .filter(|e| matches!(e, Effect::ScanGit { .. }))
            .count()
    };
    assert_eq!(scans(&disk), 1, "one at the start");
    disk.dispatch(&mut app, Action::Refresh);
    assert_eq!(status(&app), "refreshed");
    assert_eq!(scans(&disk), 1, "it still runs");
    disk.event(&mut app, scanned(&[]));
    assert_eq!(scans(&disk), 2, "asked for meanwhile");
    disk.event(&mut app, AppEvent::Git(None));
    assert_eq!(scans(&disk), 3, "a failed one is tried again");
    assert!(matches!(
        disk.effects.last(),
        Some(Effect::ScanGit { delay: 1000, .. })
    ));
    disk.event(&mut app, scanned(&[]));
    assert_eq!(scans(&disk), 3);
}

#[test]
fn statuses_show_and_ignored_files_go() {
    let (mut app, mut disk, _root, _deep) = app_with_tree();
    disk.event(
        &mut app,
        scanned(&[
            ("/r/a.txt", GitStatus::Ignored),
            ("/r/sub/deep.txt", GitStatus::Dirty),
        ]),
    );
    assert_eq!(names(&app), vec!["sub"]);
    disk.keys(&mut app, ".");
    assert_eq!(status(&app), "hidden + ignored: on");
    assert_eq!(names(&app), vec!["sub", "a.txt"]);
    disk.event(&mut app, show(&path("/r/sub/deep.txt"), false));
    assert_eq!(app.rows[1].git, Some(GitStatus::Dirty));
    app.select_path(&path("/r/a.txt"));
    disk.keys(&mut app, "]c");
    assert_eq!(selected(&app).as_deref(), Some("/r/sub"));
}

#[test]
fn a_file_is_opened_in_the_editor() {
    let (mut app, mut disk, _root, _deep) = app_with_tree();
    disk.effects.clear();
    app.select_path(&path("/r/a.txt"));
    disk.key(&mut app, KeyCode::Enter);
    match disk.effects.pop() {
        Some(Effect::Open { path: p, mode }) => {
            assert_eq!(p, path("/r/a.txt"));
            assert_eq!(mode, OpenMode::Open);
        }
        other => panic!("expected an open, got {other:?}"),
    }
    assert_eq!(app.current_file, Some(path("/r/a.txt")));
    disk.keys(&mut app, "gy");
    match disk.effects.pop() {
        Some(Effect::CopyText(t)) => assert_eq!(t, "/r/a.txt"),
        other => panic!("expected a copy, got {other:?}"),
    }
    assert_eq!(status(&app), "yanked: /r/a.txt");
    app.copy_path_kind(PathKind::Relative);
    disk.settle(&mut app);
    assert_eq!(status(&app), "yanked: a.txt");
}

#[test]
fn the_mouse_selects_and_opens() {
    let (mut app, mut disk, _root, deep) = app_with_tree();
    app.list_area = Rect { x: 0, y: 1, width: 40, height: 18 };
    let click = |row: u16| AppEvent::Mouse(Mouse { kind: MouseKind::LeftDown, row });
    disk.event(&mut app, click(1));
    assert!(visible(&app, &deep), "sub was opened");
    disk.event(
        &mut app,
        AppEvent::Mouse(Mouse { kind: MouseKind::ScrollDown, row: 0 }),
    );
    assert_eq!(app.selected_path().as_ref(), Some(&deep));
    app.last_input = None;
    disk.event(&mut app, click(12));
    assert_eq!(app.last_input, None, "nothing lies there");
}

#[test]
fn create_by_typing() {
    let (mut app, mut disk, _root, _deep) = app_with_tree();
    app.select_path(&path("/r/sub"));
    disk.keys(&mut app, "a");
    match &app.overlay {
        Overlay::Input(s) => {
            assert_eq!(s.prompt, " create in r/ ");
            assert_eq!(s.buffer, "sub/");
        }
        _ => panic!("expected a prompt"),
    }
    disk.keys(&mut app, "x/y.txt");
    disk.key(&mut app, KeyCode::Enter);
    assert!(disk.has("/r/sub/x/y.txt"));
    assert_eq!(status(&app), "created sub/x/y.txt");
    assert_eq!(selected(&app).as_deref(), Some("/r/sub/x/y.txt"));
    disk.keys(&mut app, "a");
    disk.key(&mut app, KeyCode::Home);
    disk.keys(&mut app, "new/");
    disk.key(&mut app, KeyCode::Enter);
    assert_eq!(disk.entries.get("/r/new/sub/x"), Some(&true), "a slash makes a directory");
}

#[test]
fn rename_by_typing() {
    let (mut app, mut disk, _root, _deep) = app_with_tree();
    app.select_path(&path("/r/a.txt"));
    app.start_rename(RenameKind::Basename);
    disk.keys(&mut app, "b");
    disk.key(&mut app, KeyCode::Enter);
    assert!(disk.has("/r/ab.txt") && !disk.has("/r/a.txt"));
    assert_eq!(status(&app), "renamed to ab.txt");
    assert_eq!(selected(&app).as_deref(), Some("/r/ab.txt"));
    app.start_rename(RenameKind::OmitFilename);
    match &app.overlay {
        Overlay::Input(s) => assert_eq!(s.buffer, "ab.txt"),
        _ => panic!("expected a prompt"),
    }
    disk.key(&mut app, KeyCode::Home);
    disk.keys(&mut app, "sub/");
    disk.key(&mut app, KeyCode::Enter);
    assert!(disk.has("/r/sub/ab.txt"));
    assert_eq!(status(&app), "moved to sub/ab.txt");
}

#[test]
fn delete_by_answering() {
    let (mut app, mut disk, _root, _deep) = app_with_tree();
    app.select_path(&path("/r/a.txt"));
    disk.keys(&mut app, "d");
    match &app.overlay {
        Overlay::Confirm(s) => assert_eq!(s.prompt, "delete a.txt?"),
        _ => panic!("expected a question"),
    }
    disk.keys(&mut app, "n");
    assert!(disk.has("/r/a.txt"));
    disk.keys(&mut app, "dy");
    assert!(!disk.has("/r/a.txt"));
    assert_eq!(status(&app), "removed 1 item(s)");
}

#[test]
fn cut_and_paste_takes_the_bookmark_along() {
    let (mut app, mut disk, _root, _deep) = app_with_tree();
    let mut saved = Config::default();
    saved.bookmarks_persist = true;
    app.config = saved;
    app.select_path(&path("/r/a.txt"));
    disk.keys(&mut app, "mx");
    assert!(app.clipboard.is_cut(&path("/r/a.txt")));
    assert_eq!(status(&app), "cut 1 item(s)");
    app.select_path(&path("/r/sub"));
    disk.effects.clear();
    disk.keys(&mut app, "p");
    assert!(disk.has("/r/sub/a.txt") && !disk.has("/r/a.txt"));
    assert!(app.marks.contains(&path("/r/sub/a.txt")));
    assert!(app.clipboard.is_empty());
    assert_eq!(status(&app), "pasted 1 item(s)");
    assert_eq!(selected(&app).as_deref(), Some("/r/sub/a.txt"));
    assert!(disk
        .effects
        .iter()
        .any(|e| matches!(e, Effect::SaveMarks(t) if t.contains("/r/sub/a.txt"))));
}

#[test]
fn copies_never_replace() {
    let (mut app, mut disk, _root, _deep) = app_with_tree();
    app.select_path(&path("/r/a.txt"));
    disk.keys(&mut app, "cp");
    assert!(disk.has("/r/a_copy.txt") && disk.has("/r/a.txt"));
    assert_eq!(app.clipboard.op, Some(ClipOp::Copy), "what was copied stays");
    disk.keys(&mut app, "p");
    assert!(disk.has("/r/a_copy_2.txt"));
}

#[test]
fn what_could_not_be_moved_stays_on_the_clipboard() {
    let (mut app, mut disk, _root, _deep) = app_with_tree();
    app.clipboard.set(
        ClipOp::Cut,
        vec![path("/r/ghost.txt"), path("/r/a.txt")],
    );
    app.select_path(&path("/r/sub"));
    disk.keys(&mut app, "p");
    assert_eq!(status(&app), "pasted 1 of 2 (not found)");
    assert!(app.clipboard.is_cut(&path("/r/ghost.txt")));
    assert!(!app.clipboard.is_cut(&path("/r/a.txt")));
}

#[test]
fn bookmarks_move_together() {
    let (mut app, mut disk, _root, _deep) = app_with_tree();
    disk.keys(&mut app, "bmv");
    assert_eq!(status(&app), "no bookmarks");
    app.marks.toggle(&path("/r/a.txt"));
    app.marks.toggle(&path("/r/gone"));
    app.select_path(&path("/r/sub"));
    disk.keys(&mut app, "bmv");
    assert!(disk.has("/r/sub/a.txt"));
    assert_eq!(status(&app), "moved 1 of 2 bookmarked item(s) (not found)");
    assert!(app.marks.contains(&path("/r/gone")));
    assert!(!app.marks.contains(&path("/r/a.txt")));
    disk.keys(&mut app, "bd");
    match &app.overlay {
        Overlay::Confirm(s) => assert_eq!(s.prompt, "delete 1 bookmarked item(s)? [gone]"),
        _ => panic!("expected a question"),
    }
}

#[test]
fn several_can_be_selected() {
    let (mut app, mut disk, _root, _deep) = app_with_tree();
    disk.keys(&mut app, "vv");
    assert_eq!(app.selection.len(), 2);
    disk.keys(&mut app, "D");
    match &app.overlay {
        Overlay::Confirm(s) => assert_eq!(s.prompt, "trash 2 selected items?"),
        _ => panic!("expected a question"),
    }
    disk.key(&mut app, KeyCode::Esc);
    disk.key(&mut app, KeyCode::Esc);
    assert!(app.selection.is_empty());
}

#[test]
fn a_file_is_told_about() {
    let (mut app, mut disk, _root, _deep) = app_with_tree();
    app.select_path(&path("/r/a.txt"));
    app.marks.toggle(&path("/r/a.txt"));
    disk.dispatch(&mut app, Action::FileInfo);
    match &app.overlay {
        Overlay::Info(s) => {
            assert_eq!(s.title, "a.txt");
            assert_eq!(
                s.lines,
                vec![
                    "path: /r/a.txt",
                    "type: file",
                    "size: 1 B",
                    "modified: 1m ago",
                    "perms: 644",
                    "bookmarked: yes",
                ]
            );
        }
        _ => panic!("expected to be told"),
    }
    disk.keys(&mut app, "x");
    assert!(matches!(app.overlay, Overlay::Closed));
}

#[test]
fn search_goes_round() {
    let (mut app, mut disk, _root, _deep) = app_with_tree();
    disk.keys(&mut app, "S");
    disk.keys(&mut app, "A.TX");
    disk.key(&mut app, KeyCode::Enter);
    assert_eq!(selected(&app).as_deref(), Some("/r/a.txt"));
    app.search("sub");
    assert_eq!(selected(&app).as_deref(), Some("/r/sub"));
    app.search("nowhere");
    assert_eq!(status(&app), "no match: nowhere");
}

#[test]
fn everything_can_be_opened_and_closed() {
    let (mut app, mut disk, _root, deep) = app_with_tree();
    disk.add("/r/sub/in", true);
    disk.add("/r/sub/in/x", false);
    disk.keys(&mut app, "E");
    assert!(visible(&app, &deep) && visible(&app, &path("/r/sub/in/x")));
    disk.keys(&mut app, "W");
    assert_eq!(names(&app), vec!["sub", "a.txt"]);
}

#[test]
fn the_root_goes_up_and_down() {
    let (mut app, mut disk, _root, deep) = app_with_tree();
    app.select_path(&path("/r/sub"));
    disk.event(
        &mut app,
        AppEvent::Key(Key { code: KeyCode::Char(']'), ctrl: true, alt: false }),
    );
    assert_eq!(app.root_path(), path("/r/sub"));
    assert!(visible(&app, &deep));
    disk.keys(&mut app, "-");
    assert_eq!(app.root_path(), path("/r"));
    assert_eq!(selected(&app).as_deref(), Some("/r/sub"), "on what was the root");
}

#[test]
fn the_status_line_sums_up() {
    let (mut app, mut disk, _root, _deep) = app_with_tree();
    let text = |app: &App| -> String {
        app.status_line().iter().map(|s| s.text.clone()).collect()
    };
    assert_eq!(text(&app), "2 items");
    disk.event(&mut app, scanned(&[]));
    disk.keys(&mut app, "v.");
    app.clear_status();
    assert_eq!(text(&app), "2 items  1 sel  git  [.]");
    app.set_status("hello".to_string());
    assert_eq!(text(&app), "hello");
    disk.keys(&mut app, "fq");
    assert_eq!(text(&app), "filter: q▏");
}

#[test]
fn a_snapshot_replaces_and_an_old_one_does_not() {
    let (mut app, mut disk, _root, _deep) = app_with_tree();
    let a = path("/r/a.txt");
    let snapshot = |seq: u64, errors: u32| AppEvent::Snapshot {
        sender: "hx".to_string(),
        seq,
        files: vec![(path("/r/a.txt"), Counts { errors, warnings: 0 })],
    };
    disk.event(&mut app, snapshot(2, 3));
    assert_eq!(diag_of(&app, &a).map(|d| d.count), Some(3));
    disk.event(&mut app, snapshot(1, 9));
    assert_eq!(diag_of(&app, &a).map(|d| d.count), Some(3), "older than the last");
    disk.event(&mut app, snapshot(3, 0));
    assert_eq!(diag_of(&app, &a), None);
}

#[test]
fn only_bookmarked_files_are_shown() {
    let (mut app, mut disk, _root, deep) = app_with_tree();
    disk.event(&mut app, show(&deep, false));
    disk.keys(&mut app, "mM");
    assert_eq!(names(&app), vec!["sub", "deep.txt"]);
    assert_eq!(status(&app), "bookmarked only: on");
    disk.keys(&mut app, "M");
    assert_eq!(names(&app), vec!["sub", "deep.txt", "a.txt"]);
}

#[test]
fn a_reply_that_nobody_waits_for_changes_nothing() {
    let (mut app, _disk, _root, _deep) = app_with_tree();
    let before = names(&app);
    app.answer(Reply::Done(Some("x".to_string())));
    assert_eq!(names(&app), before);
    assert_eq!(app.status, None);
    assert!(matches!(app.step(), Turn::Idle));
}

#[test]
fn a_reply_to_something_else_counts_as_failed() {
    let (mut app, mut disk, _root, _deep) = app_with_tree();
    app.run_confirm(ConfirmKind::Delete(path("/r/a.txt")));
    assert!(matches!(app.step(), Turn::Ask(Ask::Remove(_))));
    app.answer(Reply::Taken(Vec::new()));
    disk.settle(&mut app);
    assert_eq!(status(&app), "removed 0 of 1 (no reply)");
}

#[test]
fn control_c_leaves_even_while_filtering() {
    let (mut app, mut disk, _root, _deep) = app_with_tree();
    disk.keys(&mut app, "f");
    disk.event(
        &mut app,
        AppEvent::Key(Key { code: KeyCode::Char('c'), ctrl: true, alt: false }),
    );
    assert!(app.should_quit);
    assert_eq!(app.live_filter.as_deref(), Some(""));
}
