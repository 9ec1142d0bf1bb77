//! The state of the explorer, and the work that it has before it.
//!
//! The explorer never waits. What it has to do next stands on an agenda, step
//! by step. A step either changes the state, or asks something of the world
//! outside and goes on when the reply is in, or hands out something to be done
//! there. Time comes in with the events, in milliseconds.

use vstd::prelude::*;

use crate::clipboard::{ClipView, Clipboard};
use crate::config::Config;
use crate::diagnostics::{mode_named, Counts, DiagnosticsData, Mode};
use crate::editor::OpenMode;
use crate::filter::{entries_view, FilterWalk, LiveScan, LiveScanView, WalkEntry, WalkEntryView};
use crate::filter::WalkView;
use crate::fuzzy::new_matcher;
use crate::git::{GitData, GitStatus, ScanSchedule};
use crate::ipc::{DiagnosticsUpdate, Reveal, SnapshotGate};
use crate::keymap::Key;
use crate::marks::{kept_in, Marks};
use crate::path::Path;
use crate::paths::{path_texts, PathSet};
use crate::style::Rect;
use crate::text::lowercase;
use crate::theme::Theme;
use crate::tree::model::{new_root, DirScan, ScanView, Tree, TreeView};
use crate::tree::node::path_view;
use crate::tree::ops::reals_view;
use crate::tree::rows::{rows_view, Row, RowView};
use crate::tree::sort::{sort_named, SortMode};
use crate::ui_overlays::{Overlay, OverlayView};
use crate::watcher::FsChange;

verus! {

/// What the mouse did.
#[derive(Clone, Copy, Debug, PartialEq, Eq, Structural)]
pub enum MouseKind {
    ScrollDown,
    ScrollUp,
    LeftDown,
    /// Anything that means nothing here.
    Other,
}

/// What the mouse did, and in which row of the screen.
#[derive(Clone, Copy, Debug, PartialEq, Eq, Structural)]
pub struct Mouse {
    pub kind: MouseKind,
    pub row: u16,
}

/// What happens to the explorer.
#[derive(Debug)]
pub enum AppEvent {
    Key(Key),
    Mouse(Mouse),
    Redraw,
    Fs(FsChange),
    /// A scan of git's statuses is done; `None` when it failed.
    Git(Option<GitData>),
    Reveal(Reveal),
    Diagnostics(DiagnosticsUpdate),
    /// Everything that the editor reports, as of now.
    Snapshot { sender: String, seq: u64, files: Vec<(Path, Counts)> },
}

/// Something to be done outside, without a reply.
#[derive(Debug)]
pub enum Effect {
    /// Open a file in the editor.
    Open { path: Path, mode: OpenMode },
    /// Show a file in the editor, and stay here.
    Preview(Path),
    /// Open a file with whatever the system opens it with.
    SystemOpen(Path),
    /// Put a text on the system's clipboard.
    CopyText(String),
    /// Keep the bookmarks.
    SaveMarks(String),
    /// Start a scan of git's statuses, after so many milliseconds.
    ScanGit { root: Path, delay: u64 },
}

/// Something to be done outside, with texts in place of strings and paths.
pub enum EffectView {
    Open { path: Seq<u8>, mode: OpenMode },
    Preview(Seq<u8>),
    SystemOpen(Seq<u8>),
    CopyText(Seq<char>),
    SaveMarks(Seq<char>),
    ScanGit { root: Seq<u8>, delay: u64 },
}

impl View for Effect {
    type V = EffectView;

    open spec fn view(&self) -> EffectView {
        match self {
            Effect::Open { path, mode } => EffectView::Open { path: path@, mode: *mode },
            Effect::Preview(p) => EffectView::Preview(p@),
            Effect::SystemOpen(p) => EffectView::SystemOpen(p@),
            Effect::CopyText(t) => EffectView::CopyText(t@),
            Effect::SaveMarks(t) => EffectView::SaveMarks(t@),
            Effect::ScanGit { root, delay } => EffectView::ScanGit { root: root@, delay: *delay },
        }
    }
}

/// Something asked of the world outside. The explorer goes on when the reply is
/// in.
#[derive(Debug)]
pub enum Ask {
    /// When a directory was last changed, and what it holds if that has to be
    /// known.
    Open(Path),
    /// When a directory was last changed, and what it holds.
    Read(Path),
    /// The real paths of a path and of the directories above it.
    Resolve(Path),
    /// The entries of a directory.
    Walk(Path),
    /// Which of the paths that are tried for a path in the directory `dest`
    /// exist.
    Taken { path: Path, dest: Path },
    /// What a file is.
    Inspect(Path),
    Create { path: Path, is_dir: bool },
    Move { from: Path, to: Path },
    Copy { from: Path, to: Path },
    Remove(Path),
    Trash(Path),
}

/// Something asked, with texts in place of paths.
pub enum AskView {
    Open(Seq<u8>),
    Read(Seq<u8>),
    Resolve(Seq<u8>),
    Walk(Seq<u8>),
    Taken { path: Seq<u8>, dest: Seq<u8> },
    Inspect(Seq<u8>),
    Create { path: Seq<u8>, is_dir: bool },
    Move { from: Seq<u8>, to: Seq<u8> },
    Copy { from: Seq<u8>, to: Seq<u8> },
    Remove(Seq<u8>),
    Trash(Seq<u8>),
}

impl View for Ask {
    type V = AskView;

    open spec fn view(&self) -> AskView {
        match self {
            Ask::Open(p) => AskView::Open(p@),
            Ask::Read(p) => AskView::Read(p@),
            Ask::Resolve(p) => AskView::Resolve(p@),
            Ask::Walk(p) => AskView::Walk(p@),
            Ask::Taken { path, dest } => AskView::Taken { path: path@, dest: dest@ },
            Ask::Inspect(p) => AskView::Inspect(p@),
            Ask::Create { path, is_dir } => AskView::Create { path: path@, is_dir: *is_dir },
            Ask::Move { from, to } => AskView::Move { from: from@, to: to@ },
            Ask::Copy { from, to } => AskView::Copy { from: from@, to: to@ },
            Ask::Remove(p) => AskView::Remove(p@),
            Ask::Trash(p) => AskView::Trash(p@),
        }
    }
}

/// What a file is, to be told about.
#[derive(Clone, Copy, Debug, PartialEq, Eq, Structural)]
pub enum FileType {
    Directory,
    Symlink,
    File,
}

/// When a file was changed.
#[derive(Clone, Copy, Debug, PartialEq, Eq, Structural)]
pub enum Age {
    /// So many seconds ago.
    Seconds(u64),
    /// Later than now.
    Future,
}

/// What is known of a file.
#[derive(Debug)]
pub struct FileMeta {
    pub file_type: FileType,
    /// The size, as it is written; of a file only.
    pub size: Option<String>,
    pub age: Option<Age>,
    /// The permission bits.
    pub mode: Option<u32>,
}

/// What is known of a file, with a text in place of the string.
#[verifier::ext_equal]
pub struct MetaView {
    pub file_type: FileType,
    pub size: Option<Seq<char>>,
    pub age: Option<Age>,
    pub mode: Option<u32>,
}

impl View for FileMeta {
    type V = MetaView;

    open spec fn view(&self) -> MetaView {
        MetaView {
            file_type: self.file_type,
            size: text_opt(self.size),
            age: self.age,
            mode: self.mode,
        }
    }
}

/// A reply.
#[derive(Debug)]
pub enum Reply {
    /// What was found of a directory; `None` when it is not there.
    Scan(Option<DirScan>),
    /// The real path of a path, if it is there, and those of the directories
    /// above it, the nearest first.
    Real { own: Option<Path>, ups: Vec<Option<Path>> },
    /// The entries of a directory; `None` when it could not be read.
    Entries(Option<Vec<WalkEntry>>),
    /// The paths that exist, of those that are tried.
    Taken(Vec<Path>),
    /// What is known of a file; `None` when nothing is.
    Meta(Option<FileMeta>),
    /// It is done, or why it could not be.
    Done(Option<String>),
}

/// A reply, with texts and lists.
pub enum ReplyView {
    Scan(Option<ScanView>),
    Real { own: Option<Seq<u8>>, ups: Seq<Option<Seq<u8>>> },
    Entries(Option<Seq<WalkEntryView>>),
    Taken(Seq<Seq<u8>>),
    Meta(Option<MetaView>),
    Done(Option<Seq<char>>),
}

impl View for Reply {
    type V = ReplyView;

    open spec fn view(&self) -> ReplyView {
        match self {
            Reply::Scan(s) => ReplyView::Scan(
                match s {
                    Some(s) => Some(s@),
                    None => None,
                },
            ),
            Reply::Real { own, ups } => ReplyView::Real {
                own: path_view(*own),
                ups: reals_view(ups@),
            },
            Reply::Entries(v) => ReplyView::Entries(
                match v {
                    Some(v) => Some(entries_view(v@)),
                    None => None,
                },
            ),
            Reply::Taken(v) => ReplyView::Taken(path_texts(v@)),
            Reply::Meta(m) => ReplyView::Meta(
                match m {
                    Some(m) => Some(m@),
                    None => None,
                },
            ),
            Reply::Done(e) => ReplyView::Done(text_opt(*e)),
        }
    }
}

/// A text that may be there.
pub open spec fn text_opt(t: Option<String>) -> Option<Seq<char>> {
    match t {
        Some(s) => Some(s@),
        None => None,
    }
}

/// How a directory is opened.
#[derive(Clone, Copy, Debug, PartialEq, Eq, Structural)]
pub enum Opening {
    /// With the chain of folders that it begins, where chains are one row.
    Chain,
    /// By itself.
    Single,
    /// By itself, if it is still there.
    Present,
}

/// What becomes of what is put elsewhere.
#[derive(Clone, Copy, Debug, PartialEq, Eq, Structural)]
pub enum Transfer {
    /// It was cut, and is moved.
    Cut,
    /// It was copied, and is copied.
    Copy,
    /// It is bookmarked, and is moved.
    Marked,
}

/// One step of the work.
#[derive(Debug)]
pub enum Step {
    /// Act on an event.
    Handle(AppEvent),
    /// Open a directory.
    Open { path: Path, how: Opening },
    /// Open a directory and all below it.
    OpenAll(Path),
    /// Make a directory the root.
    Root(Path),
    /// Read the tree again, keeping what is open.
    Reread,
    /// Read a directory again.
    Refresh(Path),
    /// Lay the statuses and the diagnostics over the tree.
    Overlays,
    /// Make the rows anew, the cursor at or near a path.
    Rows(Option<Path>),
    /// Make the rows anew, the cursor where it is.
    RowsHere,
    /// Put the cursor on the first row.
    Top,
    /// Put the cursor on a path, if it has a row.
    Select(Path),
    /// Put the cursor one row down.
    Down,
    /// Take note that the user opened or closed a directory.
    Note(Path),
    /// Ask for a scan of git's statuses.
    Git,
    /// Show a message.
    Say(String),
    /// Let the filter forget which directories it opened.
    Disown,
    /// Forget what the filter found.
    Stale,
    /// Make the filtered view anew.
    Filtered,
    /// Walk the tree on disk for the filter.
    Walk(FilterWalk),
    /// Take note of the file that is open in the editor.
    Sight { path: Path, follow: bool },
    /// Bring a path into view.
    Reveal(Path),
    /// Read everything that is open again.
    Reload,
    /// Make the rows anew after some directories were read again.
    Reloaded(Option<Path>),
    /// Create a file or directory; `label` is how the user wrote it.
    Create { path: Path, is_dir: bool, label: String },
    /// Rename a path, and say so.
    Rename { from: Path, to: Path, done: String },
    /// Remove a path, as one of a batch.
    Remove { path: Path, trash: bool },
    /// The batch of removals is done.
    Removed,
    /// Find a place in a directory for a path, as one of a batch.
    Send { path: Path, dest: Path, kind: Transfer },
    /// Put a path there.
    Put { path: Path, target: Path, kind: Transfer },
    /// The batch is done.
    Sent(Transfer),
    /// Tell about a file.
    Inspect { path: Path, name: String, git: Option<GitStatus> },
    /// Keep the bookmarks, if they are kept.
    Save,
    /// Hand something out to be done.
    Do(Effect),
}

/// One step, with texts in place of strings and paths.
pub enum StepView {
    Handle(AppEvent),
    Open { path: Seq<u8>, how: Opening },
    OpenAll(Seq<u8>),
    Root(Seq<u8>),
    Reread,
    Refresh(Seq<u8>),
    Overlays,
    Rows(Option<Seq<u8>>),
    RowsHere,
    Top,
    Select(Seq<u8>),
    Down,
    Note(Seq<u8>),
    Git,
    Say(Seq<char>),
    Disown,
    Stale,
    Filtered,
    Walk(WalkView),
    Sight { path: Seq<u8>, follow: bool },
    Reveal(Seq<u8>),
    Reload,
    Reloaded(Option<Seq<u8>>),
    Create { path: Seq<u8>, is_dir: bool, label: Seq<char> },
    Rename { from: Seq<u8>, to: Seq<u8>, done: Seq<char> },
    Remove { path: Seq<u8>, trash: bool },
    Removed,
    Send { path: Seq<u8>, dest: Seq<u8>, kind: Transfer },
    Put { path: Seq<u8>, target: Seq<u8>, kind: Transfer },
    Sent(Transfer),
    Inspect { path: Seq<u8>, name: Seq<char>, git: Option<GitStatus> },
    Save,
    Do(EffectView),
}

impl View for Step {
    type V = StepView;

    open spec fn view(&self) -> StepView {
        match self {
            Step::Handle(ev) => StepView::Handle(*ev),
            Step::Open { path, how } => StepView::Open { path: path@, how: *how },
            Step::OpenAll(p) => StepView::OpenAll(p@),
            Step::Root(p) => StepView::Root(p@),
            Step::Reread => StepView::Reread,
            Step::Refresh(p) => StepView::Refresh(p@),
            Step::Overlays => StepView::Overlays,
            Step::Rows(p) => StepView::Rows(path_view(*p)),
            Step::RowsHere => StepView::RowsHere,
            Step::Top => StepView::Top,
            Step::Select(p) => StepView::Select(p@),
            Step::Down => StepView::Down,
            Step::Note(p) => StepView::Note(p@),
            Step::Git => StepView::Git,
            Step::Say(t) => StepView::Say(t@),
            Step::Disown => StepView::Disown,
            Step::Stale => StepView::Stale,
            Step::Filtered => StepView::Filtered,
            Step::Walk(w) => StepView::Walk(w@),
            Step::Sight { path, follow } => StepView::Sight { path: path@, follow: *follow },
            Step::Reveal(p) => StepView::Reveal(p@),
            Step::Reload => StepView::Reload,
            Step::Reloaded(p) => StepView::Reloaded(path_view(*p)),
            Step::Create { path, is_dir, label } => StepView::Create {
                path: path@,
                is_dir: *is_dir,
                label: label@,
            },
            Step::Rename { from, to, done } => StepView::Rename {
                from: from@,
                to: to@,
                done: done@,
            },
            Step::Remove { path, trash } => StepView::Remove { path: path@, trash: *trash },
            Step::Removed => StepView::Removed,
            Step::Send { path, dest, kind } => StepView::Send {
                path: path@,
                dest: dest@,
                kind: *kind,
            },
            Step::Put { path, target, kind } => StepView::Put {
                path: path@,
                target: target@,
                kind: *kind,
            },
            Step::Sent(kind) => StepView::Sent(*kind),
            Step::Inspect { path, name, git } => StepView::Inspect {
                path: path@,
                name: name@,
                git: *git,
            },
            Step::Save => StepView::Save,
            Step::Do(e) => StepView::Do(e@),
        }
    }
}

/// The views of some steps.
pub open spec fn steps_view(s: Seq<Step>) -> Seq<StepView> {
    s.map_values(|x: Step| x@)
}

/// How far a batch of file operations is.
#[derive(Debug)]
pub struct Batch {
    /// How many there are.
    pub total: usize,
    /// How many went well.
    pub ok: usize,
    /// The paths that are no longer where they were.
    pub gone: Vec<Path>,
    /// Why the first one that failed did.
    pub failed: Option<String>,
    /// Where the last one that went well ended up.
    pub last: Option<Path>,
}

/// A batch, with texts in place of strings and paths.
#[verifier::ext_equal]
pub struct BatchView {
    pub total: usize,
    pub ok: usize,
    pub gone: Seq<Seq<u8>>,
    pub failed: Option<Seq<char>>,
    pub last: Option<Seq<u8>>,
}

impl View for Batch {
    type V = BatchView;

    open spec fn view(&self) -> BatchView {
        BatchView {
            total: self.total,
            ok: self.ok,
            gone: path_texts(self.gone@),
            failed: text_opt(self.failed),
            last: path_view(self.last),
        }
    }
}

/// A batch of so many, of which none was tried.
pub open spec fn new_batch(total: usize) -> BatchView {
    BatchView { total, ok: 0, gone: Seq::empty(), failed: None, last: None }
}

impl Batch {
    /// A batch of so many, of which none was tried.
    pub fn new(total: usize) -> (r: Batch)
        ensures
            r@ == new_batch(total),
    {
        let r = Batch { total, ok: 0, gone: Vec::new(), failed: None, last: None };
        assert(r@.gone =~= Seq::empty());
        r
    }
}

/// Where the cursor is, and which row is the first on the screen.
#[derive(Clone, Copy, Debug, PartialEq, Eq, Structural)]
pub struct ListState {
    pub selected: Option<usize>,
    pub offset: usize,
}

/// What is shown, and in what order.
#[derive(Clone, Copy, Debug, PartialEq, Eq, Structural)]
pub struct Toggles {
    pub sort: SortMode,
    pub files_first: bool,
    pub group_empty: bool,
    pub git_clean: bool,
    pub custom_active: bool,
    pub no_buffer: bool,
    pub no_bookmark: bool,
}

/// The explorer.
pub struct App {
    pub tree: Tree,
    pub rows: Vec<Row>,
    pub list: ListState,
    pub list_area: Rect,
    /// Whether the directory under the cursor was just opened, so that the first
    /// of what it holds is to be brought into view.
    pub reveal_children: bool,
    pub theme: Theme,
    pub config: Config,
    pub clipboard: Clipboard,
    pub marks: Marks,
    pub selection: PathSet,
    pub overlay: Overlay,
    pub pending: String,
    pub git: GitData,
    pub git_schedule: ScanSchedule,
    pub diagnostics: DiagnosticsData,
    pub diagnostics_mode: Mode,
    pub gate: SnapshotGate,
    pub status: Option<String>,
    /// When the message goes away by itself.
    pub status_deadline: Option<u64>,
    pub should_quit: bool,
    pub toggles: Toggles,
    pub live_filter: Option<String>,
    pub live_editing: bool,
    /// What the filter found last.
    pub live_scan: Option<LiveScan>,
    /// The directories that the filter opened, and that the user has not touched
    /// since.
    pub filter_auto_expanded: PathSet,
    /// The file that is open in the editor.
    pub current_file: Option<Path>,
    /// The files that were open in the editor.
    pub opened: PathSet,
    /// When the user last acted on the tree.
    pub last_input: Option<u64>,
    /// A path that is to be brought into view once the user is idle.
    pub pending_reveal: Option<Path>,
    /// Whether a directory was read again since the rows were made.
    pub touched: bool,
    pub batch: Batch,
    /// The time of the event that is acted on.
    pub now: u64,
    /// The steps that are to be done, the next one last.
    pub agenda: Vec<Step>,
    pub matcher: nucleo_matcher::Matcher,
}

/// What git says, with maps and texts.
#[verifier::ext_equal]
pub struct GitView {
    pub toplevel: Option<Seq<u8>>,
    pub statuses: Map<Seq<Seq<u8>>, GitStatus>,
}

/// What git says.
pub open spec fn git_view(d: GitData) -> GitView {
    GitView { toplevel: path_view(d.toplevel), statuses: d.statuses@ }
}

/// The explorer, with texts, lists, sets and maps.
pub struct AppView {
    pub tree: TreeView,
    pub rows: Seq<RowView>,
    pub list: ListState,
    pub list_area: Rect,
    pub reveal_children: bool,
    pub theme: Theme,
    pub config: Config,
    pub clipboard: ClipView,
    pub marks: Map<Seq<Seq<u8>>, Seq<u8>>,
    pub selection: Map<Seq<Seq<u8>>, Seq<u8>>,
    pub overlay: OverlayView,
    pub pending: Seq<char>,
    pub git: GitView,
    pub git_schedule: ScanSchedule,
    pub diagnostics: Map<Seq<Seq<u8>>, Counts>,
    pub diagnostics_mode: Mode,
    pub gate: Option<(Seq<char>, u64)>,
    pub status: Option<Seq<char>>,
    pub status_deadline: Option<u64>,
    pub should_quit: bool,
    pub toggles: Toggles,
    pub live_filter: Option<Seq<char>>,
    pub live_editing: bool,
    pub live_scan: Option<LiveScanView>,
    pub filter_auto_expanded: Map<Seq<Seq<u8>>, Seq<u8>>,
    pub current_file: Option<Seq<u8>>,
    pub opened: Set<Seq<Seq<u8>>>,
    pub last_input: Option<u64>,
    pub pending_reveal: Option<Seq<u8>>,
    pub touched: bool,
    pub batch: BatchView,
    pub now: u64,
    /// The steps that are to be done, the next one first.
    pub agenda: Seq<StepView>,
}

/// What a filter found, if it was asked.
pub open spec fn scan_opt(s: Option<LiveScan>) -> Option<LiveScanView> {
    match s {
        Some(s) => Some(s@),
        None => None,
    }
}

/// The view of the explorer.
#[verifier::opaque]
pub open spec fn seen(a: App) -> AppView {
    AppView {
        tree: a.tree@,
        rows: rows_view(a.rows@),
        list: a.list,
        list_area: a.list_area,
        reveal_children: a.reveal_children,
        theme: a.theme,
        config: a.config,
        clipboard: a.clipboard@,
        marks: a.marks.texts(),
        selection: a.selection.texts(),
        overlay: a.overlay@,
        pending: a.pending@,
        git: git_view(a.git),
        git_schedule: a.git_schedule,
        diagnostics: a.diagnostics@,
        diagnostics_mode: a.diagnostics_mode,
        gate: a.gate.spec_last(),
        status: text_opt(a.status),
        status_deadline: a.status_deadline,
        should_quit: a.should_quit,
        toggles: a.toggles,
        live_filter: text_opt(a.live_filter),
        live_editing: a.live_editing,
        live_scan: scan_opt(a.live_scan),
        filter_auto_expanded: a.filter_auto_expanded.texts(),
        current_file: path_view(a.current_file),
        opened: a.opened@,
        last_input: a.last_input,
        pending_reveal: path_view(a.pending_reveal),
        touched: a.touched,
        batch: a.batch@,
        now: a.now,
        agenda: steps_view(a.agenda@.reverse()),
    }
}

impl View for App {
    type V = AppView;

    open spec fn view(&self) -> AppView {
        seen(*self)
    }
}

/// How long a message stays, in milliseconds.
pub const STATUS_TIMEOUT: u64 = 4000;

/// How long after the user acted the editor has to wait, in milliseconds.
pub const FOLLOW_INPUT_GRACE: u64 = 1000;

impl App {
    /// Whether the prompt has its cursor where a character begins, and the
    /// cursor of the tree is on a row, or on the first where there is none.
    pub open spec fn wf(&self) -> bool {
        &&& self.overlay.wf()
        &&& self.list.selected is Some ==> self.list.selected->0 == 0 || self.list.selected->0
            < self.rows@.len()
    }
}

impl AppView {
    /// With some steps to be done before all others.
    pub open spec fn planned(self, steps: Seq<StepView>) -> AppView {
        AppView { agenda: steps + self.agenda, ..self }
    }

    /// With some steps to be done after all others.
    pub open spec fn queued(self, steps: Seq<StepView>) -> AppView {
        AppView { agenda: self.agenda + steps, ..self }
    }

    /// With a message, which goes away after a while.
    pub open spec fn said(self, msg: Seq<char>) -> AppView {
        AppView {
            status: Some(msg),
            status_deadline: Some(self.now.saturating_add(STATUS_TIMEOUT)),
            ..self
        }
    }

    /// Without a message.
    pub open spec fn hushed(self) -> AppView {
        AppView { status: None, status_deadline: None, ..self }
    }

    /// Right after the user acted on the tree.
    pub open spec fn touched_now(self) -> AppView {
        AppView { last_input: Some(self.now), ..self }
    }

    /// Whether the user acted on the tree a short while ago.
    pub open spec fn recent_input(self) -> bool {
        self.last_input is Some && self.now < self.last_input->0 + FOLLOW_INPUT_GRACE
    }

    /// With something that lies over the tree.
    pub open spec fn covered(self, overlay: OverlayView) -> AppView {
        AppView { overlay, ..self }
    }
}

/// The explorer when it starts. The rows are still to be made.
pub open spec fn fresh_app(
    root: Seq<u8>,
    scan: ScanView,
    config: Config,
    theme: Theme,
    bookmarks: Option<Seq<char>>,
    now: u64,
) -> AppView {
    AppView {
        tree: TreeView {
            root: new_root(root, scan),
            show_hidden: config.show_hidden,
            show_ignored: config.show_ignored,
            group_empty: config.group_empty,
        },
        rows: Seq::empty(),
        list: ListState { selected: None, offset: 0 },
        list_area: Rect { x: 0, y: 0, width: 0, height: 0 },
        reveal_children: false,
        theme,
        config,
        clipboard: ClipView { op: None, paths: Seq::empty() },
        marks: if config.bookmarks_persist && bookmarks is Some {
            kept_in(bookmarks->0)
        } else {
            Map::empty()
        },
        selection: Map::empty(),
        overlay: OverlayView::Closed,
        pending: Seq::empty(),
        git: GitView { toplevel: None, statuses: Map::empty() },
        git_schedule: ScanSchedule { running: false, again: false },
        diagnostics: Map::empty(),
        diagnostics_mode: match mode_named(config.diagnostics@) {
            Some(m) => m,
            None => Mode::Warnings,
        },
        gate: None,
        status: None,
        status_deadline: None,
        should_quit: false,
        toggles: Toggles {
            sort: sort_named(lowercase(config.sort@)),
            files_first: config.files_first,
            group_empty: config.group_empty,
            git_clean: false,
            custom_active: false,
            no_buffer: false,
            no_bookmark: false,
        },
        live_filter: None,
        live_editing: false,
        live_scan: None,
        filter_auto_expanded: Map::empty(),
        current_file: None,
        opened: Set::empty(),
        last_input: None,
        pending_reveal: None,
        touched: false,
        batch: new_batch(0),
        now,
        agenda: seq![StepView::Rows(None), StepView::Top, StepView::Git],
    }
}

impl App {
    /// The explorer on a directory.
    pub fn new(
        root: Path,
        scan: DirScan,
        config: Config,
        theme: Theme,
        bookmarks: Option<&str>,
        now: u64,
    ) -> (r: App)
        ensures
            r.wf(),
            r@ == fresh_app(
                root@,
                scan@,
                config,
                theme,
                match bookmarks {
                    Some(t) => Some(t@),
                    None => None,
                },
                now,
            ),
    {
        proof {
            reveal(seen);
        }
        let mut tree = Tree::new(root, scan);
        tree.show_hidden = config.show_hidden;
        tree.show_ignored = config.show_ignored;
        tree.group_empty = config.group_empty;
        let diagnostics_mode = match Mode::parse(config.diagnostics.as_str()) {
            Some(m) => m,
            None => Mode::Warnings,
        };
        let marks = if config.bookmarks_persist {
            Marks::load(bookmarks)
        } else {
            Marks::load(None)
        };
        let toggles = Toggles {
            sort: SortMode::parse(config.sort.as_str()),
            files_first: config.files_first,
            group_empty: config.group_empty,
            git_clean: false,
            custom_active: false,
            no_buffer: false,
            no_bookmark: false,
        };
        let mut agenda: Vec<Step> = Vec::new();
        agenda.push(Step::Git);
        agenda.push(Step::Top);
        agenda.push(Step::Rows(None));
        let r = App {
            tree,
            rows: Vec::new(),
            list: ListState { selected: None, offset: 0 },
            list_area: Rect::default(),
            reveal_children: false,
            theme,
            config,
            clipboard: Clipboard::default(),
            marks,
            selection: PathSet::new(),
            overlay: Overlay::Closed,
            pending: String::new(),
            git: GitData::default(),
            git_schedule: ScanSchedule::default(),
            diagnostics: DiagnosticsData::default(),
            diagnostics_mode,
            gate: SnapshotGate { last: None },
            status: None,
            status_deadline: None,
            should_quit: false,
            toggles,
            live_filter: None,
            live_editing: false,
            live_scan: None,
            filter_auto_expanded: PathSet::new(),
            current_file: None,
            opened: PathSet::new(),
            last_input: None,
            pending_reveal: None,
            touched: false,
            batch: Batch::new(0),
            now,
            agenda,
            matcher: new_matcher(),
        };
        proof {
            assert(r@.agenda =~= seq![StepView::Rows(None), StepView::Top, StepView::Git]);
            assert(r@.rows =~= Seq::empty());
            assert(r@.pending =~= Seq::empty());
        }
        r
    }

    /// Puts steps before all others.
    pub fn plan(&mut self, steps: Vec<Step>)
        requires
            old(self).wf(),
        ensures
            final(self).wf(),
            final(self)@ == old(self)@.planned(steps_view(steps@)),
    {
        proof {
            reveal(seen);
        }
        let mut left = steps;
        let ghost all = steps@;
        let ghost before = self.agenda@;
        let ghost start = *self;
        while left.len() > 0
            invariant
                self.wf(),
                *self == (App { agenda: self.agenda, ..start }),
                before == start.agenda@,
                left@.len() <= all.len(),
                left@ == all.take(left@.len() as int),
                self.agenda@ == before + all.skip(left@.len() as int).reverse(),
            decreases left@.len(),
        {
            let ghost n = left@.len() as int;
            match left.pop() {
                Some(step) => {
                    self.agenda.push(step);
                    proof {
                        assert(step == all[n - 1]);
                        assert(all.skip(n - 1).reverse() =~= all.skip(n).reverse().push(step));
                        assert(self.agenda@ =~= before + all.skip(n - 1).reverse());
                    }
                },
                None => {},
            }
        }
        proof {
            assert(all.skip(0) =~= all);
            assert(self.agenda@.reverse() =~= all + before.reverse());
            assert(self@.agenda =~= steps_view(all) + steps_view(before.reverse()));
        }
    }

    /// Puts a step before all others.
    pub fn plan_one(&mut self, step: Step)
        requires
            old(self).wf(),
        ensures
            final(self).wf(),
            final(self)@ == old(self)@.planned(seq![step@]),
    {
        let mut v: Vec<Step> = Vec::new();
        v.push(step);
        assert(steps_view(v@) =~= seq![step@]);
        self.plan(v);
    }

    /// Shows a message.
    pub fn set_status(&mut self, msg: String)
        requires
            old(self).wf(),
        ensures
            final(self).wf(),
            final(self)@ == old(self)@.said(msg@),
    {
        proof {
            reveal(seen);
        }
        self.status = Some(msg);
        self.status_deadline = Some(self.now.saturating_add(STATUS_TIMEOUT));
    }

    /// Takes the message away.
    pub fn clear_status(&mut self)
        requires
            old(self).wf(),
        ensures
            final(self).wf(),
            final(self)@ == old(self)@.hushed(),
    {
        proof {
            reveal(seen);
        }
        self.status = None;
        self.status_deadline = None;
    }

    /// Whether the user acted on the tree a short while ago.
    pub fn recent_input(&self) -> (r: bool)
        ensures
            r == self@.recent_input(),
    {
        proof {
            reveal(seen);
        }
        match self.last_input {
            Some(t) => self.now < t || self.now - t < FOLLOW_INPUT_GRACE,
            None => false,
        }
    }

    /// Takes note that the user acted on the tree.
    pub fn touch(&mut self)
        requires
            old(self).wf(),
        ensures
            final(self).wf(),
            final(self)@ == old(self)@.touched_now(),
    {
        proof {
            reveal(seen);
        }
        self.last_input = Some(self.now);
    }
}

/// Two steps.
pub fn two_steps(a: Step, b: Step) -> (r: Vec<Step>)
    ensures
        steps_view(r@) == seq![a@, b@],
{
    let mut v: Vec<Step> = Vec::new();
    v.push(a);
    v.push(b);
    assert(steps_view(v@) =~= seq![a@, b@]);
    v
}

/// Three steps.
pub fn three_steps(a: Step, b: Step, c: Step) -> (r: Vec<Step>)
    ensures
        steps_view(r@) == seq![a@, b@, c@],
{
    let mut v: Vec<Step> = Vec::new();
    v.push(a);
    v.push(b);
    v.push(c);
    assert(steps_view(v@) =~= seq![a@, b@, c@]);
    v
}

/// Four steps.
pub fn four_steps(a: Step, b: Step, c: Step, d: Step) -> (r: Vec<Step>)
    ensures
        steps_view(r@) == seq![a@, b@, c@, d@],
{
    let mut v: Vec<Step> = Vec::new();
    v.push(a);
    v.push(b);
    v.push(c);
    v.push(d);
    assert(steps_view(v@) =~= seq![a@, b@, c@, d@]);
    v
}

/// Five steps.
pub fn five_steps(a: Step, b: Step, c: Step, d: Step, e: Step) -> (r: Vec<Step>)
    ensures
        steps_view(r@) == seq![a@, b@, c@, d@, e@],
{
    let mut v: Vec<Step> = Vec::new();
    v.push(a);
    v.push(b);
    v.push(c);
    v.push(d);
    v.push(e);
    assert(steps_view(v@) =~= seq![a@, b@, c@, d@, e@]);
    v
}

} // verus!
