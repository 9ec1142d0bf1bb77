//! How the tree follows the disk, the editor and git.

use vstd::prelude::*;

use crate::app::live::{open_steps, opens};
use crate::app::state::{git_view, seen, steps_view, App, AppView, Effect, EffectView};
use crate::app::state::{Opening, Step, StepView, FOLLOW_INPUT_GRACE};
use crate::diagnostics::{reported, reported_one, Counts, Mode};
use crate::git::{done, requested, same_statuses, AfterScan, GitData};
use crate::ipc::{accepts, DiagnosticsUpdate};
use crate::order::stable_sort;
use crate::path::{comps, parent_text, Path};
use crate::paths::{listed, path_texts, texts_with, PathSet};
use crate::tree::depth::no_deeper;
use crate::tree::model::{chain_from, dirs_below, edited, loaded_at, new_root, opened};
use crate::tree::model::{refreshed_node, refreshes, reveal_texts, with_open, DirScan, ScanView};
use crate::tree::model::TreeView;
use crate::tree::node::{found, path_view, NodeView};
use crate::tree::ops::{canonical, canonicalize_lenient, reals_view};

verus! {

/// The directories whose entries can have changed when some paths did: those
/// that the paths are in, and the paths themselves.
pub open spec fn changed_dirs(paths: Seq<Seq<u8>>) -> Map<Seq<Seq<u8>>, Seq<u8>>
    decreases paths.len(),
{
    if paths.len() == 0 {
        Map::empty()
    } else {
        let m = changed_dirs(paths.drop_last());
        let p = paths.last();
        texts_with(
            match parent_text(p) {
                Some(up) => texts_with(m, up),
                None => m,
            },
            p,
        )
    }
}

/// The steps that read some directories again, one after the other.
pub open spec fn refreshing(dirs: Seq<Seq<u8>>) -> Seq<StepView> {
    dirs.map_values(|p: Seq<u8>| StepView::Refresh(p))
}

/// What follows a scan of git's statuses.
pub open spec fn rescans(after: AfterScan, root: Seq<u8>) -> Seq<StepView> {
    match after {
        AfterScan::Idle => seq![],
        AfterScan::Rerun => seq![StepView::Do(EffectView::ScanGit { root, delay: 0 })],
        AfterScan::Retry(delay) => seq![StepView::Do(EffectView::ScanGit { root, delay })],
    }
}

impl AppView {
    /// With a directory opened, and the one that its chain goes on with to be
    /// opened next. One that is only opened if it is there is left alone
    /// otherwise.
    #[verifier::opaque]
    pub open spec fn dir_opened(self, p: Seq<u8>, how: Opening, scan: Option<ScanView>) -> AppView {
        if how == Opening::Present && scan is None {
            self
        } else {
            let root = opened(self.tree.root, comps(p), scan_or_nothing(scan));
            let s = AppView { tree: TreeView { root, ..self.tree }, ..self };
            let next = if how == Opening::Chain && self.tree.group_empty {
                chain_from(root, comps(p), self.tree.show_hidden, self.tree.show_ignored)
            } else {
                None
            };
            match next {
                Some(q) => s.planned(seq![StepView::Open { path: q, how }]),
                None => s,
            }
        }
    }

    /// With a directory opened, and those below it to be opened next, the last
    /// one first.
    #[verifier::opaque]
    pub open spec fn all_opened(self, p: Seq<u8>, scan: Option<ScanView>) -> AppView {
        let root = opened(self.tree.root, comps(p), scan_or_nothing(scan));
        AppView { tree: TreeView { root, ..self.tree }, ..self }.planned(
            dirs_below(root, comps(p)).reverse().map_values(|q: Seq<u8>| StepView::OpenAll(q)),
        )
    }

    /// On another directory.
    #[verifier::opaque]
    pub open spec fn root_read(self, p: Seq<u8>, scan: Option<ScanView>) -> AppView {
        AppView {
            tree: TreeView { root: new_root(p, scan_or_nothing(scan)), ..self.tree },
            ..self
        }
    }

    /// With the root read again, and what was open to be opened again, as far as
    /// it is still there.
    #[verifier::opaque]
    pub open spec fn reread(self, scan: Option<ScanView>) -> AppView {
        self.root_read(self.tree.root.path, scan).planned(
            opens(
                stable_sort(listed(with_open(self.tree.root, Map::empty())), no_deeper()),
                Opening::Present,
            ),
        )
    }

    /// With a directory read again, if it was read before.
    #[verifier::opaque]
    pub open spec fn dir_refreshed(self, p: Seq<u8>, scan: Option<ScanView>) -> AppView {
        let sc = scan_or_nothing(scan);
        AppView {
            tree: TreeView {
                root: edited(
                    self.tree.root,
                    comps(p),
                    |n: NodeView| refreshed_node(n, sc),
                ),
                ..self.tree
            },
            touched: self.touched || match found(self.tree.root, comps(p)) {
                Some(n) => refreshes(n, sc),
                None => false,
            },
            ..self
        }
    }

    /// With everything that is open to be read again. The cursor stays on its
    /// path, or near it.
    #[verifier::opaque]
    pub open spec fn reloading(self) -> AppView {
        self.planned(
            seq![
                StepView::Reread,
                StepView::Overlays,
                StepView::Stale,
                if self.live_filter is Some {
                    StepView::Filtered
                } else {
                    StepView::Rows(self.selected_path())
                },
                StepView::Git,
            ],
        )
    }

    /// With what changed on disk to be read again.
    #[verifier::opaque]
    pub open spec fn disk_changed(self, m: Map<Seq<Seq<u8>>, Seq<u8>>) -> AppView {
        AppView { touched: false, ..self }.planned(
            refreshing(listed(changed_dirs(listed(m)))) + seq![
                StepView::Reloaded(self.selected_path()),
            ],
        )
    }

    /// After some directories were read again. What the filter found is of no
    /// use then, even where none was.
    #[verifier::opaque]
    pub open spec fn reloaded(self, sel: Option<Seq<u8>>) -> AppView {
        AppView { touched: false, live_scan: None, ..self }.planned(
            (if self.touched {
                seq![StepView::Overlays]
            } else {
                seq![]
            }) + (if self.live_filter is Some {
                seq![StepView::Filtered]
            } else if self.touched {
                seq![StepView::Rows(sel)]
            } else {
                seq![]
            }) + seq![StepView::Git],
        )
    }

    /// With a scan of git's statuses asked for.
    #[verifier::opaque]
    pub open spec fn git_asked(self) -> AppView {
        let (start, schedule) = requested(self.git_schedule);
        AppView { git_schedule: schedule, ..self }.planned(
            if start {
                seq![
                    StepView::Do(EffectView::ScanGit { root: self.tree.root.path, delay: 0 }),
                ]
            } else {
                seq![]
            },
        )
    }

    /// With the view to be made anew after what lies over the tree changed.
    pub open spec fn relaid(self, filtered: bool) -> Seq<StepView> {
        seq![
            StepView::Overlays,
            if filtered && self.live_filter is Some {
                StepView::Filtered
            } else {
                StepView::RowsHere
            },
        ]
    }

    /// After a scan of git's statuses. What the filter found is only of no use
    /// where the statuses have changed. A scan that failed leaves them alone.
    #[verifier::opaque]
    pub open spec fn git_done(self, result: Option<GitData>) -> AppView {
        let (after, schedule) = done(self.git_schedule, result is Some);
        let s = AppView { git_schedule: schedule, ..self };
        let again = rescans(after, self.tree.root.path);
        match result {
            Some(data) => {
                let changed = self.git.statuses != data.statuses@;
                AppView {
                    git: git_view(data),
                    live_scan: if changed {
                        None
                    } else {
                        self.live_scan
                    },
                    ..s
                }.planned(again + self.relaid(changed))
            },
            None => s.planned(again),
        }
    }

    /// With the diagnostics as they are now, and the view to be made anew if
    /// they have changed.
    pub open spec fn diagnosed(self, files: Map<Seq<Seq<u8>>, Counts>) -> AppView {
        AppView { diagnostics: files, ..self }.planned(
            if files != self.diagnostics {
                self.relaid(true)
            } else {
                seq![]
            },
        )
    }

    /// After the editor has reported the diagnostics of one file.
    #[verifier::opaque]
    pub open spec fn file_diagnosed(self, u: DiagnosticsUpdate) -> AppView {
        if self.diagnostics_mode == Mode::Off {
            self
        } else {
            self.diagnosed(reported_one(self.diagnostics, u.path.comps(), u.counts))
        }
    }

    /// After the editor has reported all its diagnostics. A report that is older
    /// than the last one of the same sender is not taken.
    pub open spec fn all_diagnosed(
        self,
        sender: Seq<char>,
        seq: u64,
        files: Seq<(Path, Counts)>,
    ) -> AppView {
        if self.diagnostics_mode == Mode::Off || !accepts(self.gate, sender, seq) {
            self
        } else {
            AppView { gate: Some((sender, seq)), ..self }.diagnosed(reported(files))
        }
    }

    /// After the editor has named its file. While the user acts on the tree, a
    /// file that it names by itself is only brought into view later.
    pub open spec fn sighted(
        self,
        p: Seq<u8>,
        follow: bool,
        own: Option<Seq<u8>>,
        ups: Seq<Option<Seq<u8>>>,
    ) -> AppView {
        let q = canonical(p, own, ups);
        let s = self.editing(q);
        if follow && self.recent_input() {
            AppView { pending_reveal: Some(q), ..s }
        } else {
            AppView { pending_reveal: None, ..s }.planned(seq![StepView::Reveal(q)])
        }
    }

    /// With a path to be brought into view. The cursor goes there only if it
    /// exists.
    pub open spec fn revealed(
        self,
        p: Seq<u8>,
        own: Option<Seq<u8>>,
        ups: Seq<Option<Seq<u8>>>,
    ) -> AppView {
        let q = canonical(p, own, ups);
        self.planned(
            opens(reveal_texts(self.tree.root.path, q), Opening::Single) + seq![
                StepView::Overlays,
                StepView::Rows(None),
            ] + if own is Some && comps(self.tree.root.path).is_prefix_of(comps(q)) {
                seq![StepView::Select(q)]
            } else {
                seq![]
            },
        )
    }

    /// With a path that was to be brought into view later on its way, if the
    /// user no longer acts on the tree.
    #[verifier::opaque]
    pub open spec fn flushed(self) -> AppView {
        if self.pending_reveal is Some && !self.recent_input() {
            AppView { pending_reveal: None, ..self }.queued(
                seq![StepView::Reveal(self.pending_reveal->0)],
            )
        } else {
            self
        }
    }

    /// When a path that is to be brought into view later can be.
    pub open spec fn reveal_due(self) -> Option<u64> {
        if self.pending_reveal is None {
            None
        } else {
            match self.last_input {
                Some(t) => Some(t.saturating_add(FOLLOW_INPUT_GRACE)),
                None => Some(self.now),
            }
        }
    }

    /// When something is to be done although nothing happens.
    pub open spec fn due(self) -> Option<u64> {
        match (self.status_deadline, self.reveal_due()) {
            (Some(a), Some(b)) => Some(
                if a < b {
                    a
                } else {
                    b
                },
            ),
            (Some(a), None) => Some(a),
            (None, b) => b,
        }
    }

    /// When it is later and nothing has happened.
    pub open spec fn waited(self, now: u64) -> AppView {
        let s = AppView { now, ..self };
        (if self.status_deadline is Some && self.status_deadline->0 <= now {
            s.hushed()
        } else {
            s
        }).flushed()
    }
}

/// A scan, or that of a directory that is not there.
pub open spec fn scan_or_nothing(scan: Option<ScanView>) -> ScanView {
    match scan {
        Some(s) => s,
        None => ScanView { mtime: None, entries: None },
    }
}

/// A scan that may be there.
pub open spec fn found_scan(scan: Option<DirScan>) -> Option<ScanView> {
    match scan {
        Some(s) => Some(s@),
        None => None,
    }
}

fn scan_or_none(scan: Option<DirScan>) -> (r: DirScan)
    ensures
        r@ == scan_or_nothing(found_scan(scan)),
{
    match scan {
        Some(s) => s,
        None => DirScan { mtime: None, entries: None },
    }
}

/// The directories whose entries can have changed when some paths did.
pub fn dirs_changed(paths: &Vec<Path>) -> (r: PathSet)
    ensures
        r.texts() == changed_dirs(path_texts(paths@)),
{
    let mut set = PathSet::new();
    let ghost ts = path_texts(paths@);
    let mut i: usize = 0;
    assert(set.texts() =~= changed_dirs(ts.take(0)));
    while i < paths.len()
        invariant
            i <= paths@.len(),
            ts == path_texts(paths@),
            set.texts() == changed_dirs(ts.take(i as int)),
        decreases paths@.len() - i,
    {
        proof {
            assert(ts.take(i + 1).drop_last() =~= ts.take(i as int));
            assert(ts.take(i + 1).last() == paths@[i as int]@);
        }
        if let Some(up) = paths[i].parent() {
            let _fresh = set.insert(up);
        }
        let _fresh = set.insert(paths[i].copy());
        i += 1;
    }
    assert(ts.take(i as int) =~= ts);
    set
}

fn refresh_steps(dirs: &Vec<Path>, sel: Option<Path>) -> (r: Vec<Step>)
    ensures
        steps_view(r@) == refreshing(path_texts(dirs@)) + seq![StepView::Reloaded(path_view(sel))],
{
    let mut steps: Vec<Step> = Vec::new();
    let ghost ts = path_texts(dirs@);
    let mut i: usize = 0;
    while i < dirs.len()
        invariant
            i <= dirs@.len(),
            ts == path_texts(dirs@),
            steps@.len() == i,
            forall|k: int| 0 <= k < i ==> (#[trigger] steps@[k])@ == StepView::Refresh(ts[k]),
        decreases dirs@.len() - i,
    {
        steps.push(Step::Refresh(dirs[i].copy()));
        i += 1;
    }
    steps.push(Step::Reloaded(sel));
    assert(steps_view(steps@) =~= refreshing(ts) + seq![StepView::Reloaded(path_view(sel))]);
    steps
}

fn open_all_steps(dirs: Vec<Path>) -> (r: Vec<Step>)
    ensures
        steps_view(r@) == path_texts(dirs@).reverse().map_values(
            |q: Seq<u8>| StepView::OpenAll(q),
        ),
{
    let ghost ts = path_texts(dirs@);
    let ghost n = dirs@.len() as int;
    let ghost all = dirs@;
    let mut dirs = dirs;
    let mut steps: Vec<Step> = Vec::new();
    while dirs.len() > 0
        invariant
            n == all.len(),
            ts == path_texts(all),
            dirs@.len() <= n,
            dirs@ == all.take(dirs@.len() as int),
            steps@.len() == n - dirs@.len(),
            forall|k: int|
                0 <= k < steps@.len() ==> (#[trigger] steps@[k])@ == StepView::OpenAll(
                    ts[n - 1 - k],
                ),
        decreases dirs@.len(),
    {
        let ghost m = dirs@.len() as int;
        match dirs.pop() {
            Some(p) => {
                assert(p == all[m - 1]);
                steps.push(Step::OpenAll(p));
                assert(dirs@ =~= all.take(m - 1));
            },
            None => {},
        }
    }
    assert(steps_view(steps@) =~= ts.reverse().map_values(|q: Seq<u8>| StepView::OpenAll(q)));
    steps
}

fn scan_steps(after: AfterScan, root: Path) -> (r: Vec<Step>)
    ensures
        steps_view(r@) == rescans(after, root@),
{
    let mut steps: Vec<Step> = Vec::new();
    match after {
        AfterScan::Idle => {},
        AfterScan::Rerun => steps.push(Step::Do(Effect::ScanGit { root, delay: 0 })),
        AfterScan::Retry(delay) => steps.push(Step::Do(Effect::ScanGit { root, delay })),
    }
    assert(steps_view(steps@) =~= rescans(after, root@));
    steps
}

impl App {
    fn open_in_tree(&mut self, path: &Path, scan: DirScan)
        requires
            old(self).wf(),
        ensures
            final(self).wf(),
            final(self)@ == (AppView {
                tree: TreeView {
                    root: opened(old(self)@.tree.root, path.comps(), scan@),
                    ..old(self)@.tree
                },
                ..old(self)@
            }),
    {
        proof {
            reveal(seen);
        }
        self.tree.do_expand(path, scan);
    }

    fn open_chain(&mut self, path: &Path, scan: DirScan) -> (next: Option<Path>)
        requires
            old(self).wf(),
        ensures
            final(self).wf(),
            final(self)@ == (AppView {
                tree: TreeView {
                    root: opened(old(self)@.tree.root, path.comps(), scan@),
                    ..old(self)@.tree
                },
                ..old(self)@
            }),
            path_view(next) == if old(self)@.tree.group_empty {
                chain_from(
                    opened(old(self)@.tree.root, path.comps(), scan@),
                    path.comps(),
                    old(self)@.tree.show_hidden,
                    old(self)@.tree.show_ignored,
                )
            } else {
                None
            },
    {
        proof {
            reveal(seen);
        }
        self.tree.expand(path, scan)
    }

    /// A directory that was to be opened was looked at.
    pub fn on_opened(&mut self, path: &Path, how: Opening, scan: Option<DirScan>)
        requires
            old(self).wf(),
        ensures
            final(self).wf(),
            final(self)@ == old(self)@.dir_opened(path@, how, found_scan(scan)),
    {
        proof {
            reveal(AppView::dir_opened);
        }
        if how == Opening::Present && scan.is_none() {
            return;
        }
        let scan = scan_or_none(scan);
        if how == Opening::Chain {
            if let Some(next) = self.open_chain(path, scan) {
                self.plan_one(Step::Open { path: next, how });
            }
        } else {
            self.open_in_tree(path, scan);
        }
    }

    fn open_and_list(&mut self, path: &Path, scan: DirScan) -> (below: Vec<Path>)
        requires
            old(self).wf(),
        ensures
            final(self).wf(),
            final(self)@ == (AppView {
                tree: TreeView {
                    root: opened(old(self)@.tree.root, path.comps(), scan@),
                    ..old(self)@.tree
                },
                ..old(self)@
            }),
            path_texts(below@) == dirs_below(
                opened(old(self)@.tree.root, path.comps(), scan@),
                path.comps(),
            ),
    {
        proof {
            reveal(seen);
        }
        let mut stack: Vec<Path> = Vec::new();
        stack.push(path.copy());
        let ghost held = stack@;
        self.tree.expand_all(&mut stack, scan);
        proof {
            assert(held.last().comps() == path.comps());
            assert(path_texts(held.drop_last()) =~= Seq::empty());
            assert(path_texts(stack@) =~= dirs_below(self.tree.root@, path.comps()));
        }
        stack
    }

    /// A directory that was to be opened with all below it was looked at.
    pub fn on_all_opened(&mut self, path: &Path, scan: Option<DirScan>)
        requires
            old(self).wf(),
        ensures
            final(self).wf(),
            final(self)@ == old(self)@.all_opened(path@, found_scan(scan)),
    {
        proof {
            reveal(AppView::all_opened);
        }
        let below = self.open_and_list(path, scan_or_none(scan));
        self.plan(open_all_steps(below));
    }

    /// The directory that is to be the root was read.
    pub fn on_root_read(&mut self, path: Path, scan: Option<DirScan>)
        requires
            old(self).wf(),
        ensures
            final(self).wf(),
            final(self)@ == old(self)@.root_read(path@, found_scan(scan)),
    {
        proof {
            reveal(AppView::root_read);
            reveal(seen);
        }
        self.tree.set_root(path, scan_or_none(scan));
    }

    fn reread_root(&mut self, scan: DirScan) -> (dirs: Vec<Path>)
        requires
            old(self).wf(),
        ensures
            final(self).wf(),
            final(self)@ == (AppView {
                tree: TreeView {
                    root: new_root(old(self)@.tree.root.path, scan@),
                    ..old(self)@.tree
                },
                ..old(self)@
            }),
            path_texts(dirs@) == stable_sort(
                listed(with_open(old(self)@.tree.root, Map::empty())),
                no_deeper(),
            ),
    {
        proof {
            reveal(seen);
        }
        let expanded = self.tree.collect_expanded();
        self.tree.reload_preserving(&expanded, scan)
    }

    /// The root was read again.
    pub fn on_reread(&mut self, scan: Option<DirScan>)
        requires
            old(self).wf(),
        ensures
            final(self).wf(),
            final(self)@ == old(self)@.reread(found_scan(scan)),
    {
        proof {
            reveal(AppView::reread);
            reveal(AppView::root_read);
        }
        let dirs = self.reread_root(scan_or_none(scan));
        self.plan(open_steps(&dirs, Opening::Present));
    }

    /// A directory was read again.
    pub fn on_refreshed(&mut self, path: &Path, scan: Option<DirScan>)
        requires
            old(self).wf(),
        ensures
            final(self).wf(),
            final(self)@ == old(self)@.dir_refreshed(path@, found_scan(scan)),
    {
        proof {
            reveal(AppView::dir_refreshed);
            reveal(seen);
        }
        if self.tree.refresh_dir(path, scan_or_none(scan)) {
            self.touched = true;
        }
    }

    /// Reads everything that is open again.
    pub fn reload_from_disk(&mut self)
        requires
            old(self).wf(),
        ensures
            final(self).wf(),
            final(self)@ == old(self)@.reloading(),
    {
        proof {
            reveal(AppView::reloading);
        }
        let last = if self.is_filtered() {
            Step::Filtered
        } else {
            Step::Rows(self.selected_path())
        };
        self.plan(
            crate::app::state::five_steps(
                Step::Reread,
                Step::Overlays,
                Step::Stale,
                last,
                Step::Git,
            ),
        );
    }

    fn is_filtered(&self) -> (r: bool)
        ensures
            r == (self@.live_filter is Some),
    {
        proof {
            reveal(seen);
        }
        self.live_filter.is_some()
    }

    fn untouch(&mut self)
        requires
            old(self).wf(),
        ensures
            final(self).wf(),
            final(self)@ == (AppView { touched: false, ..old(self)@ }),
    {
        proof {
            reveal(seen);
        }
        self.touched = false;
    }

    /// Reads again what changed on disk.
    pub fn reload_from_paths(&mut self, changed: &PathSet)
        requires
            old(self).wf(),
        ensures
            final(self).wf(),
            final(self)@ == old(self)@.disk_changed(changed.texts()),
    {
        proof {
            reveal(AppView::disk_changed);
        }
        let sel = self.selected_path();
        let dirs = dirs_changed(&changed.list());
        let steps = refresh_steps(&dirs.list(), sel);
        self.untouch();
        self.plan(steps);
    }

    fn forget_scan(&mut self) -> (was: bool)
        requires
            old(self).wf(),
        ensures
            final(self).wf(),
            final(self)@ == (AppView { touched: false, live_scan: None, ..old(self)@ }),
            was == old(self)@.touched,
    {
        proof {
            reveal(seen);
        }
        let was = self.touched;
        self.touched = false;
        self.live_scan = None;
        was
    }

    /// Some directories were read again.
    pub fn on_reloaded(&mut self, sel: Option<Path>)
        requires
            old(self).wf(),
        ensures
            final(self).wf(),
            final(self)@ == old(self)@.reloaded(path_view(sel)),
    {
        proof {
            reveal(AppView::reloaded);
        }
        let filtered = self.is_filtered();
        let was = self.forget_scan();
        let mut steps: Vec<Step> = Vec::new();
        if was {
            steps.push(Step::Overlays);
        }
        if filtered {
            steps.push(Step::Filtered);
        } else if was {
            steps.push(Step::Rows(sel));
        }
        steps.push(Step::Git);
        assert(steps_view(steps@) =~= (if was {
            seq![StepView::Overlays]
        } else {
            seq![]
        }) + (if filtered {
            seq![StepView::Filtered]
        } else if was {
            seq![StepView::Rows(path_view(sel))]
        } else {
            seq![]
        }) + seq![StepView::Git]);
        self.plan(steps);
    }

    fn request_scan(&mut self) -> (start: bool)
        requires
            old(self).wf(),
        ensures
            final(self).wf(),
            start == requested(old(self)@.git_schedule).0,
            final(self)@ == (AppView {
                git_schedule: requested(old(self)@.git_schedule).1,
                ..old(self)@
            }),
    {
        proof {
            reveal(seen);
        }
        self.git_schedule.request()
    }

    /// Asks for a scan of git's statuses.
    pub fn spawn_git(&mut self)
        requires
            old(self).wf(),
        ensures
            final(self).wf(),
            final(self)@ == old(self)@.git_asked(),
    {
        proof {
            reveal(AppView::git_asked);
        }
        let root = self.root_path();
        if self.request_scan() {
            self.plan_one(Step::Do(Effect::ScanGit { root, delay: 0 }));
        } else {
            self.plan_nothing();
        }
    }

    fn plan_nothing(&mut self)
        requires
            old(self).wf(),
        ensures
            final(self).wf(),
            final(self)@ == old(self)@.planned(seq![]),
    {
        let none: Vec<Step> = Vec::new();
        assert(steps_view(none@) =~= seq![]);
        self.plan(none);
    }

    fn finish_scan(&mut self, ok: bool) -> (after: AfterScan)
        requires
            old(self).wf(),
        ensures
            final(self).wf(),
            after == done(old(self)@.git_schedule, ok).0,
            final(self)@ == (AppView {
                git_schedule: done(old(self)@.git_schedule, ok).1,
                ..old(self)@
            }),
    {
        proof {
            reveal(seen);
        }
        self.git_schedule.finished(ok)
    }

    fn take_statuses(&mut self, data: GitData) -> (changed: bool)
        requires
            old(self).wf(),
        ensures
            final(self).wf(),
            changed == (old(self)@.git.statuses != data.statuses@),
            final(self)@ == (AppView {
                git: git_view(data),
                live_scan: if changed {
                    None
                } else {
                    old(self)@.live_scan
                },
                ..old(self)@
            }),
    {
        proof {
            reveal(seen);
        }
        let changed = !same_statuses(&self.git.statuses, &data.statuses);
        self.git = data;
        if changed {
            self.live_scan = None;
        }
        changed
    }

    fn relay_steps(&self, filtered: bool) -> (r: Vec<Step>)
        ensures
            steps_view(r@) == self@.relaid(filtered),
    {
        let last = if filtered && self.is_filtered() {
            Step::Filtered
        } else {
            Step::RowsHere
        };
        crate::app::state::two_steps(Step::Overlays, last)
    }

    /// A scan of git's statuses is done.
    pub fn on_git(&mut self, result: Option<GitData>)
        requires
            old(self).wf(),
        ensures
            final(self).wf(),
            final(self)@ == old(self)@.git_done(result),
    {
        proof {
            reveal(AppView::git_done);
        }
        let root = self.root_path();
        let after = self.finish_scan(result.is_some());
        let mut steps = scan_steps(after, root);
        if let Some(data) = result {
            let changed = self.take_statuses(data);
            let ghost held = steps@;
            let mut more = self.relay_steps(changed);
            let ghost rest = more@;
            steps.append(&mut more);
            assert(steps_view(steps@) =~= steps_view(held) + steps_view(rest));
        }
        self.plan(steps);
    }

    fn mode_of_diagnostics(&self) -> (r: Mode)
        ensures
            r == self@.diagnostics_mode,
    {
        proof {
            reveal(seen);
        }
        self.diagnostics_mode
    }

    fn note_file(&mut self, path: Path, counts: Counts) -> (changed: bool)
        requires
            old(self).wf(),
        ensures
            final(self).wf(),
            changed == (reported_one(old(self)@.diagnostics, path.comps(), counts)
                != old(self)@.diagnostics),
            final(self)@ == (AppView {
                diagnostics: reported_one(old(self)@.diagnostics, path.comps(), counts),
                ..old(self)@
            }),
    {
        proof {
            reveal(seen);
        }
        self.diagnostics.update(path, counts)
    }

    fn plan_relaid(&mut self, changed: bool)
        requires
            old(self).wf(),
        ensures
            final(self).wf(),
            final(self)@ == old(self)@.planned(
                if changed {
                    old(self)@.relaid(true)
                } else {
                    seq![]
                },
            ),
    {
        if changed {
            let steps = self.relay_steps(true);
            self.plan(steps);
        } else {
            self.plan_nothing();
        }
    }

    /// The editor has reported the diagnostics of one file.
    pub fn on_diagnostics(&mut self, u: DiagnosticsUpdate)
        requires
            old(self).wf(),
        ensures
            final(self).wf(),
            final(self)@ == old(self)@.file_diagnosed(u),
    {
        proof {
            reveal(AppView::file_diagnosed);
        }
        if self.mode_of_diagnostics() == Mode::Off {
            return;
        }
        let changed = self.note_file(u.path, u.counts);
        self.plan_relaid(changed);
    }

    fn pass_gate(&mut self, sender: String, seq: u64) -> (r: bool)
        requires
            old(self).wf(),
        ensures
            final(self).wf(),
            r == accepts(old(self)@.gate, sender@, seq),
            final(self)@ == if r {
                AppView { gate: Some((sender@, seq)), ..old(self)@ }
            } else {
                old(self)@
            },
    {
        proof {
            reveal(seen);
        }
        self.gate.accept(sender, seq)
    }

    fn replace_diagnostics(&mut self, files: Vec<(Path, Counts)>) -> (changed: bool)
        requires
            old(self).wf(),
        ensures
            final(self).wf(),
            changed == (reported(files@) != old(self)@.diagnostics),
            final(self)@ == (AppView { diagnostics: reported(files@), ..old(self)@ }),
    {
        proof {
            reveal(seen);
        }
        self.diagnostics.replace(files)
    }

    /// The editor has reported all its diagnostics.
    pub fn on_snapshot(&mut self, sender: String, seq: u64, files: Vec<(Path, Counts)>)
        requires
            old(self).wf(),
        ensures
            final(self).wf(),
            final(self)@ == old(self)@.all_diagnosed(sender@, seq, files@),
    {
        proof {
            reveal(AppView::all_diagnosed);
        }
        if self.mode_of_diagnostics() == Mode::Off {
            return;
        }
        if self.pass_gate(sender, seq) {
            let changed = self.replace_diagnostics(files);
            self.plan_relaid(changed);
        }
    }

    fn set_pending_reveal(&mut self, path: Option<Path>)
        requires
            old(self).wf(),
        ensures
            final(self).wf(),
            final(self)@ == (AppView { pending_reveal: path_view(path), ..old(self)@ }),
    {
        proof {
            reveal(seen);
        }
        self.pending_reveal = path;
    }

    /// The file of the editor was looked at.
    pub fn on_sight(
        &mut self,
        path: &Path,
        follow: bool,
        own: Option<Path>,
        ups: &Vec<Option<Path>>,
    )
        requires
            old(self).wf(),
        ensures
            final(self).wf(),
            final(self)@ == old(self)@.sighted(
                path@,
                follow,
                path_view(own),
                reals_view(ups@),
            ),
    {
        proof {
            reveal(AppView::sighted);
        }
        let q = canonicalize_lenient(path, own, ups);
        let wait = follow && self.recent_input();
        self.mark_current(&q);
        if wait {
            self.set_pending_reveal(Some(q));
        } else {
            self.set_pending_reveal(None);
            self.plan_one(Step::Reveal(q));
        }
    }

    fn reveal_steps(&self, q: &Path, there: bool) -> (r: Vec<Step>)
        ensures
            steps_view(r@) == opens(
                reveal_texts(self@.tree.root.path, q@),
                Opening::Single,
            ) + seq![StepView::Overlays, StepView::Rows(None)] + if there && comps(
                self@.tree.root.path,
            ).is_prefix_of(q.comps()) {
                seq![StepView::Select(q@)]
            } else {
                seq![]
            },
    {
        proof {
            reveal(seen);
        }
        let chain = self.tree.reveal_chain(q);
        let mut steps = open_steps(&chain, Opening::Single);
        let ghost held = steps@;
        steps.push(Step::Overlays);
        steps.push(Step::Rows(None));
        let inside = there && q.starts_with(&self.tree.root.path);
        if inside {
            steps.push(Step::Select(q.copy()));
        }
        assert(steps_view(steps@) =~= steps_view(held) + seq![
            StepView::Overlays,
            StepView::Rows(None),
        ] + if inside {
            seq![StepView::Select(q@)]
        } else {
            seq![]
        });
        steps
    }

    /// A path that is to be brought into view was looked at.
    pub fn on_reveal(&mut self, path: &Path, own: Option<Path>, ups: &Vec<Option<Path>>)
        requires
            old(self).wf(),
        ensures
            final(self).wf(),
            final(self)@ == old(self)@.revealed(path@, path_view(own), reals_view(ups@)),
    {
        proof {
            reveal(AppView::revealed);
        }
        let there = own.is_some();
        let q = canonicalize_lenient(path, own, ups);
        let steps = self.reveal_steps(&q, there);
        self.plan(steps);
    }

    /// Puts a step after all others.
    fn queue(&mut self, step: Step)
        requires
            old(self).wf(),
        ensures
            final(self).wf(),
            final(self)@ == old(self)@.queued(seq![step@]),
    {
        proof {
            reveal(seen);
        }
        let ghost before = self.agenda@;
        self.agenda.insert(0, step);
        proof {
            assert(self.agenda@ =~= seq![step] + before);
            assert(self@.agenda =~= steps_view(before.reverse()) + seq![step@]);
        }
    }

    fn due_reveal(&mut self) -> (r: Option<Path>)
        requires
            old(self).wf(),
        ensures
            final(self).wf(),
            path_view(r) == if old(self)@.recent_input() {
                None
            } else {
                old(self)@.pending_reveal
            },
            final(self)@ == if r is Some {
                AppView { pending_reveal: None, ..old(self)@ }
            } else {
                old(self)@
            },
    {
        if self.recent_input() {
            return None;
        }
        proof {
            reveal(seen);
        }
        let mut taken: Option<Path> = None;
        std::mem::swap(&mut taken, &mut self.pending_reveal);
        taken
    }

    fn flush_reveal(&mut self)
        requires
            old(self).wf(),
        ensures
            final(self).wf(),
            final(self)@ == old(self)@.flushed(),
    {
        proof {
            reveal(AppView::flushed);
        }
        if let Some(p) = self.due_reveal() {
            self.queue(Step::Reveal(p));
        }
    }

    fn set_now(&mut self, now: u64)
        requires
            old(self).wf(),
        ensures
            final(self).wf(),
            final(self)@ == (AppView { now, ..old(self)@ }),
    {
        proof {
            reveal(seen);
        }
        self.now = now;
    }

    /// When a path that is to be brought into view later can be.
    pub fn pending_reveal_deadline(&self) -> (r: Option<u64>)
        ensures
            r == self@.reveal_due(),
    {
        proof {
            reveal(seen);
        }
        if self.pending_reveal.is_none() {
            return None;
        }
        match self.last_input {
            Some(t) => Some(t.saturating_add(FOLLOW_INPUT_GRACE)),
            None => Some(self.now),
        }
    }

    /// When something is to be done although nothing happens.
    pub fn next_wake(&self) -> (r: Option<u64>)
        ensures
            r == self@.due(),
    {
        let reveal_at = self.pending_reveal_deadline();
        proof {
            reveal(seen);
        }
        match (self.status_deadline, reveal_at) {
            (Some(a), Some(b)) => Some(
                if a < b {
                    a
                } else {
                    b
                },
            ),
            (Some(a), None) => Some(a),
            (None, b) => b,
        }
    }

    fn status_over(&self, now: u64) -> (r: bool)
        ensures
            r == (self@.status_deadline is Some && self@.status_deadline->0 <= now),
    {
        proof {
            reveal(seen);
        }
        match self.status_deadline {
            Some(d) => d <= now,
            None => false,
        }
    }

    /// It is later, and nothing has happened.
    pub fn on_timeout(&mut self, now: u64)
        requires
            old(self).wf(),
        ensures
            final(self).wf(),
            final(self)@ == old(self)@.waited(now),
    {
        let over = self.status_over(now);
        self.set_now(now);
        if over {
            self.clear_status();
        }
        self.flush_reveal();
    }

    /// Lets the filter forget which directories it opened.
    pub fn disown(&mut self)
        requires
            old(self).wf(),
        ensures
            final(self).wf(),
            final(self)@ == (AppView { filter_auto_expanded: Map::empty(), ..old(self)@ }),
    {
        proof {
            reveal(seen);
        }
        self.filter_auto_expanded = PathSet::new();
    }

    /// Forgets what the filter found.
    pub fn stale_scan(&mut self)
        requires
            old(self).wf(),
        ensures
            final(self).wf(),
            final(self)@ == (AppView { live_scan: None, ..old(self)@ }),
    {
        proof {
            reveal(seen);
        }
        self.live_scan = None;
    }

    /// Whether a directory was read, so that it can be read again.
    pub fn was_read(&self, path: &Path) -> (r: bool)
        ensures
            r == loaded_at(self@.tree.root, path.comps()),
    {
        proof {
            reveal(seen);
        }
        self.tree.is_loaded(path)
    }

    /// Whether opening a directory that was last changed at `mtime` takes what
    /// it holds.
    pub fn wants_listing(&self, path: &Path, mtime: Option<i128>) -> (r: bool)
        ensures
            r == match found(self@.tree.root, path.comps()) {
                Some(n) => n.is_dir() && !crate::tree::model::is_fresh(n, mtime),
                None => false,
            },
    {
        proof {
            reveal(seen);
        }
        self.tree.wants_listing(path, mtime)
    }

    /// Takes an event up, after a path that was to be brought into view later,
    /// if the user no longer acts on the tree.
    pub fn handle_event(&mut self, ev: crate::app::state::AppEvent, now: u64)
        requires
            old(self).wf(),
        ensures
            final(self).wf(),
            final(self)@ == (AppView { now, ..old(self)@ }).flushed().queued(
                seq![StepView::Handle(ev)],
            ),
    {
        self.set_now(now);
        self.flush_reveal();
        self.queue(Step::Handle(ev));
    }
}

} // verus!
