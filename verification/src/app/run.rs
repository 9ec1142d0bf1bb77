//! How the work on the agenda is done, step by step.

use vstd::prelude::*;

use crate::app::reload::found_scan;
use crate::app::state::{seen, steps_view, text_opt, App, AppEvent, AppView, Ask, AskView, Effect};
use crate::app::state::{FileMeta, MetaView, Reply, ReplyView, Step, StepView};
use crate::app::state::Transfer;
use crate::filter::{entries_view, WalkEntry, WalkEntryView};
use crate::path::{comps, Path};
use crate::paths::path_texts;
use crate::tree::model::{loaded_at, DirScan, ScanView};
use crate::tree::node::path_view;
use crate::tree::ops::reals_view;
use crate::watcher::FsChange;

verus! {

/// What comes of one step.
#[derive(Debug)]
pub enum Turn {
    /// There is nothing to do.
    Idle,
    /// A step was done; there may be more.
    Again,
    /// The next step goes on when this is answered.
    Ask(Ask),
    /// This is to be done outside; there may be more.
    Do(Effect),
}

/// What a step asks of the world outside before it can be done. A directory that
/// was never read is not read again, and a walk that is through asks nothing.
pub open spec fn asked(s: AppView, step: StepView) -> Option<AskView> {
    match step {
        StepView::Open { path, how } => Some(AskView::Open(path)),
        StepView::OpenAll(p) => Some(AskView::Open(p)),
        StepView::Root(p) => Some(AskView::Read(p)),
        StepView::Reread => Some(AskView::Read(s.tree.root.path)),
        StepView::Refresh(p) => if loaded_at(s.tree.root, comps(p)) {
            Some(AskView::Read(p))
        } else {
            None
        },
        StepView::Walk(w) => if w.stack.len() > 0 {
            Some(AskView::Walk(w.stack.last()))
        } else {
            None
        },
        StepView::Sight { path, follow } => Some(AskView::Resolve(path)),
        StepView::Reveal(p) => Some(AskView::Resolve(p)),
        StepView::Create { path, is_dir, label } => Some(AskView::Create { path, is_dir }),
        StepView::Rename { from, to, done } => Some(AskView::Move { from, to }),
        StepView::Remove { path, trash } => Some(
            if trash {
                AskView::Trash(path)
            } else {
                AskView::Remove(path)
            },
        ),
        StepView::Send { path, dest, kind } => Some(AskView::Taken { path, dest }),
        StepView::Put { path, target, kind } => Some(
            if kind == Transfer::Copy {
                AskView::Copy { from: path, to: target }
            } else {
                AskView::Move { from: path, to: target }
            },
        ),
        StepView::Inspect { path, name, git } => Some(AskView::Inspect(path)),
        _ => None,
    }
}

/// What a reply says of a directory.
pub open spec fn scan_in(r: ReplyView) -> Option<ScanView> {
    match r {
        ReplyView::Scan(s) => s,
        _ => None,
    }
}

/// What a reply says of a real path.
pub open spec fn own_in(r: ReplyView) -> Option<Seq<u8>> {
    match r {
        ReplyView::Real { own, ups } => own,
        _ => None,
    }
}

/// What a reply says of the real paths of the directories above.
pub open spec fn ups_in(r: ReplyView) -> Seq<Option<Seq<u8>>> {
    match r {
        ReplyView::Real { own, ups } => ups,
        _ => Seq::empty(),
    }
}

/// What a reply says of the entries of a directory.
pub open spec fn entries_in(r: ReplyView) -> Option<Seq<WalkEntryView>> {
    match r {
        ReplyView::Entries(v) => v,
        _ => None,
    }
}

/// What a reply says of the paths that exist.
pub open spec fn taken_in(r: ReplyView) -> Seq<Seq<u8>> {
    match r {
        ReplyView::Taken(v) => v,
        _ => Seq::empty(),
    }
}

/// What a reply says of a file.
pub open spec fn meta_in(r: ReplyView) -> Option<MetaView> {
    match r {
        ReplyView::Meta(m) => m,
        _ => None,
    }
}

/// Why something could not be done. A reply to something else says that it was
/// not.
pub open spec fn failure_in(r: ReplyView) -> Option<Seq<char>> {
    match r {
        ReplyView::Done(e) => e,
        _ => Some("no reply"@),
    }
}

impl AppView {
    /// Without the next step.
    pub open spec fn dropped(self) -> AppView {
        AppView { agenda: self.agenda.drop_first(), ..self }
    }

    /// After an event.
    #[verifier::opaque]
    pub open spec fn handled(self, ev: AppEvent) -> AppView {
        match ev {
            AppEvent::Key(k) => self.keyed(k),
            AppEvent::Mouse(m) => self.moused(m),
            AppEvent::Redraw => self,
            AppEvent::Fs(FsChange::Paths(set)) => self.disk_changed(set.texts()),
            AppEvent::Fs(FsChange::Rescan) => self.reloading(),
            AppEvent::Git(result) => self.git_done(result),
            AppEvent::Reveal(r) => self.planned(
                seq![StepView::Sight { path: r.path@, follow: r.follow }],
            ),
            AppEvent::Diagnostics(u) => self.file_diagnosed(u),
            AppEvent::Snapshot { sender, seq, files } => self.all_diagnosed(
                sender@,
                seq,
                files@,
            ),
        }
    }

    /// After a step that asks nothing.
    #[verifier::opaque]
    pub open spec fn stepped(self, step: StepView) -> AppView {
        match step {
            StepView::Handle(ev) => self.handled(ev),
            StepView::Overlays => self.overlaid(),
            StepView::Rows(p) => self.rows_made(p),
            StepView::RowsHere => self.rows_made(self.selected_path()),
            StepView::Top => self.at_row(0),
            StepView::Select(p) => self.on_path(p),
            StepView::Down => self.moved(true),
            StepView::Note(p) => self.user_expanded(p),
            _ => self.stepped_on(step),
        }
    }

    /// After a step on the filter, on git or at the end of a batch, or any other.
    #[verifier::opaque]
    pub open spec fn stepped_on(self, step: StepView) -> AppView {
        match step {
            StepView::Git => self.git_asked(),
            StepView::Say(t) => self.said(t),
            StepView::Disown => AppView { filter_auto_expanded: Map::empty(), ..self },
            StepView::Stale => AppView { live_scan: None, ..self },
            StepView::Filtered => self.filtered(),
            StepView::Walk(w) => self.walked(w),
            StepView::Reload => self.reloading(),
            StepView::Reloaded(p) => self.reloaded(p),
            StepView::Removed => self.removed_all(),
            StepView::Sent(kind) => self.sent_all(kind),
            StepView::Save => self.saved(),
            _ => self,
        }
    }

    /// After a step that has its reply.
    #[verifier::opaque]
    pub open spec fn answered(self, step: StepView, r: ReplyView) -> AppView {
        match step {
            StepView::Open { path, how } => self.dir_opened(path, how, scan_in(r)),
            StepView::OpenAll(p) => self.all_opened(p, scan_in(r)),
            StepView::Root(p) => self.root_read(p, scan_in(r)),
            StepView::Reread => self.reread(scan_in(r)),
            StepView::Refresh(p) => self.dir_refreshed(p, scan_in(r)),
            StepView::Walk(w) => self.walked_on(w, entries_in(r)),
            StepView::Sight { path, follow } => self.sighted(path, follow, own_in(r), ups_in(r)),
            StepView::Reveal(p) => self.revealed(p, own_in(r), ups_in(r)),
            _ => self.file_answered(step, r),
        }
    }

    /// After a step on files that has its reply, or any other.
    #[verifier::opaque]
    pub open spec fn file_answered(self, step: StepView, r: ReplyView) -> AppView {
        match step {
            StepView::Create { path, is_dir, label } => self.created(path, label, failure_in(r)),
            StepView::Rename { from, to, done } => self.renamed(to, done, failure_in(r)),
            StepView::Remove { path, trash } => self.removed_one(path, failure_in(r)),
            _ => self.transfer_answered(step, r),
        }
    }

    /// After a step that puts a file elsewhere, or tells about one, and has its
    /// reply, or any other.
    #[verifier::opaque]
    pub open spec fn transfer_answered(self, step: StepView, r: ReplyView) -> AppView {
        match step {
            StepView::Send { path, dest, kind } => self.placed(path, dest, kind, taken_in(r)),
            StepView::Put { path, target, kind } => self.sent_one(
                path,
                target,
                kind,
                failure_in(r),
            ),
            StepView::Inspect { path, name, git } => self.inspected(path, name, git, meta_in(r)),
            _ => self,
        }
    }

    /// What the next step asks, if there is one and it asks something.
    pub open spec fn asking(self) -> Option<AskView> {
        if self.agenda.len() == 0 {
            None
        } else {
            asked(self, self.agenda[0])
        }
    }
}

fn take_scan(r: Reply) -> (s: Option<DirScan>)
    ensures
        found_scan(s) == scan_in(r@),
{
    match r {
        Reply::Scan(s) => s,
        _ => None,
    }
}

fn take_real(r: Reply) -> (p: (Option<Path>, Vec<Option<Path>>))
    ensures
        path_view(p.0) == own_in(r@),
        reals_view(p.1@) == ups_in(r@),
{
    match r {
        Reply::Real { own, ups } => (own, ups),
        _ => {
            let none: Vec<Option<Path>> = Vec::new();
            assert(reals_view(none@) =~= Seq::empty());
            (None, none)
        },
    }
}

fn take_entries(r: Reply) -> (v: Option<Vec<WalkEntry>>)
    ensures
        (match v {
            Some(v) => Some(entries_view(v@)),
            None => None,
        }) == entries_in(r@),
{
    match r {
        Reply::Entries(v) => v,
        _ => None,
    }
}

fn take_taken(r: Reply) -> (v: Vec<Path>)
    ensures
        path_texts(v@) == taken_in(r@),
{
    match r {
        Reply::Taken(v) => v,
        _ => {
            let none: Vec<Path> = Vec::new();
            assert(path_texts(none@) =~= Seq::empty());
            none
        },
    }
}

fn take_meta(r: Reply) -> (m: Option<FileMeta>)
    ensures
        (match m {
            Some(m) => Some(m@),
            None => None,
        }) == meta_in(r@),
{
    match r {
        Reply::Meta(m) => m,
        _ => None,
    }
}

fn take_failure(r: Reply) -> (e: Option<String>)
    ensures
        text_opt(e) == failure_in(r@),
{
    match r {
        Reply::Done(e) => e,
        _ => Some("no reply".to_owned()),
    }
}

impl App {
    fn ask_of(&self, step: &Step) -> (r: Option<Ask>)
        ensures
            (match r {
                Some(a) => Some(a@),
                None => None,
            }) == asked(self@, step@),
    {
        match step {
            Step::Open { path, .. } => Some(Ask::Open(path.copy())),
            Step::OpenAll(p) => Some(Ask::Open(p.copy())),
            Step::Root(p) => Some(Ask::Read(p.copy())),
            Step::Reread => Some(Ask::Read(self.root_path())),
            Step::Refresh(p) => if self.was_read(p) {
                Some(Ask::Read(p.copy()))
            } else {
                None
            },
            Step::Walk(w) => match w.next_dir() {
                Some(p) => Some(Ask::Walk(p.copy())),
                None => None,
            },
            Step::Sight { path, .. } => Some(Ask::Resolve(path.copy())),
            Step::Reveal(p) => Some(Ask::Resolve(p.copy())),
            Step::Create { path, is_dir, .. } => Some(
                Ask::Create { path: path.copy(), is_dir: *is_dir },
            ),
            Step::Rename { from, to, .. } => Some(Ask::Move { from: from.copy(), to: to.copy() }),
            Step::Remove { path, trash } => Some(
                if *trash {
                    Ask::Trash(path.copy())
                } else {
                    Ask::Remove(path.copy())
                },
            ),
            Step::Send { path, dest, .. } => Some(
                Ask::Taken { path: path.copy(), dest: dest.copy() },
            ),
            Step::Put { path, target, kind } => Some(
                if *kind == Transfer::Copy {
                    Ask::Copy { from: path.copy(), to: target.copy() }
                } else {
                    Ask::Move { from: path.copy(), to: target.copy() }
                },
            ),
            Step::Inspect { path, .. } => Some(Ask::Inspect(path.copy())),
            _ => None,
        }
    }

    /// Acts on an event.
    fn handle(&mut self, ev: AppEvent)
        requires
            old(self).wf(),
        ensures
            final(self).wf(),
            final(self)@ == old(self)@.handled(ev),
    {
        proof {
            reveal(AppView::handled);
        }
        match ev {
            AppEvent::Key(k) => self.on_key(k),
            AppEvent::Mouse(m) => self.on_mouse(m),
            AppEvent::Redraw => {},
            AppEvent::Fs(FsChange::Paths(set)) => self.reload_from_paths(&set),
            AppEvent::Fs(FsChange::Rescan) => self.reload_from_disk(),
            AppEvent::Git(result) => self.on_git(result),
            AppEvent::Reveal(r) => self.plan_one(Step::Sight { path: r.path, follow: r.follow }),
            AppEvent::Diagnostics(u) => self.on_diagnostics(u),
            AppEvent::Snapshot { sender, seq, files } => self.on_snapshot(sender, seq, files),
        }
    }

    fn rows_here(&mut self)
        requires
            old(self).wf(),
        ensures
            final(self).wf(),
            final(self)@ == old(self)@.rows_made(old(self)@.selected_path()),
    {
        proof {
            reveal(AppView::rows_made);
        }
        let sel = self.selected_path();
        self.refresh_rows(sel);
    }

    /// Does a step that asks nothing.
    fn run(&mut self, step: Step)
        requires
            old(self).wf(),
            step !is Do,
            asked(old(self)@, step@) is None,
        ensures
            final(self).wf(),
            final(self)@ == old(self)@.stepped(step@),
    {
        proof {
            reveal(AppView::stepped);
        }
        match step {
            Step::Handle(ev) => self.handle(ev),
            Step::Overlays => self.apply_overlays(),
            Step::Rows(p) => self.refresh_rows(p),
            Step::RowsHere => self.rows_here(),
            Step::Top => self.select_top(),
            Step::Select(p) => self.select_path(&p),
            Step::Down => self.move_selection(true),
            Step::Note(p) => self.note_user_expansion(&p),
            other => self.run_on(other),
        }
    }

    #[verifier::rlimit(60)]
    fn run_on(&mut self, step: Step)
        requires
            old(self).wf(),
            step !is Do,
            asked(old(self)@, step@) is None,
        ensures
            final(self).wf(),
            final(self)@ == old(self)@.stepped_on(step@),
    {
        proof {
            reveal(AppView::stepped_on);
        }
        match step {
            Step::Git => self.spawn_git(),
            Step::Say(t) => self.set_status(t),
            Step::Disown => self.disown(),
            Step::Stale => self.stale_scan(),
            Step::Filtered => self.refresh_filtered_view(),
            Step::Walk(w) => self.walk_done(w),
            Step::Reload => self.reload_from_disk(),
            Step::Reloaded(p) => self.on_reloaded(p),
            Step::Removed => self.on_all_removed(),
            Step::Sent(kind) => self.on_all_sent(kind),
            Step::Save => self.save_marks(),
            _ => {},
        }
    }

    fn next_ask(&self) -> (r: Option<Ask>)
        ensures
            (match r {
                Some(a) => Some(a@),
                None => None,
            }) == self@.asking(),
    {
        let n: usize = self.agenda.len();
        proof {
            self.lemma_agenda();
        }
        if n == 0 {
            None
        } else {
            self.ask_of(&self.agenda[n - 1])
        }
    }

    /// The next step is the last one in the vector.
    proof fn lemma_agenda(&self)
        ensures
            self@.agenda.len() == self.agenda@.len(),
            self.agenda@.len() > 0 ==> self@.agenda[0] == self.agenda@.last()@,
    {
        reveal(seen);
    }

    fn pop_step(&mut self) -> (r: Option<Step>)
        requires
            old(self).wf(),
        ensures
            final(self).wf(),
            match r {
                Some(step) => old(self)@.agenda.len() > 0 && step@ == old(self)@.agenda[0]
                    && final(self)@ == old(self)@.dropped(),
                None => old(self)@.agenda.len() == 0 && final(self)@ == old(self)@,
            },
    {
        proof {
            reveal(seen);
        }
        let ghost before = self.agenda@;
        let r = self.agenda.pop();
        proof {
            if before.len() > 0 {
                assert(self.agenda@.reverse() =~= before.reverse().drop_first());
                assert(self@.agenda =~= steps_view(before.reverse()).drop_first());
            }
        }
        r
    }

    /// Does the next step, or says what it waits for.
    pub fn step(&mut self) -> (r: Turn)
        requires
            old(self).wf(),
        ensures
            final(self).wf(),
            match r {
                Turn::Idle => old(self)@.agenda.len() == 0 && final(self)@ == old(self)@,
                Turn::Ask(a) => old(self)@.asking() == Some(a@) && final(self)@ == old(self)@,
                Turn::Do(e) => old(self)@.agenda.len() > 0 && old(self)@.agenda[0]
                    == StepView::Do(e@) && final(self)@ == old(self)@.dropped(),
                Turn::Again => {
                    &&& old(self)@.agenda.len() > 0
                    &&& old(self)@.asking() is None
                    &&& old(self)@.agenda[0] !is Do
                    &&& final(self)@ == old(self)@.dropped().stepped(old(self)@.agenda[0])
                },
            },
    {
        if let Some(a) = self.next_ask() {
            return Turn::Ask(a);
        }
        let ghost before = self@;
        match self.pop_step() {
            None => Turn::Idle,
            Some(Step::Do(e)) => Turn::Do(e),
            Some(step) => {
                assert(asked(self@, step@) is None) by {
                    assert(self@.tree == before.tree);
                }
                self.run(step);
                Turn::Again
            },
        }
    }

    /// Goes on with the next step, now that it has its reply. Where the next
    /// step waits for none, nothing happens.
    pub fn answer(&mut self, reply: Reply)
        requires
            old(self).wf(),
        ensures
            final(self).wf(),
            final(self)@ == if old(self)@.asking() is Some {
                old(self)@.dropped().answered(old(self)@.agenda[0], reply@)
            } else {
                old(self)@
            },
    {
        if self.next_ask().is_none() {
            return;
        }
        if let Some(step) = self.pop_step() {
            self.take_reply(step, reply);
        }
    }

    #[verifier::rlimit(60)]
    fn take_reply(&mut self, step: Step, reply: Reply)
        requires
            old(self).wf(),
        ensures
            final(self).wf(),
            final(self)@ == old(self)@.answered(step@, reply@),
    {
        proof {
            reveal(AppView::answered);
        }
        match step {
            Step::Open { path, how } => self.on_opened(&path, how, take_scan(reply)),
            Step::OpenAll(p) => self.on_all_opened(&p, take_scan(reply)),
            Step::Root(p) => self.on_root_read(p, take_scan(reply)),
            Step::Reread => self.on_reread(take_scan(reply)),
            Step::Refresh(p) => self.on_refreshed(&p, take_scan(reply)),
            Step::Walk(w) => self.walk_on(w, take_entries(reply)),
            Step::Sight { path, follow } => {
                let (own, ups) = take_real(reply);
                self.on_sight(&path, follow, own, &ups);
            },
            Step::Reveal(p) => {
                let (own, ups) = take_real(reply);
                self.on_reveal(&p, own, &ups);
            },
            other => self.take_file_reply(other, reply),
        }
    }

    #[verifier::rlimit(60)]
    fn take_file_reply(&mut self, step: Step, reply: Reply)
        requires
            old(self).wf(),
        ensures
            final(self).wf(),
            final(self)@ == old(self)@.file_answered(step@, reply@),
    {
        proof {
            reveal(AppView::file_answered);
        }
        match step {
            Step::Create { path, label, .. } => self.on_created(
                path,
                label.as_str(),
                take_failure(reply),
            ),
            Step::Rename { to, done, .. } => self.on_renamed(to, done, take_failure(reply)),
            Step::Remove { path, .. } => self.on_removed(path, take_failure(reply)),
            other => self.take_transfer_reply(other, reply),
        }
    }

    #[verifier::rlimit(60)]
    fn take_transfer_reply(&mut self, step: Step, reply: Reply)
        requires
            old(self).wf(),
        ensures
            final(self).wf(),
            final(self)@ == old(self)@.transfer_answered(step@, reply@),
    {
        proof {
            reveal(AppView::transfer_answered);
        }
        match step {
            Step::Send { path, dest, kind } => self.on_taken(
                path,
                &dest,
                kind,
                &take_taken(reply),
            ),
            Step::Put { path, target, kind } => self.on_sent(
                path,
                target,
                kind,
                take_failure(reply),
            ),
            Step::Inspect { path, name, git } => self.show_info(
                &path,
                name,
                git,
                &take_meta(reply),
            ),
            _ => {},
        }
    }
}

} // verus!
