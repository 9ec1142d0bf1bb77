//! What holds of what the explorer learns of: every change on disk leads to
//! what it changed being read again, and to a scan of git's statuses.

use vstd::prelude::*;

use crate::app::file_laws::law_listed_is_exact;
use crate::app::laws::well_written;
use crate::app::reload::{changed_dirs, scan_or_nothing};
use crate::app::run::asked;
use crate::app::state::{AppEvent, AppView, AskView, EffectView, Opening, ReplyView, StepView};
use crate::clipboard::holds_path;
use crate::git::GitData;
use crate::path::{comps, lemma_join_name, parent_text};
use crate::paths::{listed, texts_with};
use crate::tree::model::{loaded_at, reveal_texts, step_text, ScanView};
use crate::watcher::FsChange;

verus! {

/// How many steps come before what was planned already.
pub open spec fn added(after: Seq<StepView>, before: Seq<StepView>) -> int {
    after.len() - before.len()
}

/// After every change on disk a scan of git's statuses is asked for, as the last
/// of what is done about it, whether or not a directory that is read was
/// changed and whether or not a filter is active. The filter is asked again
/// where there is one. The rows are made anew where a directory was read.
pub proof fn law_reloaded_asks_for_git(s: AppView, sel: Option<Seq<u8>>)
    ensures
        ({
            let t = s.reloaded(sel);
            let n = added(t.agenda, s.agenda);
            &&& n >= 1
            &&& t.agenda[n - 1] == StepView::Git
            &&& t.agenda.skip(n) == s.agenda
            &&& s.live_filter is Some ==> n >= 2 && t.agenda[n - 2] == StepView::Filtered
            &&& s.touched ==> t.agenda[0] == StepView::Overlays && n == 3
            &&& s.touched && s.live_filter is None ==> t.agenda[1] == StepView::Rows(sel)
            &&& !s.touched && s.live_filter is None ==> n == 1
            &&& t.live_scan is None
            &&& !t.touched
            &&& t.tree == s.tree
            &&& t.live_filter == s.live_filter
        }),
{
    reveal(AppView::reloaded);
    let t = s.reloaded(sel);
    assert(t.agenda.skip(added(t.agenda, s.agenda)) =~= s.agenda);
}

/// Reading everything again reads the tree, lays what is known over it, forgets
/// what the filter found, makes the rows anew, and asks for a scan of git's
/// statuses at the end.
pub proof fn law_reloading_asks_for_git(s: AppView)
    ensures
        ({
            let t = s.reloading();
            let n = added(t.agenda, s.agenda);
            &&& n == 5
            &&& t.agenda[0] == StepView::Reread
            &&& t.agenda[1] == StepView::Overlays
            &&& t.agenda[2] == StepView::Stale
            &&& s.live_filter is Some ==> t.agenda[3] == StepView::Filtered
            &&& s.live_filter is None ==> t.agenda[3] == StepView::Rows(s.selected_path())
            &&& t.agenda[4] == StepView::Git
            &&& t.agenda.skip(n) == s.agenda
        }),
{
    reveal(AppView::reloading);
    let t = s.reloading();
    assert(t.agenda.skip(5) =~= s.agenda);
}

/// Asking for a scan starts one at once where none runs; where one runs, it is
/// followed by another.
pub proof fn law_git_is_scanned(s: AppView)
    ensures
        !s.git_schedule.running ==> s.stepped(StepView::Git).agenda == seq![
            StepView::Do(EffectView::ScanGit { root: s.tree.root.path, delay: 0 }),
        ] + s.agenda,
        s.git_schedule.running ==> s.stepped(StepView::Git).agenda == s.agenda
            && s.stepped(StepView::Git).git_schedule.again,
        s.stepped(StepView::Git).git_schedule.running,
        s.stepped(StepView::Git).tree == s.tree,
{
    reveal(AppView::stepped);
    reveal(AppView::stepped_on);
    reveal(AppView::git_asked);
}

/// What a scan found replaces what was known, is laid over the tree, and the
/// rows are made anew; a filter is asked again where the statuses changed. A
/// scan that failed leaves the statuses alone and is run again after a second;
/// one during which another was asked for is followed by that at once.
pub proof fn law_statuses_are_taken_over(s: AppView, result: Option<GitData>)
    ensures
        ({
            let t = s.git_done(result);
            let n = added(t.agenda, s.agenda);
            &&& t.agenda.skip(n) == s.agenda
            &&& result matches Some(data) ==> {
                &&& t.git.statuses == data.statuses@
                &&& t.git.toplevel is Some == data.toplevel is Some
                &&& s.git_schedule.again ==> n == 3 && t.agenda[0] == StepView::Do(
                    EffectView::ScanGit { root: s.tree.root.path, delay: 0 },
                )
                &&& !s.git_schedule.again ==> n == 2 && !t.git_schedule.running
                &&& t.agenda[n - 2] == StepView::Overlays
                &&& t.agenda[n - 1] == if s.live_filter is Some && data.statuses@
                    != s.git.statuses {
                    StepView::Filtered
                } else {
                    StepView::RowsHere
                }
                &&& data.statuses@ != s.git.statuses ==> t.live_scan is None
            }
            &&& result is None ==> {
                &&& t.git == s.git
                &&& n == 1
                &&& t.agenda[0] == StepView::Do(
                    EffectView::ScanGit { root: s.tree.root.path, delay: 1000 },
                )
            }
        }),
{
    reveal(AppView::git_done);
    let t = s.git_done(result);
    assert(t.agenda.skip(added(t.agenda, s.agenda)) =~= s.agenda);
}

/// What is to be read again for some changed paths: each of them and the
/// directory that holds it.
pub open spec fn is_changed_dir(paths: Seq<Seq<u8>>, u: Seq<Seq<u8>>) -> bool {
    exists|i: int|
        0 <= i < paths.len() && (comps(#[trigger] paths[i]) == u || (parent_text(paths[i]) is Some
            && comps(parent_text(paths[i])->0) == u))
}

proof fn lemma_changed_dirs(paths: Seq<Seq<u8>>, u: Seq<Seq<u8>>)
    ensures
        changed_dirs(paths).contains_key(u) == is_changed_dir(paths, u),
        well_written(changed_dirs(paths)),
    decreases paths.len(),
{
    if paths.len() > 0 {
        let init = paths.drop_last();
        let p = paths.last();
        lemma_changed_dirs(init, u);
        let m = changed_dirs(init);
        let mid = match parent_text(p) {
            Some(up) => texts_with(m, up),
            None => m,
        };
        assert(changed_dirs(paths) == texts_with(mid, p));
        assert(well_written(mid));
        assert(well_written(changed_dirs(paths)));
        if is_changed_dir(paths, u) {
            let i = choose|i: int|
                0 <= i < paths.len() && (comps(#[trigger] paths[i]) == u || (parent_text(
                    paths[i],
                ) is Some && comps(parent_text(paths[i])->0) == u));
            if i < init.len() {
                assert(init[i] == paths[i]);
                assert(is_changed_dir(init, u));
            } else {
                assert(paths[i] == p);
            }
        }
        if is_changed_dir(init, u) {
            let i = choose|i: int|
                0 <= i < init.len() && (comps(#[trigger] init[i]) == u || (parent_text(
                    init[i],
                ) is Some && comps(parent_text(init[i])->0) == u));
            assert(paths[i] == init[i]);
        }
        assert(paths[paths.len() - 1] == p);
    } else {
        assert(changed_dirs(paths).dom() =~= Set::empty());
    }
}

/// When paths changed on disk, each of them and each directory that holds one is
/// read again, nothing else is, and then the rows are made anew with the cursor
/// where it was.
pub proof fn law_changed_paths_are_read_again(
    s: AppView,
    m: Map<Seq<Seq<u8>>, Seq<u8>>,
    u: Seq<Seq<u8>>,
)
    requires
        well_written(m),
    ensures
        ({
            let t = s.disk_changed(m);
            let n = added(t.agenda, s.agenda);
            &&& n >= 1
            &&& t.agenda[n - 1] == StepView::Reloaded(s.selected_path())
            &&& t.agenda.skip(n) == s.agenda
            &&& forall|i: int| 0 <= i < n - 1 ==> (#[trigger] t.agenda[i]) is Refresh
            &&& (exists|i: int|
                0 <= i < n - 1 && comps((#[trigger] t.agenda[i])->Refresh_0) == u) == (
            m.contains_key(u) || exists|k: Seq<Seq<u8>>|
                #![trigger m.contains_key(k)]
                m.contains_key(k) && parent_text(m[k]) is Some && comps(parent_text(m[k])->0)
                    == u)
            &&& !t.touched
            &&& t.tree == s.tree
        }),
{
    reveal(AppView::disk_changed);
    let t = s.disk_changed(m);
    let n = added(t.agenda, s.agenda);
    let ps = listed(m);
    let dirs = listed(changed_dirs(ps));
    lemma_changed_dirs(ps, u);
    law_listed_is_exact(changed_dirs(ps), u);
    law_listed_is_exact(m, u);
    assert(n == dirs.len() + 1);
    assert(t.agenda.skip(n) =~= s.agenda);
    assert forall|i: int| 0 <= i < dirs.len() implies t.agenda[i] == StepView::Refresh(
        #[trigger] dirs[i],
    ) by {}
    assert forall|i: int| 0 <= i < n - 1 implies (#[trigger] t.agenda[i]) is Refresh by {
        assert(t.agenda[i] == StepView::Refresh(dirs[i]));
    }
    if holds_path(dirs, u) {
        let i = choose|i: int| 0 <= i < dirs.len() && comps(#[trigger] dirs[i]) == u;
        assert(t.agenda[i] == StepView::Refresh(dirs[i]));
        let j = choose|j: int|
            0 <= j < ps.len() && (comps(#[trigger] ps[j]) == u || (parent_text(ps[j]) is Some
                && comps(parent_text(ps[j])->0) == u));
        law_listed_is_exact(m, comps(ps[j]));
        assert(holds_path(ps, comps(ps[j])));
        lemma_listed_text(m, j);
        assert(m.contains_key(comps(ps[j])));
    }
    if exists|i: int| 0 <= i < n - 1 && comps((#[trigger] t.agenda[i])->Refresh_0) == u {
        let i = choose|i: int|
            0 <= i < n - 1 && comps((#[trigger] t.agenda[i])->Refresh_0) == u;
        assert(t.agenda[i] == StepView::Refresh(dirs[i]));
        assert(comps(dirs[i]) == u);
        assert(holds_path(dirs, u));
    }
    if m.contains_key(u) {
        assert(holds_path(ps, u));
        let j = choose|j: int| 0 <= j < ps.len() && comps(#[trigger] ps[j]) == u;
        assert(is_changed_dir(ps, u));
    }
    if exists|k: Seq<Seq<u8>>|
        #![trigger m.contains_key(k)]
        m.contains_key(k) && parent_text(m[k]) is Some && comps(parent_text(m[k])->0) == u {
        let k = choose|k: Seq<Seq<u8>>|
            #![trigger m.contains_key(k)]
            m.contains_key(k) && parent_text(m[k]) is Some && comps(parent_text(m[k])->0) == u;
        law_listed_is_exact(m, k);
        let j = choose|j: int| 0 <= j < ps.len() && comps(#[trigger] ps[j]) == k;
        lemma_listed_text(m, j);
        assert(ps[j] == m[k]);
        assert(is_changed_dir(ps, u));
    }
}

proof fn lemma_listed_text(m: Map<Seq<Seq<u8>>, Seq<u8>>, j: int)
    requires
        well_written(m),
        0 <= j < listed(m).len(),
    ensures
        m.contains_key(comps(listed(m)[j])),
        listed(m)[j] == m[comps(listed(m)[j])],
{
    let ks = crate::paths::ordered(m.dom());
    crate::paths::lemma_ordered_holds(m.dom());
    assert(ks.contains(ks[j]));
    assert(m.contains_key(ks[j]));
}

/// A directory is read again only where it was read before, and it is the one
/// that the step names.
pub proof fn law_only_what_was_read_is_read_again(s: AppView, p: Seq<u8>)
    ensures
        asked(s, StepView::Refresh(p)) == if loaded_at(s.tree.root, comps(p)) {
            Some(AskView::Read(p))
        } else {
            None
        },
        asked(s, StepView::Root(p)) == Some(AskView::Read(p)),
        asked(s, StepView::Reread) == Some(AskView::Read(s.tree.root.path)),
        asked(s, StepView::OpenAll(p)) == Some(AskView::Open(p)),
        asked(s, StepView::Open { path: p, how: Opening::Single }) == Some(AskView::Open(p)),
        asked(s, StepView::Open { path: p, how: Opening::Chain }) == Some(AskView::Open(p)),
        asked(s, StepView::Open { path: p, how: Opening::Present }) == Some(AskView::Open(p)),
        asked(s, StepView::Reveal(p)) == Some(AskView::Resolve(p)),
{
}

/// What comes in is acted on as what it is.
pub proof fn law_events_are_told_apart(s: AppView, ev: AppEvent)
    ensures
        ev is Redraw ==> s.handled(ev) == s,
        ev matches AppEvent::Key(k) ==> s.handled(ev) == s.keyed(k),
        ev matches AppEvent::Mouse(m) ==> s.handled(ev) == s.moused(m),
        ev matches AppEvent::Fs(FsChange::Paths(set)) ==> s.handled(ev) == s.disk_changed(
            set.texts(),
        ),
        ev matches AppEvent::Fs(FsChange::Rescan) ==> s.handled(ev) == s.reloading(),
        ev matches AppEvent::Git(r) ==> s.handled(ev) == s.git_done(r),
        ev matches AppEvent::Reveal(r) ==> s.handled(ev).agenda == seq![
            StepView::Sight { path: r.path@, follow: r.follow },
        ] + s.agenda,
        ev matches AppEvent::Diagnostics(u) ==> s.handled(ev) == s.file_diagnosed(u),
        ev matches AppEvent::Snapshot { sender, seq, files } ==> s.handled(ev) == s.all_diagnosed(
            sender@,
            seq,
            files@,
        ),
{
    reveal(AppView::handled);
}

/// A directory that becomes the root is the root afterwards, open, with the rest
/// of the tree's settings as they were; and it is scanned for git's statuses.
pub proof fn law_new_root_is_the_root(s: AppView, p: Seq<u8>, scan: Option<ScanView>)
    ensures
        s.rooted(p).agenda.len() == s.agenda.len() + 5,
        s.rooted(p).agenda[0] == StepView::Root(p),
        s.rooted(p).agenda[1] == StepView::Overlays,
        s.rooted(p).agenda[2] == StepView::Rows(None),
        s.rooted(p).agenda[3] == StepView::Top,
        s.rooted(p).agenda[4] == StepView::Git,
        s.rooted(p).agenda.skip(5) == s.agenda,
        ({
            let t = s.answered(StepView::Root(p), ReplyView::Scan(scan));
            &&& t.tree.root.path == p
            &&& t.tree.root.expanded
            &&& t.tree.show_hidden == s.tree.show_hidden
            &&& t.tree.show_ignored == s.tree.show_ignored
            &&& t.tree.group_empty == s.tree.group_empty
            &&& t.marks == s.marks
            &&& t.selection == s.selection
        }),
{
    reveal(AppView::rooted);
    reveal(AppView::answered);
    reveal(AppView::root_read);
    assert(s.rooted(p).agenda.skip(5) =~= s.agenda);
}

/// Going into the directory under the cursor makes it the root (of a chain that
/// is drawn as one, the last); a file is not gone into. Going up makes the
/// directory above the root the new one, with the cursor on the old one; at the
/// top of the file system there is nowhere to go.
pub proof fn law_cd_goes_where_it_says(s: AppView, i: int)
    requires
        0 <= i < s.rows.len(),
        i <= usize::MAX,
        s.list.selected == Some(i as usize),
    ensures
        ({
            let row = s.rows[i];
            &&& row.kind.spec_is_dir() && row.group_target is None ==> s.cd_in().agenda.len()
                > 0 && s.cd_in().agenda[0] == StepView::Root(row.path)
            &&& row.kind.spec_is_dir() && row.group_target is Some ==> s.cd_in().agenda.len()
                > 0 && s.cd_in().agenda[0] == StepView::Root(row.group_target->0)
            &&& !row.kind.spec_is_dir() ==> s.cd_in() == s
            &&& parent_text(s.tree.root.path) matches Some(up) ==> s.cd_up().agenda.len()
                == s.agenda.len() + 6 && s.cd_up().agenda[0] == StepView::Root(up)
                && s.cd_up().agenda[4] == StepView::Git && s.cd_up().agenda[5] == StepView::Select(
                s.tree.root.path,
            )
            &&& parent_text(s.tree.root.path) is None ==> s.cd_up() == s
        }),
{
    reveal(AppView::cd_in);
    reveal(AppView::cd_up);
    reveal(AppView::rooted);
}

proof fn lemma_step_text(root: Seq<u8>, t: Seq<Seq<u8>>, n: int)
    requires
        comps(root).is_prefix_of(t),
        comps(root).len() <= n <= t.len(),
        forall|i: int|
            comps(root).len() <= i < t.len() ==> (#[trigger] t[i]).len() > 0 && !t[i].contains(47u8)
                && t[i] != crate::path::dot_comp(),
    ensures
        comps(step_text(root, t, n)) == t.take(n),
    decreases n,
{
    if n == comps(root).len() {
        assert(t.take(n) =~= comps(root));
    } else {
        lemma_step_text(root, t, n - 1);
        assert(t[n - 1].len() > 0);
        lemma_join_name(step_text(root, t, n - 1), t[n - 1]);
        assert(t.take(n) =~= t.take(n - 1).push(t[n - 1]));
    }
}

/// Bringing a path into view opens exactly the directories from the root down to
/// the one that holds it, in that order, each by itself.
pub proof fn law_reveal_opens_the_way(root: Seq<u8>, target: Seq<u8>, k: int)
    requires
        comps(root).is_prefix_of(comps(target)),
        comps(root).len() <= k < comps(target).len(),
        forall|i: int|
            comps(root).len() <= i < comps(target).len() ==> (#[trigger] comps(target)[i]).len()
                > 0 && !comps(target)[i].contains(47u8) && comps(target)[i]
                != crate::path::dot_comp(),
    ensures
        reveal_texts(root, target).len() == comps(target).len() - comps(root).len(),
        comps(reveal_texts(root, target)[k - comps(root).len()]) == comps(target).take(k),
{
    lemma_step_text(root, comps(target), k);
}

/// What is revealed: the way to it is opened, the rows are made anew, and the
/// cursor goes to it where it is there and inside the tree, and stays where it
/// is otherwise.
pub proof fn law_reveal_selects(
    s: AppView,
    p: Seq<u8>,
    own: Option<Seq<u8>>,
    ups: Seq<Option<Seq<u8>>>,
)
    ensures
        own matches Some(q) ==> {
            let t = s.revealed(p, own, ups);
            let n = added(t.agenda, s.agenda);
            let way = reveal_texts(s.tree.root.path, q);
            &&& t.agenda.skip(n) == s.agenda
            &&& forall|i: int|
                0 <= i < way.len() ==> t.agenda[i] == (StepView::Open {
                    path: #[trigger] way[i],
                    how: Opening::Single,
                })
            &&& t.agenda[way.len() as int] == StepView::Overlays
            &&& t.agenda[way.len() as int + 1] == StepView::Rows(None)
            &&& comps(s.tree.root.path).is_prefix_of(comps(q)) ==> n == way.len() + 3 && t.agenda[n
                - 1] == StepView::Select(q)
            &&& !comps(s.tree.root.path).is_prefix_of(comps(q)) ==> n == 2
        },
        own is None ==> s.revealed(p, own, ups).agenda[added(
            s.revealed(p, own, ups).agenda,
            s.agenda,
        ) - 1] == StepView::Rows(None),
{
    let t = s.revealed(p, own, ups);
    assert(t.agenda.skip(added(t.agenda, s.agenda)) =~= s.agenda);
}

/// The file that the editor shows is the one that is set off, and counts as
/// open from then on.
pub proof fn law_sighted_file_is_current(
    s: AppView,
    p: Seq<u8>,
    follow: bool,
    q: Seq<u8>,
    ups: Seq<Option<Seq<u8>>>,
)
    ensures
        s.sighted(p, follow, Some(q), ups).current_file == Some(q),
        s.sighted(p, follow, Some(q), ups).opened == s.opened.insert(comps(q)),
        !follow ==> s.sighted(p, follow, Some(q), ups).agenda == seq![StepView::Reveal(q)]
            + s.agenda,
        follow && s.last_input is Some && s.now < s.last_input->0 + 1000 ==> s.sighted(
            p,
            follow,
            Some(q),
            ups,
        ).agenda == s.agenda && s.sighted(p, follow, Some(q), ups).pending_reveal == Some(q),
        follow && (s.last_input is None || s.now >= s.last_input->0 + 1000) ==> s.sighted(
            p,
            follow,
            Some(q),
            ups,
        ).agenda == seq![StepView::Reveal(q)] + s.agenda,
{
}

/// A directory that is read again has its children replaced by those it has now,
/// and the tree counts as touched; where it could not be read, neither happens.
pub proof fn law_refresh_touches(s: AppView, p: Seq<u8>, scan: Option<ScanView>)
    ensures
        ({
            let t = s.answered(StepView::Refresh(p), ReplyView::Scan(scan));
            &&& s.touched ==> t.touched
            &&& loaded_at(s.tree.root, comps(p)) && scan is Some && scan->0.entries is Some
                ==> t.touched
            &&& scan is None || scan->0.entries is None || !loaded_at(s.tree.root, comps(p))
                ==> t.touched == s.touched
            &&& t.agenda == s.agenda
            &&& t.rows == s.rows
        }),
{
    reveal(AppView::answered);
    reveal(AppView::dir_refreshed);
    let sc = scan_or_nothing(scan);
    assert(scan is None ==> sc.entries is None);
}

/// Steps do what they say: a message is shown for four seconds, what the filter
/// found or opened is forgotten, the cursor goes to the first row.
pub proof fn law_small_steps(s: AppView, text: Seq<char>)
    requires
        s.now + 4000 <= u64::MAX,
    ensures
        s.stepped(StepView::Say(text)).status == Some(text),
        s.stepped(StepView::Say(text)).status_deadline == Some((s.now + 4000) as u64),
        s.stepped(StepView::Stale).live_scan is None,
        s.stepped(StepView::Stale).live_filter == s.live_filter,
        s.stepped(StepView::Disown).filter_auto_expanded.dom() == Set::<Seq<Seq<u8>>>::empty(),
        s.stepped(StepView::Disown).tree == s.tree,
        s.stepped(StepView::Top).list.selected == Some(0usize),
        s.stepped(StepView::Top).list.offset == s.list.offset,
        s.stepped(StepView::Reload) == s.reloading(),
{
    reveal(AppView::stepped);
    reveal(AppView::stepped_on);
}

} // verus!
