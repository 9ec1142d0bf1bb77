//! The live filter: what it opens so that its matches can be seen, and what it
//! closes again when it goes.

use vstd::prelude::*;

use crate::app::state::{seen, steps_view, App, AppView, Opening, Step, StepView};
use crate::filter::{after_dir, walk_result, FilterWalk, LiveScanView, RulesView, WalkEntry};
use crate::filter::{WalkEntryView, WalkRules, WalkView, FILTER_EXPAND_CAP};
use crate::order::stable_sort;
use crate::path::{comps, lemma_parent, parent_text, root_comp, Path};
use crate::paths::{listed, path_texts, texts_with, PathSet};
use crate::text::{decimal, digits, join3, views};
use crate::tree::depth::{deepest_first, no_higher};
use crate::tree::model::{closed, open_dirs, Tree, TreeView};
use crate::tree::node::NodeView;

verus! {

/// Those of some paths that are not in a set.
pub open spec fn not_among(paths: Seq<Seq<u8>>, set: Set<Seq<Seq<u8>>>) -> Seq<Seq<u8>>
    decreases paths.len(),
{
    if paths.len() == 0 {
        paths
    } else if set.contains(comps(paths.last())) {
        not_among(paths.drop_last(), set)
    } else {
        not_among(paths.drop_last(), set).push(paths.last())
    }
}

/// Some texts with others, as far as their paths are not among them.
pub open spec fn claimed(m: Map<Seq<Seq<u8>>, Seq<u8>>, dirs: Seq<Seq<u8>>) -> Map<
    Seq<Seq<u8>>,
    Seq<u8>,
>
    decreases dirs.len(),
{
    if dirs.len() == 0 {
        m
    } else {
        texts_with(claimed(m, dirs.drop_last()), dirs.last())
    }
}

/// The steps that open some directories, one after the other.
pub open spec fn opens(dirs: Seq<Seq<u8>>, how: Opening) -> Seq<StepView> {
    dirs.map_values(|p: Seq<u8>| StepView::Open { path: p, how })
}

/// The tree after some directories were closed, one after the other.
pub open spec fn closed_each(root: NodeView, dirs: Seq<Seq<u8>>) -> NodeView
    decreases dirs.len(),
{
    if dirs.len() == 0 {
        root
    } else {
        closed(closed_each(root, dirs.drop_last()), comps(dirs.last()))
    }
}

/// Whether a directory lies above a path, or is it. The path without components
/// lies above none that begins at the root of all paths.
pub open spec fn lies_above(k: Seq<Seq<u8>>, t: Seq<Seq<u8>>) -> bool {
    k.is_prefix_of(t) && (k.len() > 0 || t.len() == 0 || t[0] != root_comp())
}

/// A path, and the directories above it up to the root of the tree.
pub open spec fn upward(root: Seq<Seq<u8>>, t: Seq<Seq<u8>>) -> Set<Seq<Seq<u8>>> {
    Set::new(|k: Seq<Seq<u8>>| k == t || (root.is_prefix_of(k) && lies_above(k, t)))
}

impl AppView {
    /// What a walk depends on.
    pub open spec fn walk_rules(self) -> RulesView {
        RulesView {
            show_folders: self.config.live_filter_show_folders,
            prune: self.git.toplevel is None,
            statuses: self.git.statuses,
            exclude: views(self.config.exclude@),
        }
    }

    /// With what a walk came to.
    #[verifier::opaque]
    pub open spec fn walked(self, w: WalkView) -> AppView {
        AppView { live_scan: Some(walk_result(w)), ..self }
    }

    /// With a walk that has read its next directory.
    #[verifier::opaque]
    pub open spec fn walked_on(self, w: WalkView, es: Option<Seq<WalkEntryView>>) -> AppView {
        self.planned(seq![StepView::Walk(after_dir(w, es, self.walk_rules()))])
    }

    /// What the filter has to say.
    pub open spec fn filter_notice(self, scan: LiveScanView) -> AppView {
        if scan.truncated {
            self.said("filter: tree too large, results incomplete"@)
        } else if scan.expand.len() > FILTER_EXPAND_CAP {
            self.said(
                "filter: matches in "@ + digits(scan.expand.len())
                    + " dirs — type more to narrow"@,
            )
        } else {
            self.hushed()
        }
    }

    /// The directories that the filter opens: those that are to be opened and
    /// are not open, unless there are too many.
    pub open spec fn filter_opens(self, scan: LiveScanView) -> Seq<Seq<u8>> {
        if scan.expand.len() > FILTER_EXPAND_CAP {
            Seq::empty()
        } else {
            not_among(scan.expand, open_dirs(self.tree.root))
        }
    }

    /// With what the filter found brought into view. The filter takes note of
    /// what it opens.
    #[verifier::opaque]
    pub open spec fn narrowed(self, scan: LiveScanView) -> AppView {
        self.filter_notice(scan).claiming(self.filter_opens(scan)).planned(
            self.narrow_steps(scan),
        )
    }

    /// With the filter answering for some directories.
    pub open spec fn claiming(self, dirs: Seq<Seq<u8>>) -> AppView {
        AppView { filter_auto_expanded: claimed(self.filter_auto_expanded, dirs), ..self }
    }

    /// The steps that bring what the filter found into view.
    pub open spec fn narrow_steps(self, scan: LiveScanView) -> Seq<StepView> {
        let many = scan.expand.len() == 0 || scan.expand.len() > FILTER_EXPAND_CAP;
        opens(self.filter_opens(scan), Opening::Chain) + (if many {
            seq![]
        } else {
            seq![StepView::Overlays]
        }) + seq![StepView::Rows(self.selected_path())]
    }

    /// With the filtered view made anew.
    #[verifier::opaque]
    pub open spec fn filtered(self) -> AppView {
        match self.live_filter {
            Some(q) => if q.len() == 0 {
                AppView { live_scan: None, ..self }.planned(seq![StepView::RowsHere])
            } else if !self.scan_holds(q) {
                self.planned(seq![StepView::Walk(self.walk_for(q)), StepView::Filtered])
            } else {
                self.narrowed(self.live_scan->0)
            },
            None => self,
        }
    }

    /// With an empty filter that is being typed.
    #[verifier::opaque]
    pub open spec fn filter_started(self) -> AppView {
        AppView {
            live_filter: Some(Seq::empty()),
            live_editing: true,
            filter_auto_expanded: Map::empty(),
            ..self
        }.planned(seq![StepView::RowsHere])
    }

    /// Without the filter. What it opened, and nothing else, is closed, the
    /// deepest first.
    #[verifier::opaque]
    pub open spec fn filter_cleared(self) -> AppView {
        AppView {
            live_filter: None,
            live_editing: false,
            live_scan: None,
            filter_auto_expanded: Map::empty(),
            tree: TreeView {
                root: closed_each(
                    self.tree.root,
                    stable_sort(listed(self.filter_auto_expanded), no_higher()),
                ),
                ..self.tree
            },
            ..self
        }.overlaid()
    }

    /// With the user, and no longer the filter, answering for a directory and
    /// those above it.
    #[verifier::opaque]
    pub open spec fn user_expanded(self, p: Seq<u8>) -> AppView {
        if self.live_filter is None {
            self
        } else {
            AppView {
                filter_auto_expanded: self.filter_auto_expanded.remove_keys(
                    upward(comps(self.tree.root.path), comps(p)),
                ),
                ..self
            }
        }
    }
}

/// Those of some paths that are not in a set.
pub fn leave_out(paths: &Vec<Path>, set: &PathSet) -> (r: Vec<Path>)
    ensures
        path_texts(r@) == not_among(path_texts(paths@), set@),
{
    let mut out: Vec<Path> = Vec::new();
    let ghost ts = path_texts(paths@);
    let mut i: usize = 0;
    assert(path_texts(out@) =~= not_among(ts.take(0), set@));
    while i < paths.len()
        invariant
            i <= paths@.len(),
            ts == path_texts(paths@),
            path_texts(out@) == not_among(ts.take(i as int), set@),
        decreases paths@.len() - i,
    {
        let ghost held = out@;
        proof {
            assert(ts.take(i + 1).drop_last() =~= ts.take(i as int));
            assert(ts.take(i + 1).last() == paths@[i as int]@);
        }
        if !set.contains(&paths[i]) {
            let p = paths[i].copy();
            out.push(p);
            assert(path_texts(out@) =~= path_texts(held).push(p@));
        }
        i += 1;
    }
    assert(ts.take(i as int) =~= ts);
    out
}

fn claim(set: &mut PathSet, dirs: &Vec<Path>)
    ensures
        final(set).texts() == claimed(old(set).texts(), path_texts(dirs@)),
{
    let ghost ts = path_texts(dirs@);
    let ghost start = set.texts();
    let mut i: usize = 0;
    assert(start =~= claimed(start, ts.take(0)));
    while i < dirs.len()
        invariant
            i <= dirs@.len(),
            ts == path_texts(dirs@),
            set.texts() == claimed(start, ts.take(i as int)),
        decreases dirs@.len() - i,
    {
        proof {
            assert(ts.take(i + 1).drop_last() =~= ts.take(i as int));
            assert(ts.take(i + 1).last() == dirs@[i as int]@);
        }
        let _fresh = set.insert(dirs[i].copy());
        i += 1;
    }
    assert(ts.take(i as int) =~= ts);
}

/// The steps that open some directories, one after the other.
pub fn open_steps(dirs: &Vec<Path>, how: Opening) -> (r: Vec<Step>)
    ensures
        steps_view(r@) == opens(path_texts(dirs@), how),
{
    let mut steps: Vec<Step> = Vec::new();
    let mut i: usize = 0;
    while i < dirs.len()
        invariant
            i <= dirs@.len(),
            steps@.len() == i,
            forall|k: int|
                0 <= k < i ==> (#[trigger] steps@[k])@ == (StepView::Open {
                    path: dirs@[k]@,
                    how,
                }),
        decreases dirs@.len() - i,
    {
        steps.push(Step::Open { path: dirs[i].copy(), how });
        i += 1;
    }
    assert(steps_view(steps@) =~= opens(path_texts(dirs@), how));
    steps
}

fn close_each(tree: &mut Tree, dirs: &Vec<Path>)
    ensures
        final(tree)@ == (TreeView {
            root: closed_each(old(tree)@.root, path_texts(dirs@)),
            ..old(tree)@
        }),
{
    let ghost ts = path_texts(dirs@);
    let ghost start = *tree;
    let mut i: usize = 0;
    assert(start@.root == closed_each(start@.root, ts.take(0)));
    while i < dirs.len()
        invariant
            i <= dirs@.len(),
            ts == path_texts(dirs@),
            tree@ == (TreeView {
                root: closed_each(start@.root, ts.take(i as int)),
                ..start@
            }),
        decreases dirs@.len() - i,
    {
        proof {
            assert(ts.take(i + 1).drop_last() =~= ts.take(i as int));
            assert(ts.take(i + 1).last() == dirs@[i as int]@);
        }
        tree.collapse(&dirs[i]);
        i += 1;
    }
    assert(ts.take(i as int) =~= ts);
}

/// The part of `upward` from a depth on.
spec fn upward_from(root: Seq<Seq<u8>>, t: Seq<Seq<u8>>, n: int) -> Set<Seq<Seq<u8>>> {
    Set::new(
        |k: Seq<Seq<u8>>| k == t || (root.is_prefix_of(k) && lies_above(k, t) && n <= k.len()),
    )
}

proof fn lemma_upward_end(root: Seq<Seq<u8>>, t: Seq<Seq<u8>>, n: int)
    requires
        0 <= n <= t.len(),
        n == 0 || t.take(n) == root || !root.is_prefix_of(t.take(n - 1)) || (n == 1 && t[0]
            == root_comp()),
    ensures
        upward_from(root, t, n) == upward(root, t),
{
    assert forall|k: Seq<Seq<u8>>| upward_from(root, t, n).contains(k) == upward(
        root,
        t,
    ).contains(k) by {
        if root.is_prefix_of(k) && lies_above(k, t) && k.len() < n {
            assert(k =~= t.take(k.len() as int));
            if t.take(n) == root {
                assert(root.len() <= k.len());
            } else if !root.is_prefix_of(t.take(n - 1)) {
                assert(root =~= t.take(n - 1).take(root.len() as int));
                assert(root.is_prefix_of(t.take(n - 1)));
            }
        }
    }
    assert(upward_from(root, t, n) =~= upward(root, t));
}

proof fn lemma_upward_step(root: Seq<Seq<u8>>, t: Seq<Seq<u8>>, n: int)
    requires
        0 < n <= t.len(),
        root.is_prefix_of(t.take(n - 1)),
        n > 1 || t[0] != root_comp(),
    ensures
        upward_from(root, t, n - 1) == upward_from(root, t, n).insert(t.take(n - 1)),
{
    let up = t.take(n - 1);
    assert forall|k: Seq<Seq<u8>>| upward_from(root, t, n - 1).contains(k) == upward_from(
        root,
        t,
        n,
    ).insert(up).contains(k) by {
        if root.is_prefix_of(k) && k.is_prefix_of(t) && k.len() == n - 1 {
            assert(k =~= up);
        }
        if k == up {
            assert(up.is_prefix_of(t));
        }
    }
    assert(upward_from(root, t, n - 1) =~= upward_from(root, t, n).insert(up));
}

/// What the directory above one at a depth is.
proof fn lemma_above_depth(t: Seq<Seq<u8>>, n: int, cur: Seq<u8>)
    requires
        0 <= n <= t.len(),
        comps(cur) == t.take(n),
    ensures
        parent_text(cur) is Some ==> n > 0 && comps(parent_text(cur)->0) == t.take(n - 1) && (n > 1
            || t[0] != root_comp()),
        parent_text(cur) is None ==> n == 0 || (n == 1 && t[0] == root_comp()),
{
    lemma_parent(cur);
    assert(comps(cur).len() == n);
    if parent_text(cur) is Some {
        assert(t.take(n).drop_last() =~= t.take(n - 1));
        if n == 1 && t[0] == root_comp() {
            assert(comps(cur) =~= seq![root_comp()]);
        }
    } else if n > 0 {
        assert(comps(cur) == seq![root_comp()]);
        assert(t.take(n)[0] == t[0]);
    }
}

/// Takes a path, and the directories above it up to the root, out of a set.
fn disown_upward(set: &mut PathSet, root: &Path, path: &Path)
    ensures
        final(set).texts() == old(set).texts().remove_keys(upward(root.comps(), path.comps())),
{
    let ghost start = set.texts();
    let ghost t = path.comps();
    let ghost r = root.comps();
    let _was = set.remove(path);
    let mut cur = path.parent();
    let ghost mut n: int = t.len() as int;
    proof {
        assert(t.take(n) =~= t);
        lemma_above_depth(t, n, path@);
        assert(set.texts() =~= start.remove_keys(upward_from(r, t, n))) by {
            assert forall|k: Seq<Seq<u8>>| upward_from(r, t, n).contains(k) == (k == t) by {
                if k.is_prefix_of(t) && k.len() >= n {
                    assert(k =~= t);
                }
            }
        }
        if cur is None {
            lemma_upward_end(r, t, n);
        }
    }
    while cur.is_some()
        invariant
            t == path.comps(),
            r == root.comps(),
            0 <= n <= t.len(),
            cur is Some ==> n > 0 && comps(cur->0@) == t.take(n - 1) && (n > 1 || t[0]
                != root_comp()) && set.texts() == start.remove_keys(upward_from(r, t, n)),
            cur is None ==> set.texts() == start.remove_keys(upward(r, t)),
        decreases
                n + if cur is Some {
                    1int
                } else {
                    0int
                },
    {
        let up = match cur {
            Some(p) => p,
            None => Path::empty(),
        };
        if !up.starts_with(root) {
            cur = None;
            proof {
                lemma_upward_end(r, t, n);
            }
        } else {
            let _was = set.remove(&up);
            proof {
                lemma_upward_step(r, t, n);
                assert(set.texts() =~= start.remove_keys(upward_from(r, t, n - 1)));
                n = n - 1;
                lemma_above_depth(t, n, up@);
            }
            if up.same(root) {
                cur = None;
                proof {
                    lemma_upward_end(r, t, n);
                }
            } else {
                cur = up.parent();
                proof {
                    if cur is None {
                        lemma_upward_end(r, t, n);
                    }
                }
            }
        }
    }
}

impl App {
    /// Lets a walk read its next directory.
    pub fn walk_on(&mut self, walk: FilterWalk, entries: Option<Vec<WalkEntry>>)
        requires
            old(self).wf(),
        ensures
            final(self).wf(),
            final(self)@ == old(self)@.walked_on(
                walk@,
                match entries {
                    Some(v) => Some(crate::filter::entries_view(v@)),
                    None => None,
                },
            ),
    {
        proof {
            reveal(AppView::walked_on);
            reveal(seen);
        }
        let mut walk = walk;
        let rules = WalkRules {
            show_folders: self.config.live_filter_show_folders,
            prune: self.git.toplevel.is_none(),
            statuses: &self.git.statuses,
            exclude: &self.config.exclude,
        };
        assert(rules@ =~= self@.walk_rules());
        walk.read(entries, &rules, &mut self.matcher);
        self.plan_one(Step::Walk(walk));
    }

    /// Takes note of what a walk came to.
    pub fn walk_done(&mut self, walk: FilterWalk)
        requires
            old(self).wf(),
        ensures
            final(self).wf(),
            final(self)@ == old(self)@.walked(walk@),
    {
        proof {
            reveal(AppView::walked);
            reveal(seen);
        }
        self.live_scan = Some(walk.finish());
    }

    /// Says what the filter has to say.
    fn notify_filter(&mut self)
        requires
            old(self).wf(),
            old(self)@.live_scan is Some,
        ensures
            final(self).wf(),
            final(self)@ == old(self)@.filter_notice(old(self)@.live_scan->0),
    {
        proof {
            reveal(seen);
        }
        let (truncated, dirs): (bool, usize) = match &self.live_scan {
            Some(scan) => (scan.truncated, scan.expand.len()),
            None => (false, 0),
        };
        if truncated {
            self.set_status("filter: tree too large, results incomplete".to_owned());
        } else if dirs > FILTER_EXPAND_CAP {
            let n = decimal(dirs as u64);
            self.set_status(
                join3("filter: matches in ", n.as_str(), " dirs — type more to narrow"),
            );
        } else {
            self.clear_status();
        }
    }

    /// The directories that the filter opens.
    fn dirs_to_open(&self) -> (r: Vec<Path>)
        requires
            self@.live_scan is Some,
        ensures
            path_texts(r@) == self@.filter_opens(self@.live_scan->0),
    {
        proof {
            reveal(seen);
        }
        match &self.live_scan {
            Some(scan) => {
                if scan.expand.len() > FILTER_EXPAND_CAP {
                    let none: Vec<Path> = Vec::new();
                    assert(path_texts(none@) =~= Seq::empty());
                    none
                } else {
                    let already = self.tree.collect_expanded();
                    leave_out(&scan.expand, &already)
                }
            },
            None => Vec::new(),
        }
    }

    /// Takes note of what the filter opens.
    fn claim_dirs(&mut self, dirs: &Vec<Path>)
        requires
            old(self).wf(),
        ensures
            final(self).wf(),
            final(self)@ == old(self)@.claiming(path_texts(dirs@)),
    {
        proof {
            reveal(seen);
        }
        claim(&mut self.filter_auto_expanded, dirs);
    }

    /// The steps that bring what the filter found into view.
    fn steps_to_narrow(&self, dirs: &Vec<Path>) -> (r: Vec<Step>)
        requires
            self@.live_scan is Some,
            path_texts(dirs@) == self@.filter_opens(self@.live_scan->0),
        ensures
            steps_view(r@) == self@.narrow_steps(self@.live_scan->0),
    {
        proof {
            reveal(seen);
        }
        let count: usize = match &self.live_scan {
            Some(scan) => scan.expand.len(),
            None => 0,
        };
        let sel = self.selected_path();
        let mut steps = open_steps(dirs, Opening::Chain);
        if count > 0 && count <= FILTER_EXPAND_CAP {
            steps.push(Step::Overlays);
        }
        steps.push(Step::Rows(sel));
        assert(steps_view(steps@) =~= self@.narrow_steps(self@.live_scan->0));
        steps
    }

    /// Brings what the filter found into view.
    fn narrow(&mut self)
        requires
            old(self).wf(),
            old(self)@.live_scan is Some,
        ensures
            final(self).wf(),
            final(self)@ == old(self)@.narrowed(old(self)@.live_scan->0),
    {
        proof {
            reveal(AppView::narrowed);
        }
        let dirs = self.dirs_to_open();
        let steps = self.steps_to_narrow(&dirs);
        self.notify_filter();
        self.claim_dirs(&dirs);
        self.plan(steps);
    }

    /// Lets the filter look before it goes on.
    fn walk_and_filter(&mut self)
        requires
            old(self).wf(),
            old(self)@.query() is Some,
        ensures
            final(self).wf(),
            final(self)@ == old(self)@.planned(
                seq![
                    StepView::Walk(old(self)@.walk_for(old(self)@.query()->0)),
                    StepView::Filtered,
                ],
            ),
    {
        let walk = self.walk_for();
        let mut steps: Vec<Step> = Vec::new();
        steps.push(Step::Walk(walk));
        steps.push(Step::Filtered);
        assert(steps_view(steps@) =~= seq![StepView::Walk(walk@), StepView::Filtered]);
        self.plan(steps);
    }

    /// Makes the filtered view anew.
    pub fn refresh_filtered_view(&mut self)
        requires
            old(self).wf(),
        ensures
            final(self).wf(),
            final(self)@ == old(self)@.filtered(),
    {
        proof {
            reveal(AppView::filtered);
            reveal(seen);
        }
        let empty = match &self.live_filter {
            Some(q) => q.as_str().is_empty(),
            None => {
                return;
            },
        };
        if empty {
            self.live_scan = None;
            self.plan_one(Step::RowsHere);
        } else if self.must_walk() {
            self.walk_and_filter();
        } else {
            self.narrow();
        }
    }

    /// Starts a filter.
    pub fn start_live_filter(&mut self)
        requires
            old(self).wf(),
        ensures
            final(self).wf(),
            final(self)@ == old(self)@.filter_started(),
    {
        proof {
            reveal(AppView::filter_started);
            reveal(seen);
        }
        let none = String::new();
        assert(none@ =~= Seq::empty());
        self.live_filter = Some(none);
        self.live_editing = true;
        self.filter_auto_expanded = PathSet::new();
        self.plan_one(Step::RowsHere);
    }

    /// Drops the filter, and closes what it opened.
    pub fn clear_live_filter(&mut self)
        requires
            old(self).wf(),
        ensures
            final(self).wf(),
            final(self)@ == old(self)@.filter_cleared(),
    {
        proof {
            reveal(AppView::filter_cleared);
            reveal(seen);
        }
        let dirs = deepest_first(&self.filter_auto_expanded);
        self.live_filter = None;
        self.live_editing = false;
        self.live_scan = None;
        self.filter_auto_expanded = PathSet::new();
        close_each(&mut self.tree, &dirs);
        self.apply_overlays();
    }

    /// Takes note that the user opened or closed a directory.
    pub fn note_user_expansion(&mut self, path: &Path)
        requires
            old(self).wf(),
        ensures
            final(self).wf(),
            final(self)@ == old(self)@.user_expanded(path@),
    {
        proof {
            reveal(AppView::user_expanded);
            reveal(seen);
        }
        if self.live_filter.is_none() {
            return;
        }
        disown_upward(&mut self.filter_auto_expanded, &self.tree.root.path, path);
    }
}

} // verus!
