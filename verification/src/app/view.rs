//! The rows on the screen: how they are made, and where the cursor ends up.

use vstd::prelude::*;

use crate::app::select::{place_of, row_place};
use crate::app::state::{seen, steps_view, App, AppView, ListState, Step, StepView};
use crate::filter::{add_between, between, new_walk, still_holds, FilterWalk, WalkView};
use crate::path::{comps, lemma_parent, parent_text, Path};
use crate::paths::{comps_of, ordered, PathSet};
use crate::text::views;
use crate::tree::model::{with_diag, with_status, TreeView};
use crate::tree::node::path_view;
use crate::tree::rows::{flat, rows_view, sets_view, OptionsView, Row, RowView, ViewOptions};

verus! {

/// Some paths below a root, and the directories between it and them.
pub open spec fn with_above(base: Set<Seq<Seq<u8>>>, root: Seq<Seq<u8>>) -> Set<Seq<Seq<u8>>> {
    Set::new(
        |k: Seq<Seq<u8>>|
            exists|b: Seq<Seq<u8>>| #[trigger]
                base.contains(b) && root.is_prefix_of(b) && (k == b || between(root, b).contains(
                    k,
                )),
    )
}

/// The row of a path, or of the nearest directory above it that has one, as far
/// as the root.
pub open spec fn near_row(rows: Seq<RowView>, root: Seq<Seq<u8>>, t: Seq<u8>) -> Option<int>
    decreases comps(t).len(),
{
    let i = row_place(rows, comps(t));
    if i < rows.len() {
        Some(i)
    } else {
        match parent_text(t) {
            Some(up) => {
                proof {
                    lemma_parent(t);
                }
                if root.is_prefix_of(comps(up)) {
                    near_row(rows, root, up)
                } else {
                    None
                }
            },
            None => None,
        }
    }
}

/// The row that the cursor lands on: that of a path or near it, if a path is
/// given, and otherwise the one that it was on, or the last.
pub open spec fn landing_row(
    rows: Seq<RowView>,
    root: Seq<Seq<u8>>,
    preserve: Option<Seq<u8>>,
    cursor: int,
) -> Option<usize> {
    let near = match preserve {
        Some(p) => near_row(rows, root, p),
        None => None,
    };
    let wanted = match near {
        Some(i) => i,
        None => cursor,
    };
    if rows.len() == 0 {
        None
    } else if wanted < rows.len() {
        Some(wanted as usize)
    } else {
        Some((rows.len() - 1) as usize)
    }
}

impl AppView {
    /// What is filtered for, if it is anything.
    pub open spec fn query(self) -> Option<Seq<char>> {
        match self.live_filter {
            Some(q) => if q.len() > 0 {
                Some(q)
            } else {
                None
            },
            None => None,
        }
    }

    /// Whether what the filter found is what a query asks for.
    pub open spec fn scan_holds(self, q: Seq<char>) -> bool {
        self.live_scan is Some && still_holds(
            self.live_scan->0,
            q,
            self.tree.root.path,
            self.tree.show_hidden,
            self.tree.show_ignored,
            self.toggles.custom_active,
        )
    }

    /// Whether the tree on disk has to be walked before the rows can be made.
    pub open spec fn must_walk(self) -> bool {
        self.query() is Some && !self.scan_holds(self.query()->0)
    }

    /// The walk for a query.
    pub open spec fn walk_for(self, q: Seq<char>) -> WalkView {
        new_walk(
            q,
            self.tree.root.path,
            self.tree.show_hidden,
            self.tree.show_ignored,
            self.toggles.custom_active,
        )
    }

    /// The sets that a row has to be in.
    pub open spec fn restricts(self) -> Seq<Set<Seq<Seq<u8>>>> {
        let root = comps(self.tree.root.path);
        (if self.query() is Some && self.live_scan is Some {
            seq![self.live_scan->0.visible]
        } else {
            Seq::empty()
        }) + (if self.toggles.no_bookmark {
            seq![with_above(self.marks.dom(), root)]
        } else {
            Seq::empty()
        }) + if self.toggles.no_buffer {
            seq![with_above(self.opened, root)]
        } else {
            Seq::empty()
        }
    }

    /// What is shown.
    pub open spec fn options(self) -> OptionsView {
        OptionsView {
            show_hidden: self.tree.show_hidden,
            show_ignored: self.tree.show_ignored,
            git_clean: self.toggles.git_clean,
            group_empty: self.toggles.group_empty,
            sort: self.toggles.sort,
            files_first: self.toggles.files_first,
            exclude: views(self.config.exclude@),
            custom_active: self.toggles.custom_active,
            restricts: self.restricts(),
        }
    }

    /// With some rows, the cursor on or near a path if that is given, and
    /// otherwise where it was, as far as there are rows.
    pub open spec fn shown(self, rows: Seq<RowView>, preserve: Option<Seq<u8>>) -> AppView {
        AppView {
            rows,
            list: ListState {
                selected: landing_row(
                    rows,
                    comps(self.tree.root.path),
                    preserve,
                    self.cursor(),
                ),
                ..self.list
            },
            ..self
        }
    }

    /// With the rows made anew. Where the filter has not looked yet, it does so
    /// first.
    #[verifier::opaque]
    pub open spec fn rows_made(self, preserve: Option<Seq<u8>>) -> AppView {
        if self.must_walk() {
            self.planned(
                seq![StepView::Walk(self.walk_for(self.query()->0)), StepView::Rows(preserve)],
            )
        } else {
            self.shown(flat(self.tree.root, self.options()), preserve)
        }
    }

    /// With the statuses and the diagnostics laid over the tree.
    #[verifier::opaque]
    pub open spec fn overlaid(self) -> AppView {
        AppView {
            tree: TreeView {
                root: with_diag(
                    with_status(self.tree.root, self.git.statuses),
                    self.diagnostics,
                    self.diagnostics_mode,
                ),
                ..self.tree
            },
            ..self
        }
    }
}

/// Some paths below a root, and the directories between it and them.
pub fn with_ancestors(base: &PathSet, root: &Path) -> (r: PathSet)
    ensures
        r@ == with_above(base@, root.comps()),
{
    let all = base.list();
    let ghost ks = ordered(base@);
    let ghost rt = root.comps();
    let mut set = PathSet::new();
    let mut i: usize = 0;
    while i < all.len()
        invariant
            i <= all@.len(),
            ks == comps_of(all@),
            rt == root.comps(),
            forall|k: Seq<Seq<u8>>|
                #![trigger set@.contains(k)]
                set@.contains(k) <==> exists|j: int|
                    0 <= j < i && rt.is_prefix_of(#[trigger] ks[j]) && (k == ks[j] || between(
                        rt,
                        ks[j],
                    ).contains(k)),
        decreases all@.len() - i,
    {
        let ghost held = set@;
        assert(ks[i as int] == all@[i as int].comps());
        if all[i].starts_with(root) {
            let _fresh = set.insert(all[i].copy());
            add_between(&mut set, root, &all[i]);
        }
        proof {
            assert forall|k: Seq<Seq<u8>>|
                #![trigger set@.contains(k)]
                set@.contains(k) <==> exists|j: int|
                    0 <= j < i + 1 && rt.is_prefix_of(#[trigger] ks[j]) && (k == ks[j] || between(
                        rt,
                        ks[j],
                    ).contains(k)) by {
                assert(held.contains(k) || !held.contains(k));
                if exists|j: int|
                    0 <= j < i + 1 && rt.is_prefix_of(#[trigger] ks[j]) && (k == ks[j] || between(
                        rt,
                        ks[j],
                    ).contains(k)) {
                    let j = choose|j: int|
                        0 <= j < i + 1 && rt.is_prefix_of(#[trigger] ks[j]) && (k == ks[j]
                            || between(rt, ks[j]).contains(k));
                    if j < i {
                        assert(held.contains(k));
                    }
                }
                if held.contains(k) {
                    let j = choose|j: int|
                        0 <= j < i && rt.is_prefix_of(#[trigger] ks[j]) && (k == ks[j] || between(
                            rt,
                            ks[j],
                        ).contains(k));
                    assert(0 <= j < i + 1);
                }
                if rt.is_prefix_of(ks[i as int]) && (k == ks[i as int] || between(
                    rt,
                    ks[i as int],
                ).contains(k)) {
                    assert(set@.contains(k));
                }
            }
        }
        i += 1;
    }
    proof {
        assert forall|k: Seq<Seq<u8>>| #[trigger] set@.contains(k) == with_above(
            base@,
            rt,
        ).contains(k) by {
            if set@.contains(k) {
                let j = choose|j: int|
                    0 <= j < i && rt.is_prefix_of(#[trigger] ks[j]) && (k == ks[j] || between(
                        rt,
                        ks[j],
                    ).contains(k));
                assert(ks.contains(ks[j]));
                assert(base@.contains(ks[j]));
            }
            if with_above(base@, rt).contains(k) {
                let b = choose|b: Seq<Seq<u8>>| #[trigger]
                    base@.contains(b) && rt.is_prefix_of(b) && (k == b || between(
                        rt,
                        b,
                    ).contains(k));
                assert(ks.contains(b));
                let j = choose|j: int| 0 <= j < ks.len() && ks[j] == b;
                assert(rt.is_prefix_of(ks[j]));
            }
        }
        assert(set@ =~= with_above(base@, rt));
    }
    set
}

/// The row of a path, or of the nearest directory above it that has one.
pub fn row_index_for(rows: &Vec<Row>, root: &Path, path: &Path) -> (r: Option<usize>)
    ensures
        match r {
            Some(i) => i < rows@.len() && near_row(rows_view(rows@), root.comps(), path@) == Some(
                i as int,
            ),
            None => near_row(rows_view(rows@), root.comps(), path@) is None,
        },
{
    let mut cur = path.copy();
    let ghost whole = near_row(rows_view(rows@), root.comps(), path@);
    let ghost mut n: nat = comps(cur@).len();
    loop
        invariant
            whole == near_row(rows_view(rows@), root.comps(), path@),
            whole == near_row(rows_view(rows@), root.comps(), cur@),
            n == comps(cur@).len(),
        decreases n,
    {
        if let Some(i) = place_of(rows, &cur) {
            return Some(i);
        }
        proof {
            lemma_parent(cur@);
        }
        match cur.parent() {
            Some(up) => {
                if !up.starts_with(root) {
                    return None;
                }
                cur = up;
                proof {
                    n = comps(cur@).len();
                }
            },
            None => {
                return None;
            },
        }
    }
}

/// The row that the cursor lands on.
pub fn landing(rows: &Vec<Row>, root: &Path, preserve: &Option<Path>, cursor: usize) -> (r: Option<
    usize,
>)
    ensures
        r == landing_row(rows_view(rows@), root.comps(), path_view(*preserve), cursor as int),
        r is Some ==> r->0 < rows@.len(),
{
    let n: usize = rows.len();
    let near: Option<usize> = match preserve {
        Some(p) => row_index_for(rows, root, p),
        None => None,
    };
    let wanted: usize = match near {
        Some(i) => i,
        None => cursor,
    };
    if n == 0 {
        None
    } else if wanted < n {
        Some(wanted)
    } else {
        Some(n - 1)
    }
}

impl App {
    /// Whether the tree on disk has to be walked before the rows can be made.
    pub fn must_walk(&self) -> (r: bool)
        ensures
            r == self@.must_walk(),
    {
        proof {
            reveal(seen);
        }
        match &self.live_filter {
            Some(q) => if q.as_str().is_empty() {
                false
            } else {
                match &self.live_scan {
                    Some(scan) => !scan.holds(
                        q.as_str(),
                        &self.tree.root.path,
                        self.tree.show_hidden,
                        self.tree.show_ignored,
                        self.toggles.custom_active,
                    ),
                    None => true,
                }
            },
            None => false,
        }
    }

    /// The walk for what is filtered for.
    pub fn walk_for(&self) -> (r: FilterWalk)
        requires
            self@.query() is Some,
        ensures
            r@ == self@.walk_for(self@.query()->0),
    {
        proof {
            reveal(seen);
        }
        match &self.live_filter {
            Some(q) => FilterWalk::new(
                q.as_str(),
                &self.tree.root.path,
                self.tree.show_hidden,
                self.tree.show_ignored,
                self.toggles.custom_active,
            ),
            None => FilterWalk::new("", &self.tree.root.path, false, false, false),
        }
    }

    /// The sets that a row has to be in.
    fn restrict_sets(&self) -> (r: Vec<PathSet>)
        ensures
            sets_view(r@) == self@.restricts(),
    {
        proof {
            reveal(seen);
        }
        let mut v: Vec<PathSet> = Vec::new();
        let filtering = match &self.live_filter {
            Some(q) => !q.as_str().is_empty(),
            None => false,
        };
        if filtering {
            if let Some(scan) = &self.live_scan {
                v.push(scan.visible.copy());
            }
        }
        if self.toggles.no_bookmark {
            v.push(with_ancestors(self.marks.all(), &self.tree.root.path));
        }
        if self.toggles.no_buffer {
            v.push(with_ancestors(&self.opened, &self.tree.root.path));
        }
        assert(sets_view(v@) =~= self@.restricts());
        v
    }

    /// What is shown.
    pub fn view_options(&self) -> (r: ViewOptions)
        ensures
            r@ == self@.options(),
    {
        proof {
            reveal(seen);
        }
        let mut exclude: Vec<String> = Vec::new();
        let mut i: usize = 0;
        while i < self.config.exclude.len()
            invariant
                i <= self.config.exclude@.len(),
                exclude@.len() == i,
                forall|k: int|
                    0 <= k < i ==> (#[trigger] exclude@[k])@ == self.config.exclude@[k]@,
            decreases self.config.exclude@.len() - i,
        {
            exclude.push(self.config.exclude[i].clone());
            i += 1;
        }
        assert(views(exclude@) =~= views(self.config.exclude@));
        ViewOptions {
            show_hidden: self.tree.show_hidden,
            show_ignored: self.tree.show_ignored,
            git_clean: self.toggles.git_clean,
            group_empty: self.toggles.group_empty,
            sort: self.toggles.sort,
            files_first: self.toggles.files_first,
            exclude,
            custom_active: self.toggles.custom_active,
            restricts: self.restrict_sets(),
        }
    }

    /// Shows some rows.
    fn show_rows(&mut self, rows: Vec<Row>, preserve: Option<Path>)
        requires
            old(self).wf(),
        ensures
            final(self).wf(),
            final(self)@ == old(self)@.shown(rows_view(rows@), path_view(preserve)),
    {
        proof {
            reveal(seen);
        }
        let cursor: usize = match self.list.selected {
            Some(i) => i,
            None => 0,
        };
        let selected = landing(&rows, &self.tree.root.path, &preserve, cursor);
        self.rows = rows;
        self.list = ListState { selected, offset: self.list.offset };
    }

    /// Lets the filter look before the rows are made.
    fn walk_first(&mut self, preserve: Option<Path>)
        requires
            old(self).wf(),
            old(self)@.query() is Some,
        ensures
            final(self).wf(),
            final(self)@ == old(self)@.planned(
                seq![
                    StepView::Walk(old(self)@.walk_for(old(self)@.query()->0)),
                    StepView::Rows(path_view(preserve)),
                ],
            ),
    {
        let walk = self.walk_for();
        let mut steps: Vec<Step> = Vec::new();
        steps.push(Step::Walk(walk));
        steps.push(Step::Rows(preserve));
        assert(steps_view(steps@) =~= seq![
            StepView::Walk(walk@),
            StepView::Rows(path_view(preserve)),
        ]);
        self.plan(steps);
    }

    /// Makes the rows anew. Where the filter has not looked yet, it does so
    /// first.
    pub fn refresh_rows(&mut self, preserve: Option<Path>)
        requires
            old(self).wf(),
        ensures
            final(self).wf(),
            final(self)@ == old(self)@.rows_made(path_view(preserve)),
    {
        proof {
            reveal(AppView::rows_made);
            reveal(seen);
        }
        if self.must_walk() {
            self.walk_first(preserve);
            return;
        }
        let opts = self.view_options();
        let rows = self.tree.flatten(&opts);
        self.show_rows(rows, preserve);
    }

    /// Lays the statuses and the diagnostics over the tree.
    pub fn apply_overlays(&mut self)
        requires
            old(self).wf(),
        ensures
            final(self).wf(),
            final(self)@ == old(self)@.overlaid(),
    {
        proof {
            reveal(AppView::overlaid);
            reveal(seen);
        }
        self.tree.apply_git(&self.git);
        self.tree.apply_diagnostics(&self.diagnostics, self.diagnostics_mode);
    }
}

} // verus!
