//! Opening and closing directories, opening files, changing the root, and what
//! is shown.

use vstd::prelude::*;

use crate::app::live::{open_steps, opens};
use crate::app::state::{five_steps, four_steps, seen, steps_view, three_steps, two_steps};
use crate::app::state::{App, AppView, Effect, EffectView, Opening, Step, StepView, Toggles};
use crate::editor::OpenMode;
use crate::marks::toggled;
use crate::path::{comps, parent_text, Path};
use crate::paths::{listed, path_texts, PathSet};
use crate::text::join2;
use crate::tree::model::{all_closed, closed, open_at, with_open, TreeView};

verus! {

/// What can be left out of the view.
#[derive(Clone, Copy, Debug, PartialEq, Eq, Structural)]
pub enum Filter {
    Hidden,
    GitClean,
    Custom,
    NoBuffer,
    NoBookmark,
}

/// How a toggle is called.
pub open spec fn filter_label(f: Filter) -> Seq<char> {
    match f {
        Filter::Hidden => "hidden + ignored"@,
        Filter::GitClean => "git-clean (changed only)"@,
        Filter::Custom => "custom filter"@,
        Filter::NoBuffer => "open-files only"@,
        Filter::NoBookmark => "bookmarked only"@,
    }
}

/// How the state of a toggle is told.
pub open spec fn on_off(on: bool) -> Seq<char> {
    if on {
        ": on"@
    } else {
        ": off"@
    }
}

/// The toggles with one of them flipped.
pub open spec fn flipped_one(t: Toggles, f: Filter) -> Toggles {
    match f {
        Filter::Hidden => t,
        Filter::GitClean => Toggles { git_clean: !t.git_clean, ..t },
        Filter::Custom => Toggles { custom_active: !t.custom_active, ..t },
        Filter::NoBuffer => Toggles { no_buffer: !t.no_buffer, ..t },
        Filter::NoBookmark => Toggles { no_bookmark: !t.no_bookmark, ..t },
    }
}

/// Whether one of the toggles is on.
pub open spec fn toggle_on(t: Toggles, f: Filter) -> bool {
    match f {
        Filter::Hidden => false,
        Filter::GitClean => t.git_clean,
        Filter::Custom => t.custom_active,
        Filter::NoBuffer => t.no_buffer,
        Filter::NoBookmark => t.no_bookmark,
    }
}

/// What follows when the user has opened or closed a directory.
pub open spec fn after_toggle(p: Seq<u8>) -> Seq<StepView> {
    seq![StepView::Note(p), StepView::Overlays, StepView::Rows(Some(p))]
}

impl AppView {
    /// With a file as the one that is open in the editor.
    pub open spec fn editing(self, p: Seq<u8>) -> AppView {
        AppView { current_file: Some(p), opened: self.opened.insert(comps(p)), ..self }
    }

    /// With a directory closed.
    pub open spec fn tree_closed(self, p: Seq<u8>) -> AppView {
        AppView {
            tree: TreeView { root: closed(self.tree.root, comps(p)), ..self.tree },
            ..self
        }
    }

    /// With something handed out to be done.
    pub open spec fn doing(self, e: EffectView) -> AppView {
        self.planned(seq![StepView::Do(e)])
    }

    /// With a file opened in the editor.
    pub open spec fn file_opened(self, p: Seq<u8>, mode: OpenMode) -> AppView {
        self.editing(p).doing(EffectView::Open { path: p, mode })
    }

    /// After the row under the cursor was chosen: a directory is opened or
    /// closed, a file is opened in the editor.
    #[verifier::opaque]
    pub open spec fn chosen(self) -> AppView {
        match self.current() {
            Some(row) => if row.kind.spec_is_dir() {
                let s = AppView { reveal_children: !row.expanded, ..self };
                if open_at(self.tree.root, comps(row.path)) {
                    s.tree_closed(row.path).planned(after_toggle(row.path))
                } else {
                    s.planned(
                        seq![StepView::Open { path: row.path, how: Opening::Chain }]
                            + after_toggle(row.path),
                    )
                }
            } else {
                self.file_opened(row.path, OpenMode::Open)
            },
            None => self,
        }
    }

    /// With the file under the cursor opened in the editor.
    #[verifier::opaque]
    pub open spec fn opened_in(self, mode: OpenMode) -> AppView {
        match self.current() {
            Some(row) => if row.kind.spec_is_dir() {
                self
            } else {
                self.file_opened(row.path, mode)
            },
            None => self,
        }
    }

    /// With the file under the cursor shown in the editor.
    #[verifier::opaque]
    pub open spec fn previewed(self) -> AppView {
        match self.current() {
            Some(row) => if row.kind.spec_is_dir() {
                self
            } else {
                self.editing(row.path).doing(EffectView::Preview(row.path))
            },
            None => self,
        }
    }

    /// With the row under the cursor opened by the system.
    #[verifier::opaque]
    pub open spec fn system_opened(self) -> AppView {
        match self.current() {
            Some(row) => self.doing(EffectView::SystemOpen(row.path)),
            None => self,
        }
    }

    /// With the directory under the cursor opened; where it is open, the cursor
    /// goes into it.
    #[verifier::opaque]
    pub open spec fn unfolded(self) -> AppView {
        match self.current() {
            Some(row) => if row.kind.spec_is_dir() && !row.expanded {
                AppView { reveal_children: true, ..self }.planned(
                    seq![StepView::Open { path: row.path, how: Opening::Chain }] + after_toggle(
                        row.path,
                    ),
                )
            } else if row.kind.spec_is_dir() {
                self.moved(true)
            } else {
                self
            },
            None => self,
        }
    }

    /// With the directory under the cursor closed; where it is not open, the
    /// cursor goes to the directory above.
    #[verifier::opaque]
    pub open spec fn folded(self) -> AppView {
        match self.current() {
            Some(row) => if row.kind.spec_is_dir() && row.expanded {
                self.tree_closed(row.path).planned(
                    seq![StepView::Note(row.path), StepView::Rows(Some(row.path))],
                )
            } else {
                match parent_text(row.path) {
                    Some(up) => if comps(up) != comps(self.tree.root.path) {
                        self.on_path(up)
                    } else {
                        self
                    },
                    None => self,
                }
            },
            None => self,
        }
    }

    /// With the cursor on the directory above.
    #[verifier::opaque]
    pub open spec fn at_parent(self) -> AppView {
        match self.current() {
            Some(row) => match parent_text(row.path) {
                Some(up) => self.on_path(up),
                None => self,
            },
            None => self,
        }
    }

    /// On another directory. A filter does not come along.
    #[verifier::opaque]
    pub open spec fn rooted(self, p: Seq<u8>) -> AppView {
        AppView {
            live_filter: None,
            live_editing: false,
            live_scan: None,
            filter_auto_expanded: Map::empty(),
            ..self
        }.planned(
            seq![
                StepView::Root(p),
                StepView::Overlays,
                StepView::Rows(None),
                StepView::Top,
                StepView::Git,
            ],
        )
    }

    /// On the directory under the cursor.
    #[verifier::opaque]
    pub open spec fn cd_in(self) -> AppView {
        match self.current() {
            Some(row) => if row.kind.spec_is_dir() {
                self.rooted(row.dir_target())
            } else {
                self
            },
            None => self,
        }
    }

    /// On the directory above the root, with the cursor on what was the root.
    #[verifier::opaque]
    pub open spec fn cd_up(self) -> AppView {
        match parent_text(self.tree.root.path) {
            Some(up) => self.planned(seq![StepView::Select(self.tree.root.path)]).rooted(up),
            None => self,
        }
    }

    /// With everything opened.
    #[verifier::opaque]
    pub open spec fn all_unfolded(self) -> AppView {
        self.planned(
            seq![
                StepView::OpenAll(self.tree.root.path),
                StepView::Disown,
                StepView::Overlays,
                StepView::RowsHere,
            ],
        )
    }

    /// With everything closed.
    #[verifier::opaque]
    pub open spec fn all_folded(self) -> AppView {
        AppView {
            tree: TreeView { root: all_closed(self.tree.root), ..self.tree },
            filter_auto_expanded: Map::empty(),
            ..self
        }.planned(seq![StepView::RowsHere])
    }

    /// With one toggle flipped.
    pub open spec fn flipped(self, f: Filter) -> AppView {
        if f == Filter::Hidden {
            AppView {
                tree: TreeView {
                    show_hidden: !self.tree.show_hidden,
                    show_ignored: !self.tree.show_hidden,
                    ..self.tree
                },
                ..self
            }
        } else {
            AppView { toggles: flipped_one(self.toggles, f), ..self }
        }
    }

    /// Whether a toggle is on.
    pub open spec fn is_on(self, f: Filter) -> bool {
        if f == Filter::Hidden {
            self.tree.show_hidden
        } else {
            toggle_on(self.toggles, f)
        }
    }

    /// With one toggle flipped, and told so.
    #[verifier::opaque]
    pub open spec fn filter_toggled(self, f: Filter) -> AppView {
        self.flipped(f).said(filter_label(f) + on_off(!self.is_on(f))).planned(
            seq![StepView::RowsHere],
        )
    }

    /// With chains of folders drawn as one row, or no longer.
    pub open spec fn grouped(self) -> AppView {
        AppView {
            toggles: Toggles { group_empty: !self.toggles.group_empty, ..self.toggles },
            tree: TreeView { group_empty: !self.toggles.group_empty, ..self.tree },
            ..self
        }
    }

    /// With chains of folders drawn as one row, or no longer, and told so. Those
    /// that begin with an open directory are opened.
    #[verifier::opaque]
    pub open spec fn group_toggled(self) -> AppView {
        let on = !self.toggles.group_empty;
        self.grouped().said("group empty dirs"@ + on_off(on)).planned(
            (if on {
                opens(listed(with_open(self.tree.root, Map::empty())), Opening::Chain) + seq![
                    StepView::Overlays,
                ]
            } else {
                seq![]
            }) + seq![StepView::RowsHere],
        )
    }

    /// With the row under the cursor bookmarked, or no longer.
    #[verifier::opaque]
    pub open spec fn mark_toggled(self) -> AppView {
        match self.current() {
            Some(row) => {
                let word = if self.marks.contains_key(comps(row.path)) {
                    "removed bookmark: "@
                } else {
                    "added bookmark: "@
                };
                AppView { marks: toggled(self.marks, row.path), ..self }.said(
                    word + row.name,
                ).planned(seq![StepView::Save, StepView::Rows(Some(row.path))])
            },
            None => self,
        }
    }

    /// With the row under the cursor selected, or no longer, and the cursor one
    /// row further down.
    #[verifier::opaque]
    pub open spec fn select_toggled(self) -> AppView {
        match self.current() {
            Some(row) => AppView { selection: toggled(self.selection, row.path), ..self }.planned(
                seq![StepView::Rows(Some(row.path)), StepView::Down],
            ),
            None => self,
        }
    }

    /// What an operation is about: what is selected, or else the row under the
    /// cursor.
    pub open spec fn targets(self) -> Seq<Seq<u8>> {
        if self.selection.dom() == Set::<Seq<Seq<u8>>>::empty() {
            match self.selected_path() {
                Some(p) => seq![p],
                None => Seq::empty(),
            }
        } else {
            listed(self.selection)
        }
    }
}

fn label_of(f: Filter) -> (r: &'static str)
    ensures
        r@ == filter_label(f),
{
    match f {
        Filter::Hidden => "hidden + ignored",
        Filter::GitClean => "git-clean (changed only)",
        Filter::Custom => "custom filter",
        Filter::NoBuffer => "open-files only",
        Filter::NoBookmark => "bookmarked only",
    }
}

fn flip_one(t: Toggles, f: Filter) -> (r: (Toggles, bool))
    ensures
        r.0 == flipped_one(t, f),
        r.1 == !toggle_on(t, f),
{
    match f {
        Filter::Hidden => (t, true),
        Filter::GitClean => (Toggles { git_clean: !t.git_clean, ..t }, !t.git_clean),
        Filter::Custom => (Toggles { custom_active: !t.custom_active, ..t }, !t.custom_active),
        Filter::NoBuffer => (Toggles { no_buffer: !t.no_buffer, ..t }, !t.no_buffer),
        Filter::NoBookmark => (Toggles { no_bookmark: !t.no_bookmark, ..t }, !t.no_bookmark),
    }
}

fn state_of(on: bool) -> (r: &'static str)
    ensures
        r@ == on_off(on),
{
    if on {
        ": on"
    } else {
        ": off"
    }
}

impl App {
    /// Takes a file as the one that is open in the editor.
    pub fn mark_current(&mut self, path: &Path)
        requires
            old(self).wf(),
        ensures
            final(self).wf(),
            final(self)@ == old(self)@.editing(path@),
    {
        proof {
            reveal(seen);
        }
        self.current_file = Some(path.copy());
        let _fresh = self.opened.insert(path.copy());
    }

    fn close_dir(&mut self, path: &Path)
        requires
            old(self).wf(),
        ensures
            final(self).wf(),
            final(self)@ == old(self)@.tree_closed(path@),
    {
        proof {
            reveal(seen);
        }
        self.tree.collapse(path);
    }

    fn set_reveal_children(&mut self, yes: bool)
        requires
            old(self).wf(),
        ensures
            final(self).wf(),
            final(self)@ == (AppView { reveal_children: yes, ..old(self)@ }),
    {
        proof {
            reveal(seen);
        }
        self.reveal_children = yes;
    }

    fn open_file(&mut self, path: Path, mode: OpenMode)
        requires
            old(self).wf(),
        ensures
            final(self).wf(),
            final(self)@ == old(self)@.file_opened(path@, mode),
    {
        self.mark_current(&path);
        self.plan_one(Step::Do(Effect::Open { path, mode }));
    }

    fn dir_is_open(&self, path: &Path) -> (r: bool)
        ensures
            r == open_at(self@.tree.root, path.comps()),
    {
        proof {
            reveal(seen);
        }
        self.tree.is_open(path)
    }

    /// Opens a directory, and what follows.
    fn plan_open(&mut self, path: &Path)
        requires
            old(self).wf(),
        ensures
            final(self).wf(),
            final(self)@ == old(self)@.planned(
                seq![StepView::Open { path: path@, how: Opening::Chain }] + after_toggle(path@),
            ),
    {
        let steps = four_steps(
            Step::Open { path: path.copy(), how: Opening::Chain },
            Step::Note(path.copy()),
            Step::Overlays,
            Step::Rows(Some(path.copy())),
        );
        assert(steps_view(steps@) =~= seq![
            StepView::Open { path: path@, how: Opening::Chain },
        ] + after_toggle(path@));
        self.plan(steps);
    }

    /// Chooses the row under the cursor.
    pub fn open_or_toggle(&mut self)
        requires
            old(self).wf(),
        ensures
            final(self).wf(),
            final(self)@ == old(self)@.chosen(),
    {
        proof {
            reveal(AppView::chosen);
        }
        let (path, is_dir, expanded) = match self.current_row() {
            Some(row) => (row.path.copy(), row.kind.is_dir(), row.expanded),
            None => {
                return;
            },
        };
        if !is_dir {
            self.open_file(path, OpenMode::Open);
            return;
        }
        let open = self.dir_is_open(&path);
        self.set_reveal_children(!expanded);
        if open {
            self.close_dir(&path);
            self.plan(
                three_steps(
                    Step::Note(path.copy()),
                    Step::Overlays,
                    Step::Rows(Some(path.copy())),
                ),
            );
        } else {
            self.plan_open(&path);
        }
    }

    /// Opens the file under the cursor in the editor.
    pub fn open_mode(&mut self, mode: OpenMode)
        requires
            old(self).wf(),
        ensures
            final(self).wf(),
            final(self)@ == old(self)@.opened_in(mode),
    {
        proof {
            reveal(AppView::opened_in);
        }
        let path = match self.current_row() {
            Some(row) => if row.kind.is_dir() {
                return;
            } else {
                row.path.copy()
            },
            None => {
                return;
            },
        };
        self.open_file(path, mode);
    }

    /// Shows the file under the cursor in the editor.
    pub fn preview(&mut self)
        requires
            old(self).wf(),
        ensures
            final(self).wf(),
            final(self)@ == old(self)@.previewed(),
    {
        proof {
            reveal(AppView::previewed);
        }
        let path = match self.current_row() {
            Some(row) => if row.kind.is_dir() {
                return;
            } else {
                row.path.copy()
            },
            None => {
                return;
            },
        };
        self.mark_current(&path);
        self.plan_one(Step::Do(Effect::Preview(path)));
    }

    /// Lets the system open the row under the cursor.
    pub fn system_open(&mut self)
        requires
            old(self).wf(),
        ensures
            final(self).wf(),
            final(self)@ == old(self)@.system_opened(),
    {
        proof {
            reveal(AppView::system_opened);
        }
        let path = match self.selected_path() {
            Some(p) => p,
            None => {
                return;
            },
        };
        self.plan_one(Step::Do(Effect::SystemOpen(path)));
    }

    /// Opens the directory under the cursor, or goes into it.
    pub fn expand_current(&mut self)
        requires
            old(self).wf(),
        ensures
            final(self).wf(),
            final(self)@ == old(self)@.unfolded(),
    {
        proof {
            reveal(AppView::unfolded);
        }
        let (path, is_dir, expanded) = match self.current_row() {
            Some(row) => (row.path.copy(), row.kind.is_dir(), row.expanded),
            None => {
                return;
            },
        };
        if is_dir && !expanded {
            self.set_reveal_children(true);
            self.plan_open(&path);
        } else if is_dir {
            self.move_selection(true);
        }
    }

    fn is_root(&self, path: &Path) -> (r: bool)
        ensures
            r == (path.comps() == comps(self@.tree.root.path)),
    {
        proof {
            reveal(seen);
        }
        path.same(&self.tree.root.path)
    }

    /// Closes the directory under the cursor, or goes to the one above.
    pub fn collapse_or_parent(&mut self)
        requires
            old(self).wf(),
        ensures
            final(self).wf(),
            final(self)@ == old(self)@.folded(),
    {
        proof {
            reveal(AppView::folded);
        }
        let (path, is_dir, expanded) = match self.current_row() {
            Some(row) => (row.path.copy(), row.kind.is_dir(), row.expanded),
            None => {
                return;
            },
        };
        if is_dir && expanded {
            self.close_dir(&path);
            self.plan(two_steps(Step::Note(path.copy()), Step::Rows(Some(path.copy()))));
        } else if let Some(up) = path.parent() {
            if !self.is_root(&up) {
                self.select_path(&up);
            }
        }
    }

    /// Puts the cursor on the directory above.
    pub fn cursor_parent(&mut self)
        requires
            old(self).wf(),
        ensures
            final(self).wf(),
            final(self)@ == old(self)@.at_parent(),
    {
        proof {
            reveal(AppView::at_parent);
        }
        let path = match self.selected_path() {
            Some(p) => p,
            None => {
                return;
            },
        };
        if let Some(up) = path.parent() {
            self.select_path(&up);
        }
    }

    fn drop_filter(&mut self)
        requires
            old(self).wf(),
        ensures
            final(self).wf(),
            final(self)@ == (AppView {
                live_filter: None,
                live_editing: false,
                live_scan: None,
                filter_auto_expanded: Map::empty(),
                ..old(self)@
            }),
    {
        proof {
            reveal(seen);
        }
        self.live_filter = None;
        self.live_editing = false;
        self.live_scan = None;
        self.filter_auto_expanded = PathSet::new();
    }

    /// Goes to another directory.
    pub fn set_root(&mut self, path: Path)
        requires
            old(self).wf(),
        ensures
            final(self).wf(),
            final(self)@ == old(self)@.rooted(path@),
    {
        proof {
            reveal(AppView::rooted);
        }
        self.drop_filter();
        self.plan(
            five_steps(Step::Root(path), Step::Overlays, Step::Rows(None), Step::Top, Step::Git),
        );
    }

    /// Goes into the directory under the cursor.
    pub fn cd_into(&mut self)
        requires
            old(self).wf(),
        ensures
            final(self).wf(),
            final(self)@ == old(self)@.cd_in(),
    {
        proof {
            reveal(AppView::cd_in);
        }
        let path = match self.current_row() {
            Some(row) => if row.kind.is_dir() {
                row.dir_target().copy()
            } else {
                return;
            },
            None => {
                return;
            },
        };
        self.set_root(path);
    }

    /// The root.
    pub fn root_path(&self) -> (r: Path)
        ensures
            r@ == self@.tree.root.path,
    {
        proof {
            reveal(seen);
        }
        self.tree.root.path.copy()
    }

    /// Goes to the directory above the root.
    pub fn root_parent(&mut self)
        requires
            old(self).wf(),
        ensures
            final(self).wf(),
            final(self)@ == old(self)@.cd_up(),
    {
        proof {
            reveal(AppView::cd_up);
        }
        let root = self.root_path();
        if let Some(up) = root.parent() {
            self.plan_one(Step::Select(root));
            self.set_root(up);
        }
    }

    /// Opens everything.
    pub fn expand_all(&mut self)
        requires
            old(self).wf(),
        ensures
            final(self).wf(),
            final(self)@ == old(self)@.all_unfolded(),
    {
        proof {
            reveal(AppView::all_unfolded);
        }
        let root = self.root_path();
        self.plan(four_steps(Step::OpenAll(root), Step::Disown, Step::Overlays, Step::RowsHere));
    }

    fn fold_tree(&mut self)
        requires
            old(self).wf(),
        ensures
            final(self).wf(),
            final(self)@ == (AppView {
                tree: TreeView { root: all_closed(old(self)@.tree.root), ..old(self)@.tree },
                filter_auto_expanded: Map::empty(),
                ..old(self)@
            }),
    {
        proof {
            reveal(seen);
        }
        self.tree.collapse_all();
        self.filter_auto_expanded = PathSet::new();
    }

    /// Closes everything.
    pub fn collapse_all(&mut self)
        requires
            old(self).wf(),
        ensures
            final(self).wf(),
            final(self)@ == old(self)@.all_folded(),
    {
        proof {
            reveal(AppView::all_folded);
        }
        self.fold_tree();
        self.plan_one(Step::RowsHere);
    }

    fn flip_hidden(&mut self) -> (on: bool)
        requires
            old(self).wf(),
        ensures
            final(self).wf(),
            final(self)@ == old(self)@.flipped(Filter::Hidden),
            on == !old(self)@.is_on(Filter::Hidden),
    {
        proof {
            reveal(seen);
        }
        let show = !self.tree.show_hidden;
        self.tree.show_hidden = show;
        self.tree.show_ignored = show;
        show
    }

    fn flip_toggle(&mut self, f: Filter) -> (on: bool)
        requires
            old(self).wf(),
            f != Filter::Hidden,
        ensures
            final(self).wf(),
            final(self)@ == old(self)@.flipped(f),
            on == !old(self)@.is_on(f),
    {
        proof {
            reveal(seen);
        }
        let t = self.toggles;
        let (next, on) = flip_one(t, f);
        self.toggles = next;
        on
    }

    /// Flips a toggle.
    pub fn toggle_filter(&mut self, f: Filter)
        requires
            old(self).wf(),
        ensures
            final(self).wf(),
            final(self)@ == old(self)@.filter_toggled(f),
    {
        proof {
            reveal(AppView::filter_toggled);
        }
        let on = if f == Filter::Hidden {
            self.flip_hidden()
        } else {
            self.flip_toggle(f)
        };
        self.set_status(join2(label_of(f), state_of(on)));
        self.plan_one(Step::RowsHere);
    }

    fn group(&mut self) -> (on: bool)
        requires
            old(self).wf(),
        ensures
            final(self).wf(),
            final(self)@ == old(self)@.grouped(),
            on == !old(self)@.toggles.group_empty,
    {
        proof {
            reveal(seen);
        }
        let on = !self.toggles.group_empty;
        self.toggles.group_empty = on;
        self.tree.group_empty = on;
        on
    }

    fn expanded_dirs(&self) -> (r: Vec<Path>)
        ensures
            path_texts(r@) == listed(with_open(self@.tree.root, Map::empty())),
    {
        proof {
            reveal(seen);
        }
        self.tree.collect_expanded().list()
    }

    /// Draws chains of folders as one row, or no longer.
    pub fn toggle_group_empty(&mut self)
        requires
            old(self).wf(),
        ensures
            final(self).wf(),
            final(self)@ == old(self)@.group_toggled(),
    {
        proof {
            reveal(AppView::group_toggled);
        }
        let dirs = self.expanded_dirs();
        let on = self.group();
        self.set_status(join2("group empty dirs", state_of(on)));
        if on {
            let mut steps = open_steps(&dirs, Opening::Chain);
            let ghost held = steps@;
            steps.push(Step::Overlays);
            steps.push(Step::RowsHere);
            assert(steps_view(steps@) =~= steps_view(held) + seq![StepView::Overlays] + seq![
                StepView::RowsHere,
            ]);
            self.plan(steps);
        } else {
            assert(Seq::<StepView>::empty() + seq![StepView::RowsHere] =~= seq![
                StepView::RowsHere,
            ]);
            self.plan_one(Step::RowsHere);
        }
    }

    fn toggle_bookmark(&mut self, path: &Path) -> (now: bool)
        requires
            old(self).wf(),
        ensures
            final(self).wf(),
            final(self)@ == (AppView { marks: toggled(old(self)@.marks, path@), ..old(self)@ }),
            now == !old(self)@.marks.contains_key(path.comps()),
    {
        proof {
            reveal(seen);
        }
        self.marks.toggle(path)
    }

    /// Bookmarks the row under the cursor, or takes its bookmark away.
    pub fn toggle_mark(&mut self)
        requires
            old(self).wf(),
        ensures
            final(self).wf(),
            final(self)@ == old(self)@.mark_toggled(),
    {
        proof {
            reveal(AppView::mark_toggled);
        }
        let (path, name) = match self.current_row() {
            Some(row) => (row.path.copy(), row.name.clone()),
            None => {
                return;
            },
        };
        let now = self.toggle_bookmark(&path);
        let word = if now {
            "added bookmark: "
        } else {
            "removed bookmark: "
        };
        self.set_status(join2(word, name.as_str()));
        self.plan(two_steps(Step::Save, Step::Rows(Some(path))));
    }

    fn toggle_selected(&mut self, path: &Path)
        requires
            old(self).wf(),
        ensures
            final(self).wf(),
            final(self)@ == (AppView {
                selection: toggled(old(self)@.selection, path@),
                ..old(self)@
            }),
    {
        proof {
            reveal(seen);
        }
        if !self.selection.insert(path.copy()) {
            let _was = self.selection.remove(path);
        }
    }

    /// Selects the row under the cursor, or takes it out of the selection.
    pub fn toggle_select(&mut self)
        requires
            old(self).wf(),
        ensures
            final(self).wf(),
            final(self)@ == old(self)@.select_toggled(),
    {
        proof {
            reveal(AppView::select_toggled);
        }
        let path = match self.selected_path() {
            Some(p) => p,
            None => {
                return;
            },
        };
        self.toggle_selected(&path);
        self.plan(two_steps(Step::Rows(Some(path)), Step::Down));
    }

    /// What an operation is about.
    pub fn op_targets(&self) -> (r: Vec<Path>)
        ensures
            path_texts(r@) == self@.targets(),
    {
        proof {
            reveal(seen);
        }
        if !self.selection.is_empty() {
            return self.selection.list();
        }
        let mut v: Vec<Path> = Vec::new();
        if let Some(p) = self.selected_path() {
            v.push(p);
        }
        assert(path_texts(v@) =~= self@.targets());
        v
    }
}

} // verus!
