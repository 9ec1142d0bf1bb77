//! What is done to files: creating, renaming, removing, cutting, copying,
//! pasting, and the questions that come before.

use vstd::prelude::*;

use crate::app::names::{ask_bulk, bulk_prompt, dir_prefix, dir_prefix_text, name_anew, new_name};
use crate::app::names::{parent_prefix, parent_prefix_text, path_typed, relative, relative_text};
use crate::app::names::{short_name, shorten, tell_about, typed_path, NewName, NewNameView};
use crate::app::names::info_lines;
use crate::app::state::{new_batch, seen, steps_view, text_opt, three_steps, two_steps, App, AppView};
use crate::app::state::{Batch, BatchView, Effect, EffectView, FileMeta, MetaView, Step, StepView};
use crate::app::state::Transfer;
use crate::clipboard::{left_out, ClipOp, ClipView};
use crate::git::GitStatus;
use crate::marks::{remapped, text_for};
use crate::path::{comps, Path};
use crate::paths::{listed, path_texts, PathSet};
use crate::text::{decimal, digits, drop_end, join2, join3, join4, lossy_text, to_chars, trim};
use crate::text::{trim_end_char, trimmed};
use crate::tree::node::path_view;
use crate::tree::ops::{file_name, name_text, paste_place, paste_target};
use crate::tree::sort::{name_parts, split_name};
use crate::ui_overlays::{ConfirmKind, ConfirmKindView, ConfirmState, ConfirmView, InfoState};
use crate::ui_overlays::{InfoView, InputKind, InputState, InputView, KindView, Overlay};
use crate::ui_overlays::OverlayView;
use crate::watcher::{comps_set, lemma_comps_set_push};

verus! {

/// What is renamed.
#[derive(Clone, Copy, Debug, PartialEq, Eq, Structural)]
pub enum RenameKind {
    /// The name without the extension.
    Basename,
    /// The whole name.
    Basename2Full,
    /// The path, from the root on.
    Full,
    /// The path, with the name at its end as it is.
    OmitFilename,
}

/// What of a path is copied as text.
#[derive(Clone, Copy, Debug, PartialEq, Eq, Structural)]
pub enum PathKind {
    Filename,
    Relative,
    Absolute,
}

/// A prompt with the cursor at the end of what is there.
pub open spec fn fresh_input(prompt: Seq<char>, buffer: Seq<char>, kind: KindView) -> OverlayView {
    OverlayView::Input(InputView { prompt, before: buffer, after: Seq::empty(), kind })
}

/// What is asked before some paths are removed.
pub open spec fn confirm_for(targets: Seq<Seq<u8>>, trash: bool) -> ConfirmView {
    let verb = if trash {
        "trash"@
    } else {
        "delete"@
    };
    if targets.len() == 1 {
        ConfirmView {
            prompt: verb + " "@ + name_text(targets[0]) + "?"@,
            kind: if trash {
                ConfirmKindView::Trash(targets[0])
            } else {
                ConfirmKindView::Delete(targets[0])
            },
        }
    } else {
        ConfirmView {
            prompt: verb + " "@ + digits(targets.len()) + " selected items?"@,
            kind: if trash {
                ConfirmKindView::BulkTrash(targets)
            } else {
                ConfirmKindView::BulkDelete(targets)
            },
        }
    }
}

/// The paths that are removed once it is confirmed.
pub open spec fn confirmed_paths(kind: ConfirmKindView) -> Seq<Seq<u8>> {
    match kind {
        ConfirmKindView::Delete(p) => seq![p],
        ConfirmKindView::Trash(p) => seq![p],
        ConfirmKindView::BulkDelete(v) => v,
        ConfirmKindView::BulkTrash(v) => v,
    }
}

/// Whether they go to the trash.
pub open spec fn confirmed_trash(kind: ConfirmKindView) -> bool {
    kind is Trash || kind is BulkTrash
}

/// The steps that remove some paths, one after the other.
pub open spec fn removals(paths: Seq<Seq<u8>>, trash: bool) -> Seq<StepView> {
    paths.map_values(|p: Seq<u8>| StepView::Remove { path: p, trash }).push(StepView::Removed)
}

/// The steps that put some paths into a directory, one after the other.
pub open spec fn transfers(paths: Seq<Seq<u8>>, dest: Seq<u8>, kind: Transfer) -> Seq<StepView> {
    paths.map_values(|p: Seq<u8>| StepView::Send { path: p, dest, kind }).push(
        StepView::Sent(kind),
    )
}

/// A batch after one of it failed.
pub open spec fn batch_failed(b: BatchView, e: Seq<char>) -> BatchView {
    BatchView {
        failed: match b.failed {
            Some(f) => Some(f),
            None => Some(e),
        },
        ..b
    }
}

/// A batch after one path was removed.
pub open spec fn batch_removed(b: BatchView, p: Seq<u8>) -> BatchView {
    BatchView { gone: b.gone.push(p), ..b }
}

/// A batch after one path was put elsewhere.
pub open spec fn batch_sent(b: BatchView, p: Seq<u8>, target: Seq<u8>, kind: Transfer) -> BatchView {
    BatchView {
        ok: b.ok.saturating_add(1),
        gone: if kind == Transfer::Copy {
            b.gone
        } else {
            b.gone.push(p)
        },
        last: Some(target),
        ..b
    }
}

/// The paths of some texts, as lists of components.
pub open spec fn text_comps(ts: Seq<Seq<u8>>) -> Set<Seq<Seq<u8>>> {
    Set::new(
        |k: Seq<Seq<u8>>| exists|i: int| 0 <= i < ts.len() && comps(#[trigger] ts[i]) == k,
    )
}

/// What is told when a batch of removals is done.
pub open spec fn removed_text(b: BatchView) -> Seq<char> {
    match b.failed {
        None => "removed "@ + digits(b.total as nat) + " item(s)"@,
        Some(e) => "removed "@ + digits(b.gone.len()) + " of "@ + digits(b.total as nat) + " ("@ + e
            + ")"@,
    }
}

/// What is told when everything was pasted, or as much as could be.
pub open spec fn pasted_text(b: BatchView) -> Seq<char> {
    match b.failed {
        None => "pasted "@ + digits(b.total as nat) + " item(s)"@,
        Some(e) => "pasted "@ + digits(b.ok as nat) + " of "@ + digits(b.total as nat) + " ("@ + e
            + ")"@,
    }
}

/// What is told when the bookmarked paths were moved, or as many as could be.
pub open spec fn moved_text(b: BatchView) -> Seq<char> {
    match b.failed {
        None => "moved "@ + digits(b.total as nat) + " bookmarked item(s)"@,
        Some(e) => "moved "@ + digits(b.gone.len()) + " of "@ + digits(b.total as nat)
            + " bookmarked item(s) ("@ + e + ")"@,
    }
}

impl AppView {
    /// With a prompt for a path to create, beginning with the directory to act
    /// in.
    #[verifier::opaque]
    pub open spec fn create_started(self) -> AppView {
        let root = self.tree.root.path;
        self.covered(
            fresh_input(
                " create in "@ + short_name(root) + "/ "@,
                dir_prefix(self.dir_context(), root),
                KindView::Create,
            ),
        )
    }

    /// With a prompt for a new name.
    #[verifier::opaque]
    pub open spec fn rename_started(self, kind: RenameKind) -> AppView {
        let root = self.tree.root.path;
        match self.current() {
            Some(row) => self.covered(
                match kind {
                    RenameKind::Basename => fresh_input(
                        " rename basename "@,
                        name_parts(row.name).0,
                        KindView::RenameBasename { path: row.path },
                    ),
                    RenameKind::Basename2Full => fresh_input(
                        " rename "@,
                        row.name,
                        KindView::Rename { path: row.path },
                    ),
                    RenameKind::Full => fresh_input(
                        " rename full path "@,
                        relative(row.path, root),
                        KindView::RenameFull { path: row.path },
                    ),
                    RenameKind::OmitFilename => fresh_input(
                        " rename (dir only) "@,
                        parent_prefix(row.path, root) + name_text(row.path),
                        KindView::RenameFull { path: row.path },
                    ),
                },
            ),
            None => self,
        }
    }

    /// With the question whether to remove what is selected.
    #[verifier::opaque]
    pub open spec fn delete_started(self, trash: bool) -> AppView {
        if self.targets().len() == 0 {
            self
        } else {
            self.covered(OverlayView::Confirm(confirm_for(self.targets(), trash)))
        }
    }

    /// With what is selected on the clipboard.
    #[verifier::opaque]
    pub open spec fn clipped(self, op: ClipOp) -> AppView {
        if self.targets().len() == 0 {
            self
        } else {
            let word = if op == ClipOp::Cut {
                "cut "@
            } else {
                "copied "@
            };
            AppView {
                clipboard: ClipView { op: Some(op), paths: self.targets() },
                ..self
            }.said(word + digits(self.targets().len()) + " item(s)"@).planned(
                seq![StepView::RowsHere],
            )
        }
    }

    /// With a new batch, and the steps for it.
    pub open spec fn batched(self, total: nat, steps: Seq<StepView>) -> AppView {
        AppView { batch: new_batch(total as usize), ..self }.planned(steps)
    }

    /// With what is on the clipboard on its way to the directory to act in.
    #[verifier::opaque]
    pub open spec fn pasting(self) -> AppView {
        if self.clipboard.paths.len() == 0 {
            self.said("clipboard empty"@)
        } else {
            let kind = if self.clipboard.op == Some(ClipOp::Cut) {
                Transfer::Cut
            } else {
                Transfer::Copy
            };
            self.batched(
                self.clipboard.paths.len(),
                transfers(self.clipboard.paths, self.dir_context(), kind),
            )
        }
    }

    /// With the bookmarked paths on their way to the directory to act in.
    #[verifier::opaque]
    pub open spec fn moving_marked(self) -> AppView {
        let paths = listed(self.marks);
        if paths.len() == 0 {
            self.said("no bookmarks"@)
        } else {
            self.batched(paths.len(), transfers(paths, self.dir_context(), Transfer::Marked))
        }
    }

    /// With the question whether to remove the bookmarked paths.
    #[verifier::opaque]
    pub open spec fn removing_marked(self, trash: bool) -> AppView {
        let paths = listed(self.marks);
        let verb = if trash {
            "trash"@
        } else {
            "delete"@
        };
        if paths.len() == 0 {
            self.said("no bookmarks"@)
        } else {
            self.covered(
                OverlayView::Confirm(
                    ConfirmView {
                        prompt: bulk_prompt(verb, paths, self.tree.root.path),
                        kind: if trash {
                            ConfirmKindView::BulkTrash(paths)
                        } else {
                            ConfirmKindView::BulkDelete(paths)
                        },
                    },
                ),
            )
        }
    }

    /// With what was confirmed under way.
    #[verifier::opaque]
    pub open spec fn confirmed(self, kind: ConfirmKindView) -> AppView {
        self.batched(
            confirmed_paths(kind).len(),
            removals(confirmed_paths(kind), confirmed_trash(kind)),
        )
    }

    /// With a text of the row under the cursor copied.
    #[verifier::opaque]
    pub open spec fn yanked(self, kind: PathKind) -> AppView {
        match self.current() {
            Some(row) => {
                let text = match kind {
                    PathKind::Filename => row.name,
                    PathKind::Relative => relative(row.path, self.tree.root.path),
                    PathKind::Absolute => lossy_text(row.path),
                };
                self.said("yanked: "@ + text).planned(
                    seq![StepView::Do(EffectView::CopyText(text))],
                )
            },
            None => self,
        }
    }

    /// With the row under the cursor to be told about.
    #[verifier::opaque]
    pub open spec fn inspecting(self) -> AppView {
        match self.current() {
            Some(row) => self.planned(
                seq![StepView::Inspect { path: row.path, name: row.name, git: row.git }],
            ),
            None => self,
        }
    }

    /// With what is told about a file.
    pub open spec fn inspected(
        self,
        p: Seq<u8>,
        name: Seq<char>,
        git: Option<GitStatus>,
        meta: Option<MetaView>,
    ) -> AppView {
        self.covered(
            OverlayView::Info(
                InfoView {
                    title: name,
                    lines: info_lines(p, meta, git, self.marks.contains_key(comps(p))),
                },
            ),
        )
    }

    /// With a path to be created, as it was typed.
    #[verifier::opaque]
    pub open spec fn creating(self, value: Seq<char>) -> AppView {
        let clean = drop_end(value, '/');
        if clean.len() == 0 {
            self
        } else {
            match typed_path(self.tree.root.path, clean) {
                Some(t) => self.planned(
                    seq![
                        StepView::Create {
                            path: t,
                            is_dir: value.len() > 0 && value.last() == '/',
                            label: clean,
                        },
                    ],
                ),
                None => self.said("create rejected: path escapes the tree root"@),
            }
        }
    }

    /// With a path to be renamed.
    #[verifier::opaque]
    pub open spec fn renaming(self, p: Seq<u8>, name: Seq<char>) -> AppView {
        match new_name(p, self.tree.root.path, name) {
            NewNameView::Absolute => self.said(
                "rename rejected: absolute path (use rename-full)"@,
            ),
            NewNameView::Escapes => self.said("rename rejected: path escapes the tree root"@),
            NewNameView::To(t) => self.planned(
                seq![StepView::Rename { from: p, to: t, done: "renamed to "@ + name }],
            ),
        }
    }

    /// With a path to be moved to another one, as it was typed.
    #[verifier::opaque]
    pub open spec fn renaming_full(self, p: Seq<u8>, value: Seq<char>) -> AppView {
        match typed_path(self.tree.root.path, value) {
            Some(t) => self.planned(
                seq![StepView::Rename { from: p, to: t, done: "moved to "@ + value }],
            ),
            None => self.said("rename rejected: path escapes the tree root"@),
        }
    }

    /// With what was typed into a prompt under way. Nothing but white space asks
    /// for nothing.
    #[verifier::opaque]
    pub open spec fn submitted(self, input: InputView) -> AppView {
        let value = trimmed(input.typed());
        if value.len() == 0 {
            self
        } else {
            match input.kind {
                KindView::Search => self.searched(value),
                KindView::Create => self.creating(value),
                KindView::Rename { path } => self.renaming(path, value),
                KindView::RenameBasename { path } => {
                    let ext = name_parts(name_text(path)).1;
                    self.renaming(
                        path,
                        if ext.len() == 0 {
                            value
                        } else {
                            value + "."@ + ext
                        },
                    )
                },
                KindView::RenameFull { path } => self.renaming_full(path, value),
            }
        }
    }

    /// After a path was created, or could not be.
    #[verifier::opaque]
    pub open spec fn created(self, p: Seq<u8>, label: Seq<char>, failed: Option<Seq<char>>) -> AppView {
        match failed {
            None => self.planned(
                seq![StepView::Reload, StepView::Reveal(p), StepView::Say("created "@ + label)],
            ),
            Some(e) => self.said("create failed: "@ + e),
        }
    }

    /// After a path was renamed, or could not be.
    #[verifier::opaque]
    pub open spec fn renamed(self, to: Seq<u8>, done: Seq<char>, failed: Option<Seq<char>>) -> AppView {
        match failed {
            None => self.planned(
                seq![StepView::Reload, StepView::Reveal(to), StepView::Say(done)],
            ),
            Some(e) => self.said("rename failed: "@ + e),
        }
    }

    /// After a path of a batch was removed, or could not be.
    #[verifier::opaque]
    pub open spec fn removed_one(self, p: Seq<u8>, failed: Option<Seq<char>>) -> AppView {
        AppView {
            batch: match failed {
                None => batch_removed(self.batch, p),
                Some(e) => batch_failed(self.batch, e),
            },
            ..self
        }
    }

    /// After a batch of removals: the bookmarks and the selection keep what is
    /// still there.
    #[verifier::opaque]
    pub open spec fn removed_all(self) -> AppView {
        AppView {
            marks: self.marks.remove_keys(text_comps(self.batch.gone)),
            selection: self.selection.remove_keys(text_comps(self.batch.gone)),
            ..self
        }.planned(
            seq![StepView::Save, StepView::Reload, StepView::Say(removed_text(self.batch))],
        )
    }

    /// With a place found for a path in a directory.
    pub open spec fn placed(
        self,
        p: Seq<u8>,
        dest: Seq<u8>,
        kind: Transfer,
        taken: Seq<Seq<u8>>,
    ) -> AppView {
        self.planned(
            seq![
                StepView::Put { path: p, target: paste_place(dest, p, text_comps(taken)), kind },
            ],
        )
    }

    /// After a path of a batch was put elsewhere, or could not be. A bookmark
    /// follows what was cut.
    pub open spec fn sent_one(
        self,
        p: Seq<u8>,
        target: Seq<u8>,
        kind: Transfer,
        failed: Option<Seq<char>>,
    ) -> AppView {
        match failed {
            None => {
                let s = AppView { batch: batch_sent(self.batch, p, target, kind), ..self };
                if kind == Transfer::Cut {
                    AppView {
                        marks: remapped(self.marks, p, target),
                        selection: self.selection.remove(comps(p)),
                        ..s
                    }.planned(
                        if self.marks.contains_key(comps(p)) {
                            seq![StepView::Save]
                        } else {
                            seq![]
                        },
                    )
                } else {
                    s
                }
            },
            Some(e) => AppView { batch: batch_failed(self.batch, e), ..self },
        }
    }

    /// After what was on the clipboard was pasted. What was cut and did not move
    /// stays on it.
    #[verifier::opaque]
    pub open spec fn pasted(self, cut: bool) -> AppView {
        let left = left_out(self.clipboard.paths, self.batch.gone);
        AppView {
            clipboard: if !cut {
                self.clipboard
            } else if left.len() == 0 {
                ClipView { op: None, paths: Seq::empty() }
            } else {
                ClipView { op: self.clipboard.op, paths: left }
            },
            ..self
        }.said(pasted_text(self.batch)).planned(
            match self.batch.last {
                Some(t) => seq![StepView::Reload, StepView::Reveal(t)],
                None => seq![StepView::Reload],
            },
        )
    }

    /// After the bookmarked paths were moved. What did not move stays
    /// bookmarked.
    #[verifier::opaque]
    pub open spec fn moved_marked(self) -> AppView {
        AppView { marks: self.marks.remove_keys(text_comps(self.batch.gone)), ..self }.planned(
            seq![StepView::Save, StepView::Reload, StepView::Say(moved_text(self.batch))],
        )
    }

    /// After a batch of transfers.
    #[verifier::opaque]
    pub open spec fn sent_all(self, kind: Transfer) -> AppView {
        match kind {
            Transfer::Cut => self.pasted(true),
            Transfer::Copy => self.pasted(false),
            Transfer::Marked => self.moved_marked(),
        }
    }

    /// With the bookmarks kept, if they are kept.
    #[verifier::opaque]
    pub open spec fn saved(self) -> AppView {
        if self.config.bookmarks_persist {
            self.planned(
                seq![StepView::Do(EffectView::SaveMarks(text_for(listed(self.marks))))],
            )
        } else {
            self
        }
    }
}

/// The components of some paths, as a set.
fn set_of(paths: &Vec<Path>) -> (r: PathSet)
    ensures
        r@ == text_comps(path_texts(paths@)),
{
    let mut set = PathSet::new();
    let mut i: usize = 0;
    assert(set@ =~= comps_set(paths@.take(0)));
    while i < paths.len()
        invariant
            i <= paths@.len(),
            set@ == comps_set(paths@.take(i as int)),
        decreases paths@.len() - i,
    {
        let _fresh = set.insert(paths[i].copy());
        proof {
            lemma_comps_set_push(paths@, i as int);
        }
        i += 1;
    }
    proof {
        assert(paths@.take(i as int) =~= paths@);
        lemma_text_comps(paths@);
    }
    set
}

/// The components of some paths, from their texts.
proof fn lemma_text_comps(paths: Seq<Path>)
    ensures
        text_comps(path_texts(paths)) == comps_set(paths),
{
    let ts = path_texts(paths);
    assert forall|k: Seq<Seq<u8>>| text_comps(ts).contains(k) == comps_set(paths).contains(k) by {
        if text_comps(ts).contains(k) {
            let i = choose|i: int| 0 <= i < ts.len() && comps(#[trigger] ts[i]) == k;
            assert(paths[i].comps() == k);
        }
        if comps_set(paths).contains(k) {
            let i = choose|i: int| 0 <= i < paths.len() && (#[trigger] paths[i]).comps() == k;
            assert(comps(ts[i]) == k);
        }
    }
    assert(text_comps(ts) =~= comps_set(paths));
}

/// One more path among the texts of some.
proof fn lemma_push_text(paths: Seq<Path>, p: Path)
    ensures
        path_texts(paths.push(p)) == path_texts(paths).push(p@),
{
    assert(path_texts(paths.push(p)) =~= path_texts(paths).push(p@));
}

/// Copies of some paths.
fn copy_paths(paths: &Vec<Path>) -> (r: Vec<Path>)
    ensures
        path_texts(r@) == path_texts(paths@),
        r@.len() == paths@.len(),
{
    let mut out: Vec<Path> = Vec::new();
    let mut i: usize = 0;
    let ghost ts = path_texts(paths@);
    while i < paths.len()
        invariant
            i <= paths@.len(),
            ts == path_texts(paths@),
            out@.len() == i,
            forall|k: int| 0 <= k < i ==> (#[trigger] out@[k])@ == ts[k],
        decreases paths@.len() - i,
    {
        out.push(paths[i].copy());
        i += 1;
    }
    assert(path_texts(out@) =~= ts);
    out
}

fn removal_steps(paths: &Vec<Path>, trash: bool) -> (r: Vec<Step>)
    ensures
        steps_view(r@) == removals(path_texts(paths@), trash),
{
    let mut steps: Vec<Step> = Vec::new();
    let mut i: usize = 0;
    let ghost ts = path_texts(paths@);
    while i < paths.len()
        invariant
            i <= paths@.len(),
            ts == path_texts(paths@),
            steps@.len() == i,
            forall|k: int|
                0 <= k < i ==> (#[trigger] steps@[k])@ == (StepView::Remove {
                    path: ts[k],
                    trash,
                }),
        decreases paths@.len() - i,
    {
        steps.push(Step::Remove { path: paths[i].copy(), trash });
        i += 1;
    }
    steps.push(Step::Removed);
    assert(steps_view(steps@) =~= removals(ts, trash));
    steps
}

fn transfer_steps(paths: &Vec<Path>, dest: &Path, kind: Transfer) -> (r: Vec<Step>)
    ensures
        steps_view(r@) == transfers(path_texts(paths@), dest@, kind),
{
    let mut steps: Vec<Step> = Vec::new();
    let mut i: usize = 0;
    let ghost ts = path_texts(paths@);
    while i < paths.len()
        invariant
            i <= paths@.len(),
            ts == path_texts(paths@),
            steps@.len() == i,
            forall|k: int|
                0 <= k < i ==> (#[trigger] steps@[k])@ == (StepView::Send {
                    path: ts[k],
                    dest: dest@,
                    kind,
                }),
        decreases paths@.len() - i,
    {
        steps.push(Step::Send { path: paths[i].copy(), dest: dest.copy(), kind });
        i += 1;
    }
    steps.push(Step::Sent(kind));
    assert(steps_view(steps@) =~= transfers(ts, dest@, kind));
    steps
}

fn ask_removal(targets: Vec<Path>, trash: bool) -> (r: ConfirmState)
    requires
        targets@.len() > 0,
    ensures
        r@ == confirm_for(path_texts(targets@), trash),
{
    let verb = if trash {
        "trash"
    } else {
        "delete"
    };
    let ghost ts = path_texts(targets@);
    if targets.len() == 1 {
        assert(ts[0] == targets@[0]@);
        let p = targets[0].copy();
        let prompt = join4(verb, " ", file_name(&p).as_str(), "?");
        let kind = if trash {
            ConfirmKind::Trash(p)
        } else {
            ConfirmKind::Delete(p)
        };
        ConfirmState { prompt, kind }
    } else {
        let n = decimal(targets.len() as u64);
        let prompt = join4(verb, " ", n.as_str(), " selected items?");
        let kind = if trash {
            ConfirmKind::BulkTrash(targets)
        } else {
            ConfirmKind::BulkDelete(targets)
        };
        ConfirmState { prompt, kind }
    }
}

fn ask_marked(paths: Vec<Path>, root: &Path, trash: bool) -> (r: ConfirmState)
    ensures
        r@ == (ConfirmView {
            prompt: bulk_prompt(
                if trash {
                    "trash"@
                } else {
                    "delete"@
                },
                path_texts(paths@),
                root@,
            ),
            kind: if trash {
                ConfirmKindView::BulkTrash(path_texts(paths@))
            } else {
                ConfirmKindView::BulkDelete(path_texts(paths@))
            },
        }),
{
    let verb = if trash {
        "trash"
    } else {
        "delete"
    };
    let prompt = ask_bulk(verb, &paths, root);
    let kind = if trash {
        ConfirmKind::BulkTrash(paths)
    } else {
        ConfirmKind::BulkDelete(paths)
    };
    ConfirmState { prompt, kind }
}

fn rename_prompt(kind: RenameKind, path: Path, name: &str, root: &Path) -> (r: InputState)
    ensures
        r.wf(),
        OverlayView::Input(r@) == (match kind {
            RenameKind::Basename => fresh_input(
                " rename basename "@,
                name_parts(name@).0,
                KindView::RenameBasename { path: path@ },
            ),
            RenameKind::Basename2Full => fresh_input(
                " rename "@,
                name@,
                KindView::Rename { path: path@ },
            ),
            RenameKind::Full => fresh_input(
                " rename full path "@,
                relative(path@, root@),
                KindView::RenameFull { path: path@ },
            ),
            RenameKind::OmitFilename => fresh_input(
                " rename (dir only) "@,
                parent_prefix(path@, root@) + name_text(path@),
                KindView::RenameFull { path: path@ },
            ),
        }),
{
    match kind {
        RenameKind::Basename => {
            let (stem, _) = split_name(name);
            InputState::new(" rename basename ", stem, InputKind::RenameBasename { path })
        },
        RenameKind::Basename2Full => InputState::new(
            " rename ",
            name.to_owned(),
            InputKind::Rename { path },
        ),
        RenameKind::Full => {
            let rel = relative_text(&path, root);
            InputState::new(" rename full path ", rel, InputKind::RenameFull { path })
        },
        RenameKind::OmitFilename => {
            let dir = parent_prefix_text(&path, root);
            let text = join2(dir.as_str(), file_name(&path).as_str());
            InputState::new(" rename (dir only) ", text, InputKind::RenameFull { path })
        },
    }
}

fn tell_removed(b: &Batch) -> (r: String)
    ensures
        r@ == removed_text(b@),
{
    let total = decimal(b.total as u64);
    match &b.failed {
        None => join3("removed ", total.as_str(), " item(s)"),
        Some(e) => {
            let n = decimal(b.gone.len() as u64);
            let head = join4("removed ", n.as_str(), " of ", total.as_str());
            join4(head.as_str(), " (", e.as_str(), ")")
        },
    }
}

fn tell_pasted(b: &Batch) -> (r: String)
    ensures
        r@ == pasted_text(b@),
{
    let total = decimal(b.total as u64);
    match &b.failed {
        None => join3("pasted ", total.as_str(), " item(s)"),
        Some(e) => {
            let n = decimal(b.ok as u64);
            let head = join4("pasted ", n.as_str(), " of ", total.as_str());
            join4(head.as_str(), " (", e.as_str(), ")")
        },
    }
}

fn tell_moved(b: &Batch) -> (r: String)
    ensures
        r@ == moved_text(b@),
{
    let total = decimal(b.total as u64);
    match &b.failed {
        None => join3("moved ", total.as_str(), " bookmarked item(s)"),
        Some(e) => {
            let n = decimal(b.gone.len() as u64);
            let head = join4("moved ", n.as_str(), " of ", total.as_str());
            join4(head.as_str(), " bookmarked item(s) (", e.as_str(), ")")
        },
    }
}

impl Batch {
    /// Takes note that one failed.
    pub fn fail(&mut self, e: String)
        ensures
            final(self)@ == batch_failed(old(self)@, e@),
    {
        if self.failed.is_none() {
            self.failed = Some(e);
        }
    }

    /// Takes note that a path was removed.
    pub fn removed(&mut self, p: Path)
        ensures
            final(self)@ == batch_removed(old(self)@, p@),
    {
        let ghost held = self.gone@;
        self.gone.push(p);
        proof {
            lemma_push_text(held, p);
        }
    }

    /// Takes note that a path was put elsewhere.
    pub fn sent(&mut self, p: Path, target: Path, kind: Transfer)
        ensures
            final(self)@ == batch_sent(old(self)@, p@, target@, kind),
    {
        let ghost held = self.gone@;
        self.ok = self.ok.saturating_add(1);
        if kind != Transfer::Copy {
            self.gone.push(p);
            proof {
                lemma_push_text(held, p);
            }
        }
        self.last = Some(target);
    }
}

impl App {
    /// Lays something over the tree.
    pub fn cover(&mut self, overlay: Overlay)
        requires
            old(self).wf(),
            overlay.wf(),
        ensures
            final(self).wf(),
            final(self)@ == old(self)@.covered(overlay@),
    {
        proof {
            reveal(seen);
        }
        self.overlay = overlay;
    }

    /// Starts a batch.
    fn start_batch(&mut self, total: usize)
        requires
            old(self).wf(),
        ensures
            final(self).wf(),
            final(self)@ == (AppView { batch: new_batch(total), ..old(self)@ }),
    {
        proof {
            reveal(seen);
        }
        self.batch = Batch::new(total);
    }

    /// Asks for a path to create.
    pub fn start_create(&mut self)
        requires
            old(self).wf(),
        ensures
            final(self).wf(),
            final(self)@ == old(self)@.create_started(),
    {
        proof {
            reveal(AppView::create_started);
        }
        let dir = self.current_dir_context();
        let root = self.root_path();
        let prompt = join3(" create in ", shorten(&root).as_str(), "/ ");
        let prefix = dir_prefix_text(&dir, &root);
        let state = InputState::new(prompt.as_str(), prefix, InputKind::Create);
        self.cover(Overlay::Input(state));
    }

    /// Asks for a new name for the row under the cursor.
    pub fn start_rename(&mut self, kind: RenameKind)
        requires
            old(self).wf(),
        ensures
            final(self).wf(),
            final(self)@ == old(self)@.rename_started(kind),
    {
        proof {
            reveal(AppView::rename_started);
        }
        let root = self.root_path();
        let state = match self.current_row() {
            Some(row) => rename_prompt(kind, row.path.copy(), row.name.as_str(), &root),
            None => {
                return;
            },
        };
        self.cover(Overlay::Input(state));
    }

    /// Asks whether to remove what is selected.
    pub fn start_confirm_delete(&mut self, trash: bool)
        requires
            old(self).wf(),
        ensures
            final(self).wf(),
            final(self)@ == old(self)@.delete_started(trash),
    {
        proof {
            reveal(AppView::delete_started);
        }
        let targets = self.op_targets();
        if targets.len() == 0 {
            return;
        }
        self.cover(Overlay::Confirm(ask_removal(targets, trash)));
    }

    fn set_clipboard(&mut self, op: ClipOp, paths: Vec<Path>)
        requires
            old(self).wf(),
        ensures
            final(self).wf(),
            final(self)@ == (AppView {
                clipboard: ClipView { op: Some(op), paths: path_texts(paths@) },
                ..old(self)@
            }),
    {
        proof {
            reveal(seen);
        }
        self.clipboard.set(op, paths);
    }

    /// Puts what is selected on the clipboard.
    pub fn clip(&mut self, op: ClipOp)
        requires
            old(self).wf(),
        ensures
            final(self).wf(),
            final(self)@ == old(self)@.clipped(op),
    {
        proof {
            reveal(AppView::clipped);
        }
        let targets = self.op_targets();
        if targets.len() == 0 {
            return;
        }
        let word = if op == ClipOp::Cut {
            "cut "
        } else {
            "copied "
        };
        let n = decimal(targets.len() as u64);
        self.set_clipboard(op, targets);
        self.set_status(join3(word, n.as_str(), " item(s)"));
        self.plan_one(Step::RowsHere);
    }

    fn clipboard_parts(&self) -> (r: (Option<ClipOp>, Vec<Path>))
        ensures
            r.0 == self@.clipboard.op,
            path_texts(r.1@) == self@.clipboard.paths,
    {
        proof {
            reveal(seen);
        }
        (self.clipboard.op, copy_paths(&self.clipboard.paths))
    }

    /// Pastes what is on the clipboard into the directory to act in.
    pub fn paste(&mut self)
        requires
            old(self).wf(),
        ensures
            final(self).wf(),
            final(self)@ == old(self)@.pasting(),
    {
        proof {
            reveal(AppView::pasting);
        }
        let (op, paths) = self.clipboard_parts();
        if paths.len() == 0 {
            self.set_status("clipboard empty".to_owned());
            return;
        }
        let kind = match op {
            Some(ClipOp::Cut) => Transfer::Cut,
            _ => Transfer::Copy,
        };
        let dest = self.current_dir_context();
        let steps = transfer_steps(&paths, &dest, kind);
        self.start_batch(paths.len());
        self.plan(steps);
    }

    fn bookmarks(&self) -> (r: Vec<Path>)
        ensures
            path_texts(r@) == listed(self@.marks),
    {
        proof {
            reveal(seen);
        }
        self.marks.all().list()
    }

    /// Moves the bookmarked paths into the directory to act in.
    pub fn bulk_move(&mut self)
        requires
            old(self).wf(),
        ensures
            final(self).wf(),
            final(self)@ == old(self)@.moving_marked(),
    {
        proof {
            reveal(AppView::moving_marked);
        }
        let paths = self.bookmarks();
        if paths.len() == 0 {
            self.set_status("no bookmarks".to_owned());
            return;
        }
        let dest = self.current_dir_context();
        let steps = transfer_steps(&paths, &dest, Transfer::Marked);
        self.start_batch(paths.len());
        self.plan(steps);
    }

    /// Asks whether to remove the bookmarked paths.
    pub fn bulk_remove(&mut self, trash: bool)
        requires
            old(self).wf(),
        ensures
            final(self).wf(),
            final(self)@ == old(self)@.removing_marked(trash),
    {
        proof {
            reveal(AppView::removing_marked);
        }
        let paths = self.bookmarks();
        if paths.len() == 0 {
            self.set_status("no bookmarks".to_owned());
            return;
        }
        let root = self.root_path();
        self.cover(Overlay::Confirm(ask_marked(paths, &root, trash)));
    }

    /// Removes what was asked about.
    pub fn run_confirm(&mut self, kind: ConfirmKind)
        requires
            old(self).wf(),
        ensures
            final(self).wf(),
            final(self)@ == old(self)@.confirmed(kind@),
    {
        proof {
            reveal(AppView::confirmed);
        }
        let (paths, trash) = paths_confirmed(kind);
        let steps = removal_steps(&paths, trash);
        self.start_batch(paths.len());
        self.plan(steps);
    }

    /// Copies a text of the row under the cursor.
    pub fn copy_path_kind(&mut self, kind: PathKind)
        requires
            old(self).wf(),
        ensures
            final(self).wf(),
            final(self)@ == old(self)@.yanked(kind),
    {
        proof {
            reveal(AppView::yanked);
        }
        let root = self.root_path();
        let text = match self.current_row() {
            Some(row) => match kind {
                PathKind::Filename => row.name.as_str().to_owned(),
                PathKind::Relative => relative_text(&row.path, &root),
                PathKind::Absolute => row.path.display(),
            },
            None => {
                return;
            },
        };
        self.set_status(join2("yanked: ", text.as_str()));
        self.plan_one(Step::Do(Effect::CopyText(text)));
    }

    /// Tells about the row under the cursor.
    pub fn file_info(&mut self)
        requires
            old(self).wf(),
        ensures
            final(self).wf(),
            final(self)@ == old(self)@.inspecting(),
    {
        proof {
            reveal(AppView::inspecting);
        }
        let step = match self.current_row() {
            Some(row) => Step::Inspect {
                path: row.path.copy(),
                name: row.name.as_str().to_owned(),
                git: row.git,
            },
            None => {
                return;
            },
        };
        self.plan_one(step);
    }

    fn is_marked(&self, path: &Path) -> (r: bool)
        ensures
            r == self@.marks.contains_key(path.comps()),
    {
        proof {
            reveal(seen);
        }
        self.marks.contains(path)
    }

    /// Shows what is known of a file.
    pub fn show_info(
        &mut self,
        path: &Path,
        name: String,
        git: Option<GitStatus>,
        meta: &Option<FileMeta>,
    )
        requires
            old(self).wf(),
        ensures
            final(self).wf(),
            final(self)@ == old(self)@.inspected(
                path@,
                name@,
                git,
                match meta {
                    Some(m) => Some(m@),
                    None => None,
                },
            ),
    {
        proof {
            reveal(AppView::inspected);
        }
        let marked = self.is_marked(path);
        let lines = tell_about(path, meta, git, marked);
        self.cover(Overlay::Info(InfoState { title: name, lines }));
    }
}

fn paths_confirmed(kind: ConfirmKind) -> (r: (Vec<Path>, bool))
    ensures
        path_texts(r.0@) == confirmed_paths(kind@),
        r.1 == confirmed_trash(kind@),
{
    match kind {
        ConfirmKind::Delete(p) => {
            let v = vec![p];
            assert(path_texts(v@) =~= seq![p@]);
            (v, false)
        },
        ConfirmKind::Trash(p) => {
            let v = vec![p];
            assert(path_texts(v@) =~= seq![p@]);
            (v, true)
        },
        ConfirmKind::BulkDelete(v) => (v, false),
        ConfirmKind::BulkTrash(v) => (v, true),
    }
}

/// What a prompt asks for.
impl App {
    fn create_typed(&mut self, value: &str)
        requires
            old(self).wf(),
        ensures
            final(self).wf(),
            final(self)@ == old(self)@.creating(value@),
    {
        proof {
            reveal(AppView::creating);
        }
        let clean = trim_end_char(value, '/');
        if clean.as_str().is_empty() {
            return;
        }
        let chars = to_chars(value);
        let is_dir = chars.len() > 0 && chars[chars.len() - 1] == '/';
        let root = self.root_path();
        match path_typed(&root, clean.as_str()) {
            Some(path) => self.plan_one(Step::Create { path, is_dir, label: clean }),
            None => self.set_status("create rejected: path escapes the tree root".to_owned()),
        }
    }

    /// Renames a path.
    pub fn do_rename(&mut self, path: Path, name: &str)
        requires
            old(self).wf(),
        ensures
            final(self).wf(),
            final(self)@ == old(self)@.renaming(path@, name@),
    {
        proof {
            reveal(AppView::renaming);
        }
        let root = self.root_path();
        match name_anew(&path, &root, name) {
            NewName::Absolute => self.set_status(
                "rename rejected: absolute path (use rename-full)".to_owned(),
            ),
            NewName::Escapes => self.set_status(
                "rename rejected: path escapes the tree root".to_owned(),
            ),
            NewName::To(to) => {
                let done = join2("renamed to ", name);
                self.plan_one(Step::Rename { from: path, to, done });
            },
        }
    }

    fn rename_whole(&mut self, path: Path, value: &str)
        requires
            old(self).wf(),
        ensures
            final(self).wf(),
            final(self)@ == old(self)@.renaming_full(path@, value@),
    {
        proof {
            reveal(AppView::renaming_full);
        }
        let root = self.root_path();
        match path_typed(&root, value) {
            Some(to) => {
                let done = join2("moved to ", value);
                self.plan_one(Step::Rename { from: path, to, done });
            },
            None => self.set_status("rename rejected: path escapes the tree root".to_owned()),
        }
    }

    fn rename_stem(&mut self, path: Path, value: &str)
        requires
            old(self).wf(),
        ensures
            final(self).wf(),
            final(self)@ == ({
                let ext = name_parts(name_text(path@)).1;
                old(self)@.renaming(
                    path@,
                    if ext.len() == 0 {
                        value@
                    } else {
                        value@ + "."@ + ext
                    },
                )
            }),
    {
        let (_, ext) = split_name(file_name(&path).as_str());
        if ext.as_str().is_empty() {
            self.do_rename(path, value);
        } else {
            let name = join3(value, ".", ext.as_str());
            self.do_rename(path, name.as_str());
        }
    }

    /// Does what a prompt was for.
    pub fn submit_input(&mut self, state: InputState)
        requires
            old(self).wf(),
            state.wf(),
        ensures
            final(self).wf(),
            final(self)@ == old(self)@.submitted(state@),
    {
        proof {
            reveal(AppView::submitted);
        }
        let value = trim(state.buffer.as_str());
        proof {
            state.lemma_typed();
        }
        if value.as_str().is_empty() {
            return;
        }
        match state.kind {
            InputKind::Search => self.search(value.as_str()),
            InputKind::Create => self.create_typed(value.as_str()),
            InputKind::Rename { path } => self.do_rename(path, value.as_str()),
            InputKind::RenameBasename { path } => self.rename_stem(path, value.as_str()),
            InputKind::RenameFull { path } => self.rename_whole(path, value.as_str()),
        }
    }
}

/// What follows when something was done to files.
impl App {
    /// A path was created, or could not be.
    pub fn on_created(&mut self, path: Path, label: &str, failed: Option<String>)
        requires
            old(self).wf(),
        ensures
            final(self).wf(),
            final(self)@ == old(self)@.created(path@, label@, text_opt(failed)),
    {
        proof {
            reveal(AppView::created);
        }
        match failed {
            None => {
                let said = join2("created ", label);
                self.plan(three_steps(Step::Reload, Step::Reveal(path), Step::Say(said)));
            },
            Some(e) => self.set_status(join2("create failed: ", e.as_str())),
        }
    }

    /// A path was renamed, or could not be.
    pub fn on_renamed(&mut self, to: Path, done: String, failed: Option<String>)
        requires
            old(self).wf(),
        ensures
            final(self).wf(),
            final(self)@ == old(self)@.renamed(to@, done@, text_opt(failed)),
    {
        proof {
            reveal(AppView::renamed);
        }
        match failed {
            None => self.plan(three_steps(Step::Reload, Step::Reveal(to), Step::Say(done))),
            Some(e) => self.set_status(join2("rename failed: ", e.as_str())),
        }
    }

    /// A path of a batch was removed, or could not be.
    pub fn on_removed(&mut self, path: Path, failed: Option<String>)
        requires
            old(self).wf(),
        ensures
            final(self).wf(),
            final(self)@ == old(self)@.removed_one(path@, text_opt(failed)),
    {
        proof {
            reveal(AppView::removed_one);
            reveal(seen);
        }
        match failed {
            None => self.batch.removed(path),
            Some(e) => self.batch.fail(e),
        }
    }

    /// Takes what is gone off the bookmarks.
    fn unmark_gone(&mut self)
        requires
            old(self).wf(),
        ensures
            final(self).wf(),
            final(self)@ == (AppView {
                marks: old(self)@.marks.remove_keys(text_comps(old(self)@.batch.gone)),
                ..old(self)@
            }),
    {
        proof {
            reveal(seen);
            lemma_text_comps(self.batch.gone@);
        }
        self.marks.remove_all(&self.batch.gone);
    }

    /// Takes what is gone out of the selection.
    fn deselect_gone(&mut self)
        requires
            old(self).wf(),
        ensures
            final(self).wf(),
            final(self)@ == (AppView {
                selection: old(self)@.selection.remove_keys(text_comps(old(self)@.batch.gone)),
                ..old(self)@
            }),
    {
        proof {
            reveal(seen);
            lemma_text_comps(self.batch.gone@);
        }
        drop_paths(&mut self.selection, &self.batch.gone);
    }

    fn batch_note(&self, kind: Option<Transfer>) -> (r: String)
        ensures
            r@ == (match kind {
                None => removed_text(self@.batch),
                Some(Transfer::Marked) => moved_text(self@.batch),
                Some(_) => pasted_text(self@.batch),
            }),
    {
        proof {
            reveal(seen);
        }
        match kind {
            None => tell_removed(&self.batch),
            Some(Transfer::Marked) => tell_moved(&self.batch),
            Some(_) => tell_pasted(&self.batch),
        }
    }

    /// A batch of removals is done.
    pub fn on_all_removed(&mut self)
        requires
            old(self).wf(),
        ensures
            final(self).wf(),
            final(self)@ == old(self)@.removed_all(),
    {
        proof {
            reveal(AppView::removed_all);
        }
        let note = self.batch_note(None);
        self.unmark_gone();
        self.deselect_gone();
        self.plan(three_steps(Step::Save, Step::Reload, Step::Say(note)));
    }

    /// It is known which paths exist where a path is to go.
    pub fn on_taken(&mut self, path: Path, dest: &Path, kind: Transfer, taken: &Vec<Path>)
        requires
            old(self).wf(),
        ensures
            final(self).wf(),
            final(self)@ == old(self)@.placed(path@, dest@, kind, path_texts(taken@)),
    {
        proof {
            reveal(AppView::placed);
        }
        let target = paste_target(dest, &path, &set_of(taken));
        self.plan_one(Step::Put { path, target, kind });
    }

    fn note_sent(&mut self, path: Path, target: Path, kind: Transfer)
        requires
            old(self).wf(),
        ensures
            final(self).wf(),
            final(self)@ == (AppView {
                batch: batch_sent(old(self)@.batch, path@, target@, kind),
                ..old(self)@
            }),
    {
        proof {
            reveal(seen);
        }
        self.batch.sent(path, target, kind);
    }

    fn note_failed(&mut self, e: String)
        requires
            old(self).wf(),
        ensures
            final(self).wf(),
            final(self)@ == (AppView {
                batch: batch_failed(old(self)@.batch, e@),
                ..old(self)@
            }),
    {
        proof {
            reveal(seen);
        }
        self.batch.fail(e);
    }

    /// Lets a bookmark follow, and takes the path out of the selection.
    fn follow_moved(&mut self, path: &Path, target: &Path) -> (had: bool)
        requires
            old(self).wf(),
        ensures
            final(self).wf(),
            final(self)@ == (AppView {
                marks: remapped(old(self)@.marks, path@, target@),
                selection: old(self)@.selection.remove(path.comps()),
                ..old(self)@
            }),
            had == old(self)@.marks.contains_key(path.comps()),
    {
        proof {
            reveal(seen);
        }
        let had = self.marks.remap(path, target);
        let _was = self.selection.remove(path);
        had
    }

    /// A path of a batch was put elsewhere, or could not be.
    pub fn on_sent(&mut self, path: Path, target: Path, kind: Transfer, failed: Option<String>)
        requires
            old(self).wf(),
        ensures
            final(self).wf(),
            final(self)@ == old(self)@.sent_one(path@, target@, kind, text_opt(failed)),
    {
        proof {
            reveal(AppView::sent_one);
        }
        match failed {
            None => {
                let (p, t) = (path.copy(), target.copy());
                self.note_sent(path, target, kind);
                if kind == Transfer::Cut {
                    let had = self.follow_moved(&p, &t);
                    if had {
                        self.plan_one(Step::Save);
                    } else {
                        let none: Vec<Step> = Vec::new();
                        assert(steps_view(none@) =~= Seq::empty());
                        self.plan(none);
                    }
                }
            },
            Some(e) => self.note_failed(e),
        }
    }

    fn take_off_clipboard(&mut self)
        requires
            old(self).wf(),
        ensures
            final(self).wf(),
            final(self)@ == (AppView {
                clipboard: {
                    let left = left_out(old(self)@.clipboard.paths, old(self)@.batch.gone);
                    if left.len() == 0 {
                        ClipView { op: None, paths: Seq::empty() }
                    } else {
                        ClipView { op: old(self)@.clipboard.op, paths: left }
                    }
                },
                ..old(self)@
            }),
    {
        proof {
            reveal(seen);
        }
        self.clipboard.take_off(&self.batch.gone);
    }

    fn last_target(&self) -> (r: Option<Path>)
        ensures
            path_view(r) == self@.batch.last,
    {
        proof {
            reveal(seen);
        }
        match &self.batch.last {
            Some(p) => Some(p.copy()),
            None => None,
        }
    }

    fn on_pasted(&mut self, cut: bool)
        requires
            old(self).wf(),
        ensures
            final(self).wf(),
            final(self)@ == old(self)@.pasted(cut),
    {
        proof {
            reveal(AppView::pasted);
        }
        let note = self.batch_note(Some(Transfer::Copy));
        let last = self.last_target();
        if cut {
            self.take_off_clipboard();
        }
        self.set_status(note);
        match last {
            Some(t) => self.plan(two_steps(Step::Reload, Step::Reveal(t))),
            None => self.plan_one(Step::Reload),
        }
    }

    fn on_moved_marked(&mut self)
        requires
            old(self).wf(),
        ensures
            final(self).wf(),
            final(self)@ == old(self)@.moved_marked(),
    {
        proof {
            reveal(AppView::moved_marked);
        }
        let note = self.batch_note(Some(Transfer::Marked));
        self.unmark_gone();
        self.plan(three_steps(Step::Save, Step::Reload, Step::Say(note)));
    }

    /// A batch of transfers is done.
    pub fn on_all_sent(&mut self, kind: Transfer)
        requires
            old(self).wf(),
        ensures
            final(self).wf(),
            final(self)@ == old(self)@.sent_all(kind),
    {
        proof {
            reveal(AppView::sent_all);
        }
        match kind {
            Transfer::Cut => self.on_pasted(true),
            Transfer::Copy => self.on_pasted(false),
            Transfer::Marked => self.on_moved_marked(),
        }
    }

    fn kept_text(&self) -> (r: Option<String>)
        ensures
            text_opt(r) == (if self@.config.bookmarks_persist {
                Some(text_for(listed(self@.marks)))
            } else {
                None
            }),
    {
        proof {
            reveal(seen);
        }
        if self.config.bookmarks_persist {
            Some(self.marks.save())
        } else {
            None
        }
    }

    /// Keeps the bookmarks, if they are kept.
    pub fn save_marks(&mut self)
        requires
            old(self).wf(),
        ensures
            final(self).wf(),
            final(self)@ == old(self)@.saved(),
    {
        proof {
            reveal(AppView::saved);
        }
        if let Some(text) = self.kept_text() {
            self.plan_one(Step::Do(Effect::SaveMarks(text)));
        }
    }
}

/// Takes paths out of a set.
fn drop_paths(set: &mut PathSet, gone: &Vec<Path>)
    ensures
        final(set).texts() == old(set).texts().remove_keys(comps_set(gone@)),
{
    let mut i: usize = 0;
    let ghost start = set.texts();
    assert(start =~= start.remove_keys(comps_set(gone@.take(0))));
    while i < gone.len()
        invariant
            i <= gone@.len(),
            set.texts() == start.remove_keys(comps_set(gone@.take(i as int))),
        decreases gone@.len() - i,
    {
        let _was = set.remove(&gone[i]);
        proof {
            lemma_comps_set_push(gone@, i as int);
            assert(set.texts() =~= start.remove_keys(comps_set(gone@.take(i + 1))));
        }
        i += 1;
    }
    assert(gone@.take(i as int) =~= gone@);
}

} // verus!
