//! What the keys and the mouse do.

use vstd::prelude::*;

use crate::app::files::{fresh_input, PathKind, RenameKind};
use crate::app::nav::Filter;
use crate::app::state::{seen, two_steps, App, AppView, Mouse, MouseKind, Step, StepView};
use crate::clipboard::ClipOp;
use crate::editor::OpenMode;
use crate::keymap::{resolve, resolved, Action, Key, KeyCode};
use crate::paths::PathSet;
use crate::style::Rect;
use crate::ui_overlays::{help_count, help_line_count, HelpState, InputKind, InputState, InputView};
use crate::ui_overlays::{ConfirmView, KindView, Overlay, OverlayView};

verus! {

/// What a key does to a line that is being typed.
#[derive(Clone, Copy, Debug, PartialEq, Eq, Structural)]
pub enum Edit {
    Nothing,
    Backspace,
    Delete,
    Left,
    Right,
    Home,
    End,
    Type(char),
}

/// What a key does to a line that is being typed. With control, some letters
/// move the cursor; no other key with control or alt types anything.
pub open spec fn edit_of(key: Key) -> Edit {
    match key.code {
        KeyCode::Backspace => Edit::Backspace,
        KeyCode::Delete => Edit::Delete,
        KeyCode::Left => Edit::Left,
        KeyCode::Right => Edit::Right,
        KeyCode::Home => Edit::Home,
        KeyCode::End => Edit::End,
        KeyCode::Char(c) => if key.ctrl {
            match c {
                'b' => Edit::Left,
                'f' => Edit::Right,
                'a' => Edit::Home,
                'e' => Edit::End,
                'd' => Edit::Delete,
                _ => Edit::Nothing,
            }
        } else if key.alt {
            Edit::Nothing
        } else {
            Edit::Type(c)
        },
        _ => Edit::Nothing,
    }
}

/// A line after an edit.
pub open spec fn edited(v: InputView, edit: Edit) -> InputView {
    match edit {
        Edit::Nothing => v,
        Edit::Backspace => if v.before.len() > 0 {
            InputView { before: v.before.drop_last(), ..v }
        } else {
            v
        },
        Edit::Delete => if v.after.len() > 0 {
            InputView { after: v.after.drop_first(), ..v }
        } else {
            v
        },
        Edit::Left => if v.before.len() > 0 {
            InputView {
                before: v.before.drop_last(),
                after: seq![v.before.last()] + v.after,
                ..v
            }
        } else {
            v
        },
        Edit::Right => if v.after.len() > 0 {
            InputView {
                before: v.before.push(v.after[0]),
                after: v.after.drop_first(),
                ..v
            }
        } else {
            v
        },
        Edit::Home => InputView { before: Seq::empty(), after: v.typed(), ..v },
        Edit::End => InputView { before: v.typed(), after: Seq::empty(), ..v },
        Edit::Type(c) => InputView { before: v.before.push(c), ..v },
    }
}

/// How far the help can be scrolled where the list has an area. The help covers
/// the lines above and below the list as well, and keeps three of all of them
/// free.
pub open spec fn help_end(area: Rect) -> u16 {
    let width = if area.width > 4 {
        (area.width - 3) as nat
    } else {
        1
    };
    help_count(width).saturating_sub(area.height.saturating_sub(1))
}

/// How much of the help is one page.
pub open spec fn help_page(area: Rect) -> u16 {
    if area.height > 2 {
        (area.height - 1) as u16
    } else {
        1
    }
}

/// A number, no larger than another.
pub open spec fn capped(n: u16, max: u16) -> u16 {
    if n < max {
        n
    } else {
        max
    }
}

/// How far the help is scrolled after a key; a key that does not scroll closes
/// it.
pub open spec fn help_after(scroll: u16, area: Rect, code: KeyCode) -> Option<u16> {
    let end = help_end(area);
    let page = help_page(area);
    match code {
        KeyCode::Char('j') => Some(capped(scroll.saturating_add(1), end)),
        KeyCode::Down => Some(capped(scroll.saturating_add(1), end)),
        KeyCode::Char('k') => Some(scroll.saturating_sub(1)),
        KeyCode::Up => Some(scroll.saturating_sub(1)),
        KeyCode::Char('d') => Some(capped(scroll.saturating_add(page), end)),
        KeyCode::PageDown => Some(capped(scroll.saturating_add(page), end)),
        KeyCode::Char(' ') => Some(capped(scroll.saturating_add(page), end)),
        KeyCode::Char('u') => Some(scroll.saturating_sub(page)),
        KeyCode::PageUp => Some(scroll.saturating_sub(page)),
        KeyCode::Char('g') => Some(0),
        KeyCode::Home => Some(0),
        KeyCode::Char('G') => Some(end),
        KeyCode::End => Some(end),
        _ => None,
    }
}

/// The row of the list that the mouse is on.
pub open spec fn pointed_row(m: Mouse, area: Rect, offset: usize, rows: nat) -> Option<int> {
    let i = offset + m.row - area.y;
    if area.y <= m.row && m.row < area.y + area.height && i < rows {
        Some(i)
    } else {
        None
    }
}

/// A filter after a key: what was typed, one character longer or shorter.
pub open spec fn retyped(q: Option<Seq<char>>, code: KeyCode) -> Option<Seq<char>> {
    match q {
        Some(q) => match code {
            KeyCode::Char(c) => Some(q.push(c)),
            _ => Some(
                if q.len() > 0 {
                    q.drop_last()
                } else {
                    q
                },
            ),
        },
        None => None,
    }
}

impl AppView {
    /// To be left.
    pub open spec fn quitting(self) -> AppView {
        AppView { should_quit: true, ..self }
    }

    /// Without the filter, and with the rows that are shown without it.
    pub open spec fn unfiltered(self) -> AppView {
        self.filter_cleared().planned(seq![StepView::RowsHere])
    }

    /// Without the filter; or, where there is none, without the selection; or,
    /// where there is none, without the keys pressed so far and the message.
    #[verifier::opaque]
    pub open spec fn cleared(self) -> AppView {
        if self.live_filter is Some {
            self.unfiltered().said("filter cleared"@)
        } else if self.selection.dom() != Set::<Seq<Seq<u8>>>::empty() {
            AppView { selection: Map::empty(), pending: Seq::empty(), ..self }.planned(
                seq![StepView::RowsHere],
            )
        } else {
            AppView { pending: Seq::empty(), ..self }.hushed()
        }
    }

    /// After an action. It takes the message away first.
    pub open spec fn dispatched(self, action: Action) -> AppView {
        self.hushed().after_move(action)
    }

    /// After an action that moves the cursor, or any other.
    #[verifier::opaque]
    pub open spec fn after_move(self, action: Action) -> AppView {
        match action {
            Action::Quit => self.quitting(),
            Action::Down => self.moved(true),
            Action::Up => self.moved(false),
            Action::FirstSibling => self.at_sibling_edge(true),
            Action::LastSibling => self.at_sibling_edge(false),
            Action::NextSibling => self.at_sibling_step(true),
            Action::PrevSibling => self.at_sibling_step(false),
            Action::CursorParent => self.at_parent(),
            Action::NextGit => self.at_change(true),
            Action::PrevGit => self.at_change(false),
            _ => self.after_opening(action),
        }
    }

    /// After an action that opens or closes something, or any other.
    #[verifier::opaque]
    pub open spec fn after_opening(self, action: Action) -> AppView {
        match action {
            Action::OpenOrToggle => self.chosen(),
            Action::Expand => self.unfolded(),
            Action::CollapseOrParent => self.folded(),
            Action::CdInto => self.cd_in(),
            Action::RootParent => self.cd_up(),
            Action::ExpandAll => self.all_unfolded(),
            Action::CollapseAll => self.all_folded(),
            Action::Preview => self.previewed(),
            Action::VSplit => self.opened_in(OpenMode::VSplit),
            Action::HSplit => self.opened_in(OpenMode::HSplit),
            Action::SystemOpen => self.system_opened(),
            _ => self.after_filing(action),
        }
    }

    /// After an action on files, or any other.
    #[verifier::opaque]
    pub open spec fn after_filing(self, action: Action) -> AppView {
        match action {
            Action::Create => self.create_started(),
            Action::Delete => self.delete_started(false),
            Action::Trash => self.delete_started(true),
            Action::Rename => self.rename_started(RenameKind::Basename2Full),
            Action::RenameBasename => self.rename_started(RenameKind::Basename),
            Action::RenameFull => self.rename_started(RenameKind::Full),
            Action::RenameOmitFilename => self.rename_started(RenameKind::OmitFilename),
            Action::Cut => self.clipped(ClipOp::Cut),
            Action::Copy => self.clipped(ClipOp::Copy),
            Action::Paste => self.pasting(),
            Action::CopyFilename => self.yanked(PathKind::Filename),
            Action::CopyRelpath => self.yanked(PathKind::Relative),
            Action::CopyAbspath => self.yanked(PathKind::Absolute),
            Action::FileInfo => self.inspecting(),
            _ => self.after_showing(action),
        }
    }

    /// After an action on bookmarks, the selection or what is shown, or any other.
    #[verifier::opaque]
    pub open spec fn after_showing(self, action: Action) -> AppView {
        match action {
            Action::ToggleMark => self.mark_toggled(),
            Action::BulkDelete => self.removing_marked(false),
            Action::BulkTrash => self.removing_marked(true),
            Action::BulkMove => self.moving_marked(),
            Action::ToggleHidden => self.filter_toggled(Filter::Hidden),
            Action::ToggleGitClean => self.filter_toggled(Filter::GitClean),
            Action::ToggleCustom => self.filter_toggled(Filter::Custom),
            Action::ToggleNoBuffer => self.filter_toggled(Filter::NoBuffer),
            Action::ToggleNoBookmark => self.filter_toggled(Filter::NoBookmark),
            Action::ToggleGroupEmpty => self.group_toggled(),
            Action::ToggleSelect => self.select_toggled(),
            _ => self.after_asking(action),
        }
    }

    /// After an action that filters, searches or asks for help, or any other.
    #[verifier::opaque]
    pub open spec fn after_asking(self, action: Action) -> AppView {
        match action {
            Action::LiveFilterStart => self.filter_started(),
            Action::LiveFilterClear => self.unfiltered(),
            Action::SearchNode => self.covered(
                fresh_input(" search "@, Seq::empty(), KindView::Search),
            ),
            Action::Refresh => self.planned(seq![StepView::Reload, StepView::Say("refreshed"@)]),
            Action::Help => self.covered(OverlayView::Help(HelpState { scroll: 0 })),
            Action::ClearSelect => self.cleared(),
            _ => self,
        }
    }

    /// After a key in a prompt.
    #[verifier::opaque]
    pub open spec fn input_keyed(self, v: InputView, key: Key) -> AppView {
        match key.code {
            KeyCode::Esc => self.covered(OverlayView::Closed),
            KeyCode::Enter => self.covered(OverlayView::Closed).submitted(v),
            _ => self.covered(OverlayView::Input(edited(v, edit_of(key)))),
        }
    }

    /// After a key in answer to a question.
    #[verifier::opaque]
    pub open spec fn confirm_keyed(self, v: ConfirmView, code: KeyCode) -> AppView {
        match code {
            KeyCode::Char('y') => self.covered(OverlayView::Closed).confirmed(v.kind),
            KeyCode::Char('Y') => self.covered(OverlayView::Closed).confirmed(v.kind),
            KeyCode::Char('n') => self.covered(OverlayView::Closed),
            KeyCode::Char('N') => self.covered(OverlayView::Closed),
            KeyCode::Esc => self.covered(OverlayView::Closed),
            _ => self,
        }
    }

    /// After a key in the help.
    #[verifier::opaque]
    pub open spec fn help_keyed(self, scroll: u16, code: KeyCode) -> AppView {
        match help_after(scroll, self.list_area, code) {
            Some(n) => self.covered(OverlayView::Help(HelpState { scroll: n })),
            None => self.covered(OverlayView::Closed),
        }
    }

    /// After a key while a filter is typed.
    #[verifier::opaque]
    pub open spec fn live_keyed(self, key: Key) -> AppView {
        if key.ctrl && key.code == KeyCode::Char('c') {
            self.quitting()
        } else {
            match key.code {
                KeyCode::Esc => self.unfiltered(),
                KeyCode::Enter => AppView { live_editing: false, ..self },
                KeyCode::Backspace => AppView {
                    live_filter: retyped(self.live_filter, key.code),
                    ..self
                }.filtered(),
                KeyCode::Char(c) => if key.ctrl || key.alt {
                    self
                } else {
                    AppView { live_filter: retyped(self.live_filter, key.code), ..self }.filtered()
                },
                _ => self,
            }
        }
    }

    /// After a key on the tree. One that asks for nothing, and begins nothing,
    /// does not count as acting on it.
    #[verifier::opaque]
    pub open spec fn tree_keyed(self, key: Key) -> AppView {
        let (action, pending) = resolved(key, self.pending);
        let s = if action != Action::Nothing || pending.len() > 0 {
            self.touched_now()
        } else {
            self
        };
        let t = AppView { pending, ..s };
        if action != Action::Nothing {
            t.dispatched(action)
        } else {
            t
        }
    }

    /// After a key.
    #[verifier::opaque]
    pub open spec fn keyed(self, key: Key) -> AppView {
        let s = self.touched_now();
        let bare = s.covered(OverlayView::Closed);
        match self.overlay {
            OverlayView::Input(v) => bare.input_keyed(v, key),
            OverlayView::Confirm(v) => s.confirm_keyed(v, key.code),
            OverlayView::Info(_) => bare,
            OverlayView::Help(h) => bare.help_keyed(h.scroll, key.code),
            OverlayView::Closed => if self.live_editing {
                s.live_keyed(key)
            } else {
                self.tree_keyed(key)
            },
        }
    }

    /// After the mouse did something. What is done elsewhere than on a row does
    /// not count as acting on the tree.
    #[verifier::opaque]
    pub open spec fn moused(self, m: Mouse) -> AppView {
        if !self.config.mouse {
            self
        } else {
            match m.kind {
                MouseKind::ScrollDown => self.touched_now().moved(true),
                MouseKind::ScrollUp => self.touched_now().moved(false),
                MouseKind::LeftDown => match pointed_row(
                    m,
                    self.list_area,
                    self.list.offset,
                    self.rows.len(),
                ) {
                    Some(i) => self.touched_now().at_row(i).chosen(),
                    None => self,
                },
                MouseKind::Other => self,
            }
        }
    }
}

/// What a key does to a line that is being typed.
pub fn find_edit(key: Key) -> (r: Edit)
    ensures
        r == edit_of(key),
{
    match key.code {
        KeyCode::Backspace => Edit::Backspace,
        KeyCode::Delete => Edit::Delete,
        KeyCode::Left => Edit::Left,
        KeyCode::Right => Edit::Right,
        KeyCode::Home => Edit::Home,
        KeyCode::End => Edit::End,
        KeyCode::Char(c) => if key.ctrl {
            match c {
                'b' => Edit::Left,
                'f' => Edit::Right,
                'a' => Edit::Home,
                'e' => Edit::End,
                'd' => Edit::Delete,
                _ => Edit::Nothing,
            }
        } else if key.alt {
            Edit::Nothing
        } else {
            Edit::Type(c)
        },
        _ => Edit::Nothing,
    }
}

fn apply_edit(state: &mut InputState, edit: Edit)
    requires
        old(state).wf(),
    ensures
        final(state).wf(),
        final(state)@ == edited(old(state)@, edit),
{
    match edit {
        Edit::Nothing => {},
        Edit::Backspace => state.backspace(),
        Edit::Delete => state.delete(),
        Edit::Left => state.left(),
        Edit::Right => state.right(),
        Edit::Home => state.home(),
        Edit::End => state.end(),
        Edit::Type(c) => state.insert(c),
    }
}

fn cap(n: u16, max: u16) -> (r: u16)
    ensures
        r == capped(n, max),
{
    if n < max {
        n
    } else {
        max
    }
}

/// How far the help is scrolled after a key.
pub fn scroll_help(scroll: u16, area: Rect, code: KeyCode) -> (r: Option<u16>)
    ensures
        r == help_after(scroll, area, code),
{
    let width: usize = if area.width > 4 {
        (area.width - 3) as usize
    } else {
        1
    };
    let end: u16 = help_line_count(width).saturating_sub(area.height.saturating_sub(1));
    let page: u16 = if area.height > 2 {
        area.height - 1
    } else {
        1
    };
    match code {
        KeyCode::Char('j') | KeyCode::Down => Some(cap(scroll.saturating_add(1), end)),
        KeyCode::Char('k') | KeyCode::Up => Some(scroll.saturating_sub(1)),
        KeyCode::Char('d') | KeyCode::PageDown | KeyCode::Char(' ') => Some(
            cap(scroll.saturating_add(page), end),
        ),
        KeyCode::Char('u') | KeyCode::PageUp => Some(scroll.saturating_sub(page)),
        KeyCode::Char('g') | KeyCode::Home => Some(0),
        KeyCode::Char('G') | KeyCode::End => Some(end),
        _ => None,
    }
}

/// The row of the list that the mouse is on.
pub fn find_pointed(m: Mouse, area: Rect, offset: usize, rows: usize) -> (r: Option<usize>)
    ensures
        match r {
            Some(i) => i < rows && pointed_row(m, area, offset, rows as nat) == Some(i as int),
            None => pointed_row(m, area, offset, rows as nat) is None,
        },
{
    if m.row < area.y || m.row as u32 >= area.y as u32 + area.height as u32 {
        return None;
    }
    let down: usize = (m.row - area.y) as usize;
    if offset >= rows || down >= rows - offset {
        return None;
    }
    Some(offset + down)
}

/// A filter after a key.
fn retype(q: &Option<String>, code: KeyCode) -> (r: Option<String>)
    ensures
        crate::app::state::text_opt(r) == retyped(crate::app::state::text_opt(*q), code),
{
    match q {
        Some(q) => {
            let mut v = crate::text::to_chars(q.as_str());
            match code {
                KeyCode::Char(c) => v.push(c),
                _ => {
                    let _last = v.pop();
                },
            }
            let next = crate::text::from_chars(v.as_slice());
            assert(v@ =~= retyped(Some(q@), code)->0);
            Some(next)
        },
        None => None,
    }
}

impl App {
    fn take_overlay(&mut self) -> (r: Overlay)
        requires
            old(self).wf(),
        ensures
            final(self).wf(),
            r.wf(),
            r@ == old(self)@.overlay,
            final(self)@ == old(self)@.covered(OverlayView::Closed),
    {
        proof {
            reveal(seen);
        }
        let mut taken = Overlay::Closed;
        std::mem::swap(&mut taken, &mut self.overlay);
        taken
    }

    fn quit(&mut self)
        requires
            old(self).wf(),
        ensures
            final(self).wf(),
            final(self)@ == old(self)@.quitting(),
    {
        proof {
            reveal(seen);
        }
        self.should_quit = true;
    }

    fn stop_typing(&mut self)
        requires
            old(self).wf(),
        ensures
            final(self).wf(),
            final(self)@ == (AppView { live_editing: false, ..old(self)@ }),
    {
        proof {
            reveal(seen);
        }
        self.live_editing = false;
    }

    fn set_pending(&mut self, pending: String)
        requires
            old(self).wf(),
        ensures
            final(self).wf(),
            final(self)@ == (AppView { pending: pending@, ..old(self)@ }),
    {
        proof {
            reveal(seen);
        }
        self.pending = pending;
    }

    fn clear_pending(&mut self)
        requires
            old(self).wf(),
        ensures
            final(self).wf(),
            final(self)@ == (AppView { pending: Seq::empty(), ..old(self)@ }),
    {
        let none = String::new();
        assert(none@ =~= Seq::empty());
        self.set_pending(none);
    }

    fn drop_selection(&mut self) -> (had: bool)
        requires
            old(self).wf(),
        ensures
            final(self).wf(),
            had == (old(self)@.selection.dom() != Set::<Seq<Seq<u8>>>::empty()),
            final(self)@ == if had {
                AppView { selection: Map::empty(), ..old(self)@ }
            } else {
                old(self)@
            },
    {
        proof {
            reveal(seen);
        }
        if self.selection.is_empty() {
            return false;
        }
        self.selection = PathSet::new();
        true
    }

    fn has_filter(&self) -> (r: bool)
        ensures
            r == (self@.live_filter is Some),
    {
        proof {
            reveal(seen);
        }
        self.live_filter.is_some()
    }

    fn retype_filter(&mut self, code: KeyCode)
        requires
            old(self).wf(),
        ensures
            final(self).wf(),
            final(self)@ == (AppView {
                live_filter: retyped(old(self)@.live_filter, code),
                ..old(self)@
            }),
    {
        proof {
            reveal(seen);
        }
        let next = retype(&self.live_filter, code);
        self.live_filter = next;
    }

    fn unfilter(&mut self)
        requires
            old(self).wf(),
        ensures
            final(self).wf(),
            final(self)@ == old(self)@.unfiltered(),
    {
        self.clear_live_filter();
        self.plan_one(Step::RowsHere);
    }

    fn clear_select(&mut self)
        requires
            old(self).wf(),
        ensures
            final(self).wf(),
            final(self)@ == old(self)@.cleared(),
    {
        proof {
            reveal(AppView::cleared);
        }
        if self.has_filter() {
            self.unfilter();
            self.set_status("filter cleared".to_owned());
        } else if self.drop_selection() {
            self.clear_pending();
            self.plan_one(Step::RowsHere);
        } else {
            self.clear_pending();
            self.clear_status();
        }
    }

    fn start_search(&mut self)
        requires
            old(self).wf(),
        ensures
            final(self).wf(),
            final(self)@ == old(self)@.covered(
                fresh_input(" search "@, Seq::empty(), KindView::Search),
            ),
    {
        let none = String::new();
        assert(none@ =~= Seq::empty());
        self.cover(Overlay::Input(InputState::new(" search ", none, InputKind::Search)));
    }

    /// Does what an action asks for.
    pub fn dispatch(&mut self, action: Action)
        requires
            old(self).wf(),
        ensures
            final(self).wf(),
            final(self)@ == old(self)@.dispatched(action),
    {
        self.clear_status();
        self.do_move(action);
    }

    fn do_move(&mut self, action: Action)
        requires
            old(self).wf(),
        ensures
            final(self).wf(),
            final(self)@ == old(self)@.after_move(action),
    {
        proof {
            reveal(AppView::after_move);
        }
        match action {
            Action::Quit => self.quit(),
            Action::Down => self.move_selection(true),
            Action::Up => self.move_selection(false),
            Action::FirstSibling => self.jump_sibling_edge(true),
            Action::LastSibling => self.jump_sibling_edge(false),
            Action::NextSibling => self.jump_sibling_step(true),
            Action::PrevSibling => self.jump_sibling_step(false),
            Action::CursorParent => self.cursor_parent(),
            Action::NextGit => self.jump_git(true),
            Action::PrevGit => self.jump_git(false),
            _ => self.do_opening(action),
        }
    }

    fn do_opening(&mut self, action: Action)
        requires
            old(self).wf(),
        ensures
            final(self).wf(),
            final(self)@ == old(self)@.after_opening(action),
    {
        proof {
            reveal(AppView::after_opening);
        }
        match action {
            Action::OpenOrToggle => self.open_or_toggle(),
            Action::Expand => self.expand_current(),
            Action::CollapseOrParent => self.collapse_or_parent(),
            Action::CdInto => self.cd_into(),
            Action::RootParent => self.root_parent(),
            Action::ExpandAll => self.expand_all(),
            Action::CollapseAll => self.collapse_all(),
            Action::Preview => self.preview(),
            Action::VSplit => self.open_mode(OpenMode::VSplit),
            Action::HSplit => self.open_mode(OpenMode::HSplit),
            Action::SystemOpen => self.system_open(),
            _ => self.do_filing(action),
        }
    }

    fn do_filing(&mut self, action: Action)
        requires
            old(self).wf(),
        ensures
            final(self).wf(),
            final(self)@ == old(self)@.after_filing(action),
    {
        proof {
            reveal(AppView::after_filing);
        }
        match action {
            Action::Create => self.start_create(),
            Action::Delete => self.start_confirm_delete(false),
            Action::Trash => self.start_confirm_delete(true),
            Action::Rename => self.start_rename(RenameKind::Basename2Full),
            Action::RenameBasename => self.start_rename(RenameKind::Basename),
            Action::RenameFull => self.start_rename(RenameKind::Full),
            Action::RenameOmitFilename => self.start_rename(RenameKind::OmitFilename),
            Action::Cut => self.clip(ClipOp::Cut),
            Action::Copy => self.clip(ClipOp::Copy),
            Action::Paste => self.paste(),
            Action::CopyFilename => self.copy_path_kind(PathKind::Filename),
            Action::CopyRelpath => self.copy_path_kind(PathKind::Relative),
            Action::CopyAbspath => self.copy_path_kind(PathKind::Absolute),
            Action::FileInfo => self.file_info(),
            _ => self.do_showing(action),
        }
    }

    fn do_showing(&mut self, action: Action)
        requires
            old(self).wf(),
        ensures
            final(self).wf(),
            final(self)@ == old(self)@.after_showing(action),
    {
        proof {
            reveal(AppView::after_showing);
        }
        match action {
            Action::ToggleMark => self.toggle_mark(),
            Action::BulkDelete => self.bulk_remove(false),
            Action::BulkTrash => self.bulk_remove(true),
            Action::BulkMove => self.bulk_move(),
            Action::ToggleHidden => self.toggle_filter(Filter::Hidden),
            Action::ToggleGitClean => self.toggle_filter(Filter::GitClean),
            Action::ToggleCustom => self.toggle_filter(Filter::Custom),
            Action::ToggleNoBuffer => self.toggle_filter(Filter::NoBuffer),
            Action::ToggleNoBookmark => self.toggle_filter(Filter::NoBookmark),
            Action::ToggleGroupEmpty => self.toggle_group_empty(),
            Action::ToggleSelect => self.toggle_select(),
            _ => self.do_asking(action),
        }
    }

    fn do_asking(&mut self, action: Action)
        requires
            old(self).wf(),
        ensures
            final(self).wf(),
            final(self)@ == old(self)@.after_asking(action),
    {
        proof {
            reveal(AppView::after_asking);
        }
        match action {
            Action::LiveFilterStart => self.start_live_filter(),
            Action::LiveFilterClear => self.unfilter(),
            Action::SearchNode => self.start_search(),
            Action::Refresh => self.plan(
                two_steps(Step::Reload, Step::Say("refreshed".to_owned())),
            ),
            Action::Help => self.cover(Overlay::Help(HelpState { scroll: 0 })),
            Action::ClearSelect => self.clear_select(),
            _ => {},
        }
    }

    fn on_input_key(&mut self, state: InputState, key: Key)
        requires
            old(self).wf(),
            state.wf(),
            old(self)@.overlay == OverlayView::Closed,
        ensures
            final(self).wf(),
            final(self)@ == old(self)@.input_keyed(state@, key),
    {
        proof {
            reveal(AppView::input_keyed);
        }
        match key.code {
            KeyCode::Esc => {},
            KeyCode::Enter => self.submit_input(state),
            _ => {
                let mut state = state;
                apply_edit(&mut state, find_edit(key));
                self.cover(Overlay::Input(state));
            },
        }
    }

    fn on_confirm_key(&mut self, state: crate::ui_overlays::ConfirmState, code: KeyCode)
        requires
            old(self).wf(),
            old(self)@.overlay == OverlayView::Closed,
        ensures
            final(self).wf(),
            final(self)@ == old(self)@.covered(OverlayView::Confirm(state@)).confirm_keyed(
                state@,
                code,
            ),
    {
        proof {
            reveal(AppView::confirm_keyed);
        }
        match code {
            KeyCode::Char('y') | KeyCode::Char('Y') => self.run_confirm(state.kind),
            KeyCode::Char('n') | KeyCode::Char('N') | KeyCode::Esc => {},
            _ => self.cover(Overlay::Confirm(state)),
        }
    }

    fn area_of_list(&self) -> (r: Rect)
        ensures
            r == self@.list_area,
    {
        proof {
            reveal(seen);
        }
        self.list_area
    }

    fn on_help_key(&mut self, scroll: u16, code: KeyCode)
        requires
            old(self).wf(),
        ensures
            final(self).wf(),
            final(self)@ == old(self)@.help_keyed(scroll, code),
    {
        proof {
            reveal(AppView::help_keyed);
        }
        match scroll_help(scroll, self.area_of_list(), code) {
            Some(n) => self.cover(Overlay::Help(HelpState { scroll: n })),
            None => self.cover(Overlay::Closed),
        }
    }

    fn on_live_key(&mut self, key: Key)
        requires
            old(self).wf(),
        ensures
            final(self).wf(),
            final(self)@ == old(self)@.live_keyed(key),
    {
        proof {
            reveal(AppView::live_keyed);
        }
        if key.ctrl && key.code == KeyCode::Char('c') {
            self.quit();
            return;
        }
        match key.code {
            KeyCode::Esc => self.unfilter(),
            KeyCode::Enter => self.stop_typing(),
            KeyCode::Backspace => {
                self.retype_filter(key.code);
                self.refresh_filtered_view();
            },
            KeyCode::Char(_) => if !key.ctrl && !key.alt {
                self.retype_filter(key.code);
                self.refresh_filtered_view();
            },
            _ => {},
        }
    }

    fn resolve_key(&self, key: Key) -> (r: (Action, String))
        ensures
            (r.0, r.1@) == resolved(key, self@.pending),
    {
        proof {
            reveal(seen);
        }
        resolve(key, self.pending.as_str())
    }

    fn on_tree_key(&mut self, key: Key)
        requires
            old(self).wf(),
        ensures
            final(self).wf(),
            final(self)@ == old(self)@.tree_keyed(key),
    {
        proof {
            reveal(AppView::tree_keyed);
        }
        let (action, pending) = self.resolve_key(key);
        if action != Action::Nothing || !pending.as_str().is_empty() {
            self.touch();
        }
        self.set_pending(pending);
        if action != Action::Nothing {
            self.dispatch(action);
        }
    }

    fn types_filter(&self) -> (r: bool)
        ensures
            r == self@.live_editing,
    {
        proof {
            reveal(seen);
        }
        self.live_editing
    }

    fn is_covered(&self) -> (r: bool)
        ensures
            r == (self@.overlay !is Closed),
    {
        proof {
            reveal(seen);
        }
        match &self.overlay {
            Overlay::Closed => false,
            _ => true,
        }
    }

    /// Acts on a key.
    pub fn on_key(&mut self, key: Key)
        requires
            old(self).wf(),
        ensures
            final(self).wf(),
            final(self)@ == old(self)@.keyed(key),
    {
        proof {
            reveal(AppView::keyed);
        }
        if !self.is_covered() {
            if self.types_filter() {
                self.touch();
                self.on_live_key(key);
            } else {
                self.on_tree_key(key);
            }
            return;
        }
        self.touch();
        let ghost s = self@;
        let taken = self.take_overlay();
        assert(s == self@.covered(taken@));
        match taken {
            Overlay::Input(state) => self.on_input_key(state, key),
            Overlay::Confirm(state) => self.on_confirm_key(state, key.code),
            Overlay::Help(state) => self.on_help_key(state.scroll, key.code),
            Overlay::Info(_) | Overlay::Closed => {},
        }
    }

    fn pointed(&self, m: Mouse) -> (r: Option<usize>)
        ensures
            match r {
                Some(i) => i < self.rows@.len() && pointed_row(
                    m,
                    self@.list_area,
                    self@.list.offset,
                    self@.rows.len(),
                ) == Some(i as int),
                None => pointed_row(
                    m,
                    self@.list_area,
                    self@.list.offset,
                    self@.rows.len(),
                ) is None,
            },
    {
        proof {
            reveal(seen);
        }
        find_pointed(m, self.list_area, self.list.offset, self.rows.len())
    }

    fn takes_mouse(&self) -> (r: bool)
        ensures
            r == self@.config.mouse,
    {
        proof {
            reveal(seen);
        }
        self.config.mouse
    }

    /// Acts on what the mouse did.
    pub fn on_mouse(&mut self, m: Mouse)
        requires
            old(self).wf(),
        ensures
            final(self).wf(),
            final(self)@ == old(self)@.moused(m),
    {
        proof {
            reveal(AppView::moused);
        }
        if !self.takes_mouse() {
            return;
        }
        match m.kind {
            MouseKind::ScrollDown => {
                self.touch();
                self.move_selection(true);
            },
            MouseKind::ScrollUp => {
                self.touch();
                self.move_selection(false);
            },
            MouseKind::LeftDown => {
                if let Some(i) = self.pointed(m) {
                    self.touch_row(i);
                    self.open_or_toggle();
                }
            },
            MouseKind::Other => {},
        }
    }

    fn touch_row(&mut self, i: usize)
        requires
            old(self).wf(),
            i < old(self).rows@.len(),
        ensures
            final(self).wf(),
            final(self)@ == old(self)@.touched_now().at_row(i as int),
    {
        proof {
            reveal(seen);
        }
        self.last_input = Some(self.now);
        self.list.selected = Some(i);
    }
}

} // verus!
