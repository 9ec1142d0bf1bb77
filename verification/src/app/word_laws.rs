//! What holds of what the explorer says: the status line, the prompts and what
//! is told about a file.

use vstd::prelude::*;

use crate::app::draw::{flag, flag_letters, offset_for, rows_below, summary};
use crate::app::files::{confirm_for, moved_text, pasted_text, removed_text};
use crate::app::names::{ago_text, info_lines, named_paths, octal_digits, relative, status_word};
use crate::app::names::{type_word, typed_path};
use crate::app::state::{fresh_app, Age, AppView, BatchView, FileType, ListState, MetaView};
use crate::app::state::StepView;
use crate::app::keys::help_end;
use crate::config::Config;
use crate::diagnostics::{mode_named, Mode};
use crate::git::GitStatus;
use crate::path::{comps, is_name, join_text, lemma_comps, lemma_join_name, lemma_resolved_text};
use crate::path::{resolved, rest_text};
use crate::marks::kept_in;
use crate::paths::listed;
use crate::style::Rect;
use crate::text::{digits, joined, lossy_text, lowercase};
use crate::theme::Theme;
use crate::tree::model::ScanView;
use crate::tree::rows::RowView;
use crate::tree::sort::sort_named;
use crate::ui_overlays::{bottom_of, confirm_box, info_box, input_box, ConfirmView, InfoView};
use crate::ui_overlays::{cursor_cells, display_width, help_count, input_scroll, InputView};

verus! {

proof fn lemma_one_flag(before: Seq<char>, on: bool, letter: char, c: char)
    ensures
        (before + flag(on, letter)).contains(c) == (before.contains(c) || (on && c == letter)),
{
    let all = before + flag(on, letter);
    if before.contains(c) {
        let i = before.index_of(c);
        assert(all[i] == c);
    }
    if on && c == letter {
        assert(all[before.len() as int] == c);
    }
    if all.contains(c) {
        let i = all.index_of(c);
        if i < before.len() {
            assert(before[i] == c);
        }
    }
}

/// The letters in the status line: each is there exactly while its toggle is on,
/// and there are no others.
pub proof fn law_flag_letters(s: AppView, c: char)
    ensures
        flag_letters(s).contains(c) == ((c == '.' && s.tree.show_hidden) || (c == 'C'
            && s.toggles.git_clean) || (c == 'M' && s.toggles.no_bookmark) || (c == 'B'
            && s.toggles.no_buffer) || (c == 'U' && s.toggles.custom_active) || (c == 'L'
            && s.tree.group_empty)),
{
    let a = flag(s.tree.show_hidden, '.');
    let b = a + flag(s.toggles.git_clean, 'C');
    let d = b + flag(s.toggles.no_bookmark, 'M');
    let e = d + flag(s.toggles.no_buffer, 'B');
    let f = e + flag(s.toggles.custom_active, 'U');
    lemma_one_flag(Seq::empty(), s.tree.show_hidden, '.', c);
    assert(Seq::<char>::empty() + a =~= a);
    lemma_one_flag(a, s.toggles.git_clean, 'C', c);
    lemma_one_flag(b, s.toggles.no_bookmark, 'M', c);
    lemma_one_flag(d, s.toggles.no_buffer, 'B', c);
    lemma_one_flag(e, s.toggles.custom_active, 'U', c);
    lemma_one_flag(f, s.tree.group_empty, 'L', c);
}

/// The status line shows the filter and the message that belongs to it where
/// there is a filter; otherwise the message where there is one, and otherwise
/// what there is to count.
pub proof fn law_status_line(s: AppView)
    ensures
        s.live_filter matches Some(q) ==> {
            let line = s.status_spans();
            &&& line.len() >= 3
            &&& line[0].text == "filter: "@
            &&& line[1].text == q
            &&& s.status matches Some(msg) ==> line.len() == 5 && line[4].text == msg
            &&& s.status is None ==> line.len() == 3
            &&& s.live_editing ==> line[2].text == "▏"@
            &&& !s.live_editing ==> line[2].text == ""@
        },
        s.live_filter is None ==> s.status_spans().len() == 1,
        s.live_filter is None ==> (s.status matches Some(msg) ==> s.status_spans()[0].text == msg),
        s.live_filter is None && s.status is None ==> s.status_spans()[0].text == joined(
            summary(s),
            "  "@,
        ),
{
}

/// What is counted: the rows, what is selected where something is, and whether
/// there is a repository.
pub proof fn law_summary(s: AppView)
    ensures
        summary(s).len() >= 1,
        summary(s)[0] == digits(s.rows.len()) + " items"@,
        summary(s).contains("git"@) || s.git.toplevel is None,
        s.git.toplevel is None && s.selection.dom() == Set::<Seq<Seq<u8>>>::empty()
            && flag_letters(s).len() == 0 ==> summary(s).len() == 1,
{
    let p = summary(s);
    if s.git.toplevel is Some {
        let i: int = if s.selection.dom() != Set::<Seq<Seq<u8>>>::empty() {
            2
        } else {
            1
        };
        assert(p[i] == "git"@);
    }
}

/// How long ago something was, in the largest unit that it fills.
pub proof fn law_ages(s: u64)
    ensures
        s < 60 ==> ago_text(Age::Seconds(s)) == digits(s as nat) + "s ago"@,
        60 <= s < 60 * 60 ==> ago_text(Age::Seconds(s)) == digits((s / 60) as nat) + "m ago"@,
        60 * 60 <= s < 24 * 60 * 60 ==> ago_text(Age::Seconds(s)) == digits((s / 3600) as nat)
            + "h ago"@,
        24 * 60 * 60 <= s ==> ago_text(Age::Seconds(s)) == digits((s / 86400) as nat) + "d ago"@,
        ago_text(Age::Future) == "in the future"@,
{
}

/// The words for the kinds of file and for the statuses.
pub proof fn law_words()
    ensures
        type_word(FileType::Directory) == "directory"@,
        type_word(FileType::Symlink) == "symlink"@,
        type_word(FileType::File) == "file"@,
        status_word(GitStatus::Ignored) == "Ignored"@,
        status_word(GitStatus::Untracked) == "Untracked"@,
        status_word(GitStatus::Conflict) == "Conflict"@,
        status_word(GitStatus::Deleted) == "Deleted"@,
        status_word(GitStatus::Renamed) == "Renamed"@,
        status_word(GitStatus::Dirty) == "Dirty"@,
        status_word(GitStatus::Staged) == "Staged"@,
{
}

/// The permission bits, three to a digit.
pub proof fn law_octal(hundreds: nat, eights: nat, ones: nat)
    requires
        1 <= hundreds < 8,
        eights < 8,
        ones < 8,
    ensures
        octal_digits(hundreds * 64 + eights * 8 + ones) == digits(hundreds) + digits(eights)
            + digits(ones),
{
    let n = hundreds * 64 + eights * 8 + ones;
    assert(n / 8 == hundreds * 8 + eights);
    assert(n % 8 == ones);
    assert((n / 8) / 8 == hundreds);
    assert((n / 8) % 8 == eights);
    assert(octal_digits(hundreds) == digits(hundreds));
    assert(octal_digits(n / 8) == octal_digits(hundreds) + digits(eights));
    assert(octal_digits(n) == octal_digits(n / 8) + digits(ones));
}

/// What is told about a file: its path first, its status where it has one, and
/// at the end whether it is bookmarked.
pub proof fn law_info(p: Seq<u8>, meta: Option<MetaView>, git: Option<GitStatus>, marked: bool)
    ensures
        ({
            let lines = info_lines(p, meta, git, marked);
            &&& lines.len() >= 1 && lines[0] == "path: "@ + lossy_text(p)
            &&& marked ==> lines.last() == "bookmarked: yes"@
            &&& !marked ==> (git matches Some(s) ==> lines.last() == "git: "@ + status_word(s))
            &&& meta matches Some(m) ==> lines.len() >= 2 && lines[1] == "type: "@ + type_word(
                m.file_type,
            )
            &&& meta is None && git is None && !marked ==> lines.len() == 1
        }),
{
}

/// A path is named from the root on: what comes after the root's own parts.
pub proof fn law_relative_paths(p: Seq<u8>, root: Seq<u8>)
    ensures
        comps(root).is_prefix_of(comps(p)) ==> relative(p, root) == lossy_text(
            rest_text(p, comps(root).len() as int),
        ),
        !comps(root).is_prefix_of(comps(p)) ==> relative(p, root) == lossy_text(p),
        comps(root).is_prefix_of(comps(p)) && comps(root) != comps(p) ==> comps(
            rest_text(p, comps(root).len() as int),
        ) == comps(p).skip(comps(root).len() as int),
{
    if comps(root).is_prefix_of(comps(p)) {
        crate::path::lemma_rest(p, comps(root).len() as int);
    }
}

/// A plain name that is typed means that entry of the root itself.
pub proof fn law_plain_name_is_in_the_root(root: Seq<u8>, text: Seq<char>)
    requires
        is_name(vstd::utf8::encode_utf8(text)),
        resolved(comps(root)) == comps(root),
    ensures
        typed_path(root, text) matches Some(p) && comps(p) == comps(root).push(
            vstd::utf8::encode_utf8(text),
        ),
{
    let name = vstd::utf8::encode_utf8(text);
    let joined_path = join_text(root, name);
    lemma_join_name(root, name);
    lemma_comps(joined_path);
    let cs = comps(joined_path);
    assert(cs == comps(root).push(name));
    assert(cs.drop_last() =~= comps(root));
    assert(name[0] != 47u8) by {
        if name[0] == 47u8 {
            assert(name.contains(47u8));
        }
    }
    lemma_resolved_text(cs);
    assert(resolved(cs) == comps(root).push(name));
    assert(comps(root) =~= resolved(cs).subrange(0, comps(root).len() as int));
}

/// What is said after a batch: how many went, out of how many, and why not all
/// where some did not.
pub proof fn law_batch_messages(b: BatchView)
    ensures
        b.failed is None ==> removed_text(b) == "removed "@ + digits(b.total as nat) + " item(s)"@,
        b.failed is None ==> pasted_text(b) == "pasted "@ + digits(b.total as nat) + " item(s)"@,
        b.failed is None ==> moved_text(b) == "moved "@ + digits(b.total as nat)
            + " bookmarked item(s)"@,
        b.failed matches Some(e) ==> removed_text(b) == "removed "@ + digits(b.gone.len()) + " of "@
            + digits(b.total as nat) + " ("@ + e + ")"@,
        b.failed matches Some(e) ==> pasted_text(b) == "pasted "@ + digits(b.ok as nat) + " of "@
            + digits(b.total as nat) + " ("@ + e + ")"@,
{
}

/// The question before a removal says what it is about: the word for it, and the
/// name, or how many there are.
pub proof fn law_questions(targets: Seq<Seq<u8>>)
    ensures
        targets.len() == 1 ==> confirm_for(targets, true).prompt == "trash"@ + " "@
            + crate::tree::ops::name_text(targets[0]) + "?"@,
        targets.len() == 1 ==> confirm_for(targets, false).prompt == "delete"@ + " "@
            + crate::tree::ops::name_text(targets[0]) + "?"@,
        targets.len() > 1 ==> confirm_for(targets, true).prompt == "trash"@ + " "@ + digits(
            targets.len(),
        ) + " selected items?"@,
        targets.len() > 1 ==> confirm_for(targets, false).prompt == "delete"@ + " "@ + digits(
            targets.len(),
        ) + " selected items?"@,
{
}

/// At most three paths are named in a question, the rest is counted.
pub proof fn law_named_paths(paths: Seq<Seq<u8>>, root: Seq<u8>, i: int)
    ensures
        paths.len() <= 3 ==> named_paths(paths, root).len() == paths.len(),
        paths.len() > 3 ==> named_paths(paths, root).len() == 4 && named_paths(paths, root)[3]
            == "+"@ + digits((paths.len() - 3) as nat) + " more"@,
        0 <= i < 3 && i < paths.len() ==> named_paths(paths, root)[i] == relative(paths[i], root),
{
}

/// What lies over the tree at its foot is as high as asked, or as the area, and
/// ends where the area ends.
pub proof fn law_boxes_stand_at_the_foot(area: Rect, height: u16)
    requires
        area.y + area.height <= u16::MAX,
    ensures
        ({
            let b = bottom_of(area, height);
            &&& b.x == area.x && b.width == area.width
            &&& b.y + b.height == area.y + area.height
            &&& b.height == if height <= area.height {
                height
            } else {
                area.height
            }
        }),
{
}

/// A prompt shows its title and all that is typed; a question its text and the
/// two answers; what is known of a file all its lines.
pub proof fn law_boxes_show_their_text(
    area: Rect,
    theme: Theme,
    v: InputView,
    c: ConfirmView,
    f: InfoView,
    i: int,
)
    ensures
        input_box(area, theme, v).title matches Some(t) && t.text == v.prompt,
        input_box(area, theme, v).lines.len() == 1,
        input_box(area, theme, v).lines[0][0].text == v.before,
        v.after.len() > 0 ==> input_box(area, theme, v).lines[0].len() == 3 && input_box(
            area,
            theme,
            v,
        ).lines[0][1].text + input_box(area, theme, v).lines[0][2].text == v.after,
        input_box(area, theme, v).area == bottom_of(area, 3),
        confirm_box(area, theme, c).lines.len() == 2,
        confirm_box(area, theme, c).lines[0][0].text == c.prompt,
        confirm_box(area, theme, c).area == bottom_of(area, 4),
        info_box(area, theme, f).lines.len() == f.lines.len(),
        0 <= i < f.lines.len() ==> info_box(area, theme, f).lines[i][0].text == f.lines[i],
        info_box(area, theme, f).area == area,
{
    if v.after.len() > 0 {
        assert(seq![v.after[0]] + v.after.drop_first() =~= v.after);
    }
}

/// The explorer starts as the configuration says, with nothing selected, cut or
/// typed, and with its rows still to be made and git still to be asked.
pub proof fn law_start(
    root: Seq<u8>,
    scan: ScanView,
    config: Config,
    theme: Theme,
    bookmarks: Option<Seq<char>>,
    now: u64,
)
    ensures
        ({
            let s = fresh_app(root, scan, config, theme, bookmarks, now);
            &&& s.tree.root.path == root
            &&& s.options().show_hidden == config.show_hidden
            &&& s.options().show_ignored == config.show_ignored
            &&& s.options().group_empty == config.group_empty
            &&& s.options().files_first == config.files_first
            &&& !s.options().git_clean && !s.options().custom_active
            &&& s.options().restricts.len() == 0
            &&& s.clipboard.paths.len() == 0
            &&& s.overlay is Closed
            &&& s.live_filter is None
            &&& !s.should_quit
            &&& !config.bookmarks_persist ==> s.marks.dom() == Set::<Seq<Seq<u8>>>::empty()
            &&& s.agenda == seq![StepView::Rows(None), StepView::Top, StepView::Git]
            &&& s.targets().len() == 0
        }),
{
}

/// The view stays where it is, but for not leaving room below the last row,
/// unless a directory was just opened; then as many of the rows below it as are
/// wanted come into view, as far as they fit.
pub proof fn law_view_moves_for_what_was_opened(
    rows: Seq<RowView>,
    list: ListState,
    height: int,
    scrolloff: int,
    i: int,
)
    requires
        height > 0,
        scrolloff >= 1,
        0 <= i < rows.len(),
        i <= usize::MAX,
        list.selected == Some(i as usize),
        list.offset <= i,
    ensures
        rows.len() >= list.offset + height ==> offset_for(rows, list, false, height, scrolloff)
            == list.offset,
        rows.len() <= height ==> offset_for(rows, list, false, height, scrolloff) == 0,
        rows_below(rows, i) >= scrolloff && scrolloff < height ==> i + scrolloff < offset_for(
            rows,
            list,
            true,
            height,
            scrolloff,
        ) + height,
        rows_below(rows, i) < scrolloff && rows_below(rows, i) < height ==> i + rows_below(rows, i)
            < offset_for(rows, list, true, height, scrolloff) + height,
        offset_for(rows, list, true, height, scrolloff) <= i,
{
    crate::app::find::lemma_first_from(
        crate::app::draw::no_deeper_row(rows, rows[i].depth),
        i + 1,
        rows.len() as int,
    );
}

/// The rows below a directory are those that are deeper, up to the first that is
/// not.
pub proof fn law_rows_below(rows: Seq<RowView>, i: int, j: int)
    requires
        0 <= i < rows.len(),
    ensures
        i < j <= i + rows_below(rows, i) ==> j < rows.len() && rows[j].depth > rows[i].depth,
        i + rows_below(rows, i) + 1 < rows.len() ==> rows[i + rows_below(rows, i) + 1].depth
            <= rows[i].depth,
{
    let p = crate::app::draw::no_deeper_row(rows, rows[i].depth);
    crate::app::find::lemma_first_from(p, i + 1, rows.len() as int);
    if i < j <= i + rows_below(rows, i) {
        assert(!p(j));
    }
    let k = i + rows_below(rows, i) + 1;
    if k < rows.len() {
        assert(p(k));
    }
}

/// Drawing keeps everything but the area, where the view begins, and that a
/// directory was just opened.
pub proof fn law_drawing_keeps_the_rest(s: AppView, area: Rect)
    ensures
        s.fitted(area).list_area == area,
        !s.fitted(area).reveal_children,
        s.fitted(area).list.selected == s.list.selected,
        s.fitted(area).rows == s.rows,
        s.fitted(area).agenda == s.agenda,
        s.fitted(area).tree == s.tree,
{
    reveal(AppView::fitted);
}

/// A row is drawn with what is known: the clipboard, the bookmarks, the
/// selection, the file in the editor, and how the configuration wants it.
pub proof fn law_drawn_as_known(s: AppView)
    ensures
        s.decor().clipboard == s.clipboard,
        s.decor().marks == s.marks.dom(),
        s.decor().selection == s.selection.dom(),
        s.decor().current_file == s.current_file,
        s.decor().special_files.len() == s.config.special_files@.len(),
        s.render_opts().icons_enabled == s.config.icons,
        s.render_opts().show_arrows == s.config.arrows,
        s.render_opts().indent_markers == s.config.indent_markers,
{
}

/// What is typed is scrolled only where it does not fit beside the border.
pub proof fn law_short_input_is_not_scrolled(before: Seq<char>, after: Seq<char>, width: u16)
    requires
        width >= 2,
        display_width(before) + cursor_cells(after) <= width - 2,
    ensures
        input_scroll(before, after, width) == 0,
{
}

/// Where something is selected, how much that is comes after the rows; the
/// letters of the toggles come last.
pub proof fn law_summary_counts_the_selection(s: AppView, k: Seq<Seq<u8>>)
    requires
        s.selection.contains_key(k),
    ensures
        summary(s).len() >= 2,
        summary(s)[1] == digits(listed(s.selection).len()) + " sel"@,
        flag_letters(s).len() > 0 ==> summary(s).last() == "["@ + flag_letters(s) + "]"@,
{
    assert(s.selection.dom().contains(k));
}

/// The help can be scrolled until its last line is in view, and no further.
pub proof fn law_help_ends(area: Rect)
    requires
        area.width >= 4,
        area.height >= 1,
    ensures
        help_end(area) == if help_count((area.width - 3) as nat) > area.height - 1 {
            help_count((area.width - 3) as nat) - (area.height - 1)
        } else {
            0
        },
{
}

/// What diagnostics are shown at the start, and how entries are sorted, is what
/// the configuration names.
pub proof fn law_start_follows_the_names(
    root: Seq<u8>,
    scan: ScanView,
    config: Config,
    theme: Theme,
    bookmarks: Option<Seq<char>>,
    now: u64,
)
    ensures
        ({
            let s = fresh_app(root, scan, config, theme, bookmarks, now);
            &&& mode_named(config.diagnostics@) matches Some(m) ==> s.diagnostics_mode == m
            &&& mode_named(config.diagnostics@) is None ==> s.diagnostics_mode == Mode::Warnings
            &&& s.options().sort == sort_named(lowercase(config.sort@))
            &&& config.bookmarks_persist ==> (bookmarks matches Some(t) ==> s.marks == kept_in(t))
        }),
{
}

} // verus!
