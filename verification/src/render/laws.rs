//! What holds of how a row is drawn: each thing that is known of it is seen in
//! its line, and nothing that is not.

use vstd::prelude::*;

use crate::clipboard::{holds_path, ClipOp};
use crate::diagnostics::Severity;
use crate::git::GitStatus;
use crate::path::{comps, lemma_chopped, rest_text};
use crate::render::builder::{arrow_of, lead, level_lines, line_of, lines_of, piece, sign_of};
use crate::render::builder::{shortened, sign_piece, trail, RenderOpts};
use crate::render::decorators::{kind_style, row_style, DecorView};
use crate::render::icons::{extension_glyph, filename_glyph, name_glyph, node_glyph};
use crate::style::{plain_style, Style};
use crate::text::{lemma_last_index, lemma_last_index_is, lossy_text, lowercase};
use crate::theme::Theme;
use crate::tree::node::NodeKind;
use crate::tree::rows::RowView;

verus! {

/// A line ends with what git says, where it says something: a blank and the
/// glyph of the status, in its style.
pub proof fn law_line_ends_with_the_status(row: RowView, theme: Theme, opts: RenderOpts, d: DecorView)
    ensures
        row.git matches Some(s) ==> {
            let line = line_of(row, theme, opts, d);
            &&& line.len() >= 2
            &&& line.last().text == s.spec_glyph()
            &&& line.last().style == theme.spec_git_style(s)
        },
        row.git is None && row.link_to is None && !d.marks.contains(comps(row.path)) ==> line_of(
            row,
            theme,
            opts,
            d,
        ).last() == piece(row.name, row_style(row, theme, d)),
        row.git is None && row.link_to is None && d.marks.contains(comps(row.path)) ==> line_of(
            row,
            theme,
            opts,
            d,
        ).last() == piece("\u{f02e}"@, theme.bookmark),
        row.git is None ==> (row.link_to matches Some(t) ==> line_of(row, theme, opts, d).last()
            == piece(" → "@ + lossy_text(t), theme.symlink)),
{
    let line = line_of(row, theme, opts, d);
    let end = trail(row, theme, d);
    let start = lead(row, theme, opts) + sign_piece(row, theme, opts.icons_enabled) + seq![
        piece(row.name, row_style(row, theme, d)),
    ];
    assert(line == start + end);
    if end.len() > 0 {
        assert(line.last() == end.last());
    } else {
        assert(line.last() == start.last());
    }
}

/// How many pieces a line has after the name: two for a bookmark, one for where
/// a link leads, two for a status, and no others.
pub proof fn law_nothing_else_follows_the_name(row: RowView, theme: Theme, d: DecorView)
    ensures
        trail(row, theme, d).len() == (if d.marks.contains(comps(row.path)) {
            2int
        } else {
            0
        }) + (if row.link_to is Some {
            1int
        } else {
            0
        }) + (if row.git is Some {
            2int
        } else {
            0
        }),
{
}

/// The glyph of each status.
pub proof fn law_status_glyphs()
    ensures
        GitStatus::Staged.spec_glyph() == "✓"@,
        GitStatus::Dirty.spec_glyph() == "✗"@,
        GitStatus::Renamed.spec_glyph() == "➜"@,
        GitStatus::Untracked.spec_glyph() == "★"@,
        GitStatus::Ignored.spec_glyph() == "◌"@,
{
}

/// Every style of a theme is for one thing: of each status and of each severity
/// its own.
pub proof fn law_theme_has_a_style_for_each(theme: Theme)
    ensures
        theme.spec_git_style(GitStatus::Staged) == theme.git_staged,
        theme.spec_git_style(GitStatus::Dirty) == theme.git_dirty,
        theme.spec_git_style(GitStatus::Deleted) == theme.git_deleted,
        theme.spec_git_style(GitStatus::Renamed) == theme.git_renamed,
        theme.spec_git_style(GitStatus::Conflict) == theme.git_conflict,
        theme.spec_git_style(GitStatus::Untracked) == theme.git_untracked,
        theme.spec_git_style(GitStatus::Ignored) == theme.git_ignored,
        theme.spec_diagnostic_style(Severity::Error) == theme.diagnostic_error,
        theme.spec_diagnostic_style(Severity::Warning) == theme.diagnostic_warning,
{
}

/// A directory has an arrow where arrows are drawn and it has children, one for
/// open and one for closed ones; nothing else has one.
pub proof fn law_arrows(row: RowView, theme: Theme, opts: RenderOpts)
    ensures
        opts.show_arrows && row.kind.spec_is_dir() && row.has_children ==> lead(
            row,
            theme,
            opts,
        ).len() > 0 && lead(row, theme, opts).last() == piece(
            arrow_of(row.expanded, opts.icons_enabled) + " "@,
            theme.arrow,
        ),
        !(opts.show_arrows && row.kind.spec_is_dir() && row.has_children) && opts.indent_markers
            ==> lead(row, theme, opts).len() == if row.ancestor_last.len() > 0 {
            1nat
        } else {
            0
        },
        arrow_of(true, true) != arrow_of(false, true),
        arrow_of(true, false) == "v"@,
        arrow_of(false, false) == ">"@,
{
    reveal_strlit("\u{f107}");
    reveal_strlit("\u{f105}");
    assert("\u{f107}"@[0] == '\u{f107}');
    assert("\u{f105}"@[0] == '\u{f105}');
    let l = row.ancestor_last;
    if l.len() > 0 {
        reveal_strlit("└ ");
        reveal_strlit("├ ");
        assert(level_lines(l).len() > 0);
    }
}

/// The lines of the levels: two characters for each, the last of them a corner
/// for the last of its siblings and a branch for the others.
pub proof fn law_level_lines(lasts: Seq<bool>, ends: bool)
    ensures
        level_lines(lasts).len() == 2 * lasts.len(),
        level_lines(lasts.push(ends)).len() == 2 * lasts.len() + 2,
        level_lines(lasts.push(ends))[2 * lasts.len() as int] == if ends {
            '└'
        } else {
            '├'
        },
        level_lines(lasts.push(ends))[2 * lasts.len() as int + 1] == ' ',
        forall|i: int|
            0 <= i < lasts.len() ==> #[trigger] level_lines(lasts.push(ends))[2 * i] == if lasts[i] {
                ' '
            } else {
                '│'
            },
{
    reveal_strlit("└ ");
    reveal_strlit("├ ");
    lemma_upper_lines(lasts);
    if lasts.len() > 0 {
        lemma_upper_lines(lasts.drop_last());
    }
    assert(lasts.push(ends).drop_last() =~= lasts);
}

proof fn lemma_upper_lines(lasts: Seq<bool>)
    ensures
        crate::render::builder::upper_lines(lasts).len() == 2 * lasts.len(),
        forall|i: int|
            0 <= i < lasts.len() ==> #[trigger] crate::render::builder::upper_lines(lasts)[2 * i]
                == if lasts[i] {
                ' '
            } else {
                '│'
            },
    decreases lasts.len(),
{
    reveal_strlit("  ");
    reveal_strlit("│ ");
    if lasts.len() > 0 {
        let init = lasts.drop_last();
        lemma_upper_lines(init);
        assert forall|i: int| 0 <= i < lasts.len() implies #[trigger]
            crate::render::builder::upper_lines(lasts)[2 * i] == if lasts[i] {
            ' '
        } else {
            '│'
        } by {
            if i < init.len() {
                assert(crate::render::builder::upper_lines(init)[2 * i] == if init[i] {
                    ' '
                } else {
                    '│'
                });
            }
        }
    }
}

/// Every row has one line, and they are in the order of the rows.
pub proof fn law_one_line_per_row(
    rows: Seq<RowView>,
    theme: Theme,
    opts: RenderOpts,
    d: DecorView,
    i: int,
)
    requires
        0 <= i < rows.len(),
    ensures
        lines_of(rows, theme, opts, d).len() == rows.len(),
        lines_of(rows, theme, opts, d)[i] == line_of(rows[i], theme, opts, d),
{
}

/// The sign of a row: a folder, open or closed, a link, or the glyph for the
/// name of a file, which does not depend on the case of that name.
pub proof fn law_signs(row: RowView, other: Seq<char>)
    ensures
        row.kind.spec_is_dir() && row.expanded ==> sign_of(row, true) == "\u{f07c}"@ && sign_of(
            row,
            false,
        ) == "▾"@,
        row.kind.spec_is_dir() && !row.expanded ==> sign_of(row, true) == "\u{f07b}"@ && sign_of(
            row,
            false,
        ) == "▸"@,
        row.kind == (NodeKind::Symlink { to_dir: false }) ==> sign_of(row, true) == "\u{f481}"@
            && sign_of(row, false) == "→"@,
        row.kind == NodeKind::File ==> sign_of(row, true) == name_glyph(row.name) && sign_of(
            row,
            false,
        ) == " "@,
        lowercase(row.name) == lowercase(other) ==> name_glyph(row.name) == name_glyph(other),
        node_glyph(row.name, row.kind, row.expanded) == sign_of(row, true),
{
}

/// What nothing is known of is drawn in the style of its kind: directories,
/// links, special files, files that can be run, and other files.
pub proof fn law_kinds_have_their_style(row: RowView, theme: Theme, d: DecorView)
    ensures
        row.kind.spec_is_dir() ==> kind_style(row, theme, d.special_files) == theme.directory,
        row.kind == (NodeKind::Symlink { to_dir: false }) ==> kind_style(
            row,
            theme,
            d.special_files,
        ) == theme.symlink,
        row.kind == NodeKind::File && d.special_files.contains(lowercase(row.name)) ==> kind_style(
            row,
            theme,
            d.special_files,
        ) == theme.special,
        row.kind == NodeKind::File && !d.special_files.contains(lowercase(row.name))
            && row.executable ==> kind_style(row, theme, d.special_files) == theme.executable,
        row.kind == NodeKind::File && !d.special_files.contains(lowercase(row.name))
            && !row.executable ==> kind_style(row, theme, d.special_files) == theme.text,
        is_plain(row, d) && !(row.name.len() > 0 && row.name[0] == '.') ==> row_style(row, theme, d)
            == kind_style(row, theme, d.special_files),
        is_plain(row, d) ==> row_style(row, theme, d).fg == kind_style(
            row,
            theme,
            d.special_files,
        ).fg,
{
}

/// Whether nothing is known of a row that its style would show.
pub open spec fn is_plain(row: RowView, d: DecorView) -> bool {
    &&& row.git is None
    &&& row.diag is None
    &&& !holds_path(d.clipboard.paths, comps(row.path))
    &&& d.current_file is None || comps(d.current_file->0) != comps(row.path)
    &&& !d.selection.contains(comps(row.path))
}

/// What is known of a row decides its color, the later outranking the earlier:
/// a status, being cut or copied, being open in the editor, being selected,
/// diagnostics.
pub proof fn law_what_decides_the_color(row: RowView, theme: Theme, d: DecorView)
    ensures
        ({
            let k = comps(row.path);
            let fg = row_style(row, theme, d).fg;
            let held = holds_path(d.clipboard.paths, k);
            let current = d.current_file is Some && comps(d.current_file->0) == k;
            let selected = d.selection.contains(k) && theme.selected.fg is Some;
            &&& row.diag matches Some(x) ==> x.severity == Severity::Error
                && theme.diagnostic_error.fg is Some ==> fg == theme.diagnostic_error.fg
            &&& row.diag matches Some(x) ==> x.severity == Severity::Warning
                && theme.diagnostic_warning.fg is Some ==> fg == theme.diagnostic_warning.fg
            &&& row.diag is None && selected ==> fg == theme.selected.fg
            &&& row.diag is None && !selected && current && theme.opened.fg is Some ==> fg
                == theme.opened.fg
            &&& row.diag is None && !selected && !current && held && d.clipboard.op == Some(
                ClipOp::Cut,
            ) && theme.cut.fg is Some ==> fg == theme.cut.fg
            &&& row.diag is None && !selected && !current && held && d.clipboard.op == Some(
                ClipOp::Copy,
            ) && theme.copy.fg is Some ==> fg == theme.copy.fg
            &&& row.diag is None && !selected && !current && !held ==> (row.git matches Some(s)
                ==> theme.spec_git_style(s).fg is Some ==> fg == theme.spec_git_style(s).fg)
        }),
{
    reveal(Style::spec_patch);
}

/// A selected row has the background of the selection, and a row whose name
/// begins with a dot is dimmed.
pub proof fn law_selected_and_dimmed(row: RowView, theme: Theme, d: DecorView)
    ensures
        d.selection.contains(comps(row.path)) && row.diag is None && theme.selected.bg is Some
            ==> row_style(row, theme, d).bg == theme.selected.bg,
        row.name.len() > 0 && row.name[0] == '.' ==> row_style(row, theme, d).mods.dim,
{
    reveal(Style::spec_patch);
}

/// Each way to set a style off does that and nothing else; a style that says
/// nothing changes nothing.
pub proof fn law_styles(s: Style)
    ensures
        s.spec_bold().mods.bold && s.spec_bold().fg == s.fg && s.spec_bold().bg == s.bg,
        s.spec_bold().mods.dim == s.mods.dim && s.spec_bold().mods.reversed == s.mods.reversed,
        s.spec_dim().mods.dim && s.spec_dim().fg == s.fg && s.spec_dim().mods.bold == s.mods.bold,
        s.spec_reversed().mods.reversed && s.spec_reversed().fg == s.fg,
        s.spec_reversed().mods.dim == s.mods.dim && s.spec_reversed().mods.bold == s.mods.bold,
        plain_style().fg is None && plain_style().bg is None,
        !plain_style().mods.bold && !plain_style().mods.dim && !plain_style().mods.reversed,
        s.spec_patch(plain_style()) == s,
{
    reveal(Style::spec_patch);
}

/// A file whose whole name has a glyph has that one; otherwise what stands
/// behind the last dot of its name decides, and a name without a dot, or with an
/// extension that has none, has the glyph of files. The case of the name does
/// not matter.
pub proof fn law_extension_decides(name: Seq<char>, stem: Seq<char>, ext: Seq<char>)
    requires
        !ext.contains('.'),
    ensures
        filename_glyph(lowercase(name)) matches Some(g) ==> name_glyph(name) == g,
        lowercase(name) == stem + (seq!['.'] + ext) && filename_glyph(lowercase(name)) is None
            ==> name_glyph(name) == match extension_glyph(ext) {
            Some(g) => g,
            None => "\u{f15b}"@,
        },
        lowercase(name) == ext && filename_glyph(ext) is None ==> name_glyph(name)
            == "\u{f15b}"@,
{
    let s = stem + (seq!['.'] + ext);
    let k = stem.len() as int;
    assert(s[k] == '.');
    assert forall|i: int| k < i < s.len() implies s[i] != '.' by {
        assert(s[i] == ext[i - k - 1]);
    }
    lemma_last_index_is(s, '.', k);
    assert(s.skip(k + 1) =~= ext);
    lemma_last_index(ext, '.');
}

/// Where the path is below the home directory, that is written as a tilde.
pub proof fn law_home_is_a_tilde(path: Seq<u8>, home: Seq<u8>)
    ensures
        comps(home) == comps(path) ==> shortened(path, Some(home)) == "~"@,
        comps(home).is_prefix_of(comps(path)) && rest_text(path, comps(home).len() as int).len() > 0
            ==> shortened(path, Some(home)) == "~/"@ + lossy_text(
            rest_text(path, comps(home).len() as int),
        ),
        !comps(home).is_prefix_of(comps(path)) ==> shortened(path, Some(home)) == lossy_text(path),
        shortened(path, None) == lossy_text(path),
{
    if comps(home) == comps(path) {
        assert(comps(home) =~= comps(path).subrange(0, comps(home).len() as int));
        if comps(path).len() == 0 {
            lemma_chopped(path);
        }
    }
}

} // verus!
