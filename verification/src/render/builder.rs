//! The lines of the tree, from its rows.

use vstd::prelude::*;

use crate::path::{comps, rest_text, Path};
use crate::render::decorators::{name_style, row_style, Decor, DecorView};
use crate::render::icons::{file_icon, node_glyph, ARROW_CLOSED, ARROW_OPEN, BOOKMARK};
use crate::render::icons::{PLAIN_ARROW_CLOSED, PLAIN_ARROW_OPEN, PLAIN_FILE_DEFAULT};
use crate::render::icons::{PLAIN_FOLDER_CLOSED, PLAIN_FOLDER_OPEN, PLAIN_SYMLINK};
use crate::style::{plain_style, spans_view, Span, SpanView, Style};
use crate::text::{join2, lossy_text, repeat, repeated};
use crate::theme::Theme;
use crate::tree::node::NodeKind;
use crate::tree::rows::{rows_view, Row, RowView};

verus! {

/// How rows are drawn.
#[derive(Clone, Copy, Debug, PartialEq, Eq, Structural)]
pub struct RenderOpts {
    pub icons_enabled: bool,
    pub show_arrows: bool,
    /// Whether lines are drawn for the levels; otherwise they are blank, with an
    /// arrow for each directory.
    pub indent_markers: bool,
}

/// A piece of text in a style.
pub open spec fn piece(text: Seq<char>, style: Style) -> SpanView {
    SpanView { text, style }
}

/// The lines of the levels of a row. The last of `lasts` is the row's own
/// level.
pub open spec fn level_lines(lasts: Seq<bool>) -> Seq<char> {
    if lasts.len() == 0 {
        Seq::empty()
    } else {
        upper_lines(lasts.drop_last()) + if lasts.last() {
            "└ "@
        } else {
            "├ "@
        }
    }
}

/// The lines of the levels above a row.
pub open spec fn upper_lines(lasts: Seq<bool>) -> Seq<char>
    decreases lasts.len(),
{
    if lasts.len() == 0 {
        Seq::empty()
    } else {
        upper_lines(lasts.drop_last()) + if lasts.last() {
            "  "@
        } else {
            "│ "@
        }
    }
}

/// The arrow of a directory.
pub open spec fn arrow_of(expanded: bool, icons: bool) -> Seq<char> {
    if icons {
        if expanded {
            ARROW_OPEN@
        } else {
            ARROW_CLOSED@
        }
    } else {
        if expanded {
            PLAIN_ARROW_OPEN@
        } else {
            PLAIN_ARROW_CLOSED@
        }
    }
}

/// The sign of a row.
pub open spec fn sign_of(row: RowView, icons: bool) -> Seq<char> {
    if icons {
        node_glyph(row.name, row.kind, row.expanded)
    } else if row.kind.spec_is_dir() {
        if row.expanded {
            PLAIN_FOLDER_OPEN@
        } else {
            PLAIN_FOLDER_CLOSED@
        }
    } else {
        match row.kind {
            NodeKind::File => PLAIN_FILE_DEFAULT@,
            _ => PLAIN_SYMLINK@,
        }
    }
}

/// What stands before the sign: the levels, and the arrow of a directory that
/// can be opened.
pub open spec fn lead(row: RowView, theme: Theme, opts: RenderOpts) -> Seq<SpanView> {
    let arrow = opts.show_arrows && row.kind.spec_is_dir() && row.has_children;
    let arrow_piece = piece(arrow_of(row.expanded, opts.icons_enabled) + " "@, theme.arrow);
    if opts.indent_markers {
        (if level_lines(row.ancestor_last).len() > 0 {
            seq![piece(level_lines(row.ancestor_last), theme.indent_marker)]
        } else {
            Seq::empty()
        }) + if arrow {
            seq![arrow_piece]
        } else {
            Seq::empty()
        }
    } else {
        (if row.depth > 0 {
            seq![piece(repeated("  "@, row.depth as nat), plain_style())]
        } else {
            Seq::empty()
        }) + if arrow {
            seq![arrow_piece]
        } else {
            seq![piece("  "@, plain_style())]
        }
    }
}

/// The sign of a row, in its style.
pub open spec fn sign_piece(row: RowView, theme: Theme, icons: bool) -> Seq<SpanView> {
    let sign = sign_of(row, icons);
    if sign.len() == 0 {
        Seq::empty()
    } else {
        let style = if row.kind.spec_is_dir() {
            theme.folder_icon
        } else if row.kind != NodeKind::File {
            theme.symlink
        } else {
            theme.icon
        };
        seq![piece(sign + " "@, style)]
    }
}

/// What stands behind the name: the bookmark, where a link leads, and the
/// status.
pub open spec fn trail(row: RowView, theme: Theme, d: DecorView) -> Seq<SpanView> {
    (if d.marks.contains(comps(row.path)) {
        seq![piece(" "@, plain_style()), piece(BOOKMARK@, theme.bookmark)]
    } else {
        Seq::empty()
    }) + (match row.link_to {
        Some(t) => seq![piece(" → "@ + lossy_text(t), theme.symlink)],
        None => Seq::empty(),
    }) + match row.git {
        Some(s) => seq![
            piece(" "@, plain_style()),
            piece(s.spec_glyph(), theme.spec_git_style(s)),
        ],
        None => Seq::empty(),
    }
}

/// The line of a row.
pub open spec fn line_of(row: RowView, theme: Theme, opts: RenderOpts, d: DecorView) -> Seq<
    SpanView,
> {
    lead(row, theme, opts) + sign_piece(row, theme, opts.icons_enabled) + seq![
        piece(row.name, row_style(row, theme, d)),
    ] + trail(row, theme, d)
}

/// The lines of the levels of a row.
pub fn indent_prefix(ancestor_last: &[bool]) -> (r: String)
    ensures
        r@ == level_lines(ancestor_last@),
{
    let n: usize = ancestor_last.len();
    let mut prefix = String::new();
    let mut i: usize = 0;
    assert(prefix@ =~= Seq::empty());
    while i < n
        invariant
            i <= n,
            n == ancestor_last@.len(),
            i < n ==> prefix@ == upper_lines(ancestor_last@.take(i as int)),
            i == n ==> prefix@ == level_lines(ancestor_last@),
        decreases n - i,
    {
        let last = ancestor_last[i];
        assert(ancestor_last@.take(i + 1).drop_last() =~= ancestor_last@.take(i as int));
        if i + 1 == n {
            assert(ancestor_last@.drop_last() =~= ancestor_last@.take(i as int));
            prefix.append(
                if last {
                    "└ "
                } else {
                    "├ "
                },
            );
        } else {
            prefix.append(
                if last {
                    "  "
                } else {
                    "│ "
                },
            );
        }
        i += 1;
    }
    prefix
}

fn arrow_glyph(row: &Row, icons_enabled: bool) -> (r: &'static str)
    ensures
        r@ == arrow_of(row@.expanded, icons_enabled),
{
    if icons_enabled {
        if row.expanded {
            ARROW_OPEN
        } else {
            ARROW_CLOSED
        }
    } else if row.expanded {
        PLAIN_ARROW_OPEN
    } else {
        PLAIN_ARROW_CLOSED
    }
}

fn icon_for(row: &Row, icons_enabled: bool) -> (r: &'static str)
    ensures
        r@ == sign_of(row@, icons_enabled),
{
    if icons_enabled {
        return file_icon(row.name.as_str(), row.kind, row.expanded);
    }
    match row.kind {
        NodeKind::Directory => if row.expanded {
            PLAIN_FOLDER_OPEN
        } else {
            PLAIN_FOLDER_CLOSED
        },
        NodeKind::Symlink { to_dir } => if to_dir {
            if row.expanded {
                PLAIN_FOLDER_OPEN
            } else {
                PLAIN_FOLDER_CLOSED
            }
        } else {
            PLAIN_SYMLINK
        },
        NodeKind::File => PLAIN_FILE_DEFAULT,
    }
}

fn add_span(spans: &mut Vec<Span>, span: Span)
    ensures
        spans_view(final(spans)@) == spans_view(old(spans)@).push(span@),
{
    let ghost before = spans@;
    spans.push(span);
    assert(spans_view(spans@) =~= spans_view(before).push(span@));
}

fn add_lead(spans: &mut Vec<Span>, row: &Row, theme: &Theme, opts: &RenderOpts)
    ensures
        spans_view(final(spans)@) == spans_view(old(spans)@) + lead(row@, *theme, *opts),
{
    let expandable = row.kind.is_dir() && row.has_children;
    let arrow = opts.show_arrows && expandable;
    if opts.indent_markers {
        let prefix = indent_prefix(row.ancestor_last.as_slice());
        if !prefix.as_str().is_empty() {
            add_span(spans, Span::styled(prefix, theme.indent_marker));
        }
        if arrow {
            let text = join2(arrow_glyph(row, opts.icons_enabled), " ");
            add_span(spans, Span::styled(text, theme.arrow));
        }
    } else {
        if row.depth > 0 {
            add_span(spans, Span::styled(repeat("  ", row.depth), Style::default()));
        }
        if arrow {
            let text = join2(arrow_glyph(row, opts.icons_enabled), " ");
            add_span(spans, Span::styled(text, theme.arrow));
        } else {
            add_span(spans, Span::raw("  "));
        }
    }
    assert(spans_view(spans@) =~= spans_view(old(spans)@) + lead(row@, *theme, *opts));
}

fn add_sign(spans: &mut Vec<Span>, row: &Row, theme: &Theme, icons: bool)
    ensures
        spans_view(final(spans)@) == spans_view(old(spans)@) + sign_piece(row@, *theme, icons),
{
    let icon = icon_for(row, icons);
    if !icon.is_empty() {
        let style = if row.kind.is_dir() {
            theme.folder_icon
        } else if row.kind != NodeKind::File {
            theme.symlink
        } else {
            theme.icon
        };
        add_span(spans, Span::styled(join2(icon, " "), style));
    }
    assert(spans_view(spans@) =~= spans_view(old(spans)@) + sign_piece(row@, *theme, icons));
}

fn add_trail(spans: &mut Vec<Span>, row: &Row, theme: &Theme, decor: &Decor)
    ensures
        spans_view(final(spans)@) == spans_view(old(spans)@) + trail(row@, *theme, decor@),
{
    if decor.marks.contains(&row.path) {
        add_span(spans, Span::raw(" "));
        add_span(spans, Span::styled(BOOKMARK.to_owned(), theme.bookmark));
    }
    if let Some(target) = &row.link_to {
        let text = join2(" → ", target.display().as_str());
        add_span(spans, Span::styled(text, theme.symlink));
    }
    if let Some(status) = row.git {
        add_span(spans, Span::raw(" "));
        add_span(spans, Span::styled(status.glyph().to_owned(), theme.git_style(status)));
    }
    assert(spans_view(spans@) =~= spans_view(old(spans)@) + trail(row@, *theme, decor@));
}

/// The line of a row.
pub fn build_line(row: &Row, theme: &Theme, opts: &RenderOpts, decor: &Decor) -> (r: Vec<Span>)
    ensures
        spans_view(r@) == line_of(row@, *theme, *opts, decor@),
{
    let mut spans: Vec<Span> = Vec::new();
    assert(spans_view(spans@) =~= Seq::empty());
    add_lead(&mut spans, row, theme, opts);
    add_sign(&mut spans, row, theme, opts.icons_enabled);
    add_span(&mut spans, Span::styled(row.name.clone(), name_style(row, theme, decor)));
    add_trail(&mut spans, row, theme, decor);
    assert(spans_view(spans@) =~= line_of(row@, *theme, *opts, decor@));
    spans
}

/// The views of some lines.
pub open spec fn lines_view(s: Seq<Vec<Span>>) -> Seq<Seq<SpanView>> {
    s.map_values(|l: Vec<Span>| spans_view(l@))
}

/// The lines of some rows.
pub open spec fn lines_of(rows: Seq<RowView>, theme: Theme, opts: RenderOpts, d: DecorView) -> Seq<
    Seq<SpanView>,
> {
    rows.map_values(|row: RowView| line_of(row, theme, opts, d))
}

/// The lines of some rows, one for each.
pub fn build_items(rows: &Vec<Row>, theme: &Theme, opts: &RenderOpts, decor: &Decor) -> (r: Vec<
    Vec<Span>,
>)
    ensures
        lines_view(r@) == lines_of(rows_view(rows@), *theme, *opts, decor@),
{
    let mut out: Vec<Vec<Span>> = Vec::new();
    let mut i: usize = 0;
    while i < rows.len()
        invariant
            i <= rows@.len(),
            out@.len() == i,
            forall|k: int|
                0 <= k < i ==> spans_view((#[trigger] out@[k])@) == line_of(
                    rows@[k]@,
                    *theme,
                    *opts,
                    decor@,
                ),
        decreases rows@.len() - i,
    {
        out.push(build_line(&rows[i], theme, opts, decor));
        i += 1;
    }
    assert(lines_view(out@) =~= lines_of(rows_view(rows@), *theme, *opts, decor@));
    out
}

/// A path with `~` in place of the home directory.
pub open spec fn shortened(path: Seq<u8>, home: Option<Seq<u8>>) -> Seq<char> {
    match home {
        Some(h) => if comps(h).is_prefix_of(comps(path)) {
            let rest = rest_text(path, comps(h).len() as int);
            if rest.len() == 0 {
                "~"@
            } else {
                "~/"@ + lossy_text(rest)
            }
        } else {
            lossy_text(path)
        },
        None => lossy_text(path),
    }
}

/// A path with `~` in place of the home directory.
pub fn shorten_home(path: &Path, home: Option<&[u8]>) -> (r: String)
    ensures
        r@ == shortened(path@, crate::config::bytes_view(home)),
{
    if let Some(home) = home {
        let home = Path::from_bytes(vstd::slice::slice_to_vec(home));
        if let Some(rest) = path.strip_prefix(&home) {
            if rest.as_bytes().len() == 0 {
                return "~".to_owned();
            }
            return join2("~/", rest.display().as_str());
        }
    }
    path.display()
}

/// The line above the tree: the path of its root.
pub fn root_header(root: &Path, home: Option<&[u8]>, theme: &Theme) -> (r: Span)
    ensures
        r@ == piece(shortened(root@, crate::config::bytes_view(home)), theme.root),
{
    Span::styled(shorten_home(root, home), theme.root)
}

/// A line holds the name of its row, whole and in one piece.
pub proof fn law_line_shows_the_name(row: RowView, theme: Theme, opts: RenderOpts, d: DecorView)
    ensures
        line_of(row, theme, opts, d).contains(piece(row.name, row_style(row, theme, d))),
{
    let before = lead(row, theme, opts) + sign_piece(row, theme, opts.icons_enabled);
    let line = line_of(row, theme, opts, d);
    assert(line[before.len() as int] == piece(row.name, row_style(row, theme, d)));
}

} // verus!
