//! What is drawn, and which part of the rows is on the screen.

use vstd::prelude::*;

use crate::app::find::{first_from, lemma_first_from};
use crate::app::state::{seen, App, AppView, ListState};
use crate::layout::{fits, middle};
use crate::paths::{listed, ordered};
use crate::render::builder::{build_items, lines_of, lines_view, RenderOpts};
use crate::render::decorators::{Decor, DecorView};
use crate::style::{spans_view, Rect, Span, SpanView};
use crate::text::{decimal, digits, join2, join3, join_with, joined, views};
use crate::theme::Theme;
use crate::tree::rows::{rows_view, Row, RowView};
use crate::ui_overlays::{help_boxes, input_box, confirm_box, info_box, OverlayView};
use crate::ui_overlays::{render_confirm, render_help, render_info, render_input, Overlay, Popup};

verus! {

/// Whether a row is no deeper than a depth.
pub open spec fn no_deeper_row(rows: Seq<RowView>, depth: int) -> spec_fn(int) -> bool {
    |i: int| rows[i].depth <= depth
}

/// How many rows lie below a row, up to the next that is no deeper.
pub open spec fn rows_below(rows: Seq<RowView>, i: int) -> int {
    first_from(no_deeper_row(rows, rows[i].depth), i + 1, rows.len() as int) - (i + 1)
}

/// The smaller of two numbers.
pub open spec fn least(a: int, b: int) -> int {
    if a < b {
        a
    } else {
        b
    }
}

/// The last row that may be the first on the screen: below it nothing is left
/// blank.
pub open spec fn last_offset(rows: int, height: int) -> int {
    if rows > height {
        rows - height
    } else {
        0
    }
}

/// The row that has to be the first on the screen, at least, so that the first
/// of those below a row are on it: as many as are kept around the cursor, and at
/// least one.
pub open spec fn offset_to_show(rows: Seq<RowView>, i: int, height: int, scrolloff: int) -> int {
    let want = least(
        rows_below(rows, i),
        if scrolloff > 1 {
            scrolloff
        } else {
            1
        },
    );
    if i + want + 1 > height {
        i + want + 1 - height
    } else {
        0
    }
}

/// The row that is the first on the screen. Where the directory under the
/// cursor was just opened, the first of what it holds come into view, unless
/// that would take the cursor off the screen.
pub open spec fn offset_for(
    rows: Seq<RowView>,
    list: ListState,
    opened: bool,
    height: int,
    scrolloff: int,
) -> int {
    let last = last_offset(rows.len() as int, height);
    let offset = least(list.offset as int, last);
    match list.selected {
        Some(i) => {
            let need = offset_to_show(rows, i as int, height, scrolloff);
            if opened && height > 0 && i < rows.len() && offset < need {
                least(least(need, last), i as int)
            } else {
                offset
            }
        },
        None => offset,
    }
}

/// The letter of a toggle, if it is on.
pub open spec fn flag(on: bool, letter: char) -> Seq<char> {
    if on {
        seq![letter]
    } else {
        Seq::empty()
    }
}

/// The letters of the toggles that are on.
pub open spec fn flag_letters(s: AppView) -> Seq<char> {
    flag(s.tree.show_hidden, '.') + flag(s.toggles.git_clean, 'C') + flag(
        s.toggles.no_bookmark,
        'M',
    ) + flag(s.toggles.no_buffer, 'B') + flag(s.toggles.custom_active, 'U') + flag(
        s.tree.group_empty,
        'L',
    )
}

/// What the status line says where there is neither a filter nor a message.
pub open spec fn summary(s: AppView) -> Seq<Seq<char>> {
    seq![digits(s.rows.len()) + " items"@] + (if s.selection.dom() != Set::<
        Seq<Seq<u8>>,
    >::empty() {
        seq![digits(listed(s.selection).len()) + " sel"@]
    } else {
        seq![]
    }) + (if s.git.toplevel is Some {
        seq!["git"@]
    } else {
        seq![]
    }) + if flag_letters(s).len() > 0 {
        seq!["["@ + flag_letters(s) + "]"@]
    } else {
        seq![]
    }
}

/// The status line of a filter, with a message behind it if there is one.
pub open spec fn filter_line(
    q: Seq<char>,
    typing: bool,
    status: Option<Seq<char>>,
    theme: Theme,
) -> Seq<SpanView> {
    seq![
        SpanView { text: "filter: "@, style: theme.filter_prefix },
        SpanView { text: q, style: theme.text },
        SpanView {
            text: if typing {
                "▏"@
            } else {
                ""@
            },
            style: theme.prompt,
        },
    ] + match status {
        Some(msg) => seq![
            SpanView { text: "  "@, style: theme.text },
            SpanView { text: msg, style: theme.prompt },
        ],
        None => seq![],
    }
}

impl AppView {
    /// On a screen that leaves an area for the rows.
    #[verifier::opaque]
    pub open spec fn fitted(self, area: Rect) -> AppView {
        AppView {
            list_area: area,
            list: ListState {
                offset: offset_for(
                    self.rows,
                    self.list,
                    self.reveal_children,
                    area.height as int,
                    self.config.scrolloff as int,
                ) as usize,
                ..self.list
            },
            reveal_children: false,
            ..self
        }
    }

    /// The status line.
    pub open spec fn status_spans(self) -> Seq<SpanView> {
        match self.live_filter {
            Some(q) => filter_line(q, self.live_editing, self.status, self.theme),
            None => match self.status {
                Some(msg) => seq![SpanView { text: msg, style: self.theme.prompt }],
                None => seq![
                    SpanView {
                        text: joined(summary(self), "  "@),
                        style: self.theme.indent_marker,
                    },
                ],
            },
        }
    }

    /// What sets rows off.
    pub open spec fn decor(self) -> DecorView {
        DecorView {
            clipboard: self.clipboard,
            marks: self.marks.dom(),
            selection: self.selection.dom(),
            current_file: self.current_file,
            special_files: views(self.config.special_files@),
        }
    }

    /// How rows are drawn.
    pub open spec fn render_opts(self) -> RenderOpts {
        RenderOpts {
            icons_enabled: self.config.icons,
            show_arrows: self.config.arrows,
            indent_markers: self.config.indent_markers,
        }
    }
}

fn smaller(a: usize, b: usize) -> (r: usize)
    ensures
        r as int == least(a as int, b as int),
{
    if a < b {
        a
    } else {
        b
    }
}

fn count_below(rows: &Vec<Row>, i: usize) -> (r: usize)
    requires
        i < rows@.len(),
    ensures
        r as int == rows_below(rows_view(rows@), i as int),
        i + r < rows@.len(),
{
    let depth: usize = rows[i].depth;
    let ghost rs = rows_view(rows@);
    let ghost p = no_deeper_row(rs, depth as int);
    let n: usize = rows.len();
    let mut j: usize = i + 1;
    assert(rs[i as int] == rows@[i as int]@);
    while j < n && rows[j].depth > depth
        invariant
            i < j <= n,
            n == rows@.len(),
            rs == rows_view(rows@),
            p == no_deeper_row(rs, depth as int),
            first_from(p, i + 1, n as int) == first_from(p, j as int, n as int),
        decreases n - j,
    {
        assert(rs[j as int] == rows@[j as int]@);
        assert(!p(j as int));
        j += 1;
    }
    if j < n {
        assert(rs[j as int] == rows@[j as int]@);
        assert(p(j as int));
    }
    j - (i + 1)
}

fn add_flag(v: &mut Vec<char>, on: bool, letter: char)
    ensures
        final(v)@ == old(v)@ + flag(on, letter),
{
    if on {
        v.push(letter);
    }
    assert(v@ =~= old(v)@ + flag(on, letter));
}

/// The row that is the first on the screen.
pub fn find_offset(
    rows: &Vec<Row>,
    list: ListState,
    opened: bool,
    height: usize,
    scrolloff: usize,
) -> (r: usize)
    ensures
        r as int == offset_for(
            rows_view(rows@),
            list,
            opened,
            height as int,
            scrolloff as int,
        ),
{
    let n: usize = rows.len();
    let last: usize = n.saturating_sub(height);
    let offset: usize = smaller(list.offset, last);
    match list.selected {
        Some(i) => {
            if opened && height > 0 && i < n {
                let below: usize = count_below(rows, i);
                let want: usize = smaller(
                    below,
                    if scrolloff > 1 {
                        scrolloff
                    } else {
                        1
                    },
                );
                let need: usize = (i + want + 1).saturating_sub(height);
                if offset < need {
                    return smaller(smaller(need, last), i);
                }
            }
            offset
        },
        None => offset,
    }
}

impl App {
    /// Fits what is on the screen to an area for the rows.
    pub fn fit_view(&mut self, area: Rect)
        requires
            old(self).wf(),
        ensures
            final(self).wf(),
            final(self)@ == old(self)@.fitted(area),
    {
        proof {
            reveal(seen);
            reveal(AppView::fitted);
        }
        let offset = find_offset(
            &self.rows,
            self.list,
            self.reveal_children,
            area.height as usize,
            self.config.scrolloff,
        );
        self.list_area = area;
        self.list.offset = offset;
        self.reveal_children = false;
    }

    /// The lines of the rows.
    pub fn items(&self) -> (r: Vec<Vec<Span>>)
        ensures
            lines_view(r@) == lines_of(
                self@.rows,
                self@.theme,
                self@.render_opts(),
                self@.decor(),
            ),
    {
        proof {
            reveal(seen);
        }
        let opts = RenderOpts {
            icons_enabled: self.config.icons,
            show_arrows: self.config.arrows,
            indent_markers: self.config.indent_markers,
        };
        let decor = Decor {
            clipboard: &self.clipboard,
            marks: self.marks.all(),
            selection: &self.selection,
            current_file: self.current_file.as_ref(),
            special_files: &self.config.special_files,
        };
        assert(decor@ =~= self@.decor());
        build_items(&self.rows, &self.theme, &opts, &decor)
    }

    fn flags(&self) -> (r: String)
        ensures
            r@ == flag_letters(self@),
    {
        proof {
            reveal(seen);
        }
        let mut v: Vec<char> = Vec::new();
        add_flag(&mut v, self.tree.show_hidden, '.');
        assert(v@ =~= flag(self@.tree.show_hidden, '.'));
        add_flag(&mut v, self.toggles.git_clean, 'C');
        add_flag(&mut v, self.toggles.no_bookmark, 'M');
        add_flag(&mut v, self.toggles.no_buffer, 'B');
        add_flag(&mut v, self.toggles.custom_active, 'U');
        add_flag(&mut v, self.tree.group_empty, 'L');
        crate::text::from_chars(v.as_slice())
    }

    fn summary_parts(&self) -> (r: Vec<String>)
        ensures
            views(r@) == summary(self@),
    {
        let flags = self.flags();
        proof {
            reveal(seen);
        }
        let mut parts: Vec<String> = Vec::new();
        parts.push(join2(decimal(self.rows.len() as u64).as_str(), " items"));
        if !self.selection.is_empty() {
            parts.push(join2(decimal(self.selection.len() as u64).as_str(), " sel"));
        }
        if self.git.toplevel.is_some() {
            parts.push("git".to_owned());
        }
        if !flags.as_str().is_empty() {
            parts.push(join3("[", flags.as_str(), "]"));
        }
        assert(listed(self@.selection).len() == ordered(self.selection@).len());
        assert(views(parts@) =~= summary(self@));
        parts
    }

    /// The status line.
    pub fn status_line(&self) -> (r: Vec<Span>)
        ensures
            spans_view(r@) == self@.status_spans(),
    {
        let parts = self.summary_parts();
        proof {
            reveal(seen);
        }
        let mut spans: Vec<Span> = Vec::new();
        if let Some(q) = &self.live_filter {
            let cursor = if self.live_editing {
                "▏"
            } else {
                ""
            };
            spans.push(Span::styled("filter: ".to_owned(), self.theme.filter_prefix));
            spans.push(Span::styled(q.as_str().to_owned(), self.theme.text));
            spans.push(Span::styled(cursor.to_owned(), self.theme.prompt));
            if let Some(msg) = &self.status {
                spans.push(Span::styled("  ".to_owned(), self.theme.text));
                spans.push(Span::styled(msg.as_str().to_owned(), self.theme.prompt));
            }
            assert(spans_view(spans@) =~= self@.status_spans());
            return spans;
        }
        if let Some(msg) = &self.status {
            spans.push(Span::styled(msg.as_str().to_owned(), self.theme.prompt));
        } else {
            spans.push(Span::styled(join_with(&parts, "  "), self.theme.indent_marker));
        }
        assert(spans_view(spans@) =~= self@.status_spans());
        spans
    }

    /// The boxes that lie over the tree, on a screen.
    pub fn popups(&self, screen: Rect) -> (r: Vec<Popup>)
        requires
            self.wf(),
        ensures
            match self@.overlay {
                OverlayView::Closed => r@.len() == 0,
                OverlayView::Input(v) => r@.len() == 1 && r@[0]@ == input_box(
                    screen,
                    self@.theme,
                    v,
                ),
                OverlayView::Confirm(v) => r@.len() == 1 && r@[0]@ == confirm_box(
                    screen,
                    self@.theme,
                    v,
                ),
                OverlayView::Info(v) => {
                    &&& r@.len() == 1
                    &&& r@[0]@ == info_box(r@[0].area, self@.theme, v)
                    &&& fits(screen, true) && fits(screen, false) ==> r@[0].area == middle(
                        middle(screen, true, 50),
                        false,
                        60,
                    )
                },
                OverlayView::Help(h) => r@.len() == 2 && (r@[0]@, r@[1]@) == help_boxes(
                    screen,
                    self@.theme,
                    h,
                ),
            },
    {
        proof {
            reveal(seen);
        }
        let mut boxes: Vec<Popup> = Vec::new();
        match &self.overlay {
            Overlay::Closed => {},
            Overlay::Input(state) => boxes.push(render_input(screen, &self.theme, state)),
            Overlay::Confirm(state) => boxes.push(render_confirm(screen, &self.theme, state)),
            Overlay::Info(state) => boxes.push(render_info(screen, &self.theme, state)),
            Overlay::Help(state) => {
                let (body, footer) = render_help(screen, &self.theme, state);
                boxes.push(body);
                boxes.push(footer);
            },
        }
        boxes
    }
}

/// Where the cursor is on the screen, it stays there when the view is fitted,
/// and below the last row nothing is left blank while there are rows above the
/// first.
pub proof fn law_view_is_filled(
    rows: Seq<RowView>,
    list: ListState,
    opened: bool,
    height: int,
    scrolloff: int,
)
    requires
        height >= 0,
        scrolloff >= 0,
    ensures
        ({
            let o = offset_for(rows, list, opened, height, scrolloff);
            &&& 0 <= o
            &&& o == 0 || o + height <= rows.len()
            &&& list.selected is Some && list.selected->0 < rows.len() && list.offset
                <= list.selected->0 ==> o <= list.selected->0
        }),
{
    if list.selected is Some && list.selected->0 < rows.len() {
        let i = list.selected->0 as int;
        lemma_first_from(
            no_deeper_row(rows, rows[i].depth),
            i + 1,
            rows.len() as int,
        );
    }
}

/// A directory that was just opened shows the first of what it holds: the row
/// below the cursor is on the screen, if the cursor is and the screen has two
/// lines.
pub proof fn law_opened_directory_shows(
    rows: Seq<RowView>,
    list: ListState,
    height: int,
    scrolloff: int,
)
    requires
        height >= 2,
        0 <= scrolloff,
        list.selected is Some,
        list.selected->0 < rows.len(),
        rows_below(rows, list.selected->0 as int) > 0,
        list.offset <= list.selected->0,
    ensures
        ({
            let o = offset_for(rows, list, true, height, scrolloff);
            o <= list.selected->0 && list.selected->0 + 1 < o + height
        }),
{
    let i = list.selected->0 as int;
    lemma_first_from(no_deeper_row(rows, rows[i].depth), i + 1, rows.len() as int);
}

} // verus!
