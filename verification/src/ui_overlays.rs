//! What lies over the tree: the prompts, the questions, the help. What is
//! typed and where, and what is drawn.

use vstd::prelude::*;

use crate::layout::{centered_rect, fits, middle};
use crate::path::Path;
use crate::paths::path_texts;
use crate::render::builder::lines_view;
use crate::style::{plain_style, spans_view, Rect, Span, SpanView, Style};
use crate::text::{from_chars, join3, joined, pad, padded, repeat, repeated};
use crate::text::{split_whitespace, to_bytes, to_chars, views, words};
use crate::theme::{builtin, Theme};

verus! {

/// What is asked for in a prompt.
#[derive(Debug)]
pub enum InputKind {
    /// A path to create, taken from the root of the tree; one that ends with a
    /// slash is a directory.
    Create,
    /// A new name for a path.
    Rename { path: Path },
    /// A new name for a path, without the extension, which stays.
    RenameBasename { path: Path },
    /// A new path for a path.
    RenameFull { path: Path },
    /// A part of the name of a node to go to.
    Search,
}

/// What is asked for in a prompt, with texts in place of paths.
pub enum KindView {
    Create,
    Rename { path: Seq<u8> },
    RenameBasename { path: Seq<u8> },
    RenameFull { path: Seq<u8> },
    Search,
}

impl View for InputKind {
    type V = KindView;

    open spec fn view(&self) -> KindView {
        match self {
            InputKind::Create => KindView::Create,
            InputKind::Rename { path } => KindView::Rename { path: path@ },
            InputKind::RenameBasename { path } => KindView::RenameBasename { path: path@ },
            InputKind::RenameFull { path } => KindView::RenameFull { path: path@ },
            InputKind::Search => KindView::Search,
        }
    }
}

/// How many bytes write a character.
pub open spec fn char_width(c: char) -> nat {
    vstd::utf8::encode_scalar(c as u32).len()
}

/// How many bytes write a text.
pub open spec fn byte_len(s: Seq<char>) -> nat
    decreases s.len(),
{
    if s.len() == 0 {
        0
    } else {
        char_width(s[0]) + byte_len(s.drop_first())
    }
}

/// How many characters begin within the first `n` bytes of a text.
pub open spec fn chars_within(s: Seq<char>, n: int) -> int
    decreases s.len(),
{
    if s.len() == 0 || n <= 0 {
        0
    } else {
        1 + chars_within(s.drop_first(), n - char_width(s[0]))
    }
}

/// The bytes that write a text are as many as its length says.
pub proof fn lemma_byte_len(s: Seq<char>)
    ensures
        byte_len(s) == vstd::utf8::encode_utf8(s).len(),
        byte_len(s) >= s.len(),
    decreases s.len(),
{
    if s.len() > 0 {
        lemma_byte_len(s.drop_first());
    }
}

/// The length of one text behind another.
pub proof fn lemma_byte_len_add(a: Seq<char>, b: Seq<char>)
    ensures
        byte_len(a + b) == byte_len(a) + byte_len(b),
    decreases a.len(),
{
    if a.len() == 0 {
        assert(a + b =~= b);
    } else {
        assert((a + b)[0] == a[0]);
        assert((a + b).drop_first() =~= a.drop_first() + b);
        lemma_byte_len_add(a.drop_first(), b);
    }
}

/// The characters within the bytes of the first part of a text are that part.
pub proof fn lemma_chars_within(a: Seq<char>, b: Seq<char>)
    ensures
        chars_within(a + b, byte_len(a) as int) == a.len(),
    decreases a.len(),
{
    if a.len() == 0 {
    } else {
        assert((a + b)[0] == a[0]);
        assert((a + b).drop_first() =~= a.drop_first() + b);
        lemma_chars_within(a.drop_first(), b);
        lemma_byte_len(a);
    }
}

fn width_of(c: char) -> (r: usize)
    ensures
        r as nat == char_width(c),
        1 <= r <= 4,
{
    let u: u32 = c as u32;
    if u <= 0x7F {
        1
    } else if u <= 0x7FF {
        2
    } else if u <= 0xFFFF {
        3
    } else {
        4
    }
}

/// A prompt, and what was typed.
#[derive(Debug)]
pub struct InputState {
    pub prompt: String,
    pub buffer: String,
    pub kind: InputKind,
    /// Where typing goes on, in bytes; always where a character begins, or at
    /// the end.
    pub cursor: usize,
}

/// A prompt, with what was typed before the cursor and what stands from it on.
#[verifier::ext_equal]
pub struct InputView {
    pub prompt: Seq<char>,
    pub before: Seq<char>,
    pub after: Seq<char>,
    pub kind: KindView,
}

impl InputView {
    /// All that was typed.
    pub open spec fn typed(self) -> Seq<char> {
        self.before + self.after
    }
}

impl View for InputState {
    type V = InputView;

    open spec fn view(&self) -> InputView {
        let at = chars_within(self.buffer@, self.cursor as int);
        InputView {
            prompt: self.prompt@,
            before: self.buffer@.take(at),
            after: self.buffer@.skip(at),
            kind: self.kind@,
        }
    }
}

impl InputState {
    /// Whether the cursor stands where a character begins, or at the end.
    #[verifier::opaque]
    pub open spec fn wf(&self) -> bool {
        exists|at: int|
            #![trigger self.buffer@.take(at)]
            0 <= at <= self.buffer@.len() && self.cursor == byte_len(self.buffer@.take(at))
    }

    /// What a cursor that stands after `at` characters makes of the buffer.
    proof fn lemma_at(&self, at: int)
        requires
            0 <= at <= self.buffer@.len(),
            self.cursor == byte_len(self.buffer@.take(at)),
        ensures
            self.wf(),
            self@.before == self.buffer@.take(at),
            self@.after == self.buffer@.skip(at),
            self@.typed() == self.buffer@,
            self.cursor == byte_len(self@.before),
    {
        reveal(InputState::wf);
        let a = self.buffer@.take(at);
        let b = self.buffer@.skip(at);
        assert(a + b =~= self.buffer@);
        lemma_chars_within(a, b);
    }

    /// What was typed is what is in the buffer.
    pub proof fn lemma_typed(&self)
        requires
            self.wf(),
        ensures
            self@.typed() == self.buffer@,
    {
        reveal(InputState::wf);
        let at = choose|at: int|
            #![trigger self.buffer@.take(at)]
            0 <= at <= self.buffer@.len() && self.cursor == byte_len(self.buffer@.take(at));
        self.lemma_at(at);
        assert(self.buffer@.take(at) + self.buffer@.skip(at) =~= self.buffer@);
    }

    /// A prompt with the cursor at the end of what is there.
    pub fn new(prompt: &str, buffer: String, kind: InputKind) -> (r: InputState)
        ensures
            r.wf(),
            r@ == (InputView {
                prompt: prompt@,
                before: buffer@,
                after: Seq::empty(),
                kind: kind@,
            }),
    {
        let cursor: usize = to_bytes(buffer.as_str()).len();
        let r = InputState { prompt: prompt.to_owned(), buffer, kind, cursor };
        proof {
            let n = buffer@.len() as int;
            assert(buffer@.take(n) =~= buffer@);
            lemma_byte_len(buffer@);
            r.lemma_at(n);
            assert(r@.before =~= buffer@);
            assert(r@.after =~= Seq::empty());
        }
        r
    }

    /// The characters of the buffer, and how many stand before the cursor.
    fn parts(&self) -> (r: (Vec<char>, usize))
        requires
            self.wf(),
        ensures
            r.0@ == self.buffer@,
            r.1 <= r.0@.len(),
            self.cursor == byte_len(self.buffer@.take(r.1 as int)),
            self@.before == self.buffer@.take(r.1 as int),
            self@.after == self.buffer@.skip(r.1 as int),
    {
        proof {
            reveal(InputState::wf);
        }
        let v = to_chars(self.buffer.as_str());
        let ghost at = choose|at: int|
            #![trigger self.buffer@.take(at)]
            0 <= at <= self.buffer@.len() && self.cursor == byte_len(self.buffer@.take(at));
        let count: usize = v.len();
        let mut i: usize = 0;
        let mut n: usize = 0;
        assert(v@.take(0) =~= Seq::empty());
        while n < self.cursor
            invariant
                v@ == self.buffer@,
                count == v@.len(),
                0 <= at <= v@.len(),
                self.cursor == byte_len(v@.take(at)),
                i <= at,
                n == byte_len(v@.take(i as int)),
                n <= self.cursor,
            decreases at - i,
        {
            proof {
                if i == at {
                    assert(false);
                }
                let head = v@.take(i as int);
                let one = seq![v@[i as int]];
                assert(v@.take(i + 1) =~= head + one);
                lemma_byte_len_add(head, one);
                assert(one.drop_first() =~= Seq::empty());
                assert(byte_len(one) == char_width(v@[i as int]) + byte_len(one.drop_first()));
                let rest = v@.subrange(i + 1, at);
                assert(v@.take(at) =~= v@.take(i + 1) + rest);
                lemma_byte_len_add(v@.take(i + 1), rest);
            }
            n += width_of(v[i]);
            i += 1;
        }
        proof {
            self.lemma_at(i as int);
        }
        (v, i)
    }

    /// Puts other characters in place of the buffer, the cursor after `at` of
    /// them.
    fn rebuild(&mut self, v: &Vec<char>, at: usize)
        requires
            at <= v@.len(),
        ensures
            final(self).wf(),
            final(self)@ == (InputView {
                before: v@.take(at as int),
                after: v@.skip(at as int),
                ..old(self)@
            }),
    {
        let text = from_chars(v.as_slice());
        let head = from_chars(vstd::slice::slice_subrange(v.as_slice(), 0, at));
        let cursor: usize = to_bytes(head.as_str()).len();
        self.buffer = text;
        self.cursor = cursor;
        proof {
            assert(head@ =~= v@.take(at as int));
            lemma_byte_len(head@);
            self.lemma_at(at as int);
        }
    }

    /// Types a character.
    pub fn insert(&mut self, c: char)
        requires
            old(self).wf(),
        ensures
            final(self).wf(),
            final(self)@ == (InputView { before: old(self)@.before.push(c), ..old(self)@ }),
    {
        let (mut v, at): (Vec<char>, usize) = self.parts();
        let ghost b = self.buffer@;
        v.insert(at, c);
        let count: usize = v.len();
        assert(at < count);
        self.rebuild(&v, at + 1);
        proof {
            assert(v@.take(at + 1) =~= b.take(at as int).push(c));
            assert(v@.skip(at + 1) =~= b.skip(at as int));
        }
    }

    /// Takes the character before the cursor away.
    pub fn backspace(&mut self)
        requires
            old(self).wf(),
        ensures
            final(self).wf(),
            final(self)@ == if old(self)@.before.len() > 0 {
                InputView { before: old(self)@.before.drop_last(), ..old(self)@ }
            } else {
                old(self)@
            },
    {
        let (mut v, at): (Vec<char>, usize) = self.parts();
        let ghost b = self.buffer@;
        if at > 0 {
            let _gone = v.remove(at - 1);
            self.rebuild(&v, at - 1);
            proof {
                assert(v@.take(at - 1) =~= b.take(at as int).drop_last());
                assert(v@.skip(at - 1) =~= b.skip(at as int));
            }
        }
    }

    /// Takes the character at the cursor away.
    pub fn delete(&mut self)
        requires
            old(self).wf(),
        ensures
            final(self).wf(),
            final(self)@ == if old(self)@.after.len() > 0 {
                InputView { after: old(self)@.after.drop_first(), ..old(self)@ }
            } else {
                old(self)@
            },
    {
        let (mut v, at): (Vec<char>, usize) = self.parts();
        let ghost b = self.buffer@;
        if at < v.len() {
            let _gone = v.remove(at);
            self.rebuild(&v, at);
            proof {
                assert(v@.take(at as int) =~= b.take(at as int));
                assert(v@.skip(at as int) =~= b.skip(at as int).drop_first());
            }
        }
    }

    /// Moves the cursor one character to the left.
    pub fn left(&mut self)
        requires
            old(self).wf(),
        ensures
            final(self).wf(),
            final(self)@ == if old(self)@.before.len() > 0 {
                InputView {
                    before: old(self)@.before.drop_last(),
                    after: seq![old(self)@.before.last()] + old(self)@.after,
                    ..old(self)@
                }
            } else {
                old(self)@
            },
    {
        let (v, at): (Vec<char>, usize) = self.parts();
        let ghost b = self.buffer@;
        if at > 0 {
            self.rebuild(&v, at - 1);
            proof {
                assert(v@.take(at - 1) =~= b.take(at as int).drop_last());
                assert(v@.skip(at - 1) =~= seq![b.take(at as int).last()] + b.skip(at as int));
            }
        }
    }

    /// Moves the cursor one character to the right.
    pub fn right(&mut self)
        requires
            old(self).wf(),
        ensures
            final(self).wf(),
            final(self)@ == if old(self)@.after.len() > 0 {
                InputView {
                    before: old(self)@.before.push(old(self)@.after[0]),
                    after: old(self)@.after.drop_first(),
                    ..old(self)@
                }
            } else {
                old(self)@
            },
    {
        let (v, at): (Vec<char>, usize) = self.parts();
        let ghost b = self.buffer@;
        if at < v.len() {
            self.rebuild(&v, at + 1);
            proof {
                assert(v@.take(at + 1) =~= b.take(at as int).push(b.skip(at as int)[0]));
                assert(v@.skip(at + 1) =~= b.skip(at as int).drop_first());
            }
        }
    }

    /// Moves the cursor to the beginning.
    pub fn home(&mut self)
        requires
            old(self).wf(),
        ensures
            final(self).wf(),
            final(self)@ == (InputView {
                before: Seq::empty(),
                after: old(self)@.typed(),
                ..old(self)@
            }),
    {
        proof {
            reveal(InputState::wf);
            let at = choose|at: int|
                #![trigger self.buffer@.take(at)]
                0 <= at <= self.buffer@.len() && self.cursor == byte_len(self.buffer@.take(at));
            self.lemma_at(at);
        }
        self.cursor = 0;
        proof {
            assert(self.buffer@.take(0) =~= Seq::empty());
            self.lemma_at(0);
            assert(self.buffer@.skip(0) =~= self.buffer@);
        }
    }

    /// Moves the cursor to the end.
    pub fn end(&mut self)
        requires
            old(self).wf(),
        ensures
            final(self).wf(),
            final(self)@ == (InputView {
                before: old(self)@.typed(),
                after: Seq::empty(),
                ..old(self)@
            }),
    {
        proof {
            reveal(InputState::wf);
            let at = choose|at: int|
                #![trigger self.buffer@.take(at)]
                0 <= at <= self.buffer@.len() && self.cursor == byte_len(self.buffer@.take(at));
            self.lemma_at(at);
        }
        self.cursor = to_bytes(self.buffer.as_str()).len();
        proof {
            let n = self.buffer@.len() as int;
            assert(self.buffer@.take(n) =~= self.buffer@);
            lemma_byte_len(self.buffer@);
            self.lemma_at(n);
            assert(self.buffer@.skip(n) =~= Seq::empty());
        }
    }
}

/// What is left of what was typed does not depend on where the cursor is: moving
/// it leaves the text alone.
pub proof fn law_moving_keeps_the_text(v: InputView)
    ensures
        v.before.len() > 0 ==> v.before.drop_last() + (seq![v.before.last()] + v.after)
            == v.typed(),
        v.after.len() > 0 ==> v.before.push(v.after[0]) + v.after.drop_first() == v.typed(),
{
    if v.before.len() > 0 {
        assert(v.before.drop_last() + (seq![v.before.last()] + v.after) =~= v.typed());
    }
    if v.after.len() > 0 {
        assert(v.before.push(v.after[0]) + v.after.drop_first() =~= v.typed());
    }
}

/// Taking away what was just typed leaves what was there before.
pub proof fn law_backspace_undoes_typing(v: InputView, c: char)
    ensures
        v.before.push(c).drop_last() == v.before,
{
    assert(v.before.push(c).drop_last() =~= v.before);
}

/// What is done once it is confirmed.
#[derive(Debug)]
pub enum ConfirmKind {
    Delete(Path),
    Trash(Path),
    BulkDelete(Vec<Path>),
    BulkTrash(Vec<Path>),
}

/// What is done once it is confirmed, with texts in place of paths.
pub enum ConfirmKindView {
    Delete(Seq<u8>),
    Trash(Seq<u8>),
    BulkDelete(Seq<Seq<u8>>),
    BulkTrash(Seq<Seq<u8>>),
}

impl View for ConfirmKind {
    type V = ConfirmKindView;

    open spec fn view(&self) -> ConfirmKindView {
        match self {
            ConfirmKind::Delete(p) => ConfirmKindView::Delete(p@),
            ConfirmKind::Trash(p) => ConfirmKindView::Trash(p@),
            ConfirmKind::BulkDelete(v) => ConfirmKindView::BulkDelete(path_texts(v@)),
            ConfirmKind::BulkTrash(v) => ConfirmKindView::BulkTrash(path_texts(v@)),
        }
    }
}

/// A question to answer with yes or no.
#[derive(Debug)]
pub struct ConfirmState {
    pub prompt: String,
    pub kind: ConfirmKind,
}

/// A question, with texts in place of strings and paths.
#[verifier::ext_equal]
pub struct ConfirmView {
    pub prompt: Seq<char>,
    pub kind: ConfirmKindView,
}

impl View for ConfirmState {
    type V = ConfirmView;

    open spec fn view(&self) -> ConfirmView {
        ConfirmView { prompt: self.prompt@, kind: self.kind@ }
    }
}

/// What is told about a file.
#[derive(Debug)]
pub struct InfoState {
    pub title: String,
    pub lines: Vec<String>,
}

/// What is told about a file, with texts in place of strings.
#[verifier::ext_equal]
pub struct InfoView {
    pub title: Seq<char>,
    pub lines: Seq<Seq<char>>,
}

impl View for InfoState {
    type V = InfoView;

    open spec fn view(&self) -> InfoView {
        InfoView { title: self.title@, lines: views(self.lines@) }
    }
}

/// How far the help is scrolled.
#[derive(Clone, Copy, Debug, PartialEq, Eq, Structural)]
pub struct HelpState {
    pub scroll: u16,
}

impl Default for HelpState {
    fn default() -> (r: HelpState)
        ensures
            r == (HelpState { scroll: 0 }),
    {
        HelpState { scroll: 0 }
    }
}

/// What lies over the tree.
#[derive(Debug)]
pub enum Overlay {
    /// Nothing.
    Closed,
    Input(InputState),
    Confirm(ConfirmState),
    Info(InfoState),
    Help(HelpState),
}

/// What lies over the tree, with texts in place of strings and paths.
pub enum OverlayView {
    Closed,
    Input(InputView),
    Confirm(ConfirmView),
    Info(InfoView),
    Help(HelpState),
}

impl View for Overlay {
    type V = OverlayView;

    open spec fn view(&self) -> OverlayView {
        match self {
            Overlay::Closed => OverlayView::Closed,
            Overlay::Input(s) => OverlayView::Input(s@),
            Overlay::Confirm(s) => OverlayView::Confirm(s@),
            Overlay::Info(s) => OverlayView::Info(s@),
            Overlay::Help(s) => OverlayView::Help(*s),
        }
    }
}

impl Overlay {
    /// Whether a prompt has its cursor where a character begins.
    pub open spec fn wf(&self) -> bool {
        match self {
            Overlay::Input(s) => s.wf(),
            _ => true,
        }
    }
}

/// A box with lines of text in it, as it is to be drawn.
#[derive(Debug)]
pub struct Popup {
    pub area: Rect,
    /// The style of the border, if there is one.
    pub border: Option<Style>,
    pub title: Option<Span>,
    pub lines: Vec<Vec<Span>>,
    pub style: Style,
    /// Whether lines that are too long go on below.
    pub wrap: bool,
    pub scroll_rows: u16,
    pub scroll_cols: u16,
}

/// A box, with texts and lists in place of strings and vectors.
#[verifier::ext_equal]
pub struct PopupView {
    pub area: Rect,
    pub border: Option<Style>,
    pub title: Option<SpanView>,
    pub lines: Seq<Seq<SpanView>>,
    pub style: Style,
    pub wrap: bool,
    pub scroll_rows: u16,
    pub scroll_cols: u16,
}

impl View for Popup {
    type V = PopupView;

    open spec fn view(&self) -> PopupView {
        PopupView {
            area: self.area,
            border: self.border,
            title: match self.title {
                Some(t) => Some(t@),
                None => None,
            },
            lines: lines_view(self.lines@),
            style: self.style,
            wrap: self.wrap,
            scroll_rows: self.scroll_rows,
            scroll_cols: self.scroll_cols,
        }
    }
}

/// The lowest rows of an area.
pub open spec fn bottom_of(area: Rect, height: u16) -> Rect {
    let h = if height < area.height {
        height
    } else {
        area.height
    };
    Rect {
        x: area.x,
        y: area.y.saturating_add((area.height - h) as u16),
        width: area.width,
        height: h,
    }
}

/// The lowest rows of an area.
pub fn bottom_popup(area: Rect, height: u16) -> (r: Rect)
    ensures
        r == bottom_of(area, height),
{
    let h: u16 = if height < area.height {
        height
    } else {
        area.height
    };
    Rect { x: area.x, y: area.y.saturating_add(area.height - h), width: area.width, height: h }
}

/// How many cells a text takes on the screen.
pub uninterp spec fn display_width(text: Seq<char>) -> usize;

/// `ratatui::text::Span::width`: how many cells a text takes. It depends on the
/// text alone; how wide a given text is is left unsaid.
#[verifier::external_body]
fn text_width(text: &str) -> (r: usize)
    ensures
        r == display_width(text@),
{
    ratatui::text::Span::raw(text).width()
}

/// How far a line is scrolled so that so many cells are gone: the first place,
/// from the beginning on, where a character ends and as many are, or the end.
pub open spec fn scrolled(text: Seq<char>, wanted: usize, gone: usize) -> usize
    decreases text.len(),
{
    if gone >= wanted || text.len() == 0 {
        gone
    } else {
        scrolled(
            text.drop_first(),
            wanted,
            gone.saturating_add(display_width(seq![text[0]])),
        )
    }
}

/// How many cells the cursor takes.
pub open spec fn cursor_cells(after: Seq<char>) -> usize {
    if after.len() > 0 && display_width(seq![after[0]]) > 1 {
        display_width(seq![after[0]])
    } else {
        1
    }
}

/// How far what was typed is scrolled in a box of a width: just so far that the
/// cursor is in it.
pub open spec fn input_scroll(before: Seq<char>, after: Seq<char>, width: u16) -> u16 {
    let room = width.saturating_sub(2) as usize;
    let wanted = display_width(before).saturating_add(cursor_cells(after)).saturating_sub(room);
    let n = scrolled(before, wanted, 0);
    if n > u16::MAX {
        u16::MAX
    } else {
        n as u16
    }
}

/// What was typed, the cursor as a block.
pub open spec fn typed_line(v: InputView, theme: Theme) -> Seq<SpanView> {
    let cursor = theme.prompt.spec_reversed();
    seq![SpanView { text: v.before, style: theme.text }] + if v.after.len() > 0 {
        seq![
            SpanView { text: seq![v.after[0]], style: cursor },
            SpanView { text: v.after.drop_first(), style: theme.text },
        ]
    } else {
        seq![SpanView { text: " "@, style: cursor }]
    }
}

/// The box of a prompt.
pub open spec fn input_box(area: Rect, theme: Theme, v: InputView) -> PopupView {
    let popup = bottom_of(area, 3);
    PopupView {
        area: popup,
        border: Some(theme.prompt),
        title: Some(SpanView { text: v.prompt, style: theme.prompt }),
        lines: seq![typed_line(v, theme)],
        style: plain_style(),
        wrap: false,
        scroll_rows: 0,
        scroll_cols: input_scroll(v.before, v.after, popup.width),
    }
}

fn one_char(c: char) -> (r: String)
    ensures
        r@ == seq![c],
{
    let mut s = String::new();
    s.push(c);
    assert(s@ =~= seq![c]);
    s
}

fn scroll_of(before: &Vec<char>, after: &Vec<char>, width: u16) -> (r: u16)
    ensures
        r == input_scroll(before@, after@, width),
{
    let cells: usize = if after.len() > 0 {
        let w: usize = text_width(one_char(after[0]).as_str());
        if w > 1 {
            w
        } else {
            1
        }
    } else {
        1
    };
    let room: usize = width.saturating_sub(2) as usize;
    let col: usize = text_width(from_chars(before.as_slice()).as_str());
    let wanted: usize = col.saturating_add(cells).saturating_sub(room);
    let mut gone: usize = 0;
    let mut i: usize = 0;
    assert(before@.skip(0) =~= before@);
    while i < before.len() && gone < wanted
        invariant
            i <= before@.len(),
            scrolled(before@, wanted, 0) == scrolled(before@.skip(i as int), wanted, gone),
        decreases before@.len() - i,
    {
        assert(before@.skip(i as int)[0] == before@[i as int]);
        assert(before@.skip(i as int).drop_first() =~= before@.skip(i + 1));
        gone = gone.saturating_add(text_width(one_char(before[i]).as_str()));
        i += 1;
    }
    if gone > 65535 {
        65535
    } else {
        gone as u16
    }
}

fn one_line(spans: Vec<Span>) -> (r: Vec<Vec<Span>>)
    ensures
        lines_view(r@) == seq![spans_view(spans@)],
{
    let mut v: Vec<Vec<Span>> = Vec::new();
    v.push(spans);
    assert(lines_view(v@) =~= seq![spans_view(spans@)]);
    v
}

/// The box of a prompt: one line near the bottom.
pub fn render_input(area: Rect, theme: &Theme, state: &InputState) -> (r: Popup)
    requires
        state.wf(),
    ensures
        r@ == input_box(area, *theme, state@),
{
    let popup = bottom_popup(area, 3);
    let (v, at): (Vec<char>, usize) = state.parts();
    let before = vstd::slice::slice_to_vec(vstd::slice::slice_subrange(v.as_slice(), 0, at));
    let after = vstd::slice::slice_to_vec(vstd::slice::slice_subrange(v.as_slice(), at, v.len()));
    assert(before@ =~= state@.before);
    assert(after@ =~= state@.after);
    let cursor = theme.prompt.reversed();
    let mut spans: Vec<Span> = Vec::new();
    spans.push(Span::styled(from_chars(before.as_slice()), theme.text));
    if after.len() > 0 {
        spans.push(Span::styled(one_char(after[0]), cursor));
        let rest = vstd::slice::slice_subrange(after.as_slice(), 1, after.len());
        assert(rest@ =~= after@.drop_first());
        spans.push(Span::styled(from_chars(rest), theme.text));
    } else {
        spans.push(Span::styled(" ".to_owned(), cursor));
    }
    assert(spans_view(spans@) =~= typed_line(state@, *theme));
    let scroll: u16 = scroll_of(&before, &after, popup.width);
    Popup {
        area: popup,
        border: Some(theme.prompt),
        title: Some(Span::styled(state.prompt.clone(), theme.prompt)),
        lines: one_line(spans),
        style: Style::default(),
        wrap: false,
        scroll_rows: 0,
        scroll_cols: scroll,
    }
}

/// The box of a question.
pub open spec fn confirm_box(area: Rect, theme: Theme, v: ConfirmView) -> PopupView {
    PopupView {
        area: bottom_of(area, 4),
        border: Some(theme.prompt),
        title: None,
        lines: seq![
            seq![SpanView { text: v.prompt, style: theme.text }],
            seq![SpanView { text: "[y]es  [n]o"@, style: theme.prompt }],
        ],
        style: plain_style(),
        wrap: true,
        scroll_rows: 0,
        scroll_cols: 0,
    }
}

fn one_span(text: String, style: Style) -> (r: Vec<Span>)
    ensures
        spans_view(r@) == seq![SpanView { text: text@, style }],
{
    let mut v: Vec<Span> = Vec::new();
    v.push(Span::styled(text, style));
    assert(spans_view(v@) =~= seq![SpanView { text: text@, style }]);
    v
}

/// The box of a question.
pub fn render_confirm(area: Rect, theme: &Theme, state: &ConfirmState) -> (r: Popup)
    ensures
        r@ == confirm_box(area, *theme, state@),
{
    let mut lines: Vec<Vec<Span>> = Vec::new();
    lines.push(one_span(state.prompt.clone(), theme.text));
    lines.push(one_span("[y]es  [n]o".to_owned(), theme.prompt));
    let r = Popup {
        area: bottom_popup(area, 4),
        border: Some(theme.prompt),
        title: None,
        lines,
        style: Style::default(),
        wrap: true,
        scroll_rows: 0,
        scroll_cols: 0,
    };
    assert(r@.lines =~= confirm_box(area, *theme, state@).lines);
    r
}

/// The box that tells about a file, in an area.
pub open spec fn info_box(area: Rect, theme: Theme, v: InfoView) -> PopupView {
    PopupView {
        area,
        border: Some(theme.help_title),
        title: Some(SpanView { text: " "@ + v.title + " "@, style: theme.help_title }),
        lines: v.lines.map_values(|l: Seq<char>| seq![SpanView { text: l, style: theme.text }]),
        style: theme.help,
        wrap: false,
        scroll_rows: 0,
        scroll_cols: 0,
    }
}

/// The box that tells about a file, in an area.
pub fn info_popup(area: Rect, theme: &Theme, state: &InfoState) -> (r: Popup)
    ensures
        r@ == info_box(area, *theme, state@),
{
    let mut lines: Vec<Vec<Span>> = Vec::new();
    let mut i: usize = 0;
    while i < state.lines.len()
        invariant
            i <= state.lines@.len(),
            lines@.len() == i,
            forall|k: int|
                0 <= k < i ==> spans_view((#[trigger] lines@[k])@) == seq![
                    SpanView { text: state.lines@[k]@, style: theme.text },
                ],
        decreases state.lines@.len() - i,
    {
        lines.push(one_span(state.lines[i].clone(), theme.text));
        i += 1;
    }
    let r = Popup {
        area,
        border: Some(theme.help_title),
        title: Some(Span::styled(join3(" ", state.title.as_str(), " "), theme.help_title)),
        lines,
        style: theme.help,
        wrap: false,
        scroll_rows: 0,
        scroll_cols: 0,
    };
    assert(r@.lines =~= info_box(area, *theme, state@).lines);
    r
}

/// The box that tells about a file, in the middle of an area.
pub fn render_info(area: Rect, theme: &Theme, state: &InfoState) -> (r: Popup)
    ensures
        r@ == info_box(r.area, *theme, state@),
        fits(area, true) && fits(area, false) ==> r.area == middle(middle(area, true, 50), false, 60),
{
    info_popup(centered_rect(area, 60, 50), theme, state)
}

/// What is put on a line of a width: `line` so far, `done` the lines above, and
/// `ws` the words to come. A word that does not fit begins a line of its own.
pub open spec fn filled(
    done: Seq<Seq<char>>,
    line: Seq<char>,
    ws: Seq<Seq<char>>,
    width: nat,
) -> Seq<Seq<char>>
    decreases ws.len(),
{
    if ws.len() == 0 {
        if line.len() > 0 {
            done.push(line)
        } else {
            done
        }
    } else if line.len() == 0 {
        filled(done, ws[0], ws.drop_first(), width)
    } else if line.len() + 1 + ws[0].len() <= width {
        filled(done, line + " "@ + ws[0], ws.drop_first(), width)
    } else {
        filled(done.push(line), ws[0], ws.drop_first(), width)
    }
}

/// A text in lines of a width: its words, as many on a line as fit. There is at
/// least one line.
pub open spec fn wrapped(text: Seq<char>, width: nat) -> Seq<Seq<char>> {
    if width == 0 {
        seq![text]
    } else {
        let lines = filled(Seq::empty(), Seq::empty(), words(text), width);
        if lines.len() == 0 {
            seq![Seq::empty()]
        } else {
            lines
        }
    }
}

/// A text in lines of a width.
pub fn wrap_words(text: &str, width: usize) -> (r: Vec<String>)
    ensures
        views(r@) == wrapped(text@, width as nat),
        r@.len() > 0,
{
    let mut lines: Vec<String> = Vec::new();
    if width == 0 {
        lines.push(text.to_owned());
        assert(views(lines@) =~= seq![text@]);
        return lines;
    }
    let ws = split_whitespace(text);
    let ghost all = words(text@);
    let ghost whole = filled(Seq::empty(), Seq::empty(), all, width as nat);
    let mut cur = String::new();
    let mut i: usize = 0;
    proof {
        assert(all.skip(0) =~= all);
        assert(views(lines@) =~= Seq::empty());
        assert(cur@ =~= Seq::empty());
    }
    while i < ws.len()
        invariant
            i <= ws@.len(),
            views(ws@) == all,
            whole == filled(views(lines@), cur@, all.skip(i as int), width as nat),
        decreases ws@.len() - i,
    {
        let word = ws[i].as_str();
        proof {
            assert(views(ws@)[i as int] == ws@[i as int]@);
            assert(all.skip(i as int)[0] == word@);
            assert(all.skip(i as int).drop_first() =~= all.skip(i + 1));
        }
        let have: usize = to_chars(cur.as_str()).len();
        let more: usize = to_chars(word).len();
        if have == 0 {
            cur = word.to_owned();
        } else if have < width && more <= width - have - 1 {
            cur = join3(cur.as_str(), " ", word);
        } else {
            let ghost held = lines@;
            lines.push(cur);
            assert(views(lines@) =~= views(held).push(cur@));
            cur = word.to_owned();
        }
        i += 1;
    }
    assert(all.skip(i as int) =~= Seq::empty());
    if !cur.as_str().is_empty() {
        let ghost held = lines@;
        lines.push(cur);
        assert(views(lines@) =~= views(held).push(cur@));
    }
    assert(views(lines@) == whole);
    if lines.len() == 0 {
        let none = String::new();
        assert(none@ =~= Seq::empty());
        lines.push(none);
        assert(views(lines@) =~= seq![Seq::<char>::empty()]);
    }
    lines
}

spec fn all_fit(lines: Seq<Seq<char>>, width: nat, all: Seq<Seq<char>>) -> bool {
    forall|i: int|
        0 <= i < lines.len() ==> (#[trigger] lines[i]).len() <= width || all.contains(lines[i])
}

proof fn lemma_filled_fits(
    done: Seq<Seq<char>>,
    line: Seq<char>,
    ws: Seq<Seq<char>>,
    width: nat,
    all: Seq<Seq<char>>,
)
    requires
        all_fit(done, width, all),
        line.len() <= width || all.contains(line),
        forall|i: int| 0 <= i < ws.len() ==> all.contains(#[trigger] ws[i]),
    ensures
        all_fit(filled(done, line, ws, width), width, all),
    decreases ws.len(),
{
    assert(all_fit(done.push(line), width, all)) by {
        let d = done.push(line);
        assert forall|i: int| 0 <= i < d.len() implies (#[trigger] d[i]).len() <= width
            || all.contains(d[i]) by {
            if i < done.len() {
                assert(d[i] == done[i]);
            }
        }
    }
    if ws.len() > 0 {
        let rest = ws.drop_first();
        assert forall|i: int| 0 <= i < rest.len() implies all.contains(#[trigger] rest[i]) by {
            assert(rest[i] == ws[i + 1]);
        }
        assert(all.contains(ws[0]));
        if line.len() == 0 {
            lemma_filled_fits(done, ws[0], rest, width, all);
        } else if line.len() + 1 + ws[0].len() <= width {
            reveal_strlit(" ");
            lemma_filled_fits(done, line + " "@ + ws[0], rest, width, all);
        } else {
            lemma_filled_fits(done.push(line), ws[0], rest, width, all);
        }
    }
}

/// No line is wider than asked for, but for one that holds a single word.
pub proof fn law_wrapped_fits(text: Seq<char>, width: nat, i: int)
    requires
        width > 0,
        0 <= i < wrapped(text, width).len(),
    ensures
        wrapped(text, width)[i].len() <= width || words(text).contains(wrapped(text, width)[i]),
{
    lemma_filled_fits(Seq::empty(), Seq::empty(), words(text), width, words(text));
}

/// Whether a line begins with a word.
pub open spec fn begins_with_word(line: Seq<char>, w: Seq<char>) -> bool {
    w.len() <= line.len() && line.take(w.len() as int) == w && (w.len() == line.len()
        || line[w.len() as int] == ' ')
}

/// Whether the first word of a line does not fit on the line before it.
pub open spec fn had_to_break(
    before: Seq<char>,
    line: Seq<char>,
    width: nat,
    all: Seq<Seq<char>>,
) -> bool {
    exists|w: Seq<char>| #[trigger]
        all.contains(w) && begins_with_word(line, w) && before.len() + 1 + w.len() > width
}

spec fn all_full(lines: Seq<Seq<char>>, width: nat, all: Seq<Seq<char>>) -> bool {
    forall|i: int|
        0 < i < lines.len() ==> had_to_break(lines[i - 1], #[trigger] lines[i], width, all)
}

proof fn lemma_filled_full(
    done: Seq<Seq<char>>,
    line: Seq<char>,
    ws: Seq<Seq<char>>,
    width: nat,
    all: Seq<Seq<char>>,
)
    requires
        line.len() > 0,
        all_full(done.push(line), width, all),
        none_empty(ws),
        forall|i: int| 0 <= i < ws.len() ==> all.contains(#[trigger] ws[i]),
    ensures
        all_full(filled(done, line, ws, width), width, all),
    decreases ws.len(),
{
    if ws.len() > 0 {
        let rest = ws.drop_first();
        let w = ws[0];
        assert(none_empty(rest)) by {
            assert forall|i: int| 0 <= i < rest.len() implies (#[trigger] rest[i]).len() > 0 by {
                assert(rest[i] == ws[i + 1]);
            }
        }
        assert forall|i: int| 0 <= i < rest.len() implies all.contains(#[trigger] rest[i]) by {
            assert(rest[i] == ws[i + 1]);
        }
        assert(w.len() > 0 && all.contains(w));
        let n = done.len() as int;
        let held = done.push(line);
        if line.len() + 1 + w.len() <= width {
            reveal_strlit(" ");
            let longer = line + " "@ + w;
            let next = done.push(longer);
            assert(all_full(next, width, all)) by {
                assert forall|i: int| 0 < i < next.len() implies had_to_break(
                    next[i - 1],
                    #[trigger] next[i],
                    width,
                    all,
                ) by {
                    assert(had_to_break(held[i - 1], held[i], width, all));
                    if i == n {
                        let v = choose|v: Seq<char>| #[trigger]
                            all.contains(v) && begins_with_word(line, v) && held[i - 1].len() + 1
                                + v.len() > width;
                        assert(longer.take(v.len() as int) =~= line.take(v.len() as int));
                        assert(longer[line.len() as int] == ' ');
                        assert(begins_with_word(longer, v));
                    }
                }
            }
            lemma_filled_full(done, longer, rest, width, all);
        } else {
            let next = held.push(w);
            assert(all_full(next, width, all)) by {
                assert forall|i: int| 0 < i < next.len() implies had_to_break(
                    next[i - 1],
                    #[trigger] next[i],
                    width,
                    all,
                ) by {
                    if i <= n {
                        assert(had_to_break(held[i - 1], held[i], width, all));
                    } else {
                        assert(w.take(w.len() as int) =~= w);
                        assert(begins_with_word(w, w));
                    }
                }
            }
            lemma_filled_full(held, w, rest, width, all);
        }
    }
}

/// Each line takes as many words as fit: the first word of the next line would
/// make it wider than asked for.
pub proof fn law_wrapped_is_full(text: Seq<char>, width: nat, i: int)
    requires
        width > 0,
        0 < i < wrapped(text, width).len(),
    ensures
        had_to_break(wrapped(text, width)[i - 1], wrapped(text, width)[i], width, words(text)),
{
    let ws = words(text);
    lemma_words_not_empty(text);
    if ws.len() > 0 {
        let rest = ws.drop_first();
        assert(ws[0].len() > 0);
        assert(none_empty(rest)) by {
            assert forall|k: int| 0 <= k < rest.len() implies (#[trigger] rest[k]).len() > 0 by {
                assert(rest[k] == ws[k + 1]);
            }
        }
        assert forall|k: int| 0 <= k < rest.len() implies ws.contains(#[trigger] rest[k]) by {
            assert(rest[k] == ws[k + 1]);
        }
        let none = Seq::<Seq<char>>::empty();
        lemma_filled_full(none, ws[0], rest, width, ws);
        assert(all_full(filled(none, ws[0], rest, width), width, ws));
        assert(wrapped(text, width) == filled(none, Seq::empty(), ws, width));
    }
}

/// Two texts that stand one behind the other, put together beforehand.
proof fn lemma_joined_merge(
    a: Seq<Seq<char>>,
    x: Seq<char>,
    y: Seq<char>,
    b: Seq<Seq<char>>,
    sep: Seq<char>,
)
    ensures
        joined(a.push(x).push(y) + b, sep) == joined(a.push(x + sep + y) + b, sep),
    decreases b.len(),
{
    let l = a.push(x).push(y) + b;
    let r = a.push(x + sep + y) + b;
    if b.len() == 0 {
        assert(l =~= a.push(x).push(y));
        assert(r =~= a.push(x + sep + y));
        assert(l.drop_last() =~= a.push(x));
        assert(r.drop_last() =~= a);
        if a.len() == 0 {
            assert(joined(a.push(x), sep) == x);
            assert(joined(r, sep) == x + sep + y);
        } else {
            assert(a.push(x).drop_last() =~= a);
            assert(joined(a.push(x), sep) == joined(a, sep) + sep + x);
            assert(joined(l, sep) =~= joined(a, sep) + sep + x + sep + y);
            assert(joined(r, sep) =~= joined(a, sep) + sep + (x + sep + y));
            assert(joined(a, sep) + sep + x + sep + y =~= joined(a, sep) + sep + (x + sep + y));
        }
    } else {
        assert(l.drop_last() =~= a.push(x).push(y) + b.drop_last());
        assert(r.drop_last() =~= a.push(x + sep + y) + b.drop_last());
        lemma_joined_merge(a, x, y, b.drop_last(), sep);
    }
}

proof fn lemma_filled_keeps(
    done: Seq<Seq<char>>,
    line: Seq<char>,
    ws: Seq<Seq<char>>,
    width: nat,
)
    requires
        line.len() > 0,
        forall|i: int| 0 <= i < ws.len() ==> (#[trigger] ws[i]).len() > 0,
    ensures
        joined(filled(done, line, ws, width), " "@) == joined(done.push(line) + ws, " "@),
    decreases ws.len(),
{
    if ws.len() == 0 {
        assert(done.push(line) + ws =~= done.push(line));
    } else {
        let rest = ws.drop_first();
        assert forall|i: int| 0 <= i < rest.len() implies (#[trigger] rest[i]).len() > 0 by {
            assert(rest[i] == ws[i + 1]);
        }
        assert(ws[0].len() > 0);
        assert(done.push(line) + ws =~= done.push(line).push(ws[0]) + rest);
        if line.len() + 1 + ws[0].len() <= width {
            lemma_joined_merge(done, line, ws[0], rest, " "@);
            lemma_filled_keeps(done, line + " "@ + ws[0], rest, width);
        } else {
            lemma_filled_keeps(done.push(line), ws[0], rest, width);
        }
    }
}

spec fn none_empty(ws: Seq<Seq<char>>) -> bool {
    forall|i: int| 0 <= i < ws.len() ==> (#[trigger] ws[i]).len() > 0
}

proof fn lemma_words_not_empty(s: Seq<char>)
    ensures
        none_empty(words(s)),
    decreases s.len(),
{
    if s.len() == 0 {
    } else if crate::text::white_space(s[0]) {
        lemma_words_not_empty(s.drop_first());
    } else {
        let n = crate::text::word_len(s) as int;
        crate::text::lemma_word_len(s);
        lemma_words_not_empty(s.skip(n));
        let tail = words(s.skip(n));
        let all = seq![s.take(n)] + tail;
        assert(n >= 1);
        assert forall|i: int| 0 <= i < all.len() implies (#[trigger] all[i]).len() > 0 by {
            if i > 0 {
                assert(all[i] == tail[i - 1]);
            } else {
                assert(all[0] == s.take(n));
            }
        }
        assert(words(s) == all);
    }
}

/// No word is lost or changed: the lines, one behind the other, are the words
/// one behind the other.
pub proof fn law_wrapped_keeps_the_words(text: Seq<char>, width: nat)
    requires
        width > 0,
    ensures
        joined(wrapped(text, width), " "@) == joined(words(text), " "@),
{
    let ws = words(text);
    lemma_words_not_empty(text);
    if ws.len() == 0 {
        assert(joined(ws, " "@) =~= Seq::empty());
    } else {
        let rest = ws.drop_first();
        assert forall|i: int| 0 <= i < rest.len() implies (#[trigger] rest[i]).len() > 0 by {
            assert(rest[i] == ws[i + 1]);
        }
        assert(ws[0].len() > 0);
        lemma_filled_keeps(Seq::empty(), ws[0], rest, width);
        assert(Seq::<Seq<char>>::empty().push(ws[0]) + rest =~= ws);
        let lines = filled(Seq::empty(), Seq::empty(), ws, width);
        if lines.len() == 0 {
            lemma_filled_grows(Seq::empty(), ws[0], rest, width);
        }
    }
}

proof fn lemma_filled_grows(
    done: Seq<Seq<char>>,
    line: Seq<char>,
    ws: Seq<Seq<char>>,
    width: nat,
)
    requires
        line.len() > 0,
        forall|i: int| 0 <= i < ws.len() ==> (#[trigger] ws[i]).len() > 0,
    ensures
        filled(done, line, ws, width).len() > done.len(),
    decreases ws.len(),
{
    if ws.len() > 0 {
        let rest = ws.drop_first();
        assert forall|i: int| 0 <= i < rest.len() implies (#[trigger] rest[i]).len() > 0 by {
            assert(rest[i] == ws[i + 1]);
        }
        assert(ws[0].len() > 0);
        if line.len() + 1 + ws[0].len() <= width {
            lemma_filled_grows(done, line + " "@ + ws[0], rest, width);
        } else {
            lemma_filled_grows(done.push(line), ws[0], rest, width);
        }
    }
}

/// The keys and what they do, in the order in which the help lists them.
pub open spec fn help_table() -> Seq<(Seq<char>, Seq<char>)> {
    seq![
        ("j / k"@, "down / up"@),
        ("K / J"@, "first / last sibling"@),
        ("> / <"@, "next / prev sibling"@),
        ("<CR> o"@, "open file / toggle dir"@),
        ("l / h"@, "expand / collapse · parent"@),
        ("P"@, "move cursor to parent"@),
        ("C-]"@, "cd into dir (re-root)"@),
        ("-"@, "re-root to parent"@),
        ("E / W"@, "expand all / collapse all"@),
        ("L"@, "toggle group-empty dirs"@),
        ("]c [c"@, "next / prev git change"@),
        ("<Tab>"@, "preview in Helix (no focus)"@),
        ("C-v C-x"@, "open in vsplit / hsplit"@),
        ("s"@, "system open"@),
        ("a"@, "create (trailing / = dir)"@),
        ("d <Del>"@, "delete (confirm)"@),
        ("D"@, "trash"@),
        ("r e u"@, "rename / basename / full-path"@),
        ("C-r"@, "rename omit filename"@),
        ("x c p"@, "cut / copy / paste"@),
        ("y Y gy"@, "copy name / relpath / abspath"@),
        ("C-k"@, "file info"@),
        ("m"@, "toggle bookmark"@),
        ("bd bt bmv"@, "bulk delete / trash / move"@),
        ("v"@, "select node (multi-select)"@),
        ("f / F"@, "live filter (files; E first for all) / clear"@),
        ("Esc"@, "clear filter · selection · pending"@),
        ("S"@, "search node"@),
        ("."@, "toggle hidden + git-ignored"@),
        ("C"@, "toggle git-clean (changed only)"@),
        ("U / B / M"@, "custom / no-buffer / no-bookmark"@),
        ("R"@, "refresh"@),
        ("? g?"@, "this help"@),
        ("q"@, "quit"@),
    ]
}

/// Some entries, with texts in place of strings.
pub open spec fn entries_view(s: Seq<(&'static str, &'static str)>) -> Seq<
    (Seq<char>, Seq<char>),
> {
    s.map_values(|e: (&'static str, &'static str)| (e.0@, e.1@))
}

/// The keys and what they do, in the order in which the help lists them.
pub fn help_entries() -> (r: Vec<(&'static str, &'static str)>)
    ensures
        entries_view(r@) == help_table(),
{
    let mut v: Vec<(&'static str, &'static str)> = Vec::new();
    v.push(("j / k", "down / up"));
    v.push(("K / J", "first / last sibling"));
    v.push(("> / <", "next / prev sibling"));
    v.push(("<CR> o", "open file / toggle dir"));
    v.push(("l / h", "expand / collapse · parent"));
    v.push(("P", "move cursor to parent"));
    v.push(("C-]", "cd into dir (re-root)"));
    v.push(("-", "re-root to parent"));
    v.push(("E / W", "expand all / collapse all"));
    v.push(("L", "toggle group-empty dirs"));
    v.push(("]c [c", "next / prev git change"));
    v.push(("<Tab>", "preview in Helix (no focus)"));
    v.push(("C-v C-x", "open in vsplit / hsplit"));
    v.push(("s", "system open"));
    v.push(("a", "create (trailing / = dir)"));
    v.push(("d <Del>", "delete (confirm)"));
    v.push(("D", "trash"));
    v.push(("r e u", "rename / basename / full-path"));
    v.push(("C-r", "rename omit filename"));
    v.push(("x c p", "cut / copy / paste"));
    v.push(("y Y gy", "copy name / relpath / abspath"));
    v.push(("C-k", "file info"));
    v.push(("m", "toggle bookmark"));
    v.push(("bd bt bmv", "bulk delete / trash / move"));
    v.push(("v", "select node (multi-select)"));
    v.push(("f / F", "live filter (files; E first for all) / clear"));
    v.push(("Esc", "clear filter · selection · pending"));
    v.push(("S", "search node"));
    v.push((".", "toggle hidden + git-ignored"));
    v.push(("C", "toggle git-clean (changed only)"));
    v.push(("U / B / M", "custom / no-buffer / no-bookmark"));
    v.push(("R", "refresh"));
    v.push(("? g?", "this help"));
    v.push(("q", "quit"));
    assert(entries_view(v@) =~= help_table());
    v
}

/// The width of the widest key.
pub open spec fn widest(s: Seq<(Seq<char>, Seq<char>)>) -> nat
    decreases s.len(),
{
    if s.len() == 0 {
        0
    } else {
        let w = widest(s.drop_last());
        if s.last().0.len() > w {
            s.last().0.len()
        } else {
            w
        }
    }
}

/// The width of the column of what the keys do, in a body of a width.
pub open spec fn desc_width(body: nat) -> nat {
    let col = widest(help_table()) + 1;
    if body > col {
        (body - col) as nat
    } else {
        1
    }
}

/// The lines of one entry from segment `i` on: the key on the first, and blanks
/// in its place on the others.
pub open spec fn entry_lines(
    key: Seq<char>,
    segs: Seq<Seq<char>>,
    i: int,
    col: nat,
    theme: Theme,
) -> Seq<Seq<SpanView>> {
    Seq::new(
        segs.len(),
        |k: int|
            seq![
                SpanView {
                    text: if i + k == 0 {
                        padded(key, col)
                    } else {
                        repeated(" "@, col)
                    },
                    style: plain_style().spec_bold(),
                },
                SpanView { text: segs[k], style: theme.text },
            ],
    )
}

/// The lines of some entries.
pub open spec fn entries_lines(
    s: Seq<(Seq<char>, Seq<char>)>,
    col: nat,
    desc: nat,
    theme: Theme,
) -> Seq<Seq<SpanView>>
    decreases s.len(),
{
    if s.len() == 0 {
        Seq::empty()
    } else {
        entries_lines(s.drop_last(), col, desc, theme) + entry_lines(
            s.last().0,
            wrapped(s.last().1, desc),
            0,
            col,
            theme,
        )
    }
}

/// The lines of the help, in a body of a width.
pub open spec fn help_lines(body: nat, theme: Theme) -> Seq<Seq<SpanView>> {
    seq![
        seq![SpanView { text: "treelix — keybindings"@, style: theme.help_title }],
        seq![SpanView { text: ""@, style: plain_style() }],
    ] + entries_lines(help_table(), widest(help_table()) + 1, desc_width(body), theme)
}

fn widest_key(v: &Vec<(&'static str, &'static str)>) -> (r: usize)
    ensures
        r as nat == widest(entries_view(v@)),
{
    let mut w: usize = 0;
    let mut i: usize = 0;
    let ghost e = entries_view(v@);
    while i < v.len()
        invariant
            i <= v@.len(),
            e == entries_view(v@),
            w as nat == widest(e.take(i as int)),
        decreases v@.len() - i,
    {
        assert(e.take(i + 1).drop_last() =~= e.take(i as int));
        assert(e.take(i + 1).last() == e[i as int]);
        let n: usize = to_chars(v[i].0).len();
        if n > w {
            w = n;
        }
        i += 1;
    }
    assert(e.take(i as int) =~= e);
    w
}

fn build_help(body: usize, theme: &Theme) -> (r: Vec<Vec<Span>>)
    ensures
        lines_view(r@) == help_lines(body as nat, *theme),
{
    let entries = help_entries();
    let ghost table = help_table();
    let widest_one: usize = widest_key(&entries);
    proof {
        lemma_help_is_narrow();
    }
    let col: usize = widest_one + 1;
    let desc: usize = if body > col {
        body - col
    } else {
        1
    };
    let mut lines: Vec<Vec<Span>> = Vec::new();
    lines.push(one_span("treelix — keybindings".to_owned(), theme.help_title));
    lines.push(one_span("".to_owned(), Style::default()));
    let ghost head = seq![
        seq![SpanView { text: "treelix — keybindings"@, style: theme.help_title }],
        seq![SpanView { text: ""@, style: plain_style() }],
    ];
    let mut i: usize = 0;
    proof {
        assert(lines_view(lines@) =~= head);
        assert(head + entries_lines(table.take(0), col as nat, desc as nat, *theme) =~= head);
    }
    while i < entries.len()
        invariant
            i <= entries@.len(),
            entries_view(entries@) == table,
            lines_view(lines@) == head + entries_lines(
                table.take(i as int),
                col as nat,
                desc as nat,
                *theme,
            ),
        decreases entries@.len() - i,
    {
        let (key, text) = entries[i];
        let segs = wrap_words(text, desc);
        let ghost base = lines_view(lines@);
        let ghost ss = wrapped(text@, desc as nat);
        let mut k: usize = 0;
        proof {
            assert(table[i as int] == (key@, text@));
            assert(table.take(i + 1).drop_last() =~= table.take(i as int));
            assert(table.take(i + 1).last() == table[i as int]);
            assert(base + entry_lines(key@, ss.take(0), 0, col as nat, *theme) =~= base);
        }
        while k < segs.len()
            invariant
                k <= segs@.len(),
                views(segs@) == ss,
                lines_view(lines@) == base + entry_lines(
                    key@,
                    ss.take(k as int),
                    0,
                    col as nat,
                    *theme,
                ),
            decreases segs@.len() - k,
        {
            let cell = if k == 0 {
                pad(key, col)
            } else {
                repeat(" ", col)
            };
            let mut line: Vec<Span> = Vec::new();
            line.push(Span::styled(cell, Style::default().bold()));
            line.push(Span::styled(segs[k].clone(), theme.text));
            let ghost held = lines@;
            let ghost view = seq![
                SpanView { text: cell@, style: plain_style().spec_bold() },
                SpanView { text: segs@[k as int]@, style: theme.text },
            ];
            assert(spans_view(line@) =~= view);
            lines.push(line);
            proof {
                assert(lines_view(lines@) =~= lines_view(held).push(view));
                assert(ss[k as int] == segs@[k as int]@);
                let a = entry_lines(key@, ss.take(k as int), 0, col as nat, *theme);
                let b = entry_lines(key@, ss.take(k + 1), 0, col as nat, *theme);
                assert(b =~= a.push(view));
                assert(base + b =~= (base + a).push(view));
            }
            k += 1;
        }
        proof {
            assert(ss.take(k as int) =~= ss);
            let a = entries_lines(table.take(i as int), col as nat, desc as nat, *theme);
            let b = entry_lines(key@, ss, 0, col as nat, *theme);
            assert((head + a) + b =~= head + (a + b));
        }
        i += 1;
    }
    assert(table.take(i as int) =~= table);
    lines
}

/// The keys of the help are short.
proof fn lemma_help_is_narrow()
    ensures
        widest(help_table()) < 100,
{
    reveal_strlit("j / k");
    reveal_strlit("K / J");
    reveal_strlit("> / <");
    reveal_strlit("<CR> o");
    reveal_strlit("l / h");
    reveal_strlit("P");
    reveal_strlit("C-]");
    reveal_strlit("-");
    reveal_strlit("E / W");
    reveal_strlit("L");
    reveal_strlit("]c [c");
    reveal_strlit("<Tab>");
    reveal_strlit("C-v C-x");
    reveal_strlit("s");
    reveal_strlit("a");
    reveal_strlit("d <Del>");
    reveal_strlit("D");
    reveal_strlit("r e u");
    reveal_strlit("C-r");
    reveal_strlit("x c p");
    reveal_strlit("y Y gy");
    reveal_strlit("C-k");
    reveal_strlit("m");
    reveal_strlit("bd bt bmv");
    reveal_strlit("v");
    reveal_strlit("f / F");
    reveal_strlit("Esc");
    reveal_strlit("S");
    reveal_strlit(".");
    reveal_strlit("C");
    reveal_strlit("U / B / M");
    reveal_strlit("R");
    reveal_strlit("? g?");
    reveal_strlit("q");
    lemma_narrow(help_table());
}

proof fn lemma_narrow(s: Seq<(Seq<char>, Seq<char>)>)
    requires
        forall|i: int| 0 <= i < s.len() ==> (#[trigger] s[i]).0.len() < 100,
    ensures
        widest(s) < 100,
    decreases s.len(),
{
    if s.len() > 0 {
        assert forall|i: int| 0 <= i < s.drop_last().len() implies (
        #[trigger] s.drop_last()[i]).0.len() < 100 by {
            assert(s.drop_last()[i] == s[i]);
        }
        lemma_narrow(s.drop_last());
        assert(s[s.len() - 1].0.len() < 100);
    }
}

/// How many lines the help has, in a body of a width.
pub open spec fn help_count(body: nat) -> u16 {
    let n = help_lines(body, builtin()).len();
    if n > 65535 {
        65535
    } else {
        n as u16
    }
}

/// How many lines the help has, in a body of a width.
pub fn help_line_count(body: usize) -> (r: u16)
    ensures
        r == help_count(body as nat),
{
    let theme = Theme::default();
    let lines = build_help(body, &theme);
    assert(lines@.len() == lines_view(lines@).len());
    if lines.len() > 65535 {
        65535
    } else {
        lines.len() as u16
    }
}

/// The body of the help and the line below it, in an area.
pub open spec fn help_boxes(area: Rect, theme: Theme, state: HelpState) -> (PopupView, PopupView) {
    let x = area.x.saturating_add(2);
    let width = area.width.saturating_sub(3);
    let blank = PopupView {
        area,
        border: None,
        title: None,
        lines: Seq::empty(),
        style: theme.help,
        wrap: false,
        scroll_rows: 0,
        scroll_cols: 0,
    };
    (
        PopupView {
            area: Rect {
                x,
                y: area.y.saturating_add(1),
                width,
                height: area.height.saturating_sub(3),
            },
            lines: help_lines(width as nat, theme),
            scroll_rows: state.scroll,
            ..blank
        },
        PopupView {
            area: Rect {
                x,
                y: area.y.saturating_add(area.height.saturating_sub(1)),
                width,
                height: 1,
            },
            lines: seq![
                seq![SpanView { text: "press any key to close"@, style: theme.indent_marker }],
            ],
            ..blank
        },
    )
}

/// The help: its body and the line below it. It fills the whole area.
pub fn render_help(area: Rect, theme: &Theme, state: &HelpState) -> (r: (Popup, Popup))
    ensures
        (r.0@, r.1@) == help_boxes(area, *theme, *state),
{
    let x: u16 = area.x.saturating_add(2);
    let width: u16 = area.width.saturating_sub(3);
    let body = Popup {
        area: Rect {
            x,
            y: area.y.saturating_add(1),
            width,
            height: area.height.saturating_sub(3),
        },
        border: None,
        title: None,
        lines: build_help(width as usize, theme),
        style: theme.help,
        wrap: false,
        scroll_rows: state.scroll,
        scroll_cols: 0,
    };
    let footer = Popup {
        area: Rect {
            x,
            y: area.y.saturating_add(area.height.saturating_sub(1)),
            width,
            height: 1,
        },
        border: None,
        title: None,
        lines: one_line(one_span("press any key to close".to_owned(), theme.indent_marker)),
        style: theme.help,
        wrap: false,
        scroll_rows: 0,
        scroll_cols: 0,
    };
    (body, footer)
}

} // verus!
