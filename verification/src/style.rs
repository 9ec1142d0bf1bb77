//! Colors, styles, pieces of styled text, and areas of the screen.

use vstd::prelude::*;

verus! {

/// A color.
#[derive(Clone, Copy, Debug, PartialEq, Eq, Structural)]
pub enum Color {
    Rgb(u8, u8, u8),
}

/// How text is set off.
#[derive(Clone, Copy, Debug, PartialEq, Eq, Structural)]
pub struct Modifiers {
    pub bold: bool,
    pub italic: bool,
    pub underlined: bool,
    pub dim: bool,
    pub reversed: bool,
}

/// A style: what it leaves open is taken from what is below.
#[derive(Clone, Copy, Debug, PartialEq, Eq, Structural)]
pub struct Style {
    pub fg: Option<Color>,
    pub bg: Option<Color>,
    pub mods: Modifiers,
}

/// The style that leaves everything open.
pub open spec fn plain_style() -> Style {
    Style {
        fg: None,
        bg: None,
        mods: Modifiers {
            bold: false,
            italic: false,
            underlined: false,
            dim: false,
            reversed: false,
        },
    }
}

impl Default for Style {
    fn default() -> (r: Style)
        ensures
            r == plain_style(),
    {
        Style {
            fg: None,
            bg: None,
            mods: Modifiers {
                bold: false,
                italic: false,
                underlined: false,
                dim: false,
                reversed: false,
            },
        }
    }
}

impl Style {
    /// One style over another: what the upper one sets counts, and what sets
    /// text off adds up.
    #[verifier::opaque]
    pub open spec fn spec_patch(self, other: Style) -> Style {
        Style {
            fg: if other.fg is Some {
                other.fg
            } else {
                self.fg
            },
            bg: if other.bg is Some {
                other.bg
            } else {
                self.bg
            },
            mods: Modifiers {
                bold: self.mods.bold || other.mods.bold,
                italic: self.mods.italic || other.mods.italic,
                underlined: self.mods.underlined || other.mods.underlined,
                dim: self.mods.dim || other.mods.dim,
                reversed: self.mods.reversed || other.mods.reversed,
            },
        }
    }

    /// One style over another.
    pub fn patch(self, other: Style) -> (r: Style)
        ensures
            r == self.spec_patch(other),
    {
        proof {
            reveal(Style::spec_patch);
        }
        Style {
            fg: match other.fg {
                Some(c) => Some(c),
                None => self.fg,
            },
            bg: match other.bg {
                Some(c) => Some(c),
                None => self.bg,
            },
            mods: Modifiers {
                bold: self.mods.bold || other.mods.bold,
                italic: self.mods.italic || other.mods.italic,
                underlined: self.mods.underlined || other.mods.underlined,
                dim: self.mods.dim || other.mods.dim,
                reversed: self.mods.reversed || other.mods.reversed,
            },
        }
    }

    /// The style in bold.
    pub open spec fn spec_bold(self) -> Style {
        Style { mods: Modifiers { bold: true, ..self.mods }, ..self }
    }

    /// The style, dimmed.
    pub open spec fn spec_dim(self) -> Style {
        Style { mods: Modifiers { dim: true, ..self.mods }, ..self }
    }

    /// The style with its colors swapped.
    pub open spec fn spec_reversed(self) -> Style {
        Style { mods: Modifiers { reversed: true, ..self.mods }, ..self }
    }

    /// The style in bold.
    pub fn bold(self) -> (r: Style)
        ensures
            r == self.spec_bold(),
    {
        Style { mods: Modifiers { bold: true, ..self.mods }, ..self }
    }

    /// The style, dimmed.
    pub fn dim(self) -> (r: Style)
        ensures
            r == self.spec_dim(),
    {
        Style { mods: Modifiers { dim: true, ..self.mods }, ..self }
    }

    /// The style with its colors swapped.
    pub fn reversed(self) -> (r: Style)
        ensures
            r == self.spec_reversed(),
    {
        Style { mods: Modifiers { reversed: true, ..self.mods }, ..self }
    }
}

/// The style that sets a foreground and nothing else.
pub open spec fn fg_style(c: Color) -> Style {
    Style { fg: Some(c), ..plain_style() }
}

/// A piece of text in one style.
#[derive(Debug, PartialEq)]
pub struct Span {
    pub text: String,
    pub style: Style,
}

/// A span, with a text in place of the string.
pub struct SpanView {
    pub text: Seq<char>,
    pub style: Style,
}

impl View for Span {
    type V = SpanView;

    open spec fn view(&self) -> SpanView {
        SpanView { text: self.text@, style: self.style }
    }
}

/// The views of some spans.
pub open spec fn spans_view(s: Seq<Span>) -> Seq<SpanView> {
    s.map_values(|x: Span| x@)
}

impl Span {
    /// A piece of text in a style.
    pub fn styled(text: String, style: Style) -> (r: Span)
        ensures
            r@ == (SpanView { text: text@, style }),
    {
        Span { text, style }
    }

    /// A piece of text that leaves its style open.
    pub fn raw(text: &str) -> (r: Span)
        ensures
            r@ == (SpanView { text: text@, style: plain_style() }),
    {
        Span { text: text.to_owned(), style: Style::default() }
    }
}

/// An area of the screen, in cells.
#[derive(Clone, Copy, Debug, PartialEq, Eq, Structural)]
pub struct Rect {
    pub x: u16,
    pub y: u16,
    pub width: u16,
    pub height: u16,
}

impl Default for Rect {
    fn default() -> (r: Rect)
        ensures
            r == (Rect { x: 0, y: 0, width: 0, height: 0 }),
    {
        Rect { x: 0, y: 0, width: 0, height: 0 }
    }
}

/// Patching goes by steps: one style over another over a third is the one over
/// the other two, and a style over itself is that style.
pub proof fn law_patch(a: Style, b: Style, c: Style)
    ensures
        a.spec_patch(b).spec_patch(c) == a.spec_patch(b.spec_patch(c)),
        a.spec_patch(a) == a,
        a.spec_patch(plain_style()) == a,
        plain_style().spec_patch(a) == a,
{
    reveal(Style::spec_patch);
}

} // verus!
