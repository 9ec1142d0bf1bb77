//! What holds of themes: which color each text names, and which style each key
//! sets.

use vstd::prelude::*;

use crate::document::{field_at, table_at, text_at};
use crate::style::{plain_style, Color, Style};
use crate::text::{lowercase, pieces, trimmed};
use crate::theme::{builtin, color_named, hex_color, hex_digit, hex_pair, imported, palette_in};
use crate::theme::{palette_of, scope_color, selection_color, style_at};
use crate::theme::{style_described, theme_of, with_word, with_words};

verus! {

/// The digits of a color: the ten digits and six letters of either case stand
/// for their values, and nothing else does.
pub proof fn law_hex_digits(b: u8)
    ensures
        48 <= b <= 57 ==> hex_digit(b) == Some(b - 48),
        65 <= b <= 70 ==> hex_digit(b) == Some(b - 65 + 10),
        97 <= b <= 102 ==> hex_digit(b) == Some(b - 97 + 10),
        !(48 <= b <= 57 || 65 <= b <= 70 || 97 <= b <= 102) ==> hex_digit(b) is None,
{
}

/// Two digits are sixteen times the first and the second.
pub proof fn law_hex_pairs(x: u8, y: u8, a: int, b: int)
    requires
        hex_digit(x) == Some(a),
        hex_digit(y) == Some(b),
    ensures
        hex_pair(x, y) == Some(16 * a + b),
        0 <= 16 * a + b < 256,
{
}

/// A color of six digits is its red, its green and its blue, two digits each, in
/// that order. A text of any other length is none.
pub proof fn law_hex_colors(s: Seq<char>, b: Seq<u8>, red: int, green: int, blue: int)
    requires
        b == vstd::utf8::encode_utf8(crate::text::drop_start(trimmed(s), '#')),
    ensures
        b.len() != 6 ==> hex_color(s) is None,
        b.len() == 6 && hex_pair(b[0], b[1]) == Some(red) && hex_pair(b[2], b[3]) == Some(green)
            && hex_pair(b[4], b[5]) == Some(blue) ==> hex_color(s) == Some(
            Color::Rgb(red as u8, green as u8, blue as u8),
        ),
        b.len() == 6 && (hex_pair(b[0], b[1]) is None || hex_pair(b[2], b[3]) is None || hex_pair(
            b[4],
            b[5],
        ) is None) ==> hex_color(s) is None,
{
}

/// A color is looked for in the palette before it is read as digits; an empty
/// text is none.
pub proof fn law_palette_comes_first(token: Seq<char>, palette: Map<Seq<char>, Color>)
    ensures
        trimmed(token).len() == 0 ==> color_named(token, palette) is None,
        trimmed(token).len() > 0 && trimmed(token).len() != 4 && palette.contains_key(
            trimmed(token),
        ) ==> color_named(token, palette) == Some(palette[trimmed(token)]),
        trimmed(token).len() > 0 && trimmed(token).len() != 4 && !palette.contains_key(
            trimmed(token),
        ) ==> color_named(token, palette) == hex_color(trimmed(token)),
        trimmed(token) == seq!['n', 'o', 'n', 'e'] ==> color_named(token, palette) is None,
{
}

/// Each word sets a style off in its way, and leaves its colors alone.
pub proof fn law_words_set_off(style: Style, word: Seq<char>)
    ensures
        ({
            let w = lowercase(trimmed(word));
            let s = with_word(style, word);
            &&& s.fg == style.fg && s.bg == style.bg
            &&& w == "bold"@ ==> s.mods.bold && s.mods.italic == style.mods.italic && s.mods.dim
                == style.mods.dim
            &&& w == "italic"@ ==> s.mods.italic && s.mods.bold == style.mods.bold
            &&& w == "underline"@ || w == "underlined"@ ==> s.mods.underlined && s.mods.bold
                == style.mods.bold
            &&& w == "dim"@ ==> s.mods.dim && s.mods.bold == style.mods.bold
            &&& w == "reversed"@ || w == "reverse"@ ==> s.mods.reversed && s.mods.bold
                == style.mods.bold
            &&& w != "bold"@ && w != "italic"@ && w != "underline"@ && w != "underlined"@ && w
                != "dim"@ && w != "reversed"@ && w != "reverse"@ ==> s == style
        }),
{
    reveal_strlit("bold");
    reveal_strlit("italic");
    reveal_strlit("underline");
    reveal_strlit("underlined");
    reveal_strlit("dim");
    reveal_strlit("reversed");
    reveal_strlit("reverse");
    assert("bold"@[0] == 'b' && "italic"@[0] == 'i' && "underline"@[0] == 'u' && "underlined"@[0]
        == 'u' && "dim"@[0] == 'd' && "reversed"@[0] == 'r' && "reverse"@[0] == 'r');
}

proof fn lemma_words_keep_colors(style: Style, words: Seq<Seq<char>>)
    ensures
        with_words(style, words).fg == style.fg,
        with_words(style, words).bg == style.bg,
    decreases words.len(),
{
    if words.len() > 0 {
        lemma_words_keep_colors(with_word(style, words[0]), words.skip(1));
    }
}

/// A style is a color, a color behind it and words, with slashes between: the
/// first piece is the color, the second the one behind; what is not there is not
/// set.
pub proof fn law_style_pieces(s: Seq<char>, palette: Map<Seq<char>, Color>)
    ensures
        ({
            let p = pieces(s, '/');
            let style = style_described(s, palette);
            &&& p.len() >= 1 ==> style.fg == color_named(trimmed(p[0]), palette)
            &&& p.len() >= 2 ==> style.bg == color_named(trimmed(p[1]), palette)
            &&& p.len() == 1 ==> style.bg == color_named(Seq::empty(), palette)
            &&& p.len() == 3 ==> style == with_words(
                Style {
                    fg: color_named(trimmed(p[0]), palette),
                    bg: color_named(trimmed(p[1]), palette),
                    ..plain_style()
                },
                pieces(trimmed(p[2]), ','),
            )
        }),
{
    let p = pieces(s, '/');
    let q = if p.len() > 2 {
        trimmed(p[2])
    } else {
        Seq::empty()
    };
    lemma_words_keep_colors(
        Style {
            fg: color_named(if p.len() > 0 {
                trimmed(p[0])
            } else {
                Seq::empty()
            }, palette),
            bg: color_named(if p.len() > 1 {
                trimmed(p[1])
            } else {
                Seq::empty()
            }, palette),
            ..plain_style()
        },
        pieces(q, ','),
    );
}

/// A palette holds the colors of its entries, the last where a name comes twice,
/// and skips what is no color.
pub proof fn law_palette_entries(
    t: Seq<(Seq<char>, Option<Seq<char>>)>,
    name: Seq<char>,
    text: Seq<char>,
)
    ensures
        hex_color(text) matches Some(c) ==> palette_in(t.push((name, Some(text)))).contains_key(name)
            && palette_in(t.push((name, Some(text))))[name] == c,
        hex_color(text) is None ==> palette_in(t.push((name, Some(text)))) == palette_in(t),
        palette_in(t.push((name, None))) == palette_in(t),
{
    assert(t.push((name, Some(text))).drop_last() =~= t);
    assert(t.push((name, None::<Seq<char>>)).drop_last() =~= t);
}

/// A key of the styles sets that style; one that is not there leaves what it
/// falls back on.
pub proof fn law_styles_are_looked_up(
    d: Seq<(Seq<char>, Option<Seq<char>>, Option<Seq<(Seq<char>, Option<Seq<char>>)>>)>,
    key: Seq<char>,
    fallback: Style,
)
    ensures
        table_at(d, "styles"@) is None ==> style_at(d, key, fallback) == fallback,
        table_at(d, "styles"@) matches Some(t) ==> match field_at(t, key) {
            Some(s) => style_at(d, key, fallback) == style_described(s, palette_of(d)),
            None => style_at(d, key, fallback) == fallback,
        },
{
}

/// Each style of a theme is read under its own name. Plain text, what lies below
/// everything and the row of the cursor fall back on nothing, the others on
/// plain text.
pub proof fn law_each_style_has_its_key(
    d: Seq<(Seq<char>, Option<Seq<char>>, Option<Seq<(Seq<char>, Option<Seq<char>>)>>)>,
)
    ensures
        ({
            let t = theme_of(d);
            &&& t.text == style_at(d, "text"@, plain_style())
            &&& t.background == style_at(d, "background"@, plain_style())
            &&& t.selection == style_at(d, "selection"@, plain_style())
            &&& t.directory == style_at(d, "directory"@, t.text)
            &&& t.root == style_at(d, "root"@, t.text)
            &&& t.indent_marker == style_at(d, "indent_marker"@, t.text)
            &&& t.arrow == style_at(d, "arrow"@, t.text)
            &&& t.icon == style_at(d, "icon"@, t.text)
            &&& t.folder_icon == style_at(d, "folder_icon"@, t.text)
            &&& t.symlink == style_at(d, "symlink"@, t.text)
            &&& t.executable == style_at(d, "executable"@, t.text)
            &&& t.git_staged == style_at(d, "git_staged"@, t.text)
            &&& t.git_dirty == style_at(d, "git_dirty"@, t.text)
            &&& t.git_deleted == style_at(d, "git_deleted"@, t.text)
            &&& t.git_renamed == style_at(d, "git_renamed"@, t.text)
            &&& t.git_conflict == style_at(d, "git_conflict"@, t.text)
            &&& t.git_untracked == style_at(d, "git_untracked"@, t.text)
            &&& t.git_ignored == style_at(d, "git_ignored"@, t.text)
            &&& t.cut == style_at(d, "cut"@, t.text)
            &&& t.copy == style_at(d, "copy"@, t.text)
            &&& t.special == style_at(d, "special"@, t.text)
            &&& t.opened == style_at(d, "opened"@, t.text)
            &&& t.bookmark == style_at(d, "bookmark"@, t.text)
            &&& t.selected == style_at(d, "selected"@, t.text)
            &&& t.help == style_at(d, "help"@, t.text)
            &&& t.help_title == style_at(d, "help_title"@, t.text)
            &&& t.prompt == style_at(d, "prompt"@, t.text)
            &&& t.filter_prefix == style_at(d, "filter_prefix"@, t.text)
            &&& t.diagnostic_error == style_at(d, "diagnostic_error"@, t.text)
            &&& t.diagnostic_warning == style_at(d, "diagnostic_warning"@, t.text)
        }),
{
}

/// A style that comes from the editor's theme has the color that is found for
/// its scope, and is the built-in one where none is.
pub open spec fn taken_from(
    d: Seq<(Seq<char>, Option<Seq<char>>, Option<Seq<(Seq<char>, Option<Seq<char>>)>>)>,
    scope: Seq<char>,
    style: Style,
    own: Style,
) -> bool {
    match scope_color(d, scope) {
        Some(c) => style.fg == Some(c),
        None => style.fg == own.fg,
    }
}

/// The scopes that the styles of an imported theme are taken from.
pub proof fn law_scopes_of_an_imported_theme(
    d: Seq<(Seq<char>, Option<Seq<char>>, Option<Seq<(Seq<char>, Option<Seq<char>>)>>)>,
)
    ensures
        ({
            let t = imported(d);
            let b = builtin();
            &&& taken_from(d, "ui.text"@, t.text, b.text)
            &&& taken_from(d, "ui.text"@, t.icon, b.icon)
            &&& taken_from(d, "function"@, t.directory, b.directory)
            &&& taken_from(d, "function"@, t.folder_icon, b.folder_icon)
            &&& taken_from(d, "ui.text.focus"@, t.root, b.root)
            &&& taken_from(d, "ui.text.focus"@, t.opened, b.opened)
            &&& taken_from(d, "comment"@, t.indent_marker, b.indent_marker)
            &&& taken_from(d, "comment"@, t.arrow, b.indent_marker)
            &&& taken_from(d, "comment"@, t.git_ignored, b.git_ignored)
            &&& taken_from(d, "string.special"@, t.symlink, b.symlink)
            &&& taken_from(d, "string"@, t.executable, b.executable)
            &&& taken_from(d, "diff.plus"@, t.git_staged, b.git_staged)
            &&& taken_from(d, "diff.delta"@, t.git_dirty, b.git_dirty)
            &&& taken_from(d, "diff.delta"@, t.git_renamed, b.git_dirty)
            &&& taken_from(d, "diff.minus"@, t.git_deleted, b.git_deleted)
            &&& taken_from(d, "diff.minus"@, t.git_conflict, b.git_deleted)
            &&& taken_from(d, "special"@, t.git_untracked, b.git_untracked)
            &&& taken_from(d, "constant"@, t.special, b.special)
            &&& taken_from(d, "keyword"@, t.bookmark, b.bookmark)
            &&& taken_from(d, "keyword"@, t.filter_prefix, b.filter_prefix)
            &&& t.directory.mods.bold && t.root.mods.bold && t.opened.mods.bold
            &&& t.special.mods.bold
            &&& t.selection.bg == match selection_color(d) {
                Some(c) => Some(c),
                None => b.selection.bg,
            }
            &&& t.cut == b.cut && t.copy == b.copy && t.selected == b.selected
            &&& t.background == b.background && t.help == b.help && t.prompt == b.prompt
            &&& t.diagnostic_error == b.diagnostic_error
            &&& t.diagnostic_warning == b.diagnostic_warning
        }),
{
}

/// The color of a scope is the text under its name, or the foreground of the
/// table there, looked up in the palette.
pub proof fn law_scope_colors(
    d: Seq<(Seq<char>, Option<Seq<char>>, Option<Seq<(Seq<char>, Option<Seq<char>>)>>)>,
    scope: Seq<char>,
)
    ensures
        text_at(d, scope) matches Some(s) ==> scope_color(d, scope) == color_named(
            s,
            palette_of(d),
        ),
        text_at(d, scope) is None ==> (table_at(d, scope) matches Some(t) ==> (field_at(t, "fg"@)
            matches Some(s) ==> scope_color(d, scope) == color_named(s, palette_of(d)))),
        text_at(d, scope) is None && table_at(d, scope) is None ==> scope_color(d, scope) is None,
{
}

} // verus!
