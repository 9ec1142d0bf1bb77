//! Themes: a style for each thing that is drawn, read from a settings file or
//! taken from the editor's theme.

use vstd::prelude::*;

use crate::diagnostics::Severity;
use crate::document::{field, field_at, table_at, table_view, text_at, text_view, toml_entries};
use crate::document::Document;
use crate::git::GitStatus;
use crate::path::{join_text, Path};
use crate::style::{fg_style, plain_style, Color, Modifiers, Style};
use crate::text::{drop_start, join2, lowercase, pieces, same_text, split, to_bytes, trim};
use crate::text::{to_chars, trim_start_char, trimmed, views};

verus! {

/// A style for each thing that is drawn.
#[derive(Clone, Copy, Debug, PartialEq, Eq, Structural)]
pub struct Theme {
    /// Plain text.
    pub text: Style,
    /// What lies below everything.
    pub background: Style,
    /// The row that the cursor is on.
    pub selection: Style,
    /// The name of a directory.
    pub directory: Style,
    /// The path of the root.
    pub root: Style,
    /// The lines of the levels.
    pub indent_marker: Style,
    /// The arrows of directories.
    pub arrow: Style,
    /// The icon of a file.
    pub icon: Style,
    /// The icon of a directory.
    pub folder_icon: Style,
    /// A link.
    pub symlink: Style,
    /// A file that can be run.
    pub executable: Style,
    /// A staged change.
    pub git_staged: Style,
    /// A change that is not staged.
    pub git_dirty: Style,
    /// Something deleted.
    pub git_deleted: Style,
    /// Something renamed.
    pub git_renamed: Style,
    /// A conflict.
    pub git_conflict: Style,
    /// Something that git does not know.
    pub git_untracked: Style,
    /// Something that git ignores.
    pub git_ignored: Style,
    /// Something cut.
    pub cut: Style,
    /// Something copied.
    pub copy: Style,
    /// A file that is set off.
    pub special: Style,
    /// The file that is open in the editor.
    pub opened: Style,
    /// The mark of a bookmark.
    pub bookmark: Style,
    /// Something selected.
    pub selected: Style,
    /// The help panel.
    pub help: Style,
    /// Titles.
    pub help_title: Style,
    /// Prompts.
    pub prompt: Style,
    /// What stands before a filter.
    pub filter_prefix: Style,
    /// The name of what has errors.
    pub diagnostic_error: Style,
    /// The name of what has warnings.
    pub diagnostic_warning: Style,
}

/// A style with colors and nothing else.
pub open spec fn shade(fg: Option<Color>, bg: Option<Color>) -> Style {
    Style { fg, bg, ..plain_style() }
}

/// A style with colors and nothing else.
fn shaded(fg: Option<Color>, bg: Option<Color>) -> (r: Style)
    ensures
        r == shade(fg, bg),
{
    Style { fg, bg, ..Style::default() }
}

/// The theme that comes with the program.
pub open spec fn builtin() -> Theme {
    Theme {
        text: shade(Some(Color::Rgb(216, 222, 233)), None),
        background: shade(None, Some(Color::Rgb(26, 31, 40))),
        selection: shade(None, Some(Color::Rgb(46, 52, 64))),
        directory: shade(Some(Color::Rgb(116, 188, 217)), None).spec_bold(),
        root: shade(Some(Color::Rgb(129, 161, 193)), None).spec_bold(),
        indent_marker: shade(Some(Color::Rgb(76, 86, 106)), None),
        arrow: shade(Some(Color::Rgb(76, 86, 106)), None),
        icon: shade(Some(Color::Rgb(216, 222, 233)), None),
        folder_icon: shade(Some(Color::Rgb(116, 188, 217)), None),
        symlink: Style {
            mods: Modifiers { italic: true, ..plain_style().mods },
            ..shade(Some(Color::Rgb(143, 188, 187)), None)
        },
        executable: shade(Some(Color::Rgb(163, 190, 140)), None),
        git_staged: shade(Some(Color::Rgb(163, 190, 140)), None),
        git_dirty: shade(Some(Color::Rgb(235, 203, 139)), None),
        git_deleted: shade(Some(Color::Rgb(191, 97, 106)), None),
        git_renamed: shade(Some(Color::Rgb(235, 203, 139)), None),
        git_conflict: shade(Some(Color::Rgb(191, 97, 106)), None).spec_bold(),
        git_untracked: shade(Some(Color::Rgb(180, 142, 173)), None),
        git_ignored: shade(Some(Color::Rgb(76, 86, 106)), None),
        cut: shade(Some(Color::Rgb(191, 97, 106)), None).spec_dim(),
        copy: shade(Some(Color::Rgb(163, 190, 140)), None).spec_dim(),
        special: shade(Some(Color::Rgb(208, 135, 112)), None).spec_bold(),
        opened: shade(Some(Color::Rgb(129, 161, 193)), None).spec_bold(),
        bookmark: shade(Some(Color::Rgb(180, 142, 173)), None),
        selected: shade(None, Some(Color::Rgb(46, 52, 64))).spec_bold(),
        help: shade(Some(Color::Rgb(216, 222, 233)), Some(Color::Rgb(26, 31, 40))),
        help_title: shade(Some(Color::Rgb(116, 188, 217)), None).spec_bold(),
        prompt: shade(Some(Color::Rgb(208, 135, 112)), None),
        filter_prefix: shade(Some(Color::Rgb(180, 142, 173)), None).spec_bold(),
        diagnostic_error: shade(Some(Color::Rgb(191, 97, 106)), None),
        diagnostic_warning: shade(Some(Color::Rgb(235, 203, 139)), None),
    }
}

impl Default for Theme {
    fn default() -> (r: Theme)
        ensures
            r == builtin(),
    {
        Theme {
            text: shaded(Some(Color::Rgb(216, 222, 233)), None),
            background: shaded(None, Some(Color::Rgb(26, 31, 40))),
            selection: shaded(None, Some(Color::Rgb(46, 52, 64))),
            directory: shaded(Some(Color::Rgb(116, 188, 217)), None).bold(),
            root: shaded(Some(Color::Rgb(129, 161, 193)), None).bold(),
            indent_marker: shaded(Some(Color::Rgb(76, 86, 106)), None),
            arrow: shaded(Some(Color::Rgb(76, 86, 106)), None),
            icon: shaded(Some(Color::Rgb(216, 222, 233)), None),
            folder_icon: shaded(Some(Color::Rgb(116, 188, 217)), None),
            symlink: Style {
                mods: Modifiers { italic: true, ..Style::default().mods },
                ..shaded(Some(Color::Rgb(143, 188, 187)), None)
            },
            executable: shaded(Some(Color::Rgb(163, 190, 140)), None),
            git_staged: shaded(Some(Color::Rgb(163, 190, 140)), None),
            git_dirty: shaded(Some(Color::Rgb(235, 203, 139)), None),
            git_deleted: shaded(Some(Color::Rgb(191, 97, 106)), None),
            git_renamed: shaded(Some(Color::Rgb(235, 203, 139)), None),
            git_conflict: shaded(Some(Color::Rgb(191, 97, 106)), None).bold(),
            git_untracked: shaded(Some(Color::Rgb(180, 142, 173)), None),
            git_ignored: shaded(Some(Color::Rgb(76, 86, 106)), None),
            cut: shaded(Some(Color::Rgb(191, 97, 106)), None).dim(),
            copy: shaded(Some(Color::Rgb(163, 190, 140)), None).dim(),
            special: shaded(Some(Color::Rgb(208, 135, 112)), None).bold(),
            opened: shaded(Some(Color::Rgb(129, 161, 193)), None).bold(),
            bookmark: shaded(Some(Color::Rgb(180, 142, 173)), None),
            selected: shaded(None, Some(Color::Rgb(46, 52, 64))).bold(),
            help: shaded(Some(Color::Rgb(216, 222, 233)), Some(Color::Rgb(26, 31, 40))),
            help_title: shaded(Some(Color::Rgb(116, 188, 217)), None).bold(),
            prompt: shaded(Some(Color::Rgb(208, 135, 112)), None),
            filter_prefix: shaded(Some(Color::Rgb(180, 142, 173)), None).bold(),
            diagnostic_error: shaded(Some(Color::Rgb(191, 97, 106)), None),
            diagnostic_warning: shaded(Some(Color::Rgb(235, 203, 139)), None),
        }
    }
}

/// Named colors. Of two colors with one name the later one counts.
#[derive(Debug)]
pub struct Palette {
    pub colors: Vec<(String, Color)>,
}

/// What some names stand for.
pub open spec fn colors_of(s: Seq<(String, Color)>) -> Map<Seq<char>, Color>
    decreases s.len(),
{
    if s.len() == 0 {
        Map::empty()
    } else {
        colors_of(s.drop_last()).insert(s.last().0@, s.last().1)
    }
}

impl View for Palette {
    type V = Map<Seq<char>, Color>;

    open spec fn view(&self) -> Map<Seq<char>, Color> {
        colors_of(self.colors@)
    }
}

impl Palette {
    /// A palette without colors.
    pub fn new() -> (r: Palette)
        ensures
            r@ == Map::<Seq<char>, Color>::empty(),
    {
        Palette { colors: Vec::new() }
    }

    /// Names a color.
    pub fn insert(&mut self, name: String, color: Color)
        ensures
            final(self)@ == old(self)@.insert(name@, color),
    {
        let ghost before = self.colors@;
        self.colors.push((name, color));
        assert(self.colors@.drop_last() =~= before);
    }

    /// The color of a name.
    pub fn get(&self, name: &str) -> (r: Option<Color>)
        ensures
            r == if self@.contains_key(name@) {
                Some(self@[name@])
            } else {
                None
            },
    {
        let mut i: usize = self.colors.len();
        let ghost all = self.colors@;
        assert(all.take(i as int) =~= all);
        while i > 0
            invariant
                i <= all.len(),
                all == self.colors@,
                self@.contains_key(name@) == colors_of(all.take(i as int)).contains_key(name@),
                self@.contains_key(name@) ==> self@[name@] == colors_of(
                    all.take(i as int),
                )[name@],
            decreases i,
        {
            i -= 1;
            proof {
                let t = all.take(i + 1);
                assert(t.drop_last() =~= all.take(i as int));
                assert(t.last() == all[i as int]);
            }
            if same_text(self.colors[i].0.as_str(), name) {
                return Some(self.colors[i].1);
            }
        }
        None
    }
}

/// The value of a hexadecimal digit.
pub open spec fn hex_digit(b: u8) -> Option<int> {
    if 48 <= b <= 57 {
        Some(b - 48)
    } else if 65 <= b <= 70 {
        Some(b - 55)
    } else if 97 <= b <= 102 {
        Some(b - 87)
    } else {
        None
    }
}

/// The value of two hexadecimal digits, or of one behind a plus.
pub open spec fn hex_pair(x: u8, y: u8) -> Option<int> {
    match hex_digit(y) {
        Some(low) => if x == 43 {
            Some(low)
        } else {
            match hex_digit(x) {
                Some(high) => Some(16 * high + low),
                None => None,
            }
        },
        None => None,
    }
}

/// The color that three pairs of digits write, with or without `#` before
/// them.
pub open spec fn hex_color(s: Seq<char>) -> Option<Color> {
    let b = vstd::utf8::encode_utf8(drop_start(trimmed(s), '#'));
    if b.len() != 6 {
        None
    } else {
        match (hex_pair(b[0], b[1]), hex_pair(b[2], b[3]), hex_pair(b[4], b[5])) {
            (Some(r), Some(g), Some(b)) => Some(Color::Rgb(r as u8, g as u8, b as u8)),
            _ => None,
        }
    }
}

fn read_digit(b: u8) -> (r: Option<u8>)
    ensures
        match r {
            Some(v) => hex_digit(b) == Some(v as int) && v < 16,
            None => hex_digit(b) is None,
        },
{
    if 48 <= b && b <= 57 {
        Some(b - 48)
    } else if 65 <= b && b <= 70 {
        Some(b - 55)
    } else if 97 <= b && b <= 102 {
        Some(b - 87)
    } else {
        None
    }
}

fn read_pair(x: u8, y: u8) -> (r: Option<u8>)
    ensures
        match r {
            Some(v) => hex_pair(x, y) == Some(v as int),
            None => hex_pair(x, y) is None,
        },
{
    match read_digit(y) {
        Some(low) => if x == 43 {
            Some(low)
        } else {
            match read_digit(x) {
                Some(high) => Some(16 * high + low),
                None => None,
            }
        },
        None => None,
    }
}

/// Reads a color from its digits.
pub fn parse_hex(s: &str) -> (r: Option<Color>)
    ensures
        r == hex_color(s@),
{
    let t = trim(s);
    let t = trim_start_char(t.as_str(), '#');
    let b = to_bytes(t.as_str());
    if b.len() != 6 {
        return None;
    }
    match (read_pair(b[0], b[1]), read_pair(b[2], b[3]), read_pair(b[4], b[5])) {
        (Some(r), Some(g), Some(b)) => Some(Color::Rgb(r, g, b)),
        _ => None,
    }
}

/// Whether a word is `none`, in any case.
pub open spec fn says_none(s: Seq<char>) -> bool {
    &&& s.len() == 4
    &&& s[0] == 'n' || s[0] == 'N'
    &&& s[1] == 'o' || s[1] == 'O'
    &&& s[2] == 'n' || s[2] == 'N'
    &&& s[3] == 'e' || s[3] == 'E'
}

/// The color that a word stands for: a name of the palette, or digits. No word
/// and `none` stand for none.
pub open spec fn color_named(token: Seq<char>, palette: Map<Seq<char>, Color>) -> Option<Color> {
    let t = trimmed(token);
    if t.len() == 0 || says_none(t) {
        None
    } else if palette.contains_key(t) {
        Some(palette[t])
    } else {
        hex_color(t)
    }
}

/// The color that a word stands for.
pub fn resolve_color(token: &str, palette: &Palette) -> (r: Option<Color>)
    ensures
        r == color_named(token@, palette@),
{
    let t = trim(token);
    let v = to_chars(t.as_str());
    if v.len() == 0 || (v.len() == 4 && (v[0] == 'n' || v[0] == 'N') && (v[1] == 'o' || v[1] == 'O')
        && (v[2] == 'n' || v[2] == 'N') && (v[3] == 'e' || v[3] == 'E')) {
        return None;
    }
    match palette.get(t.as_str()) {
        Some(c) => Some(c),
        None => parse_hex(t.as_str()),
    }
}

/// A style with one more word of how text is set off.
pub open spec fn with_word(style: Style, word: Seq<char>) -> Style {
    let w = lowercase(trimmed(word));
    let m = style.mods;
    let mods = if w == "bold"@ {
        Modifiers { bold: true, ..m }
    } else if w == "italic"@ {
        Modifiers { italic: true, ..m }
    } else if w == "underline"@ || w == "underlined"@ {
        Modifiers { underlined: true, ..m }
    } else if w == "dim"@ {
        Modifiers { dim: true, ..m }
    } else if w == "reversed"@ || w == "reverse"@ {
        Modifiers { reversed: true, ..m }
    } else {
        m
    };
    Style { mods, ..style }
}

/// A style with some words of how text is set off.
pub open spec fn with_words(style: Style, words: Seq<Seq<char>>) -> Style
    decreases words.len(),
{
    if words.len() == 0 {
        style
    } else {
        with_words(with_word(style, words[0]), words.skip(1))
    }
}

/// Piece number `i` of some, trimmed; empty where there is none.
pub open spec fn piece_at(s: Seq<Seq<char>>, i: int) -> Seq<char> {
    if i < s.len() {
        trimmed(s[i])
    } else {
        Seq::empty()
    }
}

/// The style that a text describes: a foreground, a background and words of
/// how text is set off, with slashes between.
pub open spec fn style_described(s: Seq<char>, palette: Map<Seq<char>, Color>) -> Style {
    let p = pieces(s, '/');
    with_words(
        shade(color_named(piece_at(p, 0), palette), color_named(piece_at(p, 1), palette)),
        pieces(piece_at(p, 2), ','),
    )
}

fn piece(v: &Vec<String>, i: usize) -> (r: String)
    ensures
        r@ == piece_at(views(v@), i as int),
{
    if i < v.len() {
        assert(views(v@)[i as int] == v@[i as int]@);
        trim(v[i].as_str())
    } else {
        let none = String::new();
        assert(none@ =~= Seq::empty());
        none
    }
}

fn add_word(style: Style, word: &str) -> (r: Style)
    ensures
        r == with_word(style, word@),
{
    let w = trim(word);
    let w = w.as_str().to_lowercase();
    let w = w.as_str();
    let m = style.mods;
    let mods = if same_text(w, "bold") {
        Modifiers { bold: true, ..m }
    } else if same_text(w, "italic") {
        Modifiers { italic: true, ..m }
    } else if same_text(w, "underline") || same_text(w, "underlined") {
        Modifiers { underlined: true, ..m }
    } else if same_text(w, "dim") {
        Modifiers { dim: true, ..m }
    } else if same_text(w, "reversed") || same_text(w, "reverse") {
        Modifiers { reversed: true, ..m }
    } else {
        m
    };
    Style { mods, ..style }
}

/// Reads a style from its description.
pub fn parse_style(spec: &str, palette: &Palette) -> (r: Option<Style>)
    ensures
        r == Some(style_described(spec@, palette@)),
{
    let parts = split(spec, '/');
    let fg = resolve_color(piece(&parts, 0).as_str(), palette);
    let bg = resolve_color(piece(&parts, 1).as_str(), palette);
    let words = split(piece(&parts, 2).as_str(), ',');
    let mut style = shaded(fg, bg);
    let ghost start = style;
    let ghost ws = views(words@);
    let mut i: usize = 0;
    assert(ws.skip(0) =~= ws);
    while i < words.len()
        invariant
            i <= words@.len(),
            ws == views(words@),
            with_words(start, ws) == with_words(style, ws.skip(i as int)),
        decreases words@.len() - i,
    {
        assert(ws.skip(i as int)[0] == words@[i as int]@);
        assert(ws.skip(i as int).skip(1) =~= ws.skip(i + 1));
        style = add_word(style, words[i].as_str());
        i += 1;
    }
    assert(ws.skip(i as int) =~= Seq::empty());
    Some(style)
}

/// The colors that a table names. An entry that is no color names none.
pub open spec fn palette_in(t: Seq<(Seq<char>, Option<Seq<char>>)>) -> Map<Seq<char>, Color>
    decreases t.len(),
{
    if t.len() == 0 {
        Map::empty()
    } else {
        let before = palette_in(t.drop_last());
        match t.last().1 {
            Some(s) => match hex_color(s) {
                Some(c) => before.insert(t.last().0, c),
                None => before,
            },
            None => before,
        }
    }
}

/// The colors that a document names.
pub open spec fn palette_of(
    d: Seq<(Seq<char>, Option<Seq<char>>, Option<Seq<(Seq<char>, Option<Seq<char>>)>>)>,
) -> Map<Seq<char>, Color> {
    match table_at(d, "palette"@) {
        Some(t) => palette_in(t),
        None => Map::empty(),
    }
}

/// Reads the colors that a document names.
pub fn parse_palette(doc: &Document) -> (r: Palette)
    ensures
        r@ == palette_of(doc@),
{
    let mut p = Palette::new();
    match doc.table("palette") {
        Some(t) => {
            let ghost v = table_view(t@);
            let mut i: usize = 0;
            assert(p@ =~= palette_in(v.take(0)));
            while i < t.len()
                invariant
                    i <= t@.len(),
                    v == table_view(t@),
                    p@ == palette_in(v.take(i as int)),
                decreases t@.len() - i,
            {
                proof {
                    assert(v.take(i + 1).drop_last() =~= v.take(i as int));
                    assert(v.take(i + 1).last() == v[i as int]);
                }
                match &t[i].1 {
                    Some(s) => {
                        match parse_hex(s.as_str()) {
                            Some(c) => {
                                p.insert(t[i].0.clone(), c);
                            },
                            None => {},
                        }
                    },
                    None => {},
                }
                i += 1;
            }
            assert(v.take(i as int) =~= v);
        },
        None => {},
    }
    p
}

/// The style that a document gives for a key.
pub open spec fn style_at(
    d: Seq<(Seq<char>, Option<Seq<char>>, Option<Seq<(Seq<char>, Option<Seq<char>>)>>)>,
    key: Seq<char>,
    fallback: Style,
) -> Style {
    match table_at(d, "styles"@) {
        Some(t) => match field_at(t, key) {
            Some(s) => style_described(s, palette_of(d)),
            None => fallback,
        },
        None => fallback,
    }
}

/// The theme that a document describes. What has no style is drawn as plain
/// text.
pub open spec fn theme_of(
    d: Seq<(Seq<char>, Option<Seq<char>>, Option<Seq<(Seq<char>, Option<Seq<char>>)>>)>,
) -> Theme {
    let text = style_at(d, "text"@, plain_style());
    Theme {
        text,
        background: style_at(d, "background"@, plain_style()),
        selection: style_at(d, "selection"@, plain_style()),
        directory: style_at(d, "directory"@, text),
        root: style_at(d, "root"@, text),
        indent_marker: style_at(d, "indent_marker"@, text),
        arrow: style_at(d, "arrow"@, text),
        icon: style_at(d, "icon"@, text),
        folder_icon: style_at(d, "folder_icon"@, text),
        symlink: style_at(d, "symlink"@, text),
        executable: style_at(d, "executable"@, text),
        git_staged: style_at(d, "git_staged"@, text),
        git_dirty: style_at(d, "git_dirty"@, text),
        git_deleted: style_at(d, "git_deleted"@, text),
        git_renamed: style_at(d, "git_renamed"@, text),
        git_conflict: style_at(d, "git_conflict"@, text),
        git_untracked: style_at(d, "git_untracked"@, text),
        git_ignored: style_at(d, "git_ignored"@, text),
        cut: style_at(d, "cut"@, text),
        copy: style_at(d, "copy"@, text),
        special: style_at(d, "special"@, text),
        opened: style_at(d, "opened"@, text),
        bookmark: style_at(d, "bookmark"@, text),
        selected: style_at(d, "selected"@, text),
        help: style_at(d, "help"@, text),
        help_title: style_at(d, "help_title"@, text),
        prompt: style_at(d, "prompt"@, text),
        filter_prefix: style_at(d, "filter_prefix"@, text),
        diagnostic_error: style_at(d, "diagnostic_error"@, text),
        diagnostic_warning: style_at(d, "diagnostic_warning"@, text),
    }
}

fn style_for(doc: &Document, palette: &Palette, key: &str, fallback: Style) -> (r: Style)
    requires
        palette@ == palette_of(doc@),
    ensures
        r == style_at(doc@, key@, fallback),
{
    match doc.table("styles") {
        Some(t) => match field(t, key) {
            Some(s) => match parse_style(s.as_str(), palette) {
                Some(style) => style,
                None => fallback,
            },
            None => fallback,
        },
        None => fallback,
    }
}

impl Theme {
    /// The style of a status.
    pub open spec fn spec_git_style(self, status: GitStatus) -> Style {
        match status {
            GitStatus::Staged => self.git_staged,
            GitStatus::Dirty => self.git_dirty,
            GitStatus::Deleted => self.git_deleted,
            GitStatus::Renamed => self.git_renamed,
            GitStatus::Conflict => self.git_conflict,
            GitStatus::Untracked => self.git_untracked,
            GitStatus::Ignored => self.git_ignored,
        }
    }

    /// The style of a severity.
    pub open spec fn spec_diagnostic_style(self, severity: Severity) -> Style {
        match severity {
            Severity::Error => self.diagnostic_error,
            Severity::Warning => self.diagnostic_warning,
        }
    }

    /// The style of a status.
    pub fn git_style(&self, status: GitStatus) -> (r: Style)
        ensures
            r == self.spec_git_style(status),
    {
        match status {
            GitStatus::Staged => self.git_staged,
            GitStatus::Dirty => self.git_dirty,
            GitStatus::Deleted => self.git_deleted,
            GitStatus::Renamed => self.git_renamed,
            GitStatus::Conflict => self.git_conflict,
            GitStatus::Untracked => self.git_untracked,
            GitStatus::Ignored => self.git_ignored,
        }
    }

    /// The style of a severity.
    pub fn diagnostic_style(&self, severity: Severity) -> (r: Style)
        ensures
            r == self.spec_diagnostic_style(severity),
    {
        match severity {
            Severity::Error => self.diagnostic_error,
            Severity::Warning => self.diagnostic_warning,
        }
    }

    /// The theme that a document describes.
    pub fn from_document(doc: &Document) -> (r: Theme)
        ensures
            r == theme_of(doc@),
    {
        let palette = parse_palette(doc);
        let plain = Style::default();
        let text = style_for(doc, &palette, "text", plain);
        Theme {
            text,
            background: style_for(doc, &palette, "background", plain),
            selection: style_for(doc, &palette, "selection", plain),
            directory: style_for(doc, &palette, "directory", text),
            root: style_for(doc, &palette, "root", text),
            indent_marker: style_for(doc, &palette, "indent_marker", text),
            arrow: style_for(doc, &palette, "arrow", text),
            icon: style_for(doc, &palette, "icon", text),
            folder_icon: style_for(doc, &palette, "folder_icon", text),
            symlink: style_for(doc, &palette, "symlink", text),
            executable: style_for(doc, &palette, "executable", text),
            git_staged: style_for(doc, &palette, "git_staged", text),
            git_dirty: style_for(doc, &palette, "git_dirty", text),
            git_deleted: style_for(doc, &palette, "git_deleted", text),
            git_renamed: style_for(doc, &palette, "git_renamed", text),
            git_conflict: style_for(doc, &palette, "git_conflict", text),
            git_untracked: style_for(doc, &palette, "git_untracked", text),
            git_ignored: style_for(doc, &palette, "git_ignored", text),
            cut: style_for(doc, &palette, "cut", text),
            copy: style_for(doc, &palette, "copy", text),
            special: style_for(doc, &palette, "special", text),
            opened: style_for(doc, &palette, "opened", text),
            bookmark: style_for(doc, &palette, "bookmark", text),
            selected: style_for(doc, &palette, "selected", text),
            help: style_for(doc, &palette, "help", text),
            help_title: style_for(doc, &palette, "help_title", text),
            prompt: style_for(doc, &palette, "prompt", text),
            filter_prefix: style_for(doc, &palette, "filter_prefix", text),
            diagnostic_error: style_for(doc, &palette, "diagnostic_error", text),
            diagnostic_warning: style_for(doc, &palette, "diagnostic_warning", text),
        }
    }

    /// The theme that a TOML text describes; `None` for a text that is not
    /// TOML.
    pub fn from_toml_str(s: &str) -> (r: Option<Theme>)
        ensures
            r == match toml_entries(s@) {
                Some(d) => Some(theme_of(d)),
                None => None,
            },
    {
        match Document::parse(s) {
            Some(doc) => Some(Theme::from_document(&doc)),
            None => None,
        }
    }

    /// The theme of a name. For `helix` it is the one taken from the editor, if
    /// there is one; for any other name the one that a file of that name
    /// describes, if there is such a file. Otherwise it is the theme that comes
    /// with the program.
    pub fn load(name: &str, helix: Option<Theme>, file: Option<&str>) -> (r: Theme)
        ensures
            r == if name@ == "helix"@ {
                match helix {
                    Some(t) => t,
                    None => builtin(),
                }
            } else {
                match file {
                    Some(s) => match toml_entries(s@) {
                        Some(d) => theme_of(d),
                        None => builtin(),
                    },
                    None => builtin(),
                }
            },
    {
        if same_text(name, "helix") {
            return match helix {
                Some(t) => t,
                None => Theme::default(),
            };
        }
        match file {
            Some(s) => match Theme::from_toml_str(s) {
                Some(t) => t,
                None => Theme::default(),
            },
            None => Theme::default(),
        }
    }
}

/// Where a theme of a name is kept.
pub fn theme_file(config_dir: &Path, name: &str) -> (r: Path)
    ensures
        r@ == join_text(
            join_text(config_dir@, vstd::utf8::encode_utf8("themes"@)),
            vstd::utf8::encode_utf8(name@ + ".toml"@),
        ),
{
    config_dir.join(&Path::new("themes")).join(&Path::new(join2(name, ".toml").as_str()))
}

/// Where the editor's own themes are: below the runtime directory that was
/// given, or below the home directory.
pub fn helix_runtime_themes(given: Option<&[u8]>, home: Option<&[u8]>) -> (r: Option<Path>)
    ensures
        match given {
            Some(rt) => r is Some && r->0@ == join_text(rt@, vstd::utf8::encode_utf8("themes"@)),
            None => match home {
                Some(h) => r is Some && r->0@ == join_text(
                    h@,
                    vstd::utf8::encode_utf8("projects/helix/runtime/themes"@),
                ),
                None => r is None,
            },
        },
{
    match given {
        Some(rt) => {
            let rt = Path::from_bytes(vstd::slice::slice_to_vec(rt));
            Some(rt.join(&Path::new("themes")))
        },
        None => match home {
            Some(h) => {
                let h = Path::from_bytes(vstd::slice::slice_to_vec(h));
                Some(h.join(&Path::new("projects/helix/runtime/themes")))
            },
            None => None,
        },
    }
}

/// Where a theme of the editor may be, the user's own first. Where the
/// editor's themes are not known there is nowhere to look.
pub fn helix_theme_files(helix_dir: &Path, runtime_themes: Option<&Path>, name: &str) -> (r: Vec<
    Path,
>)
    ensures
        match runtime_themes {
            Some(rt) => r@.len() == 2 && r@[0]@ == join_text(
                join_text(helix_dir@, vstd::utf8::encode_utf8("themes"@)),
                vstd::utf8::encode_utf8(name@ + ".toml"@),
            ) && r@[1]@ == join_text(rt@, vstd::utf8::encode_utf8(name@ + ".toml"@)),
            None => r@.len() == 0,
        },
{
    let mut v: Vec<Path> = Vec::new();
    match runtime_themes {
        Some(rt) => {
            v.push(theme_file(helix_dir, name));
            v.push(rt.join(&Path::new(join2(name, ".toml").as_str())));
        },
        None => {},
    }
    v
}

/// How many themes may lie below the first one of a chain.
pub const MAX_INHERITED: usize = 8;

/// The themes of the editor that lie over one another, as far as they were
/// read. The first lies on top.
#[derive(Debug)]
pub struct ThemeChain {
    pub docs: Vec<Document>,
}

impl ThemeChain {
    /// A chain without themes.
    pub fn new() -> (r: ThemeChain)
        ensures
            r.docs@.len() == 0,
    {
        ThemeChain { docs: Vec::new() }
    }

    /// Adds the theme that a text describes, and gives the name of the one
    /// below it, which is to be read next. A theme that could not be read, or is
    /// no TOML, ends the chain, and so does one that is too far down.
    pub fn add(&mut self, text: Option<&str>) -> (r: Option<String>)
        ensures
            match text {
                Some(t) => match toml_entries(t@) {
                    Some(d) => final(self).docs@.len() == old(self).docs@.len() + 1
                        && final(self).docs@.drop_last() == old(self).docs@
                        && final(self).docs@.last()@ == d && text_view(r) == if old(
                        self,
                    ).docs@.len() < MAX_INHERITED {
                        text_at(d, "inherits"@)
                    } else {
                        None
                    },
                    None => r is None && final(self).docs@ == old(self).docs@,
                },
                None => r is None && final(self).docs@ == old(self).docs@,
            },
    {
        let t = match text {
            Some(t) => t,
            None => {
                return None;
            },
        };
        match Document::parse(t) {
            Some(doc) => {
                let below = if self.docs.len() < MAX_INHERITED {
                    doc.text("inherits")
                } else {
                    None
                };
                let ghost before = self.docs@;
                self.docs.push(doc);
                assert(self.docs@.drop_last() =~= before);
                below
            },
            None => None,
        }
    }
}

/// A chain of themes of the editor put together, those before over those after.
pub open spec fn chained(
    docs: Seq<Document>,
) -> Seq<(Seq<char>, Option<Seq<char>>, Option<Seq<(Seq<char>, Option<Seq<char>>)>>)>
    decreases docs.len(),
{
    if docs.len() == 0 {
        Seq::empty()
    } else {
        chained(docs.drop_last()) + docs.last()@
    }
}

/// Puts a chain of themes of the editor together, those before over those
/// after.
pub fn merge_themes(docs: Vec<Document>) -> (r: Document)
    ensures
        r@ == chained(docs@),
{
    let mut left = docs;
    let ghost all = docs@;
    let mut out = Document { entries: Vec::new() };
    proof {
        assert(out@ =~= Seq::empty());
        assert(chained(all) + out@ =~= chained(all));
    }
    while left.len() > 0
        invariant
            chained(all) == chained(left@) + out@,
        decreases left@.len(),
    {
        let ghost before = left@;
        match left.pop() {
            Some(d) => {
                let ghost under = out@;
                let ghost top = d@;
                out = d.over(out);
                proof {
                    assert(left@ =~= before.drop_last());
                    assert((chained(left@) + top) + under =~= chained(left@) + (top + under));
                }
            },
            None => {},
        }
    }
    assert(chained(left@) + out@ =~= out@);
    out
}

/// The color that a theme of the editor gives for the text of a scope: the
/// scope's value, or the `fg` of its table.
pub open spec fn scope_color(
    d: Seq<(Seq<char>, Option<Seq<char>>, Option<Seq<(Seq<char>, Option<Seq<char>>)>>)>,
    scope: Seq<char>,
) -> Option<Color> {
    match text_at(d, scope) {
        Some(s) => color_named(s, palette_of(d)),
        None => match table_at(d, scope) {
            Some(t) => match field_at(t, "fg"@) {
                Some(s) => color_named(s, palette_of(d)),
                None => None,
            },
            None => None,
        },
    }
}

/// A style with a scope's color and nothing else, or another style.
pub open spec fn scope_style(
    d: Seq<(Seq<char>, Option<Seq<char>>, Option<Seq<(Seq<char>, Option<Seq<char>>)>>)>,
    scope: Seq<char>,
    base: Style,
) -> Style {
    match scope_color(d, scope) {
        Some(c) => fg_style(c),
        None => base,
    }
}

/// The background that a theme of the editor gives for a selection.
pub open spec fn selection_color(
    d: Seq<(Seq<char>, Option<Seq<char>>, Option<Seq<(Seq<char>, Option<Seq<char>>)>>)>,
) -> Option<Color> {
    match table_at(d, "ui.selection"@) {
        Some(t) => match field_at(t, "bg"@) {
            Some(s) => color_named(s, palette_of(d)),
            None => None,
        },
        None => None,
    }
}

/// The theme that is taken from a theme of the editor. What that one says
/// nothing of is drawn as in the theme that comes with the program.
pub open spec fn imported(
    d: Seq<(Seq<char>, Option<Seq<char>>, Option<Seq<(Seq<char>, Option<Seq<char>>)>>)>,
) -> Theme {
    let b = builtin();
    let indent_marker = scope_style(d, "comment"@, b.indent_marker);
    let git_dirty = scope_style(d, "diff.delta"@, b.git_dirty);
    let git_deleted = scope_style(d, "diff.minus"@, b.git_deleted);
    Theme {
        text: scope_style(d, "ui.text"@, b.text),
        icon: scope_style(d, "ui.text"@, b.icon),
        directory: scope_style(d, "function"@, b.directory).spec_bold(),
        folder_icon: scope_style(d, "function"@, b.folder_icon),
        root: scope_style(d, "ui.text.focus"@, b.root).spec_bold(),
        indent_marker,
        arrow: indent_marker,
        symlink: scope_style(d, "string.special"@, b.symlink),
        executable: scope_style(d, "string"@, b.executable),
        git_staged: scope_style(d, "diff.plus"@, b.git_staged),
        git_dirty,
        git_renamed: git_dirty,
        git_deleted,
        git_conflict: git_deleted,
        git_untracked: scope_style(d, "special"@, b.git_untracked),
        git_ignored: scope_style(d, "comment"@, b.git_ignored),
        special: scope_style(d, "constant"@, b.special).spec_bold(),
        opened: scope_style(d, "ui.text.focus"@, b.opened).spec_bold(),
        bookmark: scope_style(d, "keyword"@, b.bookmark),
        filter_prefix: scope_style(d, "keyword"@, b.filter_prefix),
        selection: match selection_color(d) {
            Some(c) => shade(None, Some(c)),
            None => b.selection,
        },
        ..b
    }
}

fn scope_fg(doc: &Document, palette: &Palette, scope: &str) -> (r: Option<Color>)
    requires
        palette@ == palette_of(doc@),
    ensures
        r == scope_color(doc@, scope@),
{
    match doc.text(scope) {
        Some(s) => resolve_color(s.as_str(), palette),
        None => match doc.table(scope) {
            Some(t) => match field(t, "fg") {
                Some(s) => resolve_color(s.as_str(), palette),
                None => None,
            },
            None => None,
        },
    }
}

fn style_of(doc: &Document, palette: &Palette, scope: &str, base: Style) -> (r: Style)
    requires
        palette@ == palette_of(doc@),
    ensures
        r == scope_style(doc@, scope@, base),
{
    match scope_fg(doc, palette, scope) {
        Some(c) => shaded(Some(c), None),
        None => base,
    }
}

/// The name of the editor's theme, from the editor's settings.
pub fn helix_theme_name(config: &str) -> (r: Option<String>)
    ensures
        text_view(r) == match toml_entries(config@) {
            Some(d) => text_at(d, "theme"@),
            None => None,
        },
{
    match Document::parse(config) {
        Some(doc) => doc.text("theme"),
        None => None,
    }
}

/// Takes a theme from a theme of the editor.
pub fn import(doc: &Document) -> (r: Theme)
    ensures
        r == imported(doc@),
{
    let p = parse_palette(doc);
    let b = Theme::default();
    let indent_marker = style_of(doc, &p, "comment", b.indent_marker);
    let git_dirty = style_of(doc, &p, "diff.delta", b.git_dirty);
    let git_deleted = style_of(doc, &p, "diff.minus", b.git_deleted);
    let selected: Option<Color> = match doc.table("ui.selection") {
        Some(t) => match field(t, "bg") {
            Some(s) => resolve_color(s.as_str(), &p),
            None => None,
        },
        None => None,
    };
    Theme {
        text: style_of(doc, &p, "ui.text", b.text),
        icon: style_of(doc, &p, "ui.text", b.icon),
        directory: style_of(doc, &p, "function", b.directory).bold(),
        folder_icon: style_of(doc, &p, "function", b.folder_icon),
        root: style_of(doc, &p, "ui.text.focus", b.root).bold(),
        indent_marker,
        arrow: indent_marker,
        symlink: style_of(doc, &p, "string.special", b.symlink),
        executable: style_of(doc, &p, "string", b.executable),
        git_staged: style_of(doc, &p, "diff.plus", b.git_staged),
        git_dirty,
        git_renamed: git_dirty,
        git_deleted,
        git_conflict: git_deleted,
        git_untracked: style_of(doc, &p, "special", b.git_untracked),
        git_ignored: style_of(doc, &p, "comment", b.git_ignored),
        special: style_of(doc, &p, "constant", b.special).bold(),
        opened: style_of(doc, &p, "ui.text.focus", b.opened).bold(),
        bookmark: style_of(doc, &p, "keyword", b.bookmark),
        filter_prefix: style_of(doc, &p, "keyword", b.filter_prefix),
        selection: match selected {
            Some(c) => shaded(None, Some(c)),
            None => b.selection,
        },
        ..b
    }
}

/// The theme that a chain of themes of the editor comes to; `None` where none
/// could be read.
pub fn from_chain(chain: ThemeChain) -> (r: Option<Theme>)
    ensures
        r == if chain.docs@.len() == 0 {
            None
        } else {
            Some(imported(chained(chain.docs@)))
        },
{
    if chain.docs.len() == 0 {
        return None;
    }
    Some(import(&merge_themes(chain.docs)))
}

} // verus!
