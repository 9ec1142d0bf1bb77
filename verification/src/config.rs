//! What the user can set, what is set by default, and where the files with the
//! settings are.

use vstd::prelude::*;

use crate::path::{join_text, Path};
use crate::text::views;

verus! {

/// The settings.
#[derive(Debug)]
pub struct Config {
    /// The name of the theme; `helix` takes the colors of the editor's theme.
    pub theme: String,
    /// Whether to draw the glyphs of a patched font.
    pub icons: bool,
    /// Whether directories have arrows.
    pub arrows: bool,
    /// Whether lines are drawn for the levels of the tree.
    pub indent_markers: bool,
    /// Whether names that begin with a dot are shown at first.
    pub show_hidden: bool,
    /// Whether what git ignores is shown at first.
    pub show_ignored: bool,
    /// What entries are sorted by.
    pub sort: String,
    /// Whether files come before directories.
    pub files_first: bool,
    /// Whether chains of folders with one entry each are drawn as one row.
    pub group_empty: bool,
    /// Whether the mouse is listened to.
    pub mouse: bool,
    /// Whether bookmarks are kept from one session to the next.
    pub bookmarks_persist: bool,
    /// Whether folders stay visible while a filter is typed.
    pub live_filter_show_folders: bool,
    /// Names that hold one of these are left out while the custom filter is on.
    pub exclude: Vec<String>,
    /// Names that are set off, in lower case.
    pub special_files: Vec<String>,
    /// The command that opens a file, with `{mode}` and `{path}` in it.
    pub open_command: Option<String>,
    /// Which diagnostics color the tree: `off`, `errors` or `warnings`.
    pub diagnostics: String,
    /// How many rows stay visible around the selected one.
    pub scrolloff: usize,
}

/// The names that are set off by default.
pub open spec fn default_special() -> Seq<Seq<char>> {
    seq![
        "cargo.toml"@,
        "makefile"@,
        "readme.md"@,
        "readme"@,
        "license"@,
        "license.md"@,
        "package.json"@,
        "dockerfile"@,
        "flake.nix"@,
        ".gitignore"@,
    ]
}

/// The names that are set off by default.
fn default_special_files() -> (r: Vec<String>)
    ensures
        views(r@) == default_special(),
{
    let mut v: Vec<String> = Vec::new();
    v.push("cargo.toml".to_owned());
    v.push("makefile".to_owned());
    v.push("readme.md".to_owned());
    v.push("readme".to_owned());
    v.push("license".to_owned());
    v.push("license.md".to_owned());
    v.push("package.json".to_owned());
    v.push("dockerfile".to_owned());
    v.push("flake.nix".to_owned());
    v.push(".gitignore".to_owned());
    assert(views(v@) =~= default_special());
    v
}

impl Default for Config {
    fn default() -> (r: Config)
        ensures
            r.theme@ == "nord-aurora"@,
            r.icons,
            r.arrows,
            !r.indent_markers,
            !r.show_hidden,
            !r.show_ignored,
            r.sort@ == "name"@,
            !r.files_first,
            !r.group_empty,
            r.mouse,
            !r.bookmarks_persist,
            r.live_filter_show_folders,
            r.exclude@.len() == 0,
            views(r.special_files@) == default_special(),
            r.open_command is None,
            r.diagnostics@ == "warnings"@,
            r.scrolloff == 1,
    {
        Config {
            theme: "nord-aurora".to_owned(),
            icons: true,
            arrows: true,
            indent_markers: false,
            show_hidden: false,
            show_ignored: false,
            sort: "name".to_owned(),
            files_first: false,
            group_empty: false,
            mouse: true,
            bookmarks_persist: false,
            live_filter_show_folders: true,
            exclude: Vec::new(),
            special_files: default_special_files(),
            open_command: None,
            diagnostics: "warnings".to_owned(),
            scrolloff: 1,
        }
    }
}

/// The directory for settings: the one that was given, or `.config` in the home
/// directory.
pub open spec fn config_home_text(given: Option<Seq<u8>>, home: Option<Seq<u8>>) -> Option<
    Seq<u8>,
> {
    if given is Some && given->0.len() > 0 {
        given
    } else {
        match home {
            Some(h) => Some(join_text(h, vstd::utf8::encode_utf8(".config"@))),
            None => None,
        }
    }
}

/// A byte string that may be there.
pub open spec fn bytes_view(b: Option<&[u8]>) -> Option<Seq<u8>> {
    match b {
        Some(b) => Some(b@),
        None => None,
    }
}

/// The directory for settings.
pub fn config_home(given: Option<&[u8]>, home: Option<&[u8]>) -> (r: Option<Path>)
    ensures
        match r {
            Some(p) => config_home_text(bytes_view(given), bytes_view(home)) == Some(p@),
            None => config_home_text(bytes_view(given), bytes_view(home)) is None,
        },
{
    if let Some(x) = given {
        if x.len() > 0 {
            return Some(Path::from_bytes(vstd::slice::slice_to_vec(x)));
        }
    }
    match home {
        Some(h) => {
            let h = Path::from_bytes(vstd::slice::slice_to_vec(h));
            Some(h.join(&Path::new(".config")))
        },
        None => None,
    }
}

/// The directory for this program's settings.
pub fn treelix_config_dir(given: Option<&[u8]>, home: Option<&[u8]>) -> (r: Option<Path>)
    ensures
        match r {
            Some(p) => config_home_text(bytes_view(given), bytes_view(home)) is Some && p@
                == join_text(
                config_home_text(bytes_view(given), bytes_view(home))->0,
                vstd::utf8::encode_utf8("treelix"@),
            ),
            None => config_home_text(bytes_view(given), bytes_view(home)) is None,
        },
{
    match config_home(given, home) {
        Some(c) => Some(c.join(&Path::new("treelix"))),
        None => None,
    }
}

/// The directory for the editor's settings.
pub fn helix_config_dir(given: Option<&[u8]>, home: Option<&[u8]>) -> (r: Option<Path>)
    ensures
        match r {
            Some(p) => config_home_text(bytes_view(given), bytes_view(home)) is Some && p@
                == join_text(
                config_home_text(bytes_view(given), bytes_view(home))->0,
                vstd::utf8::encode_utf8("helix"@),
            ),
            None => config_home_text(bytes_view(given), bytes_view(home)) is None,
        },
{
    match config_home(given, home) {
        Some(c) => Some(c.join(&Path::new("helix"))),
        None => None,
    }
}

} // verus!
