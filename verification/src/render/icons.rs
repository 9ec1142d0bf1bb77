//! The glyphs of files and folders: by the whole name first, and then by what
//! follows the last dot. They are code points of a patched font.

use vstd::prelude::*;

use crate::text::{cut_last, lowercase, rsplit_once, same_text};
use crate::tree::node::NodeKind;

verus! {

pub const FOLDER_CLOSED: &'static str = "\u{f07b}";

pub const FOLDER_OPEN: &'static str = "\u{f07c}";

pub const FILE_DEFAULT: &'static str = "\u{f15b}";

pub const SYMLINK: &'static str = "\u{f481}";

pub const ARROW_CLOSED: &'static str = "\u{f105}";

pub const ARROW_OPEN: &'static str = "\u{f107}";

pub const BOOKMARK: &'static str = "\u{f02e}";

/// The signs that stand in for the glyphs where the font has none.
pub const PLAIN_FOLDER_CLOSED: &'static str = "▸";

pub const PLAIN_FOLDER_OPEN: &'static str = "▾";

pub const PLAIN_FILE_DEFAULT: &'static str = " ";

pub const PLAIN_SYMLINK: &'static str = "→";

pub const PLAIN_ARROW_CLOSED: &'static str = ">";

pub const PLAIN_ARROW_OPEN: &'static str = "v";

/// The glyph of a whole name.
pub open spec fn filename_glyph(name: Seq<char>) -> Option<Seq<char>> {
    if name == "cargo.toml"@ || name == "cargo.lock"@ {
        Some("\u{e7a8}"@)
    } else if name == "package.json"@ || name == "package-lock.json"@ {
        Some("\u{e718}"@)
    } else if name == "yarn.lock"@ {
        Some("\u{e718}"@)
    } else if name == "dockerfile"@ || name == ".dockerignore"@ {
        Some("\u{f308}"@)
    } else if name == "docker-compose.yml"@ || name == "docker-compose.yaml"@ {
        Some("\u{f308}"@)
    } else if name == "makefile"@ {
        Some("\u{e673}"@)
    } else if name == ".gitignore"@ || name == ".gitattributes"@ || name == ".gitmodules"@ {
        Some("\u{f1d3}"@)
    } else if name == ".gitconfig"@ {
        Some("\u{f1d3}"@)
    } else if name == "readme.md"@ || name == "readme"@ || name == "readme.txt"@ {
        Some("\u{f02d}"@)
    } else if name == "license"@ || name == "license.md"@ || name == "license.txt"@ {
        Some("\u{f02d}"@)
    } else if name == ".env"@ || name == ".env.local"@ {
        Some("\u{f013}"@)
    } else if name == ".zshrc"@ || name == ".bashrc"@ || name == ".bash_profile"@ || name == ".profile"@ {
        Some("\u{f489}"@)
    } else if name == "config.toml"@ || name == "config.kdl"@ {
        Some("\u{e615}"@)
    } else if name == ".editorconfig"@ {
        Some("\u{e615}"@)
    } else if name == "flake.nix"@ || name == "default.nix"@ || name == "shell.nix"@ {
        Some("\u{f313}"@)
    } else {
        None
    }
}

/// The glyph of an extension.
pub open spec fn extension_glyph(ext: Seq<char>) -> Option<Seq<char>> {
    if ext == "rs"@ {
        Some("\u{e7a8}"@)
    } else if ext == "go"@ {
        Some("\u{e627}"@)
    } else if ext == "py"@ || ext == "pyc"@ || ext == "pyw"@ {
        Some("\u{e606}"@)
    } else if ext == "js"@ || ext == "mjs"@ || ext == "cjs"@ {
        Some("\u{e74e}"@)
    } else if ext == "ts"@ {
        Some("\u{e628}"@)
    } else if ext == "jsx"@ {
        Some("\u{e7ba}"@)
    } else if ext == "tsx"@ {
        Some("\u{e7ba}"@)
    } else if ext == "html"@ || ext == "htm"@ {
        Some("\u{e736}"@)
    } else if ext == "css"@ {
        Some("\u{e749}"@)
    } else if ext == "scss"@ || ext == "sass"@ {
        Some("\u{e603}"@)
    } else if ext == "json"@ || ext == "jsonc"@ {
        Some("\u{e60b}"@)
    } else if ext == "toml"@ {
        Some("\u{e615}"@)
    } else if ext == "yaml"@ || ext == "yml"@ {
        Some("\u{e615}"@)
    } else if ext == "md"@ || ext == "markdown"@ {
        Some("\u{e73e}"@)
    } else if ext == "lua"@ {
        Some("\u{e620}"@)
    } else if ext == "vim"@ {
        Some("\u{e62b}"@)
    } else if ext == "sh"@ || ext == "bash"@ || ext == "zsh"@ || ext == "fish"@ {
        Some("\u{f489}"@)
    } else if ext == "c"@ || ext == "h"@ {
        Some("\u{e61e}"@)
    } else if ext == "cpp"@ || ext == "cc"@ || ext == "cxx"@ || ext == "hpp"@ {
        Some("\u{e61d}"@)
    } else if ext == "java"@ {
        Some("\u{e738}"@)
    } else if ext == "kt"@ || ext == "kts"@ {
        Some("\u{e634}"@)
    } else if ext == "rb"@ {
        Some("\u{e739}"@)
    } else if ext == "php"@ {
        Some("\u{e73d}"@)
    } else if ext == "ex"@ || ext == "exs"@ {
        Some("\u{e62d}"@)
    } else if ext == "erl"@ || ext == "hrl"@ {
        Some("\u{e7b1}"@)
    } else if ext == "hs"@ {
        Some("\u{e777}"@)
    } else if ext == "nix"@ {
        Some("\u{f313}"@)
    } else if ext == "kdl"@ {
        Some("\u{e615}"@)
    } else if ext == "sql"@ {
        Some("\u{f1c0}"@)
    } else if ext == "txt"@ || ext == "log"@ {
        Some("\u{f15c}"@)
    } else if ext == "pdf"@ {
        Some("\u{f1c1}"@)
    } else if ext == "zip"@ || ext == "tar"@ || ext == "gz"@ || ext == "tgz"@ || ext == "xz"@ || ext == "bz2"@ || ext == "7z"@ || ext == "rar"@ {
        Some("\u{f1c6}"@)
    } else if ext == "png"@ || ext == "jpg"@ || ext == "jpeg"@ || ext == "gif"@ || ext == "bmp"@ || ext == "webp"@ || ext == "ico"@ {
        Some("\u{f1c5}"@)
    } else if ext == "svg"@ {
        Some("\u{f1c5}"@)
    } else if ext == "mp3"@ || ext == "wav"@ || ext == "flac"@ || ext == "ogg"@ || ext == "m4a"@ {
        Some("\u{f1c7}"@)
    } else if ext == "mp4"@ || ext == "mkv"@ || ext == "mov"@ || ext == "avi"@ || ext == "webm"@ {
        Some("\u{f1c8}"@)
    } else if ext == "ttf"@ || ext == "otf"@ || ext == "woff"@ || ext == "woff2"@ {
        Some("\u{f031}"@)
    } else if ext == "git"@ {
        Some("\u{f1d3}"@)
    } else {
        None
    }
}

/// The glyph of a file: that of its name in lower case, or that of what follows
/// the last dot there.
pub open spec fn name_glyph(name: Seq<char>) -> Seq<char> {
    let lower = lowercase(name);
    match filename_glyph(lower) {
        Some(g) => g,
        None => match cut_last(lower, '.') {
            Some(parts) => match extension_glyph(parts.1) {
                Some(g) => g,
                None => FILE_DEFAULT@,
            },
            None => FILE_DEFAULT@,
        },
    }
}

/// The glyph of a node.
pub open spec fn node_glyph(name: Seq<char>, kind: NodeKind, expanded: bool) -> Seq<char> {
    if kind.spec_is_dir() {
        if expanded {
            FOLDER_OPEN@
        } else {
            FOLDER_CLOSED@
        }
    } else {
        match kind {
            NodeKind::File => name_glyph(name),
            _ => SYMLINK@,
        }
    }
}

fn by_filename(name: &str) -> (r: Option<&'static str>)
    ensures
        filename_glyph(name@) == match r {
            Some(g) => Some(g@),
            None => None,
        },
{
    if same_text(name, "cargo.toml") || same_text(name, "cargo.lock") {
        Some("\u{e7a8}")
    } else if same_text(name, "package.json") || same_text(name, "package-lock.json") {
        Some("\u{e718}")
    } else if same_text(name, "yarn.lock") {
        Some("\u{e718}")
    } else if same_text(name, "dockerfile") || same_text(name, ".dockerignore") {
        Some("\u{f308}")
    } else if same_text(name, "docker-compose.yml") || same_text(name, "docker-compose.yaml") {
        Some("\u{f308}")
    } else if same_text(name, "makefile") {
        Some("\u{e673}")
    } else if same_text(name, ".gitignore") || same_text(name, ".gitattributes") || same_text(name, ".gitmodules") {
        Some("\u{f1d3}")
    } else if same_text(name, ".gitconfig") {
        Some("\u{f1d3}")
    } else if same_text(name, "readme.md") || same_text(name, "readme") || same_text(name, "readme.txt") {
        Some("\u{f02d}")
    } else if same_text(name, "license") || same_text(name, "license.md") || same_text(name, "license.txt") {
        Some("\u{f02d}")
    } else if same_text(name, ".env") || same_text(name, ".env.local") {
        Some("\u{f013}")
    } else if same_text(name, ".zshrc") || same_text(name, ".bashrc") || same_text(name, ".bash_profile") || same_text(name, ".profile") {
        Some("\u{f489}")
    } else if same_text(name, "config.toml") || same_text(name, "config.kdl") {
        Some("\u{e615}")
    } else if same_text(name, ".editorconfig") {
        Some("\u{e615}")
    } else if same_text(name, "flake.nix") || same_text(name, "default.nix") || same_text(name, "shell.nix") {
        Some("\u{f313}")
    } else {
        None
    }
}

fn by_extension(ext: &str) -> (r: Option<&'static str>)
    ensures
        extension_glyph(ext@) == match r {
            Some(g) => Some(g@),
            None => None,
        },
{
    if same_text(ext, "rs") {
        Some("\u{e7a8}")
    } else if same_text(ext, "go") {
        Some("\u{e627}")
    } else if same_text(ext, "py") || same_text(ext, "pyc") || same_text(ext, "pyw") {
        Some("\u{e606}")
    } else if same_text(ext, "js") || same_text(ext, "mjs") || same_text(ext, "cjs") {
        Some("\u{e74e}")
    } else if same_text(ext, "ts") {
        Some("\u{e628}")
    } else if same_text(ext, "jsx") {
        Some("\u{e7ba}")
    } else if same_text(ext, "tsx") {
        Some("\u{e7ba}")
    } else if same_text(ext, "html") || same_text(ext, "htm") {
        Some("\u{e736}")
    } else if same_text(ext, "css") {
        Some("\u{e749}")
    } else if same_text(ext, "scss") || same_text(ext, "sass") {
        Some("\u{e603}")
    } else if same_text(ext, "json") || same_text(ext, "jsonc") {
        Some("\u{e60b}")
    } else if same_text(ext, "toml") {
        Some("\u{e615}")
    } else if same_text(ext, "yaml") || same_text(ext, "yml") {
        Some("\u{e615}")
    } else if same_text(ext, "md") || same_text(ext, "markdown") {
        Some("\u{e73e}")
    } else if same_text(ext, "lua") {
        Some("\u{e620}")
    } else if same_text(ext, "vim") {
        Some("\u{e62b}")
    } else if same_text(ext, "sh") || same_text(ext, "bash") || same_text(ext, "zsh") || same_text(ext, "fish") {
        Some("\u{f489}")
    } else if same_text(ext, "c") || same_text(ext, "h") {
        Some("\u{e61e}")
    } else if same_text(ext, "cpp") || same_text(ext, "cc") || same_text(ext, "cxx") || same_text(ext, "hpp") {
        Some("\u{e61d}")
    } else if same_text(ext, "java") {
        Some("\u{e738}")
    } else if same_text(ext, "kt") || same_text(ext, "kts") {
        Some("\u{e634}")
    } else if same_text(ext, "rb") {
        Some("\u{e739}")
    } else if same_text(ext, "php") {
        Some("\u{e73d}")
    } else if same_text(ext, "ex") || same_text(ext, "exs") {
        Some("\u{e62d}")
    } else if same_text(ext, "erl") || same_text(ext, "hrl") {
        Some("\u{e7b1}")
    } else if same_text(ext, "hs") {
        Some("\u{e777}")
    } else if same_text(ext, "nix") {
        Some("\u{f313}")
    } else if same_text(ext, "kdl") {
        Some("\u{e615}")
    } else if same_text(ext, "sql") {
        Some("\u{f1c0}")
    } else if same_text(ext, "txt") || same_text(ext, "log") {
        Some("\u{f15c}")
    } else if same_text(ext, "pdf") {
        Some("\u{f1c1}")
    } else if same_text(ext, "zip") || same_text(ext, "tar") || same_text(ext, "gz") || same_text(ext, "tgz") || same_text(ext, "xz") || same_text(ext, "bz2") || same_text(ext, "7z") || same_text(ext, "rar") {
        Some("\u{f1c6}")
    } else if same_text(ext, "png") || same_text(ext, "jpg") || same_text(ext, "jpeg") || same_text(ext, "gif") || same_text(ext, "bmp") || same_text(ext, "webp") || same_text(ext, "ico") {
        Some("\u{f1c5}")
    } else if same_text(ext, "svg") {
        Some("\u{f1c5}")
    } else if same_text(ext, "mp3") || same_text(ext, "wav") || same_text(ext, "flac") || same_text(ext, "ogg") || same_text(ext, "m4a") {
        Some("\u{f1c7}")
    } else if same_text(ext, "mp4") || same_text(ext, "mkv") || same_text(ext, "mov") || same_text(ext, "avi") || same_text(ext, "webm") {
        Some("\u{f1c8}")
    } else if same_text(ext, "ttf") || same_text(ext, "otf") || same_text(ext, "woff") || same_text(ext, "woff2") {
        Some("\u{f031}")
    } else if same_text(ext, "git") {
        Some("\u{f1d3}")
    } else {
        None
    }
}

/// The glyph of a file.
pub fn by_name(name: &str) -> (r: &'static str)
    ensures
        r@ == name_glyph(name@),
{
    let lower = name.to_lowercase();
    if let Some(icon) = by_filename(lower.as_str()) {
        return icon;
    }
    if let Some((_, ext)) = rsplit_once(lower.as_str(), '.') {
        if let Some(icon) = by_extension(ext.as_str()) {
            return icon;
        }
    }
    FILE_DEFAULT
}

/// The glyph of a node.
pub fn file_icon(name: &str, kind: NodeKind, expanded: bool) -> (r: &'static str)
    ensures
        r@ == node_glyph(name@, kind, expanded),
{
    match kind {
        NodeKind::Directory => if expanded {
            FOLDER_OPEN
        } else {
            FOLDER_CLOSED
        },
        NodeKind::Symlink { to_dir } => if to_dir {
            if expanded {
                FOLDER_OPEN
            } else {
                FOLDER_CLOSED
            }
        } else {
            SYMLINK
        },
        NodeKind::File => by_name(name),
    }
}

/// No node is without a glyph.
pub proof fn law_glyph_is_never_empty(name: Seq<char>, kind: NodeKind, expanded: bool)
    ensures
        node_glyph(name, kind, expanded).len() > 0,
{
    reveal_strlit("\u{e7a8}");
    reveal_strlit("\u{e718}");
    reveal_strlit("\u{f308}");
    reveal_strlit("\u{e673}");
    reveal_strlit("\u{f1d3}");
    reveal_strlit("\u{f02d}");
    reveal_strlit("\u{f013}");
    reveal_strlit("\u{f489}");
    reveal_strlit("\u{e615}");
    reveal_strlit("\u{f313}");
    reveal_strlit("\u{e627}");
    reveal_strlit("\u{e606}");
    reveal_strlit("\u{e74e}");
    reveal_strlit("\u{e628}");
    reveal_strlit("\u{e7ba}");
    reveal_strlit("\u{e736}");
    reveal_strlit("\u{e749}");
    reveal_strlit("\u{e603}");
    reveal_strlit("\u{e60b}");
    reveal_strlit("\u{e73e}");
    reveal_strlit("\u{e620}");
    reveal_strlit("\u{e62b}");
    reveal_strlit("\u{e61e}");
    reveal_strlit("\u{e61d}");
    reveal_strlit("\u{e738}");
    reveal_strlit("\u{e634}");
    reveal_strlit("\u{e739}");
    reveal_strlit("\u{e73d}");
    reveal_strlit("\u{e62d}");
    reveal_strlit("\u{e7b1}");
    reveal_strlit("\u{e777}");
    reveal_strlit("\u{f1c0}");
    reveal_strlit("\u{f15c}");
    reveal_strlit("\u{f1c1}");
    reveal_strlit("\u{f1c6}");
    reveal_strlit("\u{f1c5}");
    reveal_strlit("\u{f1c7}");
    reveal_strlit("\u{f1c8}");
    reveal_strlit("\u{f031}");
    reveal_strlit("\u{f07b}");
    reveal_strlit("\u{f07c}");
    reveal_strlit("\u{f15b}");
    reveal_strlit("\u{f481}");
}

} // verus!
