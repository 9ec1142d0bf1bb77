//! What the user types for a path, and what the user is told of one.

use vstd::prelude::*;

use crate::app::state::{Age, FileMeta, FileType, MetaView};
use crate::git::GitStatus;
use crate::path::{comps, dotdot_comp, join_text, law_resolved_has_no_dots, lemma_comps};
use crate::path::{lemma_resolved_text, name_of, parent_text, resolved_text, rest_text, Path};
use crate::paths::path_texts;
use crate::text::{decimal, digits, join2, join3, joined, join_with, lossy_text, views};

verus! {

/// A path as it reads from the root, if it is below it.
pub open spec fn relative(p: Seq<u8>, root: Seq<u8>) -> Seq<char> {
    if comps(root).is_prefix_of(comps(p)) {
        lossy_text(rest_text(p, comps(root).len() as int))
    } else {
        lossy_text(p)
    }
}

/// A path as it reads from the root, if it is below it.
pub fn relative_text(p: &Path, root: &Path) -> (r: String)
    ensures
        r@ == relative(p@, root@),
{
    match p.strip_prefix(root) {
        Some(rest) => rest.display(),
        None => p.display(),
    }
}

/// A directory as it reads from the root, with a slash behind it; nothing for
/// the root, and for a directory that is not below it.
pub open spec fn dir_prefix(p: Seq<u8>, root: Seq<u8>) -> Seq<char> {
    if comps(root).is_prefix_of(comps(p)) {
        let rel = lossy_text(rest_text(p, comps(root).len() as int));
        if rel.len() == 0 {
            Seq::empty()
        } else {
            rel + "/"@
        }
    } else {
        Seq::empty()
    }
}

/// A directory as it reads from the root, with a slash behind it.
pub fn dir_prefix_text(p: &Path, root: &Path) -> (r: String)
    ensures
        r@ == dir_prefix(p@, root@),
{
    let none = String::new();
    assert(none@ =~= Seq::empty());
    match p.strip_prefix(root) {
        Some(rest) => {
            let rel = rest.display();
            if rel.as_str().is_empty() {
                none
            } else {
                join2(rel.as_str(), "/")
            }
        },
        None => none,
    }
}

/// The directory that a path is in, as `dir_prefix` writes it.
pub open spec fn parent_prefix(p: Seq<u8>, root: Seq<u8>) -> Seq<char> {
    match parent_text(p) {
        Some(up) => dir_prefix(up, root),
        None => Seq::empty(),
    }
}

/// The directory that a path is in, as `dir_prefix` writes it.
pub fn parent_prefix_text(p: &Path, root: &Path) -> (r: String)
    ensures
        r@ == parent_prefix(p@, root@),
{
    match p.parent() {
        Some(up) => dir_prefix_text(&up, root),
        None => {
            let none = String::new();
            assert(none@ =~= Seq::empty());
            none
        },
    }
}

/// The name of a path, or the whole path where it has none.
pub open spec fn short_name(p: Seq<u8>) -> Seq<char> {
    match name_of(p) {
        Some(n) => lossy_text(n),
        None => lossy_text(p),
    }
}

/// The name of a path, or the whole path where it has none.
pub fn shorten(p: &Path) -> (r: String)
    ensures
        r@ == short_name(p@),
{
    match p.file_name() {
        Some(n) => crate::text::read_lossy(n.as_slice()),
        None => p.display(),
    }
}

/// The path that is meant by what was typed: an absolute one as it is, any other
/// from a directory on. One that leads out of the tree is not meant.
pub open spec fn typed_from(dir: Seq<u8>, root: Seq<u8>, text: Seq<char>) -> Option<Seq<u8>> {
    let t = resolved_text(comps(join_text(dir, vstd::utf8::encode_utf8(text))));
    if comps(root).is_prefix_of(comps(t)) {
        Some(t)
    } else {
        None
    }
}

/// Whether a text writes an absolute path.
pub open spec fn is_absolute_text(text: Seq<char>) -> bool {
    let b = vstd::utf8::encode_utf8(text);
    b.len() > 0 && b[0] == 47u8
}

/// The path that is meant by what was typed: an absolute one as it is, any other
/// from the root on, as long as it stays in the tree.
pub open spec fn typed_path(root: Seq<u8>, text: Seq<char>) -> Option<Seq<u8>> {
    if is_absolute_text(text) {
        Some(vstd::utf8::encode_utf8(text))
    } else {
        typed_from(root, root, text)
    }
}

fn path_from(dir: &Path, root: &Path, text: &str) -> (r: Option<Path>)
    ensures
        crate::tree::node::path_view(r) == typed_from(dir@, root@, text@),
{
    let t = dir.join(&Path::new(text)).resolve();
    if t.starts_with(root) {
        Some(t)
    } else {
        None
    }
}

/// The path that is meant by what was typed.
pub fn path_typed(root: &Path, text: &str) -> (r: Option<Path>)
    ensures
        crate::tree::node::path_view(r) == typed_path(root@, text@),
{
    let p = Path::new(text);
    if p.is_absolute() {
        Some(p)
    } else {
        path_from(root, root, text)
    }
}

/// What a new name comes to.
#[derive(Debug)]
pub enum NewName {
    /// It is a path of its own, which is no name.
    Absolute,
    /// It leads out of the tree.
    Escapes,
    To(Path),
}

/// What a new name comes to, with a text in place of the path.
pub enum NewNameView {
    Absolute,
    Escapes,
    To(Seq<u8>),
}

impl View for NewName {
    type V = NewNameView;

    open spec fn view(&self) -> NewNameView {
        match self {
            NewName::Absolute => NewNameView::Absolute,
            NewName::Escapes => NewNameView::Escapes,
            NewName::To(p) => NewNameView::To(p@),
        }
    }
}

/// Where a path that has no directory above it is taken to be.
pub open spec fn directory_of(p: Seq<u8>) -> Seq<u8> {
    match parent_text(p) {
        Some(up) => up,
        None => vstd::utf8::encode_utf8("/"@),
    }
}

/// What a new name for a path comes to.
pub open spec fn new_name(p: Seq<u8>, root: Seq<u8>, name: Seq<char>) -> NewNameView {
    if is_absolute_text(name) {
        NewNameView::Absolute
    } else {
        match typed_from(directory_of(p), root, name) {
            Some(t) => NewNameView::To(t),
            None => NewNameView::Escapes,
        }
    }
}

/// What a new name for a path comes to.
pub fn name_anew(p: &Path, root: &Path, name: &str) -> (r: NewName)
    ensures
        r@ == new_name(p@, root@, name@),
{
    if Path::new(name).is_absolute() {
        return NewName::Absolute;
    }
    let dir = match p.parent() {
        Some(up) => up,
        None => Path::new("/"),
    };
    match path_from(&dir, root, name) {
        Some(t) => NewName::To(t),
        None => NewName::Escapes,
    }
}

/// How long ago something was, in words.
pub open spec fn ago_text(age: Age) -> Seq<char> {
    match age {
        Age::Seconds(s) => if s < 60 {
            digits(s as nat) + "s ago"@
        } else if s < 3600 {
            digits((s / 60) as nat) + "m ago"@
        } else if s < 86400 {
            digits((s / 3600) as nat) + "h ago"@
        } else {
            digits((s / 86400) as nat) + "d ago"@
        },
        Age::Future => "in the future"@,
    }
}

/// How long ago something was, in words.
pub fn human_ago(age: Age) -> (r: String)
    ensures
        r@ == ago_text(age),
{
    match age {
        Age::Seconds(s) => if s < 60 {
            join2(decimal(s).as_str(), "s ago")
        } else if s < 3600 {
            join2(decimal(s / 60).as_str(), "m ago")
        } else if s < 86400 {
            join2(decimal(s / 3600).as_str(), "h ago")
        } else {
            join2(decimal(s / 86400).as_str(), "d ago")
        },
        Age::Future => "in the future".to_owned(),
    }
}

/// A number written in octal.
pub open spec fn octal_digits(n: nat) -> Seq<char>
    decreases n,
{
    if n < 8 {
        digits(n)
    } else {
        octal_digits(n / 8) + digits(n % 8)
    }
}

/// Writes a number in octal.
pub fn octal(n: u32) -> (r: String)
    ensures
        r@ == octal_digits(n as nat),
    decreases n,
{
    if n < 8 {
        decimal(n as u64)
    } else {
        join2(octal(n / 8).as_str(), decimal((n % 8) as u64).as_str())
    }
}

/// How a status is called.
pub open spec fn status_word(s: GitStatus) -> Seq<char> {
    match s {
        GitStatus::Ignored => "Ignored"@,
        GitStatus::Untracked => "Untracked"@,
        GitStatus::Conflict => "Conflict"@,
        GitStatus::Deleted => "Deleted"@,
        GitStatus::Renamed => "Renamed"@,
        GitStatus::Dirty => "Dirty"@,
        GitStatus::Staged => "Staged"@,
    }
}

fn word_of(s: GitStatus) -> (r: &'static str)
    ensures
        r@ == status_word(s),
{
    match s {
        GitStatus::Ignored => "Ignored",
        GitStatus::Untracked => "Untracked",
        GitStatus::Conflict => "Conflict",
        GitStatus::Deleted => "Deleted",
        GitStatus::Renamed => "Renamed",
        GitStatus::Dirty => "Dirty",
        GitStatus::Staged => "Staged",
    }
}

/// How a type of file is called.
pub open spec fn type_word(t: FileType) -> Seq<char> {
    match t {
        FileType::Directory => "directory"@,
        FileType::Symlink => "symlink"@,
        FileType::File => "file"@,
    }
}

/// What is told of what is known of a file. Only the lowest nine bits of its
/// mode are permissions.
pub open spec fn meta_lines(m: MetaView) -> Seq<Seq<char>> {
    seq!["type: "@ + type_word(m.file_type)] + (if m.file_type == FileType::File && m.size is Some {
        seq!["size: "@ + m.size->0]
    } else {
        seq![]
    }) + (match m.age {
        Some(a) => seq!["modified: "@ + ago_text(a)],
        None => seq![],
    }) + match m.mode {
        Some(bits) => seq!["perms: "@ + octal_digits((bits % 512) as nat)],
        None => seq![],
    }
}

/// What is told about a file.
pub open spec fn info_lines(
    p: Seq<u8>,
    meta: Option<MetaView>,
    git: Option<GitStatus>,
    marked: bool,
) -> Seq<Seq<char>> {
    seq!["path: "@ + lossy_text(p)] + (match meta {
        Some(m) => meta_lines(m),
        None => seq![],
    }) + (match git {
        Some(s) => seq!["git: "@ + status_word(s)],
        None => seq![],
    }) + if marked {
        seq!["bookmarked: yes"@]
    } else {
        seq![]
    }
}

fn add_line(lines: &mut Vec<String>, line: String)
    ensures
        views(final(lines)@) == views(old(lines)@).push(line@),
{
    let ghost held = lines@;
    lines.push(line);
    assert(views(lines@) =~= views(held).push(line@));
}

fn add_meta(lines: &mut Vec<String>, m: &FileMeta)
    ensures
        views(final(lines)@) == views(old(lines)@) + meta_lines(m@),
{
    let word = match m.file_type {
        FileType::Directory => "directory",
        FileType::Symlink => "symlink",
        FileType::File => "file",
    };
    add_line(lines, join2("type: ", word));
    if m.file_type == FileType::File {
        if let Some(size) = &m.size {
            add_line(lines, join2("size: ", size.as_str()));
        }
    }
    if let Some(a) = m.age {
        add_line(lines, join2("modified: ", human_ago(a).as_str()));
    }
    if let Some(bits) = m.mode {
        add_line(lines, join2("perms: ", octal(bits % 512).as_str()));
    }
    assert(views(lines@) =~= views(old(lines)@) + meta_lines(m@));
}

/// What is told about a file.
pub fn tell_about(
    p: &Path,
    meta: &Option<FileMeta>,
    git: Option<GitStatus>,
    marked: bool,
) -> (r: Vec<String>)
    ensures
        views(r@) == info_lines(
            p@,
            match meta {
                Some(m) => Some(m@),
                None => None,
            },
            git,
            marked,
        ),
{
    let mut lines: Vec<String> = Vec::new();
    assert(views(lines@) =~= Seq::empty());
    add_line(&mut lines, join2("path: ", p.display().as_str()));
    if let Some(m) = meta {
        add_meta(&mut lines, m);
    }
    if let Some(s) = git {
        add_line(&mut lines, join2("git: ", word_of(s)));
    }
    if marked {
        add_line(&mut lines, "bookmarked: yes".to_owned());
    }
    assert(views(lines@) =~= info_lines(
        p@,
        match meta {
            Some(m) => Some(m@),
            None => None,
        },
        git,
        marked,
    ));
    lines
}

/// How some paths are named in a question: the first three, and how many more
/// there are.
pub open spec fn named_paths(paths: Seq<Seq<u8>>, root: Seq<u8>) -> Seq<Seq<char>> {
    let n = if paths.len() < 3 {
        paths.len()
    } else {
        3
    };
    Seq::new(n, |i: int| relative(paths[i], root)) + if paths.len() > n {
        seq!["+"@ + digits((paths.len() - n) as nat) + " more"@]
    } else {
        seq![]
    }
}

/// How some paths are named in a question.
pub fn name_paths(paths: &Vec<Path>, root: &Path) -> (r: Vec<String>)
    ensures
        views(r@) == named_paths(path_texts(paths@), root@),
{
    let n: usize = if paths.len() < 3 {
        paths.len()
    } else {
        3
    };
    let mut names: Vec<String> = Vec::new();
    let ghost ts = path_texts(paths@);
    let mut i: usize = 0;
    while i < n
        invariant
            i <= n,
            n <= paths@.len(),
            ts == path_texts(paths@),
            names@.len() == i,
            forall|k: int|
                0 <= k < i ==> (#[trigger] names@[k])@ == relative(ts[k], root@),
        decreases n - i,
    {
        names.push(relative_text(&paths[i], root));
        i += 1;
    }
    if paths.len() > n {
        let more = decimal((paths.len() - n) as u64);
        names.push(join3("+", more.as_str(), " more"));
    }
    assert(views(names@) =~= named_paths(ts, root@));
    names
}

/// What is asked before some bookmarked paths are removed.
pub open spec fn bulk_prompt(verb: Seq<char>, paths: Seq<Seq<u8>>, root: Seq<u8>) -> Seq<char> {
    verb + " "@ + digits(paths.len()) + " bookmarked item(s)? ["@ + joined(
        named_paths(paths, root),
        ", "@,
    ) + "]"@
}

/// What is asked before some bookmarked paths are removed.
pub fn ask_bulk(verb: &str, paths: &Vec<Path>, root: &Path) -> (r: String)
    ensures
        r@ == bulk_prompt(verb@, path_texts(paths@), root@),
{
    let names = name_paths(paths, root);
    let list = join_with(&names, ", ");
    let n = decimal(paths.len() as u64);
    let head = crate::text::join4(verb, " ", n.as_str(), " bookmarked item(s)? [");
    join3(head.as_str(), list.as_str(), "]")
}

proof fn lemma_typed_has_no_dots(dir: Seq<u8>, root: Seq<u8>, text: Seq<char>)
    requires
        typed_from(dir, root, text) is Some,
    ensures
        !comps(typed_from(dir, root, text)->0).contains(dotdot_comp()),
{
    let cs = comps(join_text(dir, vstd::utf8::encode_utf8(text)));
    lemma_comps(join_text(dir, vstd::utf8::encode_utf8(text)));
    lemma_resolved_text(cs);
    law_resolved_has_no_dots(cs);
}

/// No path that is typed without a leading slash leads out of the tree, or has a
/// `..` in it.
pub proof fn law_typed_stays_inside(root: Seq<u8>, text: Seq<char>)
    requires
        !is_absolute_text(text),
        typed_path(root, text) is Some,
    ensures
        comps(root).is_prefix_of(comps(typed_path(root, text)->0)),
        !comps(typed_path(root, text)->0).contains(dotdot_comp()),
{
    lemma_typed_has_no_dots(root, root, text);
}

/// No new name leads out of the tree, or has a `..` in it.
pub proof fn law_new_name_stays_inside(p: Seq<u8>, root: Seq<u8>, name: Seq<char>)
    requires
        new_name(p, root, name) is To,
    ensures
        comps(root).is_prefix_of(comps(new_name(p, root, name)->To_0)),
        !comps(new_name(p, root, name)->To_0).contains(dotdot_comp()),
{
    lemma_typed_has_no_dots(directory_of(p), root, name);
}

} // verus!
