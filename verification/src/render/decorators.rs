//! The style of a name. Later reasons go over earlier ones: what the node is,
//! git, cut or copied, open in the editor, selected, diagnostics, hidden.

use vstd::prelude::*;

use crate::clipboard::{ClipView, Clipboard};
use crate::path::{comps, Path};
use crate::paths::PathSet;
use crate::style::Style;
use crate::text::{lowercase, same_text, starts_with_char, views};
use crate::theme::Theme;
use crate::tree::node::NodeKind;
use crate::tree::rows::{Row, RowView};

verus! {

/// What a row's style depends on besides the row.
pub struct Decor<'a> {
    pub clipboard: &'a Clipboard,
    pub marks: &'a PathSet,
    pub selection: &'a PathSet,
    pub current_file: Option<&'a Path>,
    pub special_files: &'a Vec<String>,
}

/// What a row's style depends on, with sets and texts.
#[verifier::ext_equal]
pub struct DecorView {
    pub clipboard: ClipView,
    pub marks: Set<Seq<Seq<u8>>>,
    pub selection: Set<Seq<Seq<u8>>>,
    pub current_file: Option<Seq<u8>>,
    pub special_files: Seq<Seq<char>>,
}

impl<'a> View for Decor<'a> {
    type V = DecorView;

    open spec fn view(&self) -> DecorView {
        DecorView {
            clipboard: self.clipboard@,
            marks: self.marks@,
            selection: self.selection@,
            current_file: match self.current_file {
                Some(p) => Some(p@),
                None => None,
            },
            special_files: views(self.special_files@),
        }
    }
}

/// Whether a file is set off by its name.
pub open spec fn is_special_row(row: RowView, special: Seq<Seq<char>>) -> bool {
    !row.kind.spec_is_dir() && special.contains(lowercase(row.name))
}

/// The style that a row has from what the node is.
pub open spec fn kind_style(row: RowView, theme: Theme, special: Seq<Seq<char>>) -> Style {
    if row.kind.spec_is_dir() {
        theme.directory
    } else if row.kind != NodeKind::File {
        theme.symlink
    } else if is_special_row(row, special) {
        theme.special
    } else if row.executable {
        theme.executable
    } else {
        theme.text
    }
}

/// One style over another, if the reason for it holds.
pub open spec fn patched_if(style: Style, reason: bool, over: Style) -> Style {
    if reason {
        style.spec_patch(over)
    } else {
        style
    }
}

/// The style of a row's name.
pub open spec fn row_style(row: RowView, theme: Theme, d: DecorView) -> Style {
    let k = comps(row.path);
    let own = kind_style(row, theme, d.special_files);
    let git = match row.git {
        Some(s) => own.spec_patch(theme.spec_git_style(s)),
        None => own,
    };
    let cut = patched_if(git, d.clipboard.is_cut(k), theme.cut);
    let copied = patched_if(cut, d.clipboard.is_copied(k), theme.copy);
    let current = patched_if(
        copied,
        d.current_file is Some && comps(d.current_file->0) == k,
        theme.opened,
    );
    let selected = patched_if(current, d.selection.contains(k), theme.selected);
    let reported = match row.diag {
        Some(diag) => selected.spec_patch(theme.spec_diagnostic_style(diag.severity)),
        None => selected,
    };
    if row.name.len() > 0 && row.name[0] == '.' {
        reported.spec_dim()
    } else {
        reported
    }
}

impl<'a> Decor<'a> {
    /// Whether a file is set off by its name.
    pub fn is_special(&self, row: &Row) -> (r: bool)
        ensures
            r == is_special_row(row@, self@.special_files),
    {
        if row.kind.is_dir() {
            return false;
        }
        let lower = row.name.as_str().to_lowercase();
        let mut i: usize = 0;
        let ghost all = views(self.special_files@);
        while i < self.special_files.len()
            invariant
                i <= self.special_files@.len(),
                all == views(self.special_files@),
                !row@.kind.spec_is_dir(),
                lower@ == lowercase(row@.name),
                forall|k: int| 0 <= k < i ==> all[k] != lower@,
            decreases self.special_files@.len() - i,
        {
            assert(all[i as int] == self.special_files@[i as int]@);
            if same_text(self.special_files[i].as_str(), lower.as_str()) {
                return true;
            }
            i += 1;
        }
        false
    }
}

fn own_style(row: &Row, theme: &Theme, decor: &Decor) -> (r: Style)
    ensures
        r == kind_style(row@, *theme, decor@.special_files),
{
    match row.kind {
        NodeKind::Directory => theme.directory,
        NodeKind::Symlink { to_dir } => if to_dir {
            theme.directory
        } else {
            theme.symlink
        },
        NodeKind::File => if decor.is_special(row) {
            theme.special
        } else if row.executable {
            theme.executable
        } else {
            theme.text
        },
    }
}

fn patch_if(style: Style, reason: bool, over: Style) -> (r: Style)
    ensures
        r == patched_if(style, reason, over),
{
    if reason {
        style.patch(over)
    } else {
        style
    }
}

fn is_current(row: &Row, decor: &Decor) -> (r: bool)
    ensures
        r == (decor@.current_file is Some && comps(decor@.current_file->0) == comps(row@.path)),
{
    match decor.current_file {
        Some(current) => current.same(&row.path),
        None => false,
    }
}

/// The style of a row's name.
pub fn name_style(row: &Row, theme: &Theme, decor: &Decor) -> (r: Style)
    ensures
        r == row_style(row@, *theme, decor@),
{
    let own = own_style(row, theme, decor);
    let git = match row.git {
        Some(status) => own.patch(theme.git_style(status)),
        None => own,
    };
    let cut = patch_if(git, decor.clipboard.is_cut(&row.path), theme.cut);
    let copied = patch_if(cut, decor.clipboard.is_copied(&row.path), theme.copy);
    let current = patch_if(copied, is_current(row, decor), theme.opened);
    let selected = patch_if(current, decor.selection.contains(&row.path), theme.selected);
    // A problem in the file must not be missed: its color goes over all of the
    // above, and leaves the background and what sets the name off.
    let reported = match row.diag {
        Some(diag) => selected.patch(theme.diagnostic_style(diag.severity)),
        None => selected,
    };
    if starts_with_char(row.name.as_str(), '.') {
        reported.dim()
    } else {
        reported
    }
}

/// The color of a diagnostic, if the theme gives one, is that of the name,
/// whatever else the row has.
pub proof fn law_diagnostics_outrank(row: RowView, theme: Theme, d: DecorView)
    requires
        row.diag is Some,
        theme.spec_diagnostic_style(row.diag->0.severity).fg is Some,
    ensures
        row_style(row, theme, d).fg == theme.spec_diagnostic_style(row.diag->0.severity).fg,
{
    reveal(Style::spec_patch);
}

} // verus!
