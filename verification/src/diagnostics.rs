//! Diagnostics that the editor's language servers report, shown as colors of
//! file names.
//!
//! The counts are kept per file. A file shows its own worst severity, and a
//! directory the worst severity of any file below it, so that a problem inside
//! a collapsed folder is still visible.

use vstd::prelude::*;

use crate::path::{lemma_parent, root_comp, Path};
use crate::paths::{same_map, PathMap};
use crate::text::same_text;

verus! {

/// The severities worth showing, the lowest first.
#[derive(Clone, Copy, Debug, PartialEq, Eq, PartialOrd, Ord, Structural)]
pub enum Severity {
    Warning,
    Error,
}

/// Which severities color the tree.
#[derive(Clone, Copy, Debug, PartialEq, Eq, Structural)]
pub enum Mode {
    Off,
    Errors,
    /// Errors and warnings.
    Warnings,
}

/// The mode that a word names.
pub open spec fn mode_named(s: Seq<char>) -> Option<Mode> {
    if s == "off"@ {
        Some(Mode::Off)
    } else if s == "errors"@ {
        Some(Mode::Errors)
    } else if s == "warnings"@ {
        Some(Mode::Warnings)
    } else {
        None
    }
}

impl Mode {
    /// Reads a mode from its name.
    pub fn parse(s: &str) -> (r: Option<Mode>)
        ensures
            r == mode_named(s@),
    {
        if same_text(s, "off") {
            Some(Mode::Off)
        } else if same_text(s, "errors") {
            Some(Mode::Errors)
        } else if same_text(s, "warnings") {
            Some(Mode::Warnings)
        } else {
            None
        }
    }

    /// The least severe level still shown.
    pub open spec fn spec_min_severity(self) -> Option<Severity> {
        match self {
            Mode::Off => None,
            Mode::Errors => Some(Severity::Error),
            Mode::Warnings => Some(Severity::Warning),
        }
    }

    /// The least severe level still shown, or `None` when nothing is.
    pub fn min_severity(self) -> (r: Option<Severity>)
        ensures
            r == self.spec_min_severity(),
    {
        match self {
            Mode::Off => None,
            Mode::Errors => Some(Severity::Error),
            Mode::Warnings => Some(Severity::Warning),
        }
    }
}

/// The diagnostic counts of one file.
#[derive(Clone, Copy, Debug, PartialEq, Eq, Structural)]
pub struct Counts {
    pub errors: u32,
    pub warnings: u32,
}

/// What a row displays.
#[derive(Clone, Copy, Debug, PartialEq, Eq, Structural)]
pub struct Diag {
    pub severity: Severity,
    /// The number of diagnostics of that severity for a file; 0 for a
    /// directory, whose severity comes from what it contains.
    pub count: u32,
}

impl Default for Counts {
    fn default() -> (r: Counts)
        ensures
            r == (Counts { errors: 0, warnings: 0 }),
    {
        Counts { errors: 0, warnings: 0 }
    }
}

impl Counts {
    /// Whether there is nothing to report.
    pub open spec fn spec_is_empty(self) -> bool {
        self.errors == 0 && self.warnings == 0
    }

    /// The worst severity that was counted.
    pub open spec fn spec_severity(self) -> Option<Severity> {
        if self.errors > 0 {
            Some(Severity::Error)
        } else if self.warnings > 0 {
            Some(Severity::Warning)
        } else {
            None
        }
    }

    /// What a file with these counts shows at `min` and above.
    pub open spec fn spec_shown(self, min: Severity) -> Option<Diag> {
        if self.errors > 0 {
            Some(Diag { severity: Severity::Error, count: self.errors })
        } else if self.warnings > 0 && min == Severity::Warning {
            Some(Diag { severity: Severity::Warning, count: self.warnings })
        } else {
            None
        }
    }

    /// Whether there is nothing to report.
    pub fn is_empty(self) -> (r: bool)
        ensures
            r == self.spec_is_empty(),
    {
        self.errors == 0 && self.warnings == 0
    }

    /// The worst severity that was counted.
    pub fn severity(self) -> (r: Option<Severity>)
        ensures
            r == self.spec_severity(),
    {
        if self.errors > 0 {
            Some(Severity::Error)
        } else if self.warnings > 0 {
            Some(Severity::Warning)
        } else {
            None
        }
    }

    /// What a file with these counts shows at `min` and above.
    pub fn shown(self, min: Severity) -> (r: Option<Diag>)
        ensures
            r == self.spec_shown(min),
    {
        match self.severity() {
            Some(Severity::Error) => Some(Diag { severity: Severity::Error, count: self.errors }),
            Some(Severity::Warning) => if min == Severity::Warning {
                Some(Diag { severity: Severity::Warning, count: self.warnings })
            } else {
                None
            },
            None => None,
        }
    }
}

/// How many files below a directory carry each severity.
#[derive(Clone, Copy, Debug, PartialEq, Eq, Structural)]
struct Below {
    with_errors: u64,
    with_warnings: u64,
}

/// Whether the path `p` lies below the directory `d`. No path that begins at
/// the root lies below the empty one.
pub open spec fn is_below(d: Seq<Seq<u8>>, p: Seq<Seq<u8>>) -> bool {
    &&& d.len() < p.len()
    &&& d.is_prefix_of(p)
    &&& d.len() == 0 ==> p[0] != root_comp()
}

/// The files below `d` whose worst severity is `s`.
pub open spec fn files_below(
    files: Map<Seq<Seq<u8>>, Counts>,
    d: Seq<Seq<u8>>,
    s: Severity,
) -> Set<Seq<Seq<u8>>> {
    files.dom().filter(
        |k: Seq<Seq<u8>>| is_below(d, k) && files[k].spec_severity() == Some(s),
    )
}

/// Whether some file below `d` has `s` for its worst severity.
pub open spec fn any_below(
    files: Map<Seq<Seq<u8>>, Counts>,
    d: Seq<Seq<u8>>,
    s: Severity,
) -> bool {
    exists|k: Seq<Seq<u8>>|
        #[trigger] files.contains_key(k) && is_below(d, k) && files[k].spec_severity() == Some(s)
}

/// What a directory shows at `min` and above: the worst severity of any file
/// below it.
pub open spec fn worst_below(
    files: Map<Seq<Seq<u8>>, Counts>,
    d: Seq<Seq<u8>>,
    min: Severity,
) -> Option<Diag> {
    if any_below(files, d, Severity::Error) {
        Some(Diag { severity: Severity::Error, count: 0 })
    } else if any_below(files, d, Severity::Warning) && min == Severity::Warning {
        Some(Diag { severity: Severity::Warning, count: 0 })
    } else {
        None
    }
}

/// The files after a report on one of them: no counts, no file.
pub open spec fn reported_one(
    files: Map<Seq<Seq<u8>>, Counts>,
    path: Seq<Seq<u8>>,
    counts: Counts,
) -> Map<Seq<Seq<u8>>, Counts> {
    if counts.spec_is_empty() {
        files.remove(path)
    } else {
        files.insert(path, counts)
    }
}

/// The files that a whole report leaves; of two entries for one file the later
/// one counts.
pub open spec fn reported(list: Seq<(Path, Counts)>) -> Map<Seq<Seq<u8>>, Counts>
    decreases list.len(),
{
    if list.len() == 0 {
        Map::empty()
    } else {
        reported_one(reported(list.drop_last()), list.last().0.comps(), list.last().1)
    }
}

spec fn tally(m: Map<Seq<Seq<u8>>, Below>, d: Seq<Seq<u8>>) -> Below {
    if m.contains_key(d) {
        m[d]
    } else {
        Below { with_errors: 0, with_warnings: 0 }
    }
}

spec fn no_zeros(m: Map<Seq<Seq<u8>>, Below>) -> bool {
    forall|d: Seq<Seq<u8>>|
        #[trigger] m.contains_key(d) ==> m[d].with_errors > 0 || m[d].with_warnings > 0
}

spec fn slot(b: Below, s: Severity) -> int {
    match s {
        Severity::Error => b.with_errors as int,
        Severity::Warning => b.with_warnings as int,
    }
}

/// `after` is `before` with the slot for `s` moved by `by`.
spec fn bumped(before: Below, after: Below, s: Severity, by: int) -> bool {
    forall|t: Severity|
        #[trigger] slot(after, t) == slot(before, t) + if t == s {
            by
        } else {
            0
        }
}

spec fn tallies_agree(files: Map<Seq<Seq<u8>>, Counts>, dirs: Map<Seq<Seq<u8>>, Below>) -> bool {
    forall|d: Seq<Seq<u8>>, s: Severity|
        #![trigger files_below(files, d, s)]
        slot(tally(dirs, d), s) == files_below(files, d, s).len()
}

proof fn lemma_files_below_finite(files: Map<Seq<Seq<u8>>, Counts>, d: Seq<Seq<u8>>, s: Severity)
    requires
        files.dom().finite(),
    ensures
        files_below(files, d, s).finite(),
        files_below(files, d, s).len() <= files.dom().len(),
        (files_below(files, d, s).len() > 0) == any_below(files, d, s),
{
    let set = files_below(files, d, s);
    let f = |k: Seq<Seq<u8>>| is_below(d, k) && files[k].spec_severity() == Some(s);
    files.dom().lemma_len_filter(f);
    if any_below(files, d, s) {
        let k = choose|k: Seq<Seq<u8>>|
            #[trigger] files.contains_key(k) && is_below(d, k) && files[k].spec_severity() == Some(
                s,
            );
        assert(set.contains(k));
        if set.len() == 0 {
            assert(set =~= Set::empty());
        }
    }
    if set.len() > 0 {
        let k = set.choose();
        assert(set.contains(k));
        assert(files.contains_key(k));
    }
}

/// What one more file does to the files below a directory.
proof fn lemma_files_below_insert(
    files: Map<Seq<Seq<u8>>, Counts>,
    k: Seq<Seq<u8>>,
    c: Counts,
    d: Seq<Seq<u8>>,
    s: Severity,
)
    requires
        files.dom().finite(),
        !files.contains_key(k),
    ensures
        files_below(files.insert(k, c), d, s).len() == files_below(files, d, s).len()
            + if is_below(d, k) && c.spec_severity() == Some(s) {
            1int
        } else {
            0
        },
{
    let after = files.insert(k, c);
    lemma_files_below_finite(files, d, s);
    if is_below(d, k) && c.spec_severity() == Some(s) {
        assert(files_below(after, d, s) =~= files_below(files, d, s).insert(k));
    } else {
        assert(files_below(after, d, s) =~= files_below(files, d, s));
    }
}

/// Counts a file with severity `s` in, or out, at every directory above it.
fn account(dirs: &mut PathMap<Below>, path: &Path, s: Severity, up: bool)
    requires
        no_zeros(old(dirs)@),
        forall|d: Seq<Seq<u8>>|
            #![trigger tally(old(dirs)@, d)]
            is_below(d, path.comps()) ==> if up {
                slot(tally(old(dirs)@, d), s) < u64::MAX
            } else {
                slot(tally(old(dirs)@, d), s) > 0
            },
    ensures
        no_zeros(final(dirs)@),
        forall|d: Seq<Seq<u8>>|
            #![trigger tally(final(dirs)@, d)]
            if is_below(d, path.comps()) {
                bumped(tally(old(dirs)@, d), tally(final(dirs)@, d), s, if up {
                    1
                } else {
                    -1
                })
            } else {
                tally(final(dirs)@, d) == tally(old(dirs)@, d)
            },
{
    let mut above = path.parent();
    let ghost p = path.comps();
    let ghost first = dirs@;
    let ghost by: int = if up {
        1
    } else {
        -1
    };
    let ghost mut n: int = p.len() as int;
    proof {
        lemma_parent(path@);
        if p.len() > 0 {
            assert(p.drop_last() =~= p.take(n - 1));
        }
        if p.len() == 1 && p[0] == root_comp() {
            assert(p =~= seq![root_comp()]);
        }
    }
    while above.is_some()
        invariant
            no_zeros(dirs@),
            p == path.comps(),
            0 <= n <= p.len(),
            above is Some ==> n > 0 && above->0.comps() == p.take(n - 1) && (n - 1 == 0 ==> p[0]
                != root_comp()),
            above is None ==> n == 0 || (n == 1 && p[0] == root_comp()),
            by == if up {
                1int
            } else {
                -1
            },
            forall|d: Seq<Seq<u8>>|
                #![trigger tally(first, d)]
                is_below(d, p) ==> if up {
                    slot(tally(first, d), s) < u64::MAX
                } else {
                    slot(tally(first, d), s) > 0
                },
            forall|d: Seq<Seq<u8>>|
                #![trigger tally(dirs@, d)]
                if is_below(d, p) && d.len() >= n {
                    bumped(tally(first, d), tally(dirs@, d), s, by)
                } else {
                    tally(dirs@, d) == tally(first, d)
                },
        decreases n,
    {
        let ghost prev = dirs@;
        let dir = match above {
            Some(dir) => dir,
            None => path.copy(),
        };
        let ghost here = p.take(n - 1);
        proof {
            assert(here =~= p.subrange(0, n - 1));
            assert(is_below(here, p));
            assert(tally(prev, here) == tally(first, here));
        }
        let mut below = match dirs.get(&dir) {
            Some(b) => *b,
            None => Below { with_errors: 0, with_warnings: 0 },
        };
        assert(below == tally(prev, here));
        assert(slot(tally(first, here), s) == slot(below, s));
        let ghost was = below;
        match s {
            Severity::Error => {
                below.with_errors = if up {
                    below.with_errors + 1
                } else {
                    below.with_errors - 1
                };
            },
            Severity::Warning => {
                below.with_warnings = if up {
                    below.with_warnings + 1
                } else {
                    below.with_warnings - 1
                };
            },
        }
        assert(bumped(was, below, s, by));
        above = dir.parent();
        proof {
            lemma_parent(dir@);
            if above is Some {
                assert(here.drop_last() =~= p.take(n - 2));
                if n - 2 == 0 {
                    assert(here =~= seq![p[0]]);
                    if p[0] == root_comp() {
                        assert(here == seq![root_comp()]);
                    }
                }
            } else if here.len() > 0 {
                assert(here[0] == p[0]);
                assert(seq![root_comp()][0] == root_comp());
                assert(seq![root_comp()].len() == 1);
            }
        }
        if below.with_errors == 0 && below.with_warnings == 0 {
            let _gone = dirs.remove(&dir);
        } else {
            dirs.insert(dir, below);
        }
        proof {
            assert forall|d: Seq<Seq<u8>>|
                #![trigger tally(dirs@, d)]
                if is_below(d, p) && d.len() >= n - 1 {
                    bumped(tally(first, d), tally(dirs@, d), s, by)
                } else {
                    tally(dirs@, d) == tally(first, d)
                } by {
                let _ = tally(prev, d);
                if d == here {
                    assert(tally(dirs@, d) == below);
                } else {
                    assert(tally(dirs@, d) == tally(prev, d));
                    if is_below(d, p) && d.len() == n - 1 {
                        assert(d =~= here);
                    }
                }
            }
            n = n - 1;
        }
    }
    proof {
        assert forall|d: Seq<Seq<u8>>|
            #![trigger tally(dirs@, d)]
            if is_below(d, p) {
                bumped(tally(first, d), tally(dirs@, d), s, by)
            } else {
                tally(dirs@, d) == tally(first, d)
            } by {
            if is_below(d, p) && d.len() < n {
                assert(d.len() == 0);
                assert(p[0] == root_comp());
            }
        }
    }
}

/// Every file that the editor reported diagnostics for.
#[derive(Debug)]
pub struct DiagnosticsData {
    files: PathMap<Counts>,
    dirs: PathMap<Below>,
}

impl View for DiagnosticsData {
    type V = Map<Seq<Seq<u8>>, Counts>;

    closed spec fn view(&self) -> Map<Seq<Seq<u8>>, Counts> {
        self.files@
    }
}

impl Default for DiagnosticsData {
    fn default() -> (r: DiagnosticsData)
        ensures
            r@ == Map::<Seq<Seq<u8>>, Counts>::empty(),
    {
        let files: PathMap<Counts> = PathMap::new();
        let dirs: PathMap<Below> = PathMap::new();
        proof {
            assert forall|d: Seq<Seq<u8>>, s: Severity|
                #![trigger files_below(files@, d, s)]
                slot(tally(dirs@, d), s) == files_below(files@, d, s).len() by {
                assert(files_below(files@, d, s) =~= Set::empty());
            }
        }
        DiagnosticsData { files, dirs }
    }
}

impl DiagnosticsData {
    #[verifier::type_invariant]
    spec fn tallied(self) -> bool {
        &&& self.files@.dom().finite()
        &&& forall|k: Seq<Seq<u8>>|
            #[trigger] self.files@.contains_key(k) ==> !self.files@[k].spec_is_empty()
        &&& no_zeros(self.dirs@)
        &&& tallies_agree(self.files@, self.dirs@)
    }

    /// Records the counts of a file; zero counts forget it. Says whether
    /// anything changed.
    pub fn update(&mut self, path: Path, counts: Counts) -> (r: bool)
        ensures
            final(self)@ == reported_one(old(self)@, path.comps(), counts),
            r == (final(self)@ != old(self)@),
    {
        proof {
            use_type_invariant(&*self);
        }
        let ghost before = self@;
        let previous: Option<Counts> = match self.files.get(&path) {
            Some(c) => Some(*c),
            None => None,
        };
        let next: Option<Counts> = if counts.is_empty() {
            None
        } else {
            Some(counts)
        };
        let ghost k = path.comps();
        if previous == next {
            assert(reported_one(before, k, counts) =~= before);
            return false;
        }
        proof {
            let after = reported_one(before, k, counts);
            if after == before {
                assert(after.contains_key(k) == before.contains_key(k));
                assert(false);
            }
        }
        let mut taken = DiagnosticsData::default();
        std::mem::swap(&mut taken, self);
        let mut files = taken.files;
        let mut dirs = taken.dirs;
        match previous {
            Some(was) => {
                match was.severity() {
                    Some(s) => {
                        proof {
                            assert(files@.remove(k).insert(k, was) =~= files@);
                            assert forall|d: Seq<Seq<u8>>|
                                #![trigger tally(dirs@, d)]
                                is_below(d, k) implies slot(tally(dirs@, d), s) > 0 by {
                                lemma_files_below_insert(files@.remove(k), k, was, d, s);
                                assert(slot(tally(dirs@, d), s) == files_below(
                                    files@,
                                    d,
                                    s,
                                ).len());
                            }
                        }
                        let ghost held = dirs@;
                        account(&mut dirs, &path, s, false);
                        proof {
                            let f = files@.remove(k);
                            assert forall|d: Seq<Seq<u8>>, t: Severity|
                                #![trigger files_below(f, d, t)]
                                slot(tally(dirs@, d), t) == files_below(f, d, t).len() by {
                                lemma_files_below_insert(f, k, was, d, t);
                                assert(slot(tally(held, d), t) == files_below(files@, d, t).len());
                                let _ = tally(dirs@, d);
                            }
                        }
                    },
                    None => {},
                }
                let _gone = files.remove(&path);
            },
            None => {},
        }
        assert(tallies_agree(files@, dirs@));
        assert(files@ =~= before.remove(k));
        match next {
            Some(now) => {
                let ghost f = files@;
                files.insert(path.copy(), now);
                let n: usize = files.len();
                match now.severity() {
                    Some(s) => {
                        proof {
                            assert(f.insert(k, now) =~= files@);
                            assert forall|d: Seq<Seq<u8>>|
                                #![trigger tally(dirs@, d)]
                                is_below(d, k) implies slot(tally(dirs@, d), s) < u64::MAX by {
                                lemma_files_below_insert(f, k, now, d, s);
                                lemma_files_below_finite(files@, d, s);
                                assert(slot(tally(dirs@, d), s) == files_below(f, d, s).len());
                                assert(files@.dom().len() == n);
                            }
                        }
                        let ghost held = dirs@;
                        account(&mut dirs, &path, s, true);
                        proof {
                            assert forall|d: Seq<Seq<u8>>, t: Severity|
                                #![trigger files_below(files@, d, t)]
                                slot(tally(dirs@, d), t) == files_below(files@, d, t).len() by {
                                lemma_files_below_insert(f, k, now, d, t);
                                assert(slot(tally(held, d), t) == files_below(f, d, t).len());
                                let _ = tally(dirs@, d);
                            }
                        }
                    },
                    None => {},
                }
            },
            None => {},
        }
        *self = DiagnosticsData { files, dirs };
        assert(self@ =~= reported_one(before, k, counts));
        true
    }

    /// Replaces everything by a complete snapshot. Says whether that differs
    /// from what was held.
    pub fn replace(&mut self, files: Vec<(Path, Counts)>) -> (r: bool)
        ensures
            final(self)@ == reported(files@),
            r == (final(self)@ != old(self)@),
    {
        let mut next = DiagnosticsData::default();
        let mut i: usize = 0;
        while i < files.len()
            invariant
                i <= files@.len(),
                next@ == reported(files@.take(i as int)),
            decreases files@.len() - i,
        {
            let _changed = next.update(files[i].0.copy(), files[i].1);
            assert(files@.take(i + 1).drop_last() =~= files@.take(i as int));
            i += 1;
        }
        assert(files@.take(i as int) =~= files@);
        let same = |x: &Counts, y: &Counts| -> (b: bool)
            ensures
                b == (*x == *y),
            { *x == *y };
        if same_map(&next.files, &self.files, same) {
            return false;
        }
        *self = next;
        true
    }

    /// What the row of a file shows at `min` and above.
    pub fn for_file(&self, path: &Path, min: Severity) -> (r: Option<Diag>)
        ensures
            r == if self@.contains_key(path.comps()) {
                self@[path.comps()].spec_shown(min)
            } else {
                None
            },
    {
        match self.files.get(path) {
            Some(counts) => counts.shown(min),
            None => None,
        }
    }

    /// The worst severity of any file under `dir`, at `min` and above. It goes
    /// by the reported paths, so a directory that was never opened still
    /// reflects what it contains.
    pub fn worst_under(&self, dir: &Path, min: Severity) -> (r: Option<Diag>)
        ensures
            r == worst_below(self@, dir.comps(), min),
    {
        proof {
            use_type_invariant(self);
            lemma_files_below_finite(self@, dir.comps(), Severity::Error);
            lemma_files_below_finite(self@, dir.comps(), Severity::Warning);
            let b = tally(self.dirs@, dir.comps());
            assert(slot(b, Severity::Error) == files_below(
                self@,
                dir.comps(),
                Severity::Error,
            ).len());
            assert(slot(b, Severity::Warning) == files_below(
                self@,
                dir.comps(),
                Severity::Warning,
            ).len());
        }
        match self.dirs.get(dir) {
            Some(below) => {
                if below.with_errors > 0 {
                    Some(Diag { severity: Severity::Error, count: 0 })
                } else if below.with_warnings > 0 && min == Severity::Warning {
                    Some(Diag { severity: Severity::Warning, count: 0 })
                } else {
                    None
                }
            },
            None => None,
        }
    }

    /// Whether no directory has a file with diagnostics below it.
    pub fn no_tallies(&self) -> (r: bool)
        ensures
            r == forall|d: Seq<Seq<u8>>, k: Seq<Seq<u8>>|
                #[trigger] self@.contains_key(k) ==> !#[trigger] is_below(d, k),
    {
        proof {
            use_type_invariant(self);
            if self.dirs@ == Map::<Seq<Seq<u8>>, Below>::empty() {
                assert forall|d: Seq<Seq<u8>>, k: Seq<Seq<u8>>|
                    #[trigger] self@.contains_key(k) implies !#[trigger] is_below(d, k) by {
                    if is_below(d, k) {
                        let s = self@[k].spec_severity()->0;
                        lemma_files_below_finite(self@, d, s);
                        assert(any_below(self@, d, s));
                        assert(slot(tally(self.dirs@, d), s) == files_below(self@, d, s).len());
                    }
                }
            } else if forall|d: Seq<Seq<u8>>| !#[trigger] self.dirs@.contains_key(d) {
                assert(self.dirs@ =~= Map::<Seq<Seq<u8>>, Below>::empty());
            } else {
                let d = choose|d: Seq<Seq<u8>>| #[trigger] self.dirs@.contains_key(d);
                let s = if self.dirs@[d].with_errors > 0 {
                    Severity::Error
                } else {
                    Severity::Warning
                };
                lemma_files_below_finite(self@, d, s);
                assert(slot(tally(self.dirs@, d), s) == files_below(self@, d, s).len());
                assert(any_below(self@, d, s));
            }
        }
        self.dirs.is_empty()
    }
}

/// A report on a file says what that file shows, and leaves every other file
/// alone.
pub proof fn law_report_is_local(
    files: Map<Seq<Seq<u8>>, Counts>,
    path: Seq<Seq<u8>>,
    counts: Counts,
    other: Seq<Seq<u8>>,
)
    ensures
        reported_one(files, path, counts).contains_key(path) == !counts.spec_is_empty(),
        reported_one(files, path, counts).contains_key(path) ==> reported_one(
            files,
            path,
            counts,
        )[path] == counts,
        other != path ==> reported_one(files, path, counts).contains_key(other)
            == files.contains_key(other) && reported_one(files, path, counts)[other]
            == files[other],
{
}

/// A file that was reported and is then reported clean leaves every directory
/// as if it had never been reported.
pub proof fn law_clearing_undoes_a_report(
    files: Map<Seq<Seq<u8>>, Counts>,
    path: Seq<Seq<u8>>,
    counts: Counts,
    d: Seq<Seq<u8>>,
    min: Severity,
)
    requires
        !files.contains_key(path),
    ensures
        reported_one(reported_one(files, path, counts), path, Counts { errors: 0, warnings: 0 })
            == files,
        worst_below(
            reported_one(reported_one(files, path, counts), path, Counts { errors: 0, warnings: 0 }),
            d,
            min,
        ) == worst_below(files, d, min),
{
    assert(reported_one(
        reported_one(files, path, counts),
        path,
        Counts { errors: 0, warnings: 0 },
    ) =~= files);
}

/// A file with errors below a directory makes the directory show an error,
/// whatever else lies there.
pub proof fn law_errors_dominate(
    files: Map<Seq<Seq<u8>>, Counts>,
    path: Seq<Seq<u8>>,
    d: Seq<Seq<u8>>,
    min: Severity,
)
    requires
        files.contains_key(path),
        files[path].errors > 0,
        is_below(d, path),
    ensures
        worst_below(files, d, min) == Some(Diag { severity: Severity::Error, count: 0 }),
{
}

/// What a directory shows, every directory above it shows at least.
pub proof fn law_severity_carries_up(
    files: Map<Seq<Seq<u8>>, Counts>,
    d: Seq<Seq<u8>>,
    up: Seq<Seq<u8>>,
    min: Severity,
)
    requires
        is_below(up, d),
        worst_below(files, d, min) is Some,
    ensures
        worst_below(files, up, min) is Some,
        worst_below(files, d, min)->0.severity == Severity::Error ==> worst_below(
            files,
            up,
            min,
        )->0.severity == Severity::Error,
{
    let s = worst_below(files, d, min)->0.severity;
    let k = choose|k: Seq<Seq<u8>>|
        #[trigger] files.contains_key(k) && is_below(d, k) && files[k].spec_severity() == Some(s);
    assert(files.contains_key(k));
    assert(k[0] == d[0]) by {
        assert(d[0] == k.subrange(0, d.len() as int)[0]);
    }
    assert(up.is_prefix_of(k)) by {
        assert(up =~= k.subrange(0, up.len() as int)) by {
            assert(d =~= k.subrange(0, d.len() as int));
            assert(up =~= d.subrange(0, up.len() as int));
        }
    }
    assert(any_below(files, up, s));
}

} // verus!
