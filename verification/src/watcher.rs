//! Which filesystem events matter, and how a burst of them is put together.

use vstd::prelude::*;

use crate::path::Path;
use crate::paths::PathSet;
use crate::text::{same_bytes, same_text};

verus! {

/// Whether a directory of this name changes so much that what happens inside
/// it is left aside.
pub open spec fn is_churn(name: Seq<char>) -> bool {
    ||| name == "node_modules"@
    ||| name == "target"@
    ||| name == "build"@
    ||| name == ".ccls-cache"@
    ||| name == ".zig-cache"@
}

/// Whether a component is the name of a directory that changes too much.
pub open spec fn is_churn_comp(c: Seq<u8>) -> bool {
    ||| c == vstd::utf8::encode_utf8("node_modules"@)
    ||| c == vstd::utf8::encode_utf8("target"@)
    ||| c == vstd::utf8::encode_utf8("build"@)
    ||| c == vstd::utf8::encode_utf8(".ccls-cache"@)
    ||| c == vstd::utf8::encode_utf8(".zig-cache"@)
}

/// Whether a directory of this name changes too much to be followed.
pub fn is_high_churn_name(name: &str) -> (r: bool)
    ensures
        r == is_churn(name@),
{
    same_text(name, "node_modules") || same_text(name, "target") || same_text(name, "build")
        || same_text(name, ".ccls-cache") || same_text(name, ".zig-cache")
}

fn churn_comp(c: &[u8]) -> (r: bool)
    ensures
        r == is_churn_comp(c@),
{
    same_bytes(c, "node_modules".as_bytes()) || same_bytes(c, "target".as_bytes()) || same_bytes(
        c,
        "build".as_bytes(),
    ) || same_bytes(c, ".ccls-cache".as_bytes()) || same_bytes(c, ".zig-cache".as_bytes())
}

/// Whether one of the components of `path`, from number `from` to before
/// number `to`, is that of a directory that changes too much.
pub open spec fn churns(path: Seq<Seq<u8>>, from: int, to: int) -> bool {
    exists|i: int| from <= i < to && is_churn_comp(#[trigger] path[i])
}

/// Whether a path lies inside a directory that changes too much, which itself
/// lies below the root. The directory itself does not: that it comes or goes
/// matters. What stands above the root never counts.
pub open spec fn ignored_below(root: Seq<Seq<u8>>, path: Seq<Seq<u8>>) -> bool {
    root.is_prefix_of(path) && churns(path, root.len() as int, path.len() - 1)
}

/// Whether a path is, or lies inside, a directory below the root that changes
/// too much.
pub open spec fn churn_below(root: Seq<Seq<u8>>, path: Seq<Seq<u8>>) -> bool {
    root.is_prefix_of(path) && churns(path, root.len() as int, path.len() as int)
}

fn any_churn(path: &Path, from: usize, to: usize) -> (r: bool)
    requires
        to <= path.comps().len(),
    ensures
        r == churns(path.comps(), from as int, to as int),
{
    let mut i: usize = from;
    while i < to
        invariant
            from <= i,
            to <= path.comps().len(),
            forall|k: int| from <= k < i && k < to ==> !is_churn_comp(#[trigger] path.comps()[k]),
        decreases to - i,
    {
        if churn_comp(path.comp(i)) {
            return true;
        }
        i += 1;
    }
    false
}

/// Whether a path lies inside a directory below the root that changes too much.
pub fn is_ignored(root: &Path, path: &Path) -> (r: bool)
    ensures
        r == ignored_below(root.comps(), path.comps()),
{
    if !path.starts_with(root) {
        return false;
    }
    let n: usize = path.depth();
    if n == 0 {
        return false;
    }
    any_churn(path, root.depth(), n - 1)
}

/// Whether a path is, or lies inside, a directory below the root that changes
/// too much.
pub fn inside_ignored(root: &Path, path: &Path) -> (r: bool)
    ensures
        r == churn_below(root.comps(), path.comps()),
{
    path.starts_with(root) && any_churn(path, root.depth(), path.depth())
}

/// An event that matters.
#[derive(Debug)]
pub enum RawEvent {
    Paths(Vec<Path>),
    Rescan,
}

/// One notification, put together from a burst of events.
#[derive(Debug)]
pub enum FsChange {
    /// The paths that were touched.
    Paths(PathSet),
    /// Events were lost, so that everything that is open has to be read again.
    Rescan,
}

/// Whether all of some paths, and at least one, lie inside directories that
/// change too much.
pub open spec fn all_ignored(root: Seq<Seq<u8>>, paths: Seq<Path>) -> bool {
    paths.len() > 0 && forall|i: int|
        0 <= i < paths.len() ==> ignored_below(root, (#[trigger] paths[i]).comps())
}

/// Whether all of some paths, and at least one, are or lie inside directories
/// that change too much.
pub open spec fn all_churn(root: Seq<Seq<u8>>, paths: Seq<Path>) -> bool {
    paths.len() > 0 && forall|i: int|
        0 <= i < paths.len() ==> churn_below(root, (#[trigger] paths[i]).comps())
}

/// What to make of an event: one that asks for everything to be read again does
/// so unless it is confined to what is left aside, and one on paths counts
/// unless all of them are left aside.
pub fn weigh(root: &Path, paths: Vec<Path>, rescan: bool) -> (r: Option<RawEvent>)
    ensures
        r == if rescan {
            if all_churn(root.comps(), paths@) {
                None
            } else {
                Some(RawEvent::Rescan)
            }
        } else if all_ignored(root.comps(), paths@) {
            None
        } else {
            Some(RawEvent::Paths(paths))
        },
{
    let n: usize = paths.len();
    let mut all = n > 0;
    let mut i: usize = 0;
    while i < n
        invariant
            i <= n,
            n == paths@.len(),
            all ==> n > 0,
            all ==> forall|k: int|
                0 <= k < i ==> if rescan {
                    churn_below(root.comps(), (#[trigger] paths@[k]).comps())
                } else {
                    ignored_below(root.comps(), paths@[k].comps())
                },
            !all ==> n == 0 || exists|k: int|
                0 <= k < i && !if rescan {
                    churn_below(root.comps(), (#[trigger] paths@[k]).comps())
                } else {
                    ignored_below(root.comps(), paths@[k].comps())
                },
        decreases n - i,
    {
        let aside = if rescan {
            inside_ignored(root, &paths[i])
        } else {
            is_ignored(root, &paths[i])
        };
        if !aside {
            assert(!if rescan {
                churn_below(root.comps(), paths@[i as int].comps())
            } else {
                ignored_below(root.comps(), paths@[i as int].comps())
            });
            all = false;
        }
        i += 1;
    }
    if all {
        None
    } else if rescan {
        Some(RawEvent::Rescan)
    } else {
        Some(RawEvent::Paths(paths))
    }
}

/// A burst of events, while it lasts.
#[derive(Debug)]
pub struct Burst {
    pub changed: PathSet,
    pub rescan: bool,
}

/// The components of some paths, as a set.
pub open spec fn comps_set(paths: Seq<Path>) -> Set<Seq<Seq<u8>>> {
    Set::new(|k: Seq<Seq<u8>>| exists|i: int|
        0 <= i < paths.len() && (#[trigger] paths[i]).comps() == k)
}

/// One more path, as sets.
pub proof fn lemma_comps_set_push(paths: Seq<Path>, i: int)
    requires
        0 <= i < paths.len(),
    ensures
        comps_set(paths.take(i + 1)) == comps_set(paths.take(i)).insert(paths[i].comps()),
{
    let s = paths.take(i);
    let t = paths.take(i + 1);
    assert(t[i] == paths[i]);
    assert forall|k: Seq<Seq<u8>>| comps_set(t).contains(k) == (comps_set(s).contains(k) || k
        == paths[i].comps()) by {
        if comps_set(t).contains(k) {
            let j = choose|j: int| 0 <= j < t.len() && (#[trigger] t[j]).comps() == k;
            if j < i {
                assert(s[j].comps() == k);
            }
        }
        if comps_set(s).contains(k) {
            let j = choose|j: int| 0 <= j < s.len() && (#[trigger] s[j]).comps() == k;
            assert(t[j].comps() == k);
        }
    }
    assert(comps_set(t) =~= comps_set(s).insert(paths[i].comps()));
}

impl Burst {
    /// A burst that has not begun.
    pub fn new() -> (r: Burst)
        ensures
            r.changed@ == Set::<Seq<Seq<u8>>>::empty(),
            !r.rescan,
    {
        Burst { changed: PathSet::new(), rescan: false }
    }

    /// Takes one more event in.
    pub fn add_event(&mut self, e: RawEvent)
        ensures
            match e {
                RawEvent::Paths(paths) => final(self).changed@ == old(self).changed@.union(
                    comps_set(paths@),
                ) && final(self).rescan == old(self).rescan,
                RawEvent::Rescan => final(self).changed@ == old(self).changed@
                    && final(self).rescan,
            },
    {
        match e {
            RawEvent::Paths(paths) => {
                let ghost start = self.changed@;
                let mut i: usize = 0;
                assert(start =~= start.union(comps_set(paths@.take(0))));
                while i < paths.len()
                    invariant
                        i <= paths@.len(),
                        self.changed@ == start.union(comps_set(paths@.take(i as int))),
                        self.rescan == old(self).rescan,
                    decreases paths@.len() - i,
                {
                    let _fresh = self.changed.insert(paths[i].copy());
                    proof {
                        lemma_comps_set_push(paths@, i as int);
                        assert(self.changed@ =~= start.union(comps_set(paths@.take(i + 1))));
                    }
                    i += 1;
                }
                assert(paths@.take(i as int) =~= paths@);
            },
            RawEvent::Rescan => {
                self.rescan = true;
            },
        }
    }

    /// The notification that a burst comes to. Where events were lost, the
    /// paths that are known say too little.
    pub fn finish(self) -> (r: FsChange)
        ensures
            r == if self.rescan {
                FsChange::Rescan
            } else {
                FsChange::Paths(self.changed)
            },
    {
        if self.rescan {
            FsChange::Rescan
        } else {
            FsChange::Paths(self.changed)
        }
    }
}

/// What stands above the root makes no difference: for two roots the same
/// names below them are left aside.
pub proof fn law_root_prefix_never_counts(
    root: Seq<Seq<u8>>,
    other: Seq<Seq<u8>>,
    rel: Seq<Seq<u8>>,
)
    ensures
        ignored_below(root, root + rel) == ignored_below(other, other + rel),
        churn_below(root, root + rel) == churn_below(other, other + rel),
{
    lemma_shift(root, rel, rel.len() - 1);
    lemma_shift(other, rel, rel.len() - 1);
    lemma_shift(root, rel, rel.len() as int);
    lemma_shift(other, rel, rel.len() as int);
}

proof fn lemma_shift(root: Seq<Seq<u8>>, rel: Seq<Seq<u8>>, to: int)
    requires
        to <= rel.len(),
    ensures
        root.is_prefix_of(root + rel),
        churns(root + rel, root.len() as int, root.len() + to) == churns(rel, 0, to),
{
    let p = root + rel;
    assert(root =~= p.subrange(0, root.len() as int));
    if churns(p, root.len() as int, root.len() + to) {
        let i = choose|i: int|
            root.len() <= i < root.len() + to && is_churn_comp(#[trigger] p[i]);
        assert(rel[i - root.len()] == p[i]);
    }
    if churns(rel, 0, to) {
        let i = choose|i: int| 0 <= i < to && is_churn_comp(#[trigger] rel[i]);
        assert(p[i + root.len()] == rel[i]);
    }
}

/// A directory that changes too much is itself not left aside, directly below
/// the root or below names that do not change too much.
pub proof fn law_churn_directory_itself_counts(root: Seq<Seq<u8>>, rel: Seq<Seq<u8>>)
    requires
        rel.len() > 0,
        forall|i: int| 0 <= i < rel.len() - 1 ==> !is_churn_comp(#[trigger] rel[i]),
    ensures
        !ignored_below(root, root + rel),
{
    lemma_shift(root, rel, rel.len() - 1);
}

} // verus!
