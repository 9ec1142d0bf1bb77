//! The rules behind the file operations: where what is pasted goes, what is
//! refused, and what a path comes to that is not there yet.

use vstd::prelude::*;

use crate::path::{comps, join_text, lemma_parent, name_of, parent_text, rest_text, Path};
use crate::paths::{path_texts, PathSet};
use crate::text::{decimal, digits, join2, join3, lossy_text, read_lossy};
use crate::tree::node::path_view;
use crate::tree::sort::{name_parts, split_name};

verus! {

/// The name of a path as text; empty where it has none.
pub open spec fn name_text(p: Seq<u8>) -> Seq<char> {
    match name_of(p) {
        Some(n) => lossy_text(n),
        None => Seq::empty(),
    }
}

/// The name of a path as text; empty where it has none.
pub fn file_name(path: &Path) -> (r: String)
    ensures
        r@ == match name_of(path@) {
            Some(n) => lossy_text(n),
            None => Seq::empty(),
        },
{
    match path.file_name() {
        Some(n) => read_lossy(n.as_slice()),
        None => {
            let none = String::new();
            assert(none@ =~= Seq::empty());
            none
        },
    }
}

/// The name that is tried as number `n`: first the name itself, then with
/// `_copy` before the extension, then with a number too.
pub open spec fn paste_name(name: Seq<char>, n: int) -> Seq<char> {
    if n == 0 {
        name
    } else {
        let (stem, ext) = name_parts(name);
        let suffix = if n == 1 {
            "_copy"@
        } else {
            "_copy_"@ + digits(n as nat)
        };
        if ext.len() == 0 {
            stem + suffix
        } else {
            stem + suffix + "."@ + ext
        }
    }
}

/// The path that is tried as number `n` for `src` in the folder `dest`.
pub open spec fn paste_try(dest: Seq<u8>, src: Seq<u8>, n: int) -> Seq<u8> {
    join_text(dest, vstd::utf8::encode_utf8(paste_name(name_text(src), n)))
}

fn paste_candidate(dest_dir: &Path, name: &str, n: u64) -> (r: Path)
    ensures
        r@ == join_text(dest_dir@, vstd::utf8::encode_utf8(paste_name(name@, n as int))),
{
    if n == 0 {
        return dest_dir.join(&Path::new(name));
    }
    let (stem, ext) = split_name(name);
    let suffix = if n == 1 {
        "_copy".to_owned()
    } else {
        join2("_copy_", decimal(n).as_str())
    };
    let new_name = if ext.as_str().is_empty() {
        join2(stem.as_str(), suffix.as_str())
    } else {
        let base = join2(stem.as_str(), suffix.as_str());
        join3(base.as_str(), ".", ext.as_str())
    };
    dest_dir.join(&Path::new(new_name.as_str()))
}

/// The number of the first path to try, from number `k` on, that is not among
/// those that exist. Numbers end where the counter does.
pub open spec fn free_try(dest: Seq<u8>, src: Seq<u8>, taken: Set<Seq<Seq<u8>>>, k: int) -> int
    decreases u64::MAX - k,
{
    if k >= u64::MAX || !taken.contains(comps(paste_try(dest, src, k))) {
        k
    } else {
        free_try(dest, src, taken, k + 1)
    }
}

/// Where `src` goes in the folder `dest`: the first of the paths to try that is
/// not among those that exist.
pub open spec fn paste_place(dest: Seq<u8>, src: Seq<u8>, taken: Set<Seq<Seq<u8>>>) -> Seq<u8> {
    paste_try(dest, src, free_try(dest, src, taken, 0))
}

/// Whether a path is the first of those to try for `src` in the folder `dest`
/// that is not among those that exist.
pub open spec fn pasted_as(
    dest: Seq<u8>,
    src: Seq<u8>,
    taken: Set<Seq<Seq<u8>>>,
    r: Seq<u8>,
) -> bool {
    exists|k: int|
        #![trigger paste_try(dest, src, k)]
        {
            &&& 0 <= k <= u64::MAX
            &&& r == paste_try(dest, src, k)
            &&& k < u64::MAX ==> !taken.contains(comps(paste_try(dest, src, k)))
            &&& forall|j: int|
                0 <= j < k ==> taken.contains(comps(#[trigger] paste_try(dest, src, j)))
        }
}

/// Where `src` goes in the folder `dest_dir`.
pub fn paste_target(dest_dir: &Path, src: &Path, taken: &PathSet) -> (r: Path)
    ensures
        r@ == paste_place(dest_dir@, src@, taken@),
        pasted_as(dest_dir@, src@, taken@, r@),
{
    let name = file_name(src);
    let mut k: u64 = 0;
    let mut candidate = paste_candidate(dest_dir, name.as_str(), 0);
    while k < u64::MAX && taken.contains(&candidate)
        invariant
            name@ == name_text(src@),
            candidate@ == paste_try(dest_dir@, src@, k as int),
            free_try(dest_dir@, src@, taken@, 0) == free_try(
                dest_dir@,
                src@,
                taken@,
                k as int,
            ),
            forall|j: int|
                0 <= j < k ==> taken@.contains(comps(#[trigger] paste_try(dest_dir@, src@, j))),
        decreases u64::MAX - k,
    {
        k += 1;
        candidate = paste_candidate(dest_dir, name.as_str(), k);
    }
    assert(candidate@ == paste_try(dest_dir@, src@, k as int));
    candidate
}

/// The name that is tried as number `n` in the trash.
pub open spec fn trash_name(name: Seq<char>, n: int) -> Seq<char> {
    if n == 0 {
        name
    } else {
        name + " "@ + digits(n as nat)
    }
}

/// The path that is tried as number `n` for `path` in the trash. The first has
/// the very name of the path.
pub open spec fn trash_try(dir: Seq<u8>, path: Seq<u8>, n: int) -> Seq<u8> {
    if n == 0 {
        join_text(
            dir,
            match name_of(path) {
                Some(name) => name,
                None => Seq::empty(),
            },
        )
    } else {
        join_text(dir, vstd::utf8::encode_utf8(trash_name(name_text(path), n)))
    }
}

/// Whether a path in the trash is the first of those to try that is not among
/// those that exist.
pub open spec fn trashed_as(
    dir: Seq<u8>,
    path: Seq<u8>,
    taken: Set<Seq<Seq<u8>>>,
    r: Seq<u8>,
) -> bool {
    exists|k: int|
        #![trigger trash_try(dir, path, k)]
        {
            &&& 0 <= k <= u64::MAX
            &&& r == trash_try(dir, path, k)
            &&& k < u64::MAX ==> !taken.contains(comps(trash_try(dir, path, k)))
            &&& forall|j: int|
                0 <= j < k ==> taken.contains(comps(#[trigger] trash_try(dir, path, j)))
        }
}

/// Where a path goes in the trash: the first of the paths to try that is not
/// among those that exist.
pub fn trash_target(dir: &Path, path: &Path, taken: &PathSet) -> (r: Path)
    ensures
        trashed_as(dir@, path@, taken@, r@),
{
    let mut dest = match path.file_name() {
        Some(n) => dir.join_bytes(n.as_slice()),
        None => {
            let none = Path::empty();
            assert(none@ =~= Seq::empty());
            dir.join(&none)
        },
    };
    let name = file_name(path);
    let mut k: u64 = 0;
    assert(dest@ == trash_try(dir@, path@, 0));
    while k < u64::MAX && taken.contains(&dest)
        invariant
            name@ == name_text(path@),
            dest@ == trash_try(dir@, path@, k as int),
            forall|j: int|
                0 <= j < k ==> taken@.contains(comps(#[trigger] trash_try(dir@, path@, j))),
        decreases u64::MAX - k,
    {
        k += 1;
        let numbered = join3(name.as_str(), " ", decimal(k).as_str());
        dest = dir.join(&Path::new(numbered.as_str()));
        assert(dest@ == trash_try(dir@, path@, k as int));
    }
    assert(dest@ == trash_try(dir@, path@, k as int));
    dest
}

/// A way into the trash. None of them removes anything for good.
#[derive(Debug)]
pub enum TrashWay {
    /// The system's program for it.
    Program,
    /// A name of its own in the directory that holds the trash.
    Rename(Path),
    /// There is none.
    Refused,
}

/// The way into the trash: by the system's program, if there is one and it did
/// not fail, and otherwise by a name in the directory that holds the trash, if
/// there is one.
pub fn trash_way(path: &Path, program: bool, failed: bool, dir: Option<&Path>, taken: &PathSet)
    -> (r: TrashWay)
    ensures
        r is Program <==> program && !failed,
        r is Rename <==> !(program && !failed) && dir is Some,
        r is Rename ==> trashed_as(dir->0@, path@, taken@, r->Rename_0@),
{
    if program && !failed {
        return TrashWay::Program;
    }
    match dir {
        Some(dir) => TrashWay::Rename(trash_target(dir, path, taken)),
        None => TrashWay::Refused,
    }
}

/// The components of a path that may be there.
pub open spec fn comps_opt(p: Option<&Path>) -> Option<Seq<Seq<u8>>> {
    match p {
        Some(p) => Some(p.comps()),
        None => None,
    }
}

/// Whether moving something is refused because of what is there already: it is,
/// unless both names are of one entry, and lead to one place.
pub open spec fn refuses_rename(
    occupied: bool,
    same_entry: bool,
    from_real: Option<Seq<Seq<u8>>>,
    to_real: Option<Seq<Seq<u8>>>,
) -> bool {
    occupied && !(same_entry && from_real is Some && from_real == to_real)
}

/// Whether moving something is refused because of what is there already.
/// `same_entry` says whether both names are of one entry of a directory, links
/// not followed, as when only the case of a name changes on a disk that does
/// not tell cases apart.
pub fn rename_refused(
    occupied: bool,
    same_entry: bool,
    from_real: Option<&Path>,
    to_real: Option<&Path>,
) -> (r: bool)
    ensures
        r == refuses_rename(occupied, same_entry, comps_opt(from_real), comps_opt(to_real)),
{
    if !occupied {
        return false;
    }
    if !same_entry {
        return true;
    }
    match (from_real, to_real) {
        (Some(a), Some(b)) => !a.same(b),
        _ => true,
    }
}

/// Whether copying something is refused because it would go into itself.
pub fn copy_refused(from_real: &Path, to_real: &Path) -> (r: bool)
    ensures
        r == from_real.comps().is_prefix_of(to_real.comps()),
{
    to_real.starts_with(from_real)
}

/// The directories above a path, the nearest first.
pub open spec fn above(p: Seq<u8>) -> Seq<Seq<u8>>
    decreases comps(p).len(),
{
    match parent_text(p) {
        Some(up) => {
            proof {
                lemma_parent(p);
            }
            seq![up] + above(up)
        },
        None => Seq::empty(),
    }
}

/// The directories above a path, the nearest first.
pub fn ancestors(p: &Path) -> (r: Vec<Path>)
    ensures
        path_texts(r@) == above(p@),
{
    let mut out: Vec<Path> = Vec::new();
    let mut cur = p.parent();
    let ghost see = |s: Seq<Path>| path_texts(s);
    let ghost mut left: nat = comps(p@).len();
    proof {
        lemma_parent(p@);
        assert(see(out@) =~= Seq::empty());
        assert(above(p@) =~= see(out@) + (match parent_text(p@) {
            Some(up) => seq![up] + above(up),
            None => Seq::empty(),
        }));
    }
    while cur.is_some()
        invariant
            see == (|s: Seq<Path>| path_texts(s)),
            above(p@) == see(out@) + (match path_view(cur) {
                Some(up) => seq![up] + above(up),
                None => Seq::empty(),
            }),
            cur is Some ==> comps(cur->0@).len() < left,
        decreases left,
    {
        let here = match cur {
            Some(h) => h,
            None => Path::empty(),
        };
        let ghost held = out@;
        let next = here.parent();
        proof {
            lemma_parent(here@);
            left = comps(here@).len();
        }
        out.push(here);
        cur = next;
        proof {
            assert(see(out@) =~= see(held).push(here@));
            let tail = match parent_text(here@) {
                Some(up) => seq![up] + above(up),
                None => Seq::empty(),
            };
            assert(above(here@) =~= tail);
            assert(see(held) + (seq![here@] + tail) =~= see(out@) + tail);
        }
    }
    assert(above(p@) =~= see(out@));
    out
}

/// What a path comes to when only some directory above it is there: the real
/// path of the nearest such directory, with the rest behind it. `reals` gives
/// the real paths of `ups`, which are directories above `p`.
pub open spec fn lenient(p: Seq<u8>, ups: Seq<Seq<u8>>, reals: Seq<Option<Seq<u8>>>) -> Seq<u8>
    decreases ups.len(),
{
    if ups.len() == 0 || reals.len() == 0 {
        p
    } else {
        match reals[0] {
            Some(actual) => join_text(actual, rest_text(p, comps(ups[0]).len() as int)),
            None => lenient(p, ups.skip(1), reals.skip(1)),
        }
    }
}

/// The texts of some paths that may be there.
pub open spec fn reals_view(s: Seq<Option<Path>>) -> Seq<Option<Seq<u8>>> {
    s.map_values(|p: Option<Path>| path_view(p))
}

/// What a path comes to with links resolved, though it may not be there yet.
pub open spec fn canonical(p: Seq<u8>, own: Option<Seq<u8>>, reals: Seq<Option<Seq<u8>>>) -> Seq<
    u8,
> {
    match own {
        Some(actual) => actual,
        None => lenient(p, above(p), reals),
    }
}

/// What a path comes to with links resolved, though it may not be there yet.
/// `own` is its real path, and `reals` those of the directories above it, as
/// far as they exist.
pub fn canonicalize_lenient(p: &Path, own: Option<Path>, reals: &Vec<Option<Path>>) -> (r: Path)
    ensures
        r@ == canonical(p@, path_view(own), reals_view(reals@)),
{
    if let Some(actual) = own {
        return actual;
    }
    let ups = ancestors(p);
    let ghost us = above(p@);
    let ghost rs = reals_view(reals@);
    let mut i: usize = 0;
    proof {
        assert(us.skip(0) =~= us);
        assert(rs.skip(0) =~= rs);
        lemma_above(p@);
    }
    while i < ups.len() && i < reals.len()
        invariant
            i <= ups@.len(),
            i <= reals@.len(),
            own is None,
            us == above(p@),
            rs == reals_view(reals@),
            path_texts(ups@) == us,
            forall|k: int|
                0 <= k < us.len() ==> comps(#[trigger] us[k]).is_prefix_of(comps(p@)),
            lenient(p@, us, rs) == lenient(p@, us.skip(i as int), rs.skip(i as int)),
        decreases ups@.len() - i,
    {
        proof {
            assert(path_texts(ups@)[i as int] == ups@[i as int]@);
            assert(us.skip(i as int)[0] == us[i as int]);
            assert(rs.skip(i as int)[0] == path_view(reals@[i as int]));
            assert(us.skip(i as int).skip(1) =~= us.skip(i + 1));
            assert(rs.skip(i as int).skip(1) =~= rs.skip(i + 1));
        }
        if let Some(actual) = &reals[i] {
            if let Some(rest) = p.strip_prefix(&ups[i]) {
                return actual.join(&rest);
            }
        }
        i += 1;
    }
    proof {
        assert(us.skip(i as int).len() == 0 || rs.skip(i as int).len() == 0);
    }
    p.copy()
}

proof fn lemma_above(p: Seq<u8>)
    ensures
        forall|k: int| 0 <= k < above(p).len() ==> comps(#[trigger] above(p)[k]).is_prefix_of(
            comps(p),
        ),
    decreases comps(p).len(),
{
    lemma_parent(p);
    match parent_text(p) {
        Some(up) => {
            lemma_above(up);
            assert forall|k: int| 0 <= k < above(p).len() implies comps(
                #[trigger] above(p)[k],
            ).is_prefix_of(comps(p)) by {
                let c = comps(p);
                assert(comps(up) =~= c.subrange(0, c.len() - 1));
                if k > 0 {
                    assert(above(p)[k] == above(up)[k - 1]);
                    let d = comps(above(p)[k]);
                    assert(d =~= comps(up).subrange(0, d.len() as int));
                    assert(d =~= c.subrange(0, d.len() as int));
                }
            }
        },
        None => {},
    }
}

proof fn lemma_free_try(dest: Seq<u8>, src: Seq<u8>, taken: Set<Seq<Seq<u8>>>, k: int)
    requires
        0 <= k <= u64::MAX,
    ensures
        k <= free_try(dest, src, taken, k) <= u64::MAX,
        free_try(dest, src, taken, k) < u64::MAX ==> !taken.contains(
            comps(paste_try(dest, src, free_try(dest, src, taken, k))),
        ),
        forall|j: int|
            k <= j < free_try(dest, src, taken, k) ==> taken.contains(
                comps(#[trigger] paste_try(dest, src, j)),
            ),
    decreases u64::MAX - k,
{
    if k < u64::MAX && taken.contains(comps(paste_try(dest, src, k))) {
        lemma_free_try(dest, src, taken, k + 1);
    }
}

/// Nothing that goes into the trash replaces what is in it, as long as one of
/// the names to try is free.
pub proof fn law_trash_never_replaces(
    dir: Seq<u8>,
    path: Seq<u8>,
    taken: Set<Seq<Seq<u8>>>,
    target: Seq<u8>,
    free: int,
)
    requires
        trashed_as(dir, path, taken, target),
        0 <= free < u64::MAX,
        !taken.contains(comps(trash_try(dir, path, free))),
    ensures
        !taken.contains(comps(target)),
{
}

/// Nothing that is pasted goes where something is, as long as one of the names
/// to try is free.
pub proof fn law_paste_never_replaces(
    dest: Seq<u8>,
    src: Seq<u8>,
    taken: Set<Seq<Seq<u8>>>,
    free: int,
)
    requires
        0 <= free < u64::MAX,
        !taken.contains(comps(paste_try(dest, src, free))),
    ensures
        !taken.contains(comps(paste_place(dest, src, taken))),
        pasted_as(dest, src, taken, paste_place(dest, src, taken)),
{
    lemma_free_try(dest, src, taken, 0);
    let k = free_try(dest, src, taken, 0);
    assert(paste_place(dest, src, taken) == paste_try(dest, src, k));
    if k > free {
        assert(taken.contains(comps(paste_try(dest, src, free))));
    }
}

/// A move never replaces another entry: where something is at the destination,
/// it is refused, unless that is the very entry that moves.
pub proof fn law_rename_never_replaces(
    occupied: bool,
    same_entry: bool,
    from_real: Option<Seq<Seq<u8>>>,
    to_real: Option<Seq<Seq<u8>>>,
)
    requires
        occupied,
        !same_entry,
    ensures
        refuses_rename(occupied, same_entry, from_real, to_real),
{
}

} // verus!
