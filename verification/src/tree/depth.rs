//! Paths by how deep they lie.

use vstd::prelude::*;

use crate::order::{is_ranking, law_stable_sort, lemma_sort_maps, sort_indices, stable_sort};
use crate::path::{comps, Path};
use crate::paths::{listed, path_texts, PathSet};

verus! {

/// Whether one path lies no deeper than another.
pub open spec fn no_deeper() -> spec_fn(Seq<u8>, Seq<u8>) -> bool {
    |a: Seq<u8>, b: Seq<u8>| comps(a).len() <= comps(b).len()
}

/// Whether one path lies no higher than another.
pub open spec fn no_higher() -> spec_fn(Seq<u8>, Seq<u8>) -> bool {
    |a: Seq<u8>, b: Seq<u8>| comps(b).len() <= comps(a).len()
}

/// Puts paths in order of depth, or against it; those of one depth keep their
/// places.
fn sort_depth(v: &Vec<Path>, down: bool) -> (r: Vec<Path>)
    ensures
        path_texts(r@) == stable_sort(
            path_texts(v@),
            if down {
                no_deeper()
            } else {
                no_higher()
            },
        ),
{
    let ghost ranks = if down {
        no_deeper()
    } else {
        no_higher()
    };
    let ghost ts = path_texts(v@);
    let ghost at = |p: usize| v@[p as int]@;
    let ghost le = |p: usize, q: usize| ranks(at(p), at(q));
    let n: usize = v.len();
    let mut places: Vec<usize> = Vec::new();
    let mut i: usize = 0;
    while i < n
        invariant
            i <= n,
            places@.len() == i,
            forall|k: int| 0 <= k < i ==> #[trigger] places@[k] == k,
        decreases n - i,
    {
        places.push(i);
        i += 1;
    }
    let ghost straight = places@;
    proof {
        assert(is_ranking(le));
        assert forall|x: usize, y: usize| #[trigger] le(x, y) == ranks(at(x), at(y)) by {}
        lemma_sort_maps(straight, at, le, ranks);
        law_stable_sort(straight, le);
        assert(straight.map_values(at) =~= ts);
    }
    let check = |p: usize, q: usize| -> (b: bool)
        requires
            p < v@.len(),
            q < v@.len(),
        ensures
            b == if down {
                v@[p as int].comps().len() <= v@[q as int].comps().len()
            } else {
                v@[q as int].comps().len() <= v@[p as int].comps().len()
            },
        {
            if down {
                v[p].depth() <= v[q].depth()
            } else {
                v[q].depth() <= v[p].depth()
            }
        };
    let sorted = sort_indices(places, n, &check, Ghost(le));
    let mut out: Vec<Path> = Vec::new();
    let mut k: usize = 0;
    while k < n
        invariant
            k <= n,
            n == v@.len(),
            n == sorted@.len(),
            n == straight.len(),
            forall|k: int| 0 <= k < n ==> #[trigger] straight[k] == k,
            sorted@ == stable_sort(straight, le),
            forall|y: usize| #[trigger]
                stable_sort(straight, le).contains(y) ==> straight.contains(y),
            at == (|p: usize| v@[p as int]@),
            out@.len() == k,
            forall|j: int| 0 <= j < k ==> (#[trigger] out@[j])@ == at(sorted@[j]),
        decreases n - k,
    {
        proof {
            assert(stable_sort(straight, le).contains(sorted@[k as int]));
            let j = choose|j: int| 0 <= j < straight.len() && straight[j] == sorted@[k as int];
            assert(straight[j] == j);
        }
        out.push(v[sorted[k]].copy());
        k += 1;
    }
    assert(path_texts(out@) =~= sorted@.map_values(at));
    out
}

/// Puts paths in order of depth; those of one depth keep their places.
pub fn sort_by_depth(v: &Vec<Path>) -> (r: Vec<Path>)
    ensures
        path_texts(r@) == stable_sort(path_texts(v@), no_deeper()),
{
    sort_depth(v, true)
}

/// The members of a set, those nearer the root first.
pub fn by_depth(set: &PathSet) -> (r: Vec<Path>)
    ensures
        path_texts(r@) == stable_sort(listed(set.texts()), no_deeper()),
{
    let all = set.list();
    sort_depth(&all, true)
}

/// The members of a set, the deepest first.
pub fn deepest_first(set: &PathSet) -> (r: Vec<Path>)
    ensures
        path_texts(r@) == stable_sort(listed(set.texts()), no_higher()),
{
    let all = set.list();
    sort_depth(&all, false)
}

} // verus!
