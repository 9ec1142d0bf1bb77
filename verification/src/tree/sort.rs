//! The order of the entries of a directory.

use vstd::prelude::*;

use crate::order::{is_ranking, law_stable_sort, lemma_sort_maps, sort_indices, stable_sort};
use crate::text::{compare_text, cut_last, lemma_text_order, lowercase, rsplit_once, same_text};
use crate::text::text_order;
use crate::tree::node::{lemma_nodes_view, node_view, nodes_view, Node, NodeView};

verus! {

/// What entries are sorted by, after directories and files are parted.
#[derive(Clone, Copy, Debug, PartialEq, Eq, Structural)]
pub enum SortMode {
    Name,
    Modified,
    Extension,
    FileType,
}

/// The mode that a word names, in lower case; any other word means by name.
pub open spec fn sort_named(s: Seq<char>) -> SortMode {
    if s == "modified"@ || s == "mtime"@ {
        SortMode::Modified
    } else if s == "extension"@ || s == "ext"@ {
        SortMode::Extension
    } else if s == "filetype"@ || s == "type"@ {
        SortMode::FileType
    } else {
        SortMode::Name
    }
}

impl SortMode {
    /// Reads a mode from its name, in any case.
    pub fn parse(s: &str) -> (r: SortMode)
        ensures
            r == sort_named(lowercase(s@)),
    {
        let low = s.to_lowercase();
        let low = low.as_str();
        if same_text(low, "modified") || same_text(low, "mtime") {
            SortMode::Modified
        } else if same_text(low, "extension") || same_text(low, "ext") {
            SortMode::Extension
        } else if same_text(low, "filetype") || same_text(low, "type") {
            SortMode::FileType
        } else {
            SortMode::Name
        }
    }
}

/// A name without its extension, and the extension. A name that only begins
/// with a dot has none.
pub open spec fn name_parts(name: Seq<char>) -> (Seq<char>, Seq<char>) {
    match cut_last(name, '.') {
        Some((stem, ext)) => if stem.len() > 0 {
            (stem, ext)
        } else {
            (name, Seq::empty())
        },
        None => (name, Seq::empty()),
    }
}

/// Parts a name from its extension.
pub fn split_name(name: &str) -> (r: (String, String))
    ensures
        name_parts(name@) == (r.0@, r.1@),
{
    match rsplit_once(name, '.') {
        Some((stem, ext)) => if stem.as_str().is_empty() {
            (name.to_owned(), String::new())
        } else {
            (stem, ext)
        },
        None => (name.to_owned(), String::new()),
    }
}

/// The order of times: one that is not known comes first.
pub open spec fn time_order(a: Option<i128>, b: Option<i128>) -> int {
    match (a, b) {
        (None, None) => 0,
        (None, Some(_)) => -1,
        (Some(_), None) => 1,
        (Some(x), Some(y)) => x - y,
    }
}

/// The order of names, whatever their case.
pub open spec fn name_order(a: NodeView, b: NodeView) -> int {
    text_order(lowercase(a.name), lowercase(b.name))
}

/// The order of extensions, whatever their case.
pub open spec fn ext_order(a: NodeView, b: NodeView) -> int {
    text_order(lowercase(name_parts(a.name).1), lowercase(name_parts(b.name).1))
}

/// The order of two entries: directories first, or files; then the latest
/// first, or by extension; then by name.
pub open spec fn node_order(a: NodeView, b: NodeView, mode: SortMode, files_first: bool) -> int {
    if a.is_dir() != b.is_dir() {
        if a.is_dir() == files_first {
            1
        } else {
            -1
        }
    } else {
        let first = match mode {
            SortMode::Name => 0,
            SortMode::Modified => time_order(b.mtime, a.mtime),
            SortMode::Extension | SortMode::FileType => ext_order(a, b),
        };
        if first != 0 {
            first
        } else {
            name_order(a, b)
        }
    }
}

/// Whether one entry does not come after another.
pub open spec fn node_le(mode: SortMode, files_first: bool) -> spec_fn(NodeView, NodeView) -> bool {
    |a: NodeView, b: NodeView| node_order(a, b, mode, files_first) <= 0
}

/// Entries are ranked, in every mode.
pub proof fn law_node_order_ranks(mode: SortMode, files_first: bool)
    ensures
        is_ranking(node_le(mode, files_first)),
{
    let le = node_le(mode, files_first);
    assert forall|x: NodeView, y: NodeView| #[trigger] le(x, y) || le(y, x) by {
        lemma_text_order(lowercase(x.name), lowercase(y.name), lowercase(y.name));
        let ex = lowercase(name_parts(x.name).1);
        let ey = lowercase(name_parts(y.name).1);
        lemma_text_order(ex, ey, ey);
        lemma_text_order(ey, ex, ex);
    }
    assert forall|x: NodeView, y: NodeView, z: NodeView| #[trigger]
        le(x, y) && #[trigger] le(y, z) implies le(x, z) by {
        lemma_text_order(lowercase(x.name), lowercase(y.name), lowercase(z.name));
        let ex = lowercase(name_parts(x.name).1);
        let ey = lowercase(name_parts(y.name).1);
        let ez = lowercase(name_parts(z.name).1);
        lemma_text_order(ex, ey, ez);
    }
}

/// Whether one entry does not come after another.
fn not_after(a: &Node, b: &Node, mode: SortMode, files_first: bool) -> (r: bool)
    ensures
        r == node_le(mode, files_first)(a@, b@),
{
    let ad = a.is_dir();
    let bd = b.is_dir();
    if ad != bd {
        return ad != files_first;
    }
    match mode {
        SortMode::Name => {},
        SortMode::Modified => {
            match (b.mtime, a.mtime) {
                (None, None) => {},
                (None, Some(_)) => {
                    return true;
                },
                (Some(_), None) => {
                    return false;
                },
                (Some(x), Some(y)) => {
                    if x < y {
                        return true;
                    }
                    if x > y {
                        return false;
                    }
                },
            }
        },
        SortMode::Extension | SortMode::FileType => {
            let (_, x) = split_name(a.name.as_str());
            let (_, y) = split_name(b.name.as_str());
            let c: i8 = compare_text(
                x.as_str().to_lowercase().as_str(),
                y.as_str().to_lowercase().as_str(),
            );
            if c < 0 {
                return true;
            }
            if c > 0 {
                return false;
            }
        },
    }
    compare_text(
        a.name.as_str().to_lowercase().as_str(),
        b.name.as_str().to_lowercase().as_str(),
    ) <= 0
}

/// The nodes at some places.
pub open spec fn picked(nodes: Seq<NodeView>, places: Seq<usize>) -> Seq<NodeView> {
    places.map_values(|p: usize| nodes[p as int])
}

/// Whether every place is one of a list of nodes.
pub open spec fn in_range(places: Seq<usize>, n: int) -> bool {
    forall|i: int| 0 <= i < places.len() ==> 0 <= #[trigger] places[i] < n
}

/// Puts places in the order of their nodes.
pub fn sort_places(nodes: &Vec<Node>, places: Vec<usize>, mode: SortMode, files_first: bool) -> (r:
    Vec<usize>)
    requires
        in_range(places@, nodes@.len() as int),
    ensures
        in_range(r@, nodes@.len() as int),
        picked(nodes_view(nodes@), r@) == stable_sort(
            picked(nodes_view(nodes@), places@),
            node_le(mode, files_first),
        ),
        r@.len() == places@.len(),
        r@.to_multiset() == places@.to_multiset(),
{
    let ghost ns = nodes_view(nodes@);
    let ghost le = node_le(mode, files_first);
    let ghost at = |p: usize| node_view(nodes@[p as int]);
    let ghost ple = |p: usize, q: usize| le(at(p), at(q));
    proof {
        lemma_nodes_view(nodes@);
        law_node_order_ranks(mode, files_first);
        assert(is_ranking(ple)) by {
            assert forall|x: usize, y: usize| #[trigger] ple(x, y) || ple(y, x) by {
                assert(le(at(x), at(y)) || le(at(y), at(x)));
            }
            assert forall|x: usize, y: usize, z: usize| #[trigger]
                ple(x, y) && #[trigger] ple(y, z) implies ple(x, z) by {
                assert(le(at(x), at(y)) && le(at(y), at(z)));
            }
        }
        lemma_sort_maps(places@, at, ple, le);
        law_stable_sort(places@, ple);
    }
    let check = |p: usize, q: usize| -> (b: bool)
        requires
            p < nodes@.len(),
            q < nodes@.len(),
        ensures
            b == node_le(mode, files_first)(nodes@[p as int]@, nodes@[q as int]@),
        { not_after(&nodes[p], &nodes[q], mode, files_first) };
    let n: usize = nodes.len();
    let r = sort_indices(places, n, &check, Ghost(ple));
    proof {
        assert forall|i: int| 0 <= i < r@.len() implies 0 <= #[trigger] r@[i] < nodes@.len() by {
            assert(stable_sort(places@, ple).contains(r@[i]));
            let k = choose|k: int| 0 <= k < places@.len() && places@[k] == r@[i];
            assert(places@[k] < nodes@.len());
        }
        assert(picked(ns, r@) =~= r@.map_values(at));
        assert(picked(ns, places@) =~= places@.map_values(at));
    }
    r
}

/// Puts nodes in order.
pub fn sort_nodes(nodes: Vec<Node>, mode: SortMode, files_first: bool) -> (r: Vec<Node>)
    ensures
        nodes_view(r@) == stable_sort(nodes_view(nodes@), node_le(mode, files_first)),
{
    let ghost all = nodes@;
    let ghost ns = nodes_view(nodes@);
    let n: usize = nodes.len();
    let mut places: Vec<usize> = Vec::new();
    let mut i: usize = 0;
    while i < n
        invariant
            i <= n,
            places@.len() == i,
            forall|k: int| 0 <= k < i ==> #[trigger] places@[k] == k,
        decreases n - i,
    {
        places.push(i);
        i += 1;
    }
    let ghost straight = places@;
    let sorted = sort_places(&nodes, places, mode, files_first);
    proof {
        lemma_nodes_view(all);
        assert(picked(ns, straight) =~= ns);
        assert(straight.no_duplicates());
        assert(sorted@.no_duplicates()) by {
            straight.lemma_multiset_has_no_duplicates();
            sorted@.lemma_multiset_has_no_duplicates_conv();
        }
    }
    let mut slots: Vec<Option<Node>> = Vec::new();
    let mut left = nodes;
    while left.len() > 0
        invariant
            n == all.len(),
            left@ == all.take(left@.len() as int),
            left@.len() + slots@.len() == n,
            forall|k: int|
                0 <= k < slots@.len() ==> #[trigger] slots@[k] == Some(all[n - 1 - k]),
        decreases left@.len(),
    {
        let last = left.pop();
        slots.push(last);
    }
    let mut out: Vec<Node> = Vec::new();
    let mut k: usize = 0;
    while k < n
        invariant
            k <= n,
            n == all.len(),
            n == sorted@.len(),
            n == slots@.len(),
            sorted@.no_duplicates(),
            in_range(sorted@, n as int),
            out@.len() == k,
            forall|j: int| 0 <= j < k ==> #[trigger] out@[j] == all[sorted@[j] as int],
            forall|j: int|
                k <= j < n ==> slots@[n - 1 - #[trigger] sorted@[j]] == Some(
                    all[sorted@[j] as int],
                ),
        decreases n - k,
    {
        assert(sorted@[k as int] < n);
        let p: usize = n - 1 - sorted[k];
        let slot = &mut slots[p];
        match slot.take() {
            Some(node) => {
                out.push(node);
            },
            None => {},
        }
        k += 1;
    }
    proof {
        lemma_nodes_view(out@);
        assert(nodes_view(out@) =~= picked(ns, sorted@));
    }
    out
}

} // verus!
