//! Bookmarks, and the text that keeps them: one path on each line.

use vstd::prelude::*;

use crate::order::{law_stable_sort, lemma_sort_maps, sort_indices, stable_sort};
use crate::path::{comps, Path};
use crate::paths::{listed, path_texts, texts_with, PathSet};
use crate::text::{compare_text, contains_char, join_with, joined, lemma_first_index_is};
use crate::text::{lemma_text_le, lossy_text, pieces, split, text_le, text_order, trim, trimmed};
use crate::text::views;

verus! {

/// The bookmarks.
#[derive(Debug)]
pub struct Marks {
    set: PathSet,
}

impl View for Marks {
    type V = Set<Seq<Seq<u8>>>;

    open spec fn view(&self) -> Set<Seq<Seq<u8>>> {
        self.texts().dom()
    }
}

/// The paths that some lines name, with their texts. A line with nothing but
/// white space names none.
pub open spec fn named_in(lines: Seq<Seq<char>>) -> Map<Seq<Seq<u8>>, Seq<u8>>
    decreases lines.len(),
{
    if lines.len() == 0 {
        Map::empty()
    } else {
        let before = named_in(lines.drop_last());
        let line = trimmed(lines.last());
        if line.len() == 0 {
            before
        } else {
            texts_with(before, vstd::utf8::encode_utf8(line))
        }
    }
}

/// The bookmarks that a text keeps.
pub open spec fn kept_in(text: Seq<char>) -> Map<Seq<Seq<u8>>, Seq<u8>> {
    named_in(pieces(text, '\n'))
}

/// The lines for some paths. A path with a line break in it would be read as
/// two, so it has none.
pub open spec fn lines_for(paths: Seq<Seq<u8>>) -> Seq<Seq<char>>
    decreases paths.len(),
{
    if paths.len() == 0 {
        Seq::empty()
    } else {
        let line = lossy_text(paths.last());
        if line.contains('\n') {
            lines_for(paths.drop_last())
        } else {
            lines_for(paths.drop_last()).push(line)
        }
    }
}

/// The text that keeps some paths: their lines, in order.
pub open spec fn text_for(paths: Seq<Seq<u8>>) -> Seq<char> {
    joined(stable_sort(lines_for(paths), text_le()), "\n"@)
}

/// The bookmarks after one was set or taken away.
pub open spec fn toggled(m: Map<Seq<Seq<u8>>, Seq<u8>>, t: Seq<u8>) -> Map<
    Seq<Seq<u8>>,
    Seq<u8>,
> {
    if m.contains_key(comps(t)) {
        m.remove(comps(t))
    } else {
        m.insert(comps(t), t)
    }
}

/// The bookmarks after a path was moved.
pub open spec fn remapped(m: Map<Seq<Seq<u8>>, Seq<u8>>, from: Seq<u8>, to: Seq<u8>) -> Map<
    Seq<Seq<u8>>,
    Seq<u8>,
> {
    if m.contains_key(comps(from)) {
        texts_with(m.remove(comps(from)), to)
    } else {
        m
    }
}

/// Puts texts in order.
fn sort_texts(v: &Vec<String>) -> (r: Vec<String>)
    ensures
        views(r@) == stable_sort(views(v@), text_le()),
{
    let ghost at = |p: usize| v@[p as int]@;
    let ghost le = |p: usize, q: usize| text_le()(at(p), at(q));
    let n: usize = v.len();
    let mut places: Vec<usize> = Vec::new();
    let mut i: usize = 0;
    while i < n
        invariant
            i <= n,
            places@.len() == i,
            forall|k: int| 0 <= k < i ==> #[trigger] places@[k] == k,
        decreases n - i,
    {
        places.push(i);
        i += 1;
    }
    let ghost straight = places@;
    proof {
        lemma_text_le();
        assert(crate::order::is_ranking(le)) by {
            assert forall|x: usize, y: usize| #[trigger] le(x, y) || le(y, x) by {
                assert(text_le()(at(x), at(y)) || text_le()(at(y), at(x)));
            }
            assert forall|x: usize, y: usize, z: usize| #[trigger]
                le(x, y) && #[trigger] le(y, z) implies le(x, z) by {
                assert(text_le()(at(x), at(y)) && text_le()(at(y), at(z)));
            }
        }
        lemma_sort_maps(straight, at, le, text_le());
        law_stable_sort(straight, le);
        assert(straight.map_values(at) =~= views(v@));
    }
    let check = |p: usize, q: usize| -> (b: bool)
        requires
            p < v@.len(),
            q < v@.len(),
        ensures
            b == (text_order(v@[p as int]@, v@[q as int]@) <= 0),
        { compare_text(v[p].as_str(), v[q].as_str()) <= 0 };
    let sorted = sort_indices(places, n, &check, Ghost(le));
    let mut out: Vec<String> = Vec::new();
    let mut k: usize = 0;
    while k < n
        invariant
            k <= n,
            n == v@.len(),
            n == sorted@.len(),
            n == straight.len(),
            forall|k: int| 0 <= k < n ==> #[trigger] straight[k] == k,
            sorted@ == stable_sort(straight, le),
            forall|y: usize| #[trigger]
                stable_sort(straight, le).contains(y) ==> straight.contains(y),
            at == (|p: usize| v@[p as int]@),
            out@.len() == k,
            forall|j: int| 0 <= j < k ==> (#[trigger] out@[j])@ == at(sorted@[j]),
        decreases n - k,
    {
        proof {
            assert(stable_sort(straight, le).contains(sorted@[k as int]));
            let j = choose|j: int| 0 <= j < straight.len() && straight[j] == sorted@[k as int];
            assert(straight[j] == j);
        }
        out.push(v[sorted[k]].clone());
        k += 1;
    }
    assert(views(out@) =~= sorted@.map_values(at));
    out
}

impl Marks {
    /// The bookmarks, with their texts.
    pub closed spec fn texts(&self) -> Map<Seq<Seq<u8>>, Seq<u8>> {
        self.set.texts()
    }

    /// The bookmarks that a text keeps; none where there is no text.
    pub fn load(text: Option<&str>) -> (r: Marks)
        ensures
            r.texts() == match text {
                Some(t) => kept_in(t@),
                None => Map::empty(),
            },
    {
        let mut set = PathSet::new();
        if let Some(t) = text {
            let lines = split(t, '\n');
            let ghost ls = pieces(t@, '\n');
            let mut i: usize = 0;
            assert(set.texts() =~= named_in(ls.take(0)));
            while i < lines.len()
                invariant
                    i <= lines@.len(),
                    views(lines@) == ls,
                    set.texts() == named_in(ls.take(i as int)),
                decreases lines@.len() - i,
            {
                let line = trim(lines[i].as_str());
                proof {
                    assert(ls.take(i + 1).drop_last() =~= ls.take(i as int));
                    assert(views(lines@)[i as int] == lines@[i as int]@);
                    assert(ls.take(i + 1).last() == lines@[i as int]@);
                }
                if !line.as_str().is_empty() {
                    let _fresh = set.insert(Path::new(line.as_str()));
                }
                i += 1;
            }
            assert(ls.take(i as int) =~= ls);
        }
        Marks { set }
    }

    /// The text that keeps the bookmarks.
    pub fn save(&self) -> (r: String)
        ensures
            r@ == text_for(listed(self.texts())),
    {
        let all = self.set.list();
        let ghost ps = listed(self.texts());
        let mut lines: Vec<String> = Vec::new();
        let mut i: usize = 0;
        assert(views(lines@) =~= lines_for(ps.take(0)));
        while i < all.len()
            invariant
                i <= all@.len(),
                ps == path_texts(all@),
                views(lines@) == lines_for(ps.take(i as int)),
            decreases all@.len() - i,
        {
            let line = all[i].display();
            let ghost held = lines@;
            assert(ps.take(i + 1).drop_last() =~= ps.take(i as int));
            assert(ps.take(i + 1).last() == all@[i as int]@);
            if !contains_char(line.as_str(), '\n') {
                lines.push(line);
                assert(views(lines@) =~= views(held).push(line@));
            }
            i += 1;
        }
        assert(ps.take(i as int) =~= ps);
        join_with(&sort_texts(&lines), "\n")
    }

    /// Whether a path is bookmarked.
    pub fn contains(&self, path: &Path) -> (r: bool)
        ensures
            r == self@.contains(path.comps()),
            r == self.texts().contains_key(path.comps()),
    {
        self.set.contains(path)
    }

    /// All bookmarks.
    pub fn all(&self) -> (r: &PathSet)
        ensures
            r.texts() == self.texts(),
            r@ == self@,
    {
        &self.set
    }

    /// Bookmarks a path, or takes its bookmark away. Says whether it has one
    /// now.
    pub fn toggle(&mut self, path: &Path) -> (r: bool)
        ensures
            r == !old(self)@.contains(path.comps()),
            final(self).texts() == toggled(old(self).texts(), path@),
    {
        if self.set.contains(path) {
            let _was = self.set.remove(path);
            false
        } else {
            let _fresh = self.set.insert(path.copy());
            true
        }
    }

    /// Takes the bookmarks of some paths away.
    pub fn remove_all(&mut self, paths: &Vec<Path>)
        ensures
            final(self).texts() == old(self).texts().remove_keys(
                crate::watcher::comps_set(paths@),
            ),
    {
        let mut i: usize = 0;
        let ghost start = self.texts();
        assert(start =~= start.remove_keys(crate::watcher::comps_set(paths@.take(0))));
        while i < paths.len()
            invariant
                i <= paths@.len(),
                self.texts() == start.remove_keys(
                    crate::watcher::comps_set(paths@.take(i as int)),
                ),
            decreases paths@.len() - i,
        {
            let _was = self.set.remove(&paths[i]);
            proof {
                crate::watcher::lemma_comps_set_push(paths@, i as int);
                assert(self.texts() =~= start.remove_keys(
                    crate::watcher::comps_set(paths@.take(i + 1)),
                ));
            }
            i += 1;
        }
        assert(paths@.take(i as int) =~= paths@);
    }

    /// Lets a bookmark follow a path that was moved. Says whether there was
    /// one.
    pub fn remap(&mut self, old_path: &Path, new_path: &Path) -> (r: bool)
        ensures
            r == old(self)@.contains(old_path.comps()),
            final(self).texts() == remapped(old(self).texts(), old_path@, new_path@),
    {
        if self.set.remove(old_path) {
            let _fresh = self.set.insert(new_path.copy());
            true
        } else {
            assert(self.texts() =~= old(self).texts());
            false
        }
    }
}

/// Setting a bookmark twice leaves the bookmarks as they were, but for the text
/// of the path, which is that of the second time.
pub proof fn law_toggle_twice(marks: Map<Seq<Seq<u8>>, Seq<u8>>, t: Seq<u8>)
    ensures
        !marks.contains_key(comps(t)) ==> toggled(toggled(marks, t), t) == marks,
        marks.contains_key(comps(t)) ==> toggled(toggled(marks, t), t) == marks.insert(
            comps(t),
            t,
        ),
{
    assert(marks.insert(comps(t), t).remove(comps(t)) =~= marks.remove(comps(t)));
    if !marks.contains_key(comps(t)) {
        assert(marks.remove(comps(t)) =~= marks);
    } else {
        assert(marks.remove(comps(t)).insert(comps(t), t) =~= marks.insert(comps(t), t));
    }
}

/// A bookmark that followed a path is with it, and no longer where it was.
pub proof fn law_bookmark_follows(
    marks: Map<Seq<Seq<u8>>, Seq<u8>>,
    from: Seq<u8>,
    to: Seq<u8>,
)
    requires
        marks.contains_key(comps(from)),
        comps(from) != comps(to),
    ensures
        remapped(marks, from, to).contains_key(comps(to)),
        !remapped(marks, from, to).contains_key(comps(from)),
{
}

proof fn lemma_joined_first(parts: Seq<Seq<char>>, sep: Seq<char>)
    requires
        parts.len() >= 2,
    ensures
        joined(parts, sep) == parts[0] + sep + joined(parts.skip(1), sep),
    decreases parts.len(),
{
    if parts.len() == 2 {
        assert(parts.drop_last()[0] == parts[0]);
        assert(joined(parts.drop_last(), sep) == parts[0]);
        assert(parts.skip(1)[0] == parts[1]);
    } else {
        lemma_joined_first(parts.drop_last(), sep);
        assert(parts.drop_last().skip(1) =~= parts.skip(1).drop_last());
        assert(parts.skip(1).last() == parts.last());
        let inner = joined(parts.skip(1).drop_last(), sep);
        assert((parts[0] + sep + inner) + sep + parts.last() =~= parts[0] + sep + (inner + sep
            + parts.last()));
    }
}

proof fn lemma_pieces_joined(parts: Seq<Seq<char>>)
    requires
        parts.len() > 0,
        forall|i: int| 0 <= i < parts.len() ==> !(#[trigger] parts[i]).contains('\n'),
    ensures
        pieces(joined(parts, "\n"@), '\n') == parts,
    decreases parts.len(),
{
    reveal_strlit("\n");
    let sep = "\n"@;
    let p = parts[0];
    let all = joined(parts, sep);
    assert(!p.contains('\n'));
    if parts.len() == 1 {
        assert forall|i: int| 0 <= i < p.len() implies p[i] != '\n' by {
            assert(p.contains(p[i]));
        }
        lemma_first_index_is(p, '\n', p.len() as int);
        assert(seq![p] =~= parts);
    } else {
        lemma_joined_first(parts, sep);
        let rest = joined(parts.skip(1), sep);
        assert(all =~= p + sep + rest);
        assert forall|i: int| 0 <= i < p.len() implies all[i] != '\n' by {
            assert(p.contains(p[i]));
            assert(all[i] == p[i]);
        }
        assert(all[p.len() as int] == '\n');
        lemma_first_index_is(all, '\n', p.len() as int);
        assert(all.take(p.len() as int) =~= p);
        assert(all.skip(p.len() as int + 1) =~= rest);
        assert forall|i: int| 0 <= i < parts.skip(1).len() implies !(#[trigger] parts.skip(
            1,
        )[i]).contains('\n') by {
            assert(parts.skip(1)[i] == parts[i + 1]);
        }
        lemma_pieces_joined(parts.skip(1));
        assert(seq![p] + parts.skip(1) =~= parts);
    }
}

proof fn lemma_lines_for(paths: Seq<Seq<u8>>)
    requires
        forall|i: int| 0 <= i < paths.len() ==> !lossy_text(#[trigger] paths[i]).contains('\n'),
    ensures
        lines_for(paths).len() == paths.len(),
        forall|i: int| 0 <= i < paths.len() ==> #[trigger] lines_for(paths)[i] == lossy_text(
            paths[i],
        ),
    decreases paths.len(),
{
    if paths.len() > 0 {
        assert forall|i: int| 0 <= i < paths.drop_last().len() implies !lossy_text(
            #[trigger] paths.drop_last()[i],
        ).contains('\n') by {
            assert(paths.drop_last()[i] == paths[i]);
        }
        lemma_lines_for(paths.drop_last());
        assert(!lossy_text(paths[paths.len() - 1]).contains('\n'));
        assert forall|i: int| 0 <= i < paths.len() implies #[trigger] lines_for(paths)[i]
            == lossy_text(paths[i]) by {
            if i < paths.len() - 1 {
                assert(lines_for(paths)[i] == lines_for(paths.drop_last())[i]);
            }
        }
    }
}

/// The paths that some lines name, one by one.
proof fn lemma_named(lines: Seq<Seq<char>>)
    requires
        forall|i: int| 0 <= i < lines.len() ==> trimmed(#[trigger] lines[i]).len() > 0,
        forall|i: int, j: int|
            0 <= i < j < lines.len() ==> comps(
                vstd::utf8::encode_utf8(trimmed(#[trigger] lines[i])),
            ) != comps(vstd::utf8::encode_utf8(trimmed(#[trigger] lines[j]))),
    ensures
        forall|k: Seq<Seq<u8>>|
            #![trigger named_in(lines).contains_key(k)]
            named_in(lines).contains_key(k) <==> exists|i: int|
                0 <= i < lines.len() && comps(
                    vstd::utf8::encode_utf8(trimmed(#[trigger] lines[i])),
                ) == k,
        forall|i: int|
            0 <= i < lines.len() ==> named_in(lines)[comps(
                vstd::utf8::encode_utf8(trimmed(#[trigger] lines[i])),
            )] == vstd::utf8::encode_utf8(trimmed(lines[i])),
    decreases lines.len(),
{
    if lines.len() > 0 {
        let init = lines.drop_last();
        assert forall|i: int| 0 <= i < init.len() implies trimmed(#[trigger] init[i]).len()
            > 0 by {
            assert(init[i] == lines[i]);
        }
        assert forall|i: int, j: int| 0 <= i < j < init.len() implies comps(
            vstd::utf8::encode_utf8(trimmed(#[trigger] init[i])),
        ) != comps(vstd::utf8::encode_utf8(trimmed(#[trigger] init[j]))) by {
            assert(init[i] == lines[i]);
            assert(init[j] == lines[j]);
        }
        lemma_named(init);
        let last = vstd::utf8::encode_utf8(trimmed(lines[lines.len() - 1]));
        assert(trimmed(lines[lines.len() - 1]).len() > 0);
        assert(!named_in(init).contains_key(comps(last))) by {
            if named_in(init).contains_key(comps(last)) {
                let i = choose|i: int|
                    0 <= i < init.len() && comps(
                        vstd::utf8::encode_utf8(trimmed(#[trigger] init[i])),
                    ) == comps(last);
                assert(init[i] == lines[i]);
                assert(comps(vstd::utf8::encode_utf8(trimmed(lines[i]))) != comps(
                    vstd::utf8::encode_utf8(trimmed(lines[lines.len() - 1])),
                ));
            }
        }
        assert(named_in(lines) == named_in(init).insert(comps(last), last));
        assert forall|k: Seq<Seq<u8>>|
            #![trigger named_in(lines).contains_key(k)]
            named_in(lines).contains_key(k) <==> exists|i: int|
                0 <= i < lines.len() && comps(
                    vstd::utf8::encode_utf8(trimmed(#[trigger] lines[i])),
                ) == k by {
            if named_in(init).contains_key(k) {
                let i = choose|i: int|
                    0 <= i < init.len() && comps(
                        vstd::utf8::encode_utf8(trimmed(#[trigger] init[i])),
                    ) == k;
                assert(lines[i] == init[i]);
            }
            if exists|i: int|
                0 <= i < lines.len() && comps(
                    vstd::utf8::encode_utf8(trimmed(#[trigger] lines[i])),
                ) == k {
                let i = choose|i: int|
                    0 <= i < lines.len() && comps(
                        vstd::utf8::encode_utf8(trimmed(#[trigger] lines[i])),
                    ) == k;
                if i < lines.len() - 1 {
                    assert(init[i] == lines[i]);
                    assert(named_in(init).contains_key(k));
                }
            }
        }
        assert forall|i: int| 0 <= i < lines.len() implies named_in(lines)[comps(
            vstd::utf8::encode_utf8(trimmed(#[trigger] lines[i])),
        )] == vstd::utf8::encode_utf8(trimmed(lines[i])) by {
            if i < lines.len() - 1 {
                assert(init[i] == lines[i]);
                assert(comps(vstd::utf8::encode_utf8(trimmed(lines[i]))) != comps(
                    vstd::utf8::encode_utf8(trimmed(lines[lines.len() - 1])),
                ));
            }
        }
    }
}

/// What is put in another order holds the same, none twice.
proof fn lemma_permuted(a: Seq<Seq<char>>, b: Seq<Seq<char>>)
    requires
        a.no_duplicates(),
        a.to_multiset() == b.to_multiset(),
    ensures
        b.no_duplicates(),
        forall|y: Seq<char>| #[trigger] b.contains(y) <==> a.contains(y),
{
    broadcast use vstd::seq_lib::group_to_multiset_ensures;

    a.lemma_multiset_has_no_duplicates();
    b.lemma_multiset_has_no_duplicates_conv();
    assert forall|y: Seq<char>| #[trigger] b.contains(y) <==> a.contains(y) by {
        broadcast use vstd::seq_lib::group_to_multiset_ensures;

        assert(b.contains(y) <==> b.to_multiset().contains(y));
        assert(a.contains(y) <==> a.to_multiset().contains(y));
    }
}

/// Lines that hold some paths, each once, name those paths.
proof fn lemma_lines_name(sorted: Seq<Seq<char>>, lines: Seq<Seq<char>>, paths: Seq<Seq<u8>>)
    requires
        lines.len() == paths.len(),
        sorted.no_duplicates(),
        forall|y: Seq<char>| #[trigger] sorted.contains(y) <==> lines.contains(y),
        forall|i: int|
            0 <= i < paths.len() ==> {
                let line = #[trigger] lines[i];
                &&& vstd::utf8::encode_utf8(line) == paths[i]
                &&& line.len() > 0
                &&& trimmed(line) == line
            },
    ensures
        forall|k: Seq<Seq<u8>>|
            #![trigger named_in(sorted).contains_key(k)]
            (forall|i: int, j: int|
                0 <= i < j < paths.len() ==> comps(#[trigger] paths[i]) != comps(
                    #[trigger] paths[j],
                )) ==> (named_in(sorted).contains_key(k) <==> exists|i: int|
                0 <= i < paths.len() && comps(#[trigger] paths[i]) == k),
        (forall|i: int, j: int|
            0 <= i < j < paths.len() ==> comps(#[trigger] paths[i]) != comps(#[trigger] paths[j]))
            ==> forall|i: int|
            0 <= i < paths.len() ==> named_in(sorted)[comps(#[trigger] paths[i])] == paths[i],
{
    if forall|i: int, j: int|
        0 <= i < j < paths.len() ==> comps(#[trigger] paths[i]) != comps(#[trigger] paths[j]) {
        let at = |i: int| choose|j: int| 0 <= j < lines.len() && lines[j] == sorted[i];
        assert forall|i: int| 0 <= i < sorted.len() implies 0 <= #[trigger] at(i) < lines.len()
            && lines[at(i)] == sorted[i] by {
            assert(sorted.contains(sorted[i]));
            assert(lines.contains(sorted[i]));
        }
        assert forall|i: int| 0 <= i < sorted.len() implies trimmed(#[trigger] sorted[i]).len()
            > 0 by {
            assert(lines[at(i)] == sorted[i]);
        }
        assert forall|i: int, j: int| 0 <= i < j < sorted.len() implies comps(
            vstd::utf8::encode_utf8(trimmed(#[trigger] sorted[i])),
        ) != comps(vstd::utf8::encode_utf8(trimmed(#[trigger] sorted[j]))) by {
            assert(lines[at(i)] == sorted[i]);
            assert(lines[at(j)] == sorted[j]);
            assert(sorted[i] != sorted[j]);
            if at(i) < at(j) {
                assert(comps(paths[at(i)]) != comps(paths[at(j)]));
            } else {
                assert(comps(paths[at(j)]) != comps(paths[at(i)]));
            }
        }
        lemma_named(sorted);
        assert forall|i: int| 0 <= i < paths.len() implies exists|j: int|
            0 <= j < sorted.len() && #[trigger] sorted[j] == #[trigger] lines[i] by {
            assert(lines.contains(lines[i]));
            assert(sorted.contains(lines[i]));
        }
        assert forall|k: Seq<Seq<u8>>|
            #![trigger named_in(sorted).contains_key(k)]
            named_in(sorted).contains_key(k) <==> exists|i: int|
                0 <= i < paths.len() && comps(#[trigger] paths[i]) == k by {
            if named_in(sorted).contains_key(k) {
                let i = choose|i: int|
                    0 <= i < sorted.len() && comps(
                        vstd::utf8::encode_utf8(trimmed(#[trigger] sorted[i])),
                    ) == k;
                assert(lines[at(i)] == sorted[i]);
                assert(comps(paths[at(i)]) == k);
            }
            if exists|i: int| 0 <= i < paths.len() && comps(#[trigger] paths[i]) == k {
                let i = choose|i: int| 0 <= i < paths.len() && comps(#[trigger] paths[i]) == k;
                let line = lines[i];
                let j = choose|j: int| 0 <= j < sorted.len() && #[trigger] sorted[j] == line;
                assert(comps(vstd::utf8::encode_utf8(trimmed(sorted[j]))) == k);
            }
        }
        assert forall|i: int| 0 <= i < paths.len() implies named_in(sorted)[comps(
            #[trigger] paths[i],
        )] == paths[i] by {
            let line = lines[i];
            let j = choose|j: int| 0 <= j < sorted.len() && #[trigger] sorted[j] == line;
            assert(vstd::utf8::encode_utf8(trimmed(sorted[j])) == paths[i]);
        }
    }
}

/// The text that keeps bookmarks is read back as those bookmarks, where each
/// path reads as text and back, with no line break in it and no white space
/// around it.
pub proof fn law_marks_read_back(paths: Seq<Seq<u8>>)
    requires
        forall|i: int|
            0 <= i < paths.len() ==> {
                let line = lossy_text(#[trigger] paths[i]);
                &&& vstd::utf8::encode_utf8(line) == paths[i]
                &&& !line.contains('\n')
                &&& line.len() > 0
                &&& trimmed(line) == line
            },
        forall|i: int, j: int|
            0 <= i < j < paths.len() ==> comps(#[trigger] paths[i]) != comps(#[trigger] paths[j]),
    ensures
        forall|k: Seq<Seq<u8>>|
            #![trigger kept_in(text_for(paths)).contains_key(k)]
            kept_in(text_for(paths)).contains_key(k) <==> exists|i: int|
                0 <= i < paths.len() && comps(#[trigger] paths[i]) == k,
        forall|i: int|
            0 <= i < paths.len() ==> kept_in(text_for(paths))[comps(#[trigger] paths[i])]
                == paths[i],
{
    let lines = lines_for(paths);
    let sorted = stable_sort(lines, text_le());
    let text = text_for(paths);
    lemma_lines_for(paths);
    lemma_text_le();
    law_stable_sort(lines, text_le());
    if paths.len() == 0 {
        assert(sorted =~= Seq::empty());
        assert(text =~= Seq::empty());
        lemma_first_index_is(text, '\n', 0);
        assert(pieces(text, '\n') =~= seq![text]);
        assert(trimmed(text).len() == 0);
        let one = pieces(text, '\n');
        assert(one.drop_last() =~= Seq::empty());
        assert(one.last() == text);
        assert(named_in(one) == named_in(one.drop_last()));
        assert(named_in(one) =~= Map::empty());
    } else {
        assert(lines.no_duplicates()) by {
            assert forall|i: int, j: int|
                0 <= i < lines.len() && 0 <= j < lines.len() && i != j implies lines[i]
                != lines[j] by {
                assert(lines[i] == lossy_text(paths[i]));
                assert(lines[j] == lossy_text(paths[j]));
                if i < j {
                    assert(comps(paths[i]) != comps(paths[j]));
                } else {
                    assert(comps(paths[j]) != comps(paths[i]));
                }
            }
        }
        lemma_permuted(lines, sorted);
        assert forall|i: int| 0 <= i < sorted.len() implies !(#[trigger] sorted[i]).contains(
            '\n',
        ) by {
            assert(sorted.contains(sorted[i]));
            assert(lines.contains(sorted[i]));
            let j = choose|j: int| 0 <= j < lines.len() && lines[j] == sorted[i];
            assert(lines[j] == lossy_text(paths[j]));
        }
        lemma_pieces_joined(sorted);
        lemma_lines_name(sorted, lines, paths);
        assert(kept_in(text) == named_in(sorted));
    }
}

} // verus!
