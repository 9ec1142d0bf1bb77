//! Paths, read lexically: bytes, and the components that the slashes make of
//! them. Two paths are the same when their components are.
//!
//! A component is a name, `..`, a `.` that begins a relative path, or `/`,
//! which stands for the root and can only come first.

use vstd::prelude::*;
use vstd::slice::slice_subrange;

use crate::text::{last_index, lemma_last_index, lemma_last_index_is};
use crate::text::{lossy_text, read_lossy, same_bytes, to_bytes};

verus! {

/// The byte between components.
pub const SLASH: u8 = 47;

const DOT: u8 = 46;

/// The component that stands for the root.
pub open spec fn root_comp() -> Seq<u8> {
    seq![47u8]
}

/// The component `.`.
pub open spec fn dot_comp() -> Seq<u8> {
    seq![46u8]
}

/// The component `..`.
pub open spec fn dotdot_comp() -> Seq<u8> {
    seq![46u8, 46u8]
}

/// Whether a piece between slashes names nothing.
pub open spec fn is_void(piece: Seq<u8>) -> bool {
    piece.len() == 0 || piece == dot_comp()
}

/// What stands before the last slash of `t`; the root keeps its slash.
pub open spec fn head(t: Seq<u8>) -> Seq<u8> {
    let k = last_index(t, 47u8);
    if k == 0 {
        t.take(1)
    } else {
        t.take(k)
    }
}

/// What stands after the last slash of `t`.
pub open spec fn tail(t: Seq<u8>) -> Seq<u8> {
    t.skip(last_index(t, 47u8) + 1)
}

/// Whether `t` is empty, the root alone, or a single piece.
pub open spec fn is_simple(t: Seq<u8>) -> bool {
    t.len() == 0 || t == root_comp() || last_index(t, 47u8) < 0
}

pub proof fn lemma_head(t: Seq<u8>)
    requires
        !is_simple(t),
    ensures
        0 < head(t).len() < t.len(),
        last_index(t, 47u8) > 0 ==> head(t).len() == last_index(t, 47u8),
        last_index(t, 47u8) == 0 ==> head(t) == root_comp(),
        tail(t).len() == t.len() - last_index(t, 47u8) - 1,
{
    lemma_last_index(t, 47u8);
    if last_index(t, 47u8) == 0 {
        if t.len() == 1 {
            assert(t =~= root_comp());
        }
        assert(head(t) =~= root_comp());
    }
}

/// The components of the path that `t` writes.
pub open spec fn comps(t: Seq<u8>) -> Seq<Seq<u8>>
    decreases t.len(),
{
    if t.len() == 0 {
        Seq::empty()
    } else if is_simple(t) {
        seq![t]
    } else {
        proof {
            lemma_head(t);
        }
        if is_void(tail(t)) {
            comps(head(t))
        } else {
            comps(head(t)).push(tail(t))
        }
    }
}

/// A path's text without what trails its last component.
pub open spec fn chopped(t: Seq<u8>) -> Seq<u8>
    decreases t.len(),
{
    if is_simple(t) {
        t
    } else {
        proof {
            lemma_head(t);
        }
        if is_void(tail(t)) {
            chopped(head(t))
        } else {
            t
        }
    }
}

/// Chopping leaves the components alone.
pub proof fn lemma_chopped(t: Seq<u8>)
    ensures
        comps(chopped(t)) == comps(t),
        chopped(t).len() <= t.len(),
        chopped(t) == t.take(chopped(t).len() as int),
        t.len() > 0 ==> chopped(t).len() > 0,
        is_simple(chopped(t)) || !is_void(tail(chopped(t))),
    decreases t.len(),
{
    if !is_simple(t) && is_void(tail(t)) {
        lemma_head(t);
        lemma_last_index(t, 47u8);
        lemma_chopped(head(t));
        assert(chopped(t) =~= t.take(chopped(t).len() as int));
    } else {
        assert(t.take(t.len() as int) =~= t);
    }
}

/// The text of the directory that holds the path `t`; `None` for the root and
/// for the empty path.
pub open spec fn parent_text(t: Seq<u8>) -> Option<Seq<u8>> {
    let u = chopped(t);
    if u.len() == 0 || u == root_comp() {
        None
    } else if last_index(u, 47u8) < 0 {
        Some(Seq::empty())
    } else {
        Some(chopped(head(u)))
    }
}

/// A parent has all components but the last.
pub proof fn lemma_parent(t: Seq<u8>)
    ensures
        parent_text(t) is None <==> comps(t).len() == 0 || comps(t) == seq![root_comp()],
        parent_text(t) is Some ==> comps(t).len() > 0 && comps(parent_text(t)->0)
            == comps(t).drop_last(),
{
    let u = chopped(t);
    lemma_chopped(t);
    lemma_comps(t);
    if u.len() == 0 {
        assert(comps(u).len() == 0);
    } else if u == root_comp() {
        assert(comps(u) =~= seq![root_comp()]);
    } else if last_index(u, 47u8) < 0 {
        assert(comps(u) =~= seq![u]);
        assert(comps(u)[0] != root_comp());
        assert(comps(Seq::<u8>::empty()) =~= comps(u).drop_last());
    } else {
        lemma_head(u);
        lemma_chopped(head(u));
        assert(comps(u).drop_last() =~= comps(head(u)));
        lemma_comps(head(u));
        assert(comps(u).len() >= 2);
        assert(comps(u) != seq![root_comp()]) by {
            assert(seq![root_comp()].len() == 1);
        }
    }
}

/// What components look like: only the first can be the root or `.`, none is
/// empty, and none but the root holds a slash. Only the empty path has none.
pub proof fn lemma_comps(t: Seq<u8>)
    ensures
        comps(t).len() == 0 <==> t.len() == 0,
        forall|i: int|
            0 <= i < comps(t).len() ==> {
                &&& (#[trigger] comps(t)[i]).len() > 0
                &&& i > 0 ==> comps(t)[i] != dot_comp()
                &&& (i == 0 && comps(t)[i] == root_comp()) || !comps(t)[i].contains(47u8)
            },
        comps(t).len() > 0 ==> ((comps(t)[0] == root_comp()) <==> t[0] == 47u8),
    decreases t.len(),
{
    if t.len() == 0 {
    } else if is_simple(t) {
        if t != root_comp() {
            lemma_last_index(t, 47u8);
        }
    } else {
        lemma_head(t);
        lemma_last_index(t, 47u8);
        lemma_comps(head(t));
        assert(head(t)[0] == t[0]);
        let cs = comps(head(t));
        assert(!tail(t).contains(47u8));
        assert forall|i: int| 0 <= i < comps(t).len() implies {
            &&& (#[trigger] comps(t)[i]).len() > 0
            &&& i > 0 ==> comps(t)[i] != dot_comp()
            &&& (i == 0 && comps(t)[i] == root_comp()) || !comps(t)[i].contains(47u8)
        } by {
            if i < cs.len() {
                assert(comps(t)[i] == cs[i]);
            }
        }
    }
}

/// The text of the path `b` taken inside the path `a`: `b` itself when it
/// begins at the root, and otherwise `b` after `a` with one slash between.
pub open spec fn join_text(a: Seq<u8>, b: Seq<u8>) -> Seq<u8> {
    if b.len() > 0 && b[0] == 47u8 {
        b
    } else if a.len() == 0 || a.last() == 47u8 {
        a + b
    } else {
        a.push(47u8) + b
    }
}

/// Components without a leading `.`.
pub open spec fn without_dot(cs: Seq<Seq<u8>>) -> Seq<Seq<u8>> {
    if cs.len() > 0 && cs[0] == dot_comp() {
        cs.skip(1)
    } else {
        cs
    }
}

proof fn lemma_join_slash(a: Seq<u8>, b: Seq<u8>)
    requires
        a.len() > 0,
        a.last() == 47u8,
        b.len() > 0 ==> b[0] != 47u8,
    ensures
        comps(a + b) == comps(a) + without_dot(comps(b)),
    decreases b.len(),
{
    let t = a + b;
    if b.len() == 0 {
        assert(t =~= a);
        assert(comps(a) + without_dot(comps(b)) =~= comps(a));
    } else {
        lemma_last_index(b, 47u8);
        let k = last_index(b, 47u8);
        assert forall|i: int| a.len() + k < i < t.len() implies t[i] != 47u8 by {
            if i >= a.len() {
                assert(t[i] == b[i - a.len()]);
            }
        }
        if k >= 0 {
            lemma_last_index_is(t, 47u8, a.len() + k);
            assert(!is_simple(b));
            lemma_head(b);
            let h = head(b);
            assert(h =~= b.take(k));
            assert(head(t) =~= a + h);
            assert(tail(t) =~= tail(b));
            lemma_join_slash(a, h);
            assert(t != root_comp());
            lemma_comps(h);
            if !is_void(tail(b)) {
                assert(comps(b) == comps(h).push(tail(b)));
                assert(comps(a) + without_dot(comps(h).push(tail(b))) =~= (comps(a) + without_dot(
                    comps(h),
                )).push(tail(b)));
            }
        } else {
            lemma_last_index_is(t, 47u8, a.len() - 1);
            assert(t.len() >= 2);
            assert(!is_simple(t));
            assert(tail(t) =~= b);
            assert(comps(b) =~= seq![b]);
            if a.len() == 1 {
                assert(a =~= root_comp());
                assert(head(t) =~= a);
            } else {
                lemma_last_index_is(a, 47u8, a.len() - 1);
                assert(!is_simple(a));
                assert(head(a) =~= a.drop_last());
                assert(head(t) =~= a.drop_last());
                assert(is_void(tail(a)));
            }
            if b == dot_comp() {
                assert(without_dot(comps(b)) =~= Seq::<Seq<u8>>::empty());
                assert(comps(a) + without_dot(comps(b)) =~= comps(a));
            } else {
                assert(comps(a) + without_dot(comps(b)) =~= comps(a).push(b));
            }
        }
    }
}

/// The components of a path taken inside another.
pub proof fn lemma_join(a: Seq<u8>, b: Seq<u8>)
    ensures
        b.len() > 0 && b[0] == 47u8 ==> comps(join_text(a, b)) == comps(b),
        !(b.len() > 0 && b[0] == 47u8) && a.len() == 0 ==> comps(join_text(a, b)) == comps(b),
        !(b.len() > 0 && b[0] == 47u8) && a.len() > 0 ==> comps(join_text(a, b)) == comps(a)
            + without_dot(comps(b)),
{
    if !(b.len() > 0 && b[0] == 47u8) {
        if a.len() == 0 {
            assert(a + b =~= b);
        } else if a.last() == 47u8 {
            lemma_join_slash(a, b);
        } else {
            let c = a.push(47u8);
            lemma_join_slash(c, b);
            lemma_last_index_is(c, 47u8, a.len() as int);
            assert(!is_simple(c));
            assert(head(c) =~= a);
            assert(tail(c) =~= Seq::<u8>::empty());
            assert(comps(c) == comps(a));
        }
    }
}

/// Whether a component is a plain name.
pub open spec fn is_name(c: Seq<u8>) -> bool {
    c.len() > 0 && !c.contains(47u8) && c != dot_comp() && c != dotdot_comp()
}

/// A name taken inside a path becomes its last component.
pub proof fn lemma_join_name(a: Seq<u8>, name: Seq<u8>)
    requires
        name.len() > 0,
        !name.contains(47u8),
        name != dot_comp(),
    ensures
        comps(join_text(a, name)) == comps(a).push(name),
{
    lemma_join(a, name);
    assert(name[0] != 47u8) by {
        if name[0] == 47u8 {
            assert(name.contains(47u8));
        }
    }
    lemma_last_index(name, 47u8);
    let k = last_index(name, 47u8);
    if k >= 0 {
        assert(name.contains(47u8));
    }
    assert(comps(name) =~= seq![name]);
    assert(comps(a) + seq![name] =~= comps(a).push(name));
    if a.len() == 0 {
        lemma_comps(a);
        assert(comps(a).push(name) =~= seq![name]);
    }
}

/// Where in `t` its component number `n` begins, for `n` past the first.
pub open spec fn comp_start(t: Seq<u8>, n: int) -> int
    decreases t.len(),
{
    if is_simple(t) {
        t.len() as int
    } else {
        proof {
            lemma_head(t);
        }
        if comps(head(t)).len() > n || is_void(tail(t)) {
            comp_start(head(t), n)
        } else {
            last_index(t, 47u8) + 1
        }
    }
}

proof fn lemma_comp_start(t: Seq<u8>, n: int)
    requires
        1 <= n < comps(t).len(),
    ensures
        0 < comp_start(t, n) < t.len(),
        comps(t.skip(comp_start(t, n))) == comps(t).skip(n),
    decreases t.len(),
{
    assert(!is_simple(t));
    lemma_head(t);
    lemma_last_index(t, 47u8);
    let k = last_index(t, 47u8);
    let cs = comps(head(t));
    if cs.len() > n || is_void(tail(t)) {
        lemma_comp_start(head(t), n);
        let s = comp_start(head(t), n);
        if k == 0 {
            assert(cs.len() == 1);
        }
        let u = t.skip(s);
        assert forall|i: int| k - s < i < u.len() implies u[i] != 47u8 by {
            assert(u[i] == t[i + s]);
        }
        assert(u[k - s] == t[k]);
        lemma_last_index_is(u, 47u8, k - s);
        assert(head(u) =~= head(t).skip(s));
        assert(tail(u) =~= tail(t));
        assert(!is_simple(u)) by {
            if u == root_comp() {
                assert(u.len() == 1);
            }
        }
        if !is_void(tail(t)) {
            assert(cs.push(tail(t)).skip(n) =~= cs.skip(n).push(tail(t)));
        }
    } else {
        assert(cs.len() == n);
        let u = tail(t);
        assert forall|i: int| -1 < i < u.len() implies u[i] != 47u8 by {
            assert(u[i] == t[i + k + 1]);
        }
        lemma_last_index_is(u, 47u8, -1);
        assert(t.skip(k + 1) =~= u);
        assert(comps(u) =~= seq![u]);
        assert(cs.push(u).skip(n) =~= seq![u]);
    }
}

/// What is left of the text of a path when its first `n` components go.
pub open spec fn rest_text(t: Seq<u8>, n: int) -> Seq<u8> {
    if n <= 0 {
        chopped(t)
    } else if n >= comps(t).len() {
        Seq::empty()
    } else {
        chopped(t.skip(comp_start(t, n)))
    }
}

/// Taking components off the front leaves the others.
pub proof fn lemma_rest(t: Seq<u8>, n: int)
    requires
        0 <= n <= comps(t).len(),
    ensures
        comps(rest_text(t, n)) == comps(t).skip(n),
{
    if n == 0 {
        lemma_chopped(t);
        assert(comps(t).skip(0) =~= comps(t));
    } else if n == comps(t).len() {
        assert(comps(t).skip(n) =~= Seq::empty());
    } else {
        lemma_comp_start(t, n);
        lemma_chopped(t.skip(comp_start(t, n)));
    }
}

/// The components that are left when every `.` is dropped and every `..` takes
/// away the name before it.
pub open spec fn resolved(cs: Seq<Seq<u8>>) -> Seq<Seq<u8>>
    decreases cs.len(),
{
    if cs.len() == 0 {
        cs
    } else {
        let before = resolved(cs.drop_last());
        if cs.last() == dot_comp() {
            before
        } else if cs.last() == dotdot_comp() {
            if before.len() == 0 || before == seq![root_comp()] {
                before
            } else {
                before.drop_last()
            }
        } else {
            before.push(cs.last())
        }
    }
}

/// The text of a path put together from its components, as `resolved` goes.
pub open spec fn resolved_text(cs: Seq<Seq<u8>>) -> Seq<u8>
    decreases cs.len(),
{
    if cs.len() == 0 {
        Seq::empty()
    } else {
        let before = resolved_text(cs.drop_last());
        if cs.last() == dot_comp() {
            before
        } else if cs.last() == dotdot_comp() {
            match parent_text(before) {
                Some(up) => up,
                None => before,
            }
        } else {
            join_text(before, cs.last())
        }
    }
}

/// Whether components can be those of a path.
pub open spec fn are_comps(cs: Seq<Seq<u8>>) -> bool {
    forall|i: int|
        0 <= i < cs.len() ==> {
            &&& (#[trigger] cs[i]).len() > 0
            &&& (i == 0 && cs[i] == root_comp()) || !cs[i].contains(47u8)
        }
}

/// The text that `resolved_text` makes has the components that `resolved` gives.
pub proof fn lemma_resolved_text(cs: Seq<Seq<u8>>)
    requires
        are_comps(cs),
    ensures
        comps(resolved_text(cs)) == resolved(cs),
    decreases cs.len(),
{
    if cs.len() > 0 {
        let c = cs.last();
        assert(are_comps(cs.drop_last())) by {
            assert forall|i: int| 0 <= i < cs.drop_last().len() implies {
                &&& (#[trigger] cs.drop_last()[i]).len() > 0
                &&& (i == 0 && cs.drop_last()[i] == root_comp())
                    || !cs.drop_last()[i].contains(47u8)
            } by {
                assert(cs.drop_last()[i] == cs[i]);
            }
        }
        lemma_resolved_text(cs.drop_last());
        let before = resolved_text(cs.drop_last());
        assert(cs[cs.len() - 1] == c);
        if c == dot_comp() {
        } else if c == dotdot_comp() {
            lemma_parent(before);
        } else if c == root_comp() {
            assert(c[0] == 47u8);
            assert(c.contains(47u8));
            assert(cs.len() == 1);
            assert(before =~= Seq::empty());
            assert(join_text(before, c) =~= c);
            assert(comps(c) =~= seq![c]);
            assert(resolved(cs) =~= seq![c]);
        } else {
            lemma_join_name(before, c);
        }
    }
}

/// No `.` and no `..` is left in what resolving gives.
pub proof fn law_resolved_has_no_dots(cs: Seq<Seq<u8>>)
    ensures
        forall|i: int|
            0 <= i < resolved(cs).len() ==> (#[trigger] resolved(cs)[i]) != dot_comp()
                && resolved(cs)[i] != dotdot_comp(),
    decreases cs.len(),
{
    if cs.len() > 0 {
        law_resolved_has_no_dots(cs.drop_last());
        let before = resolved(cs.drop_last());
        assert forall|i: int| 0 <= i < resolved(cs).len() implies (#[trigger] resolved(cs)[i])
            != dot_comp() && resolved(cs)[i] != dotdot_comp() by {
            if i < before.len() {
                assert(resolved(cs)[i] == before[i]);
            }
        }
    }
}

/// Resolving twice is resolving once.
pub proof fn law_resolved_is_stable(cs: Seq<Seq<u8>>)
    ensures
        resolved(resolved(cs)) == resolved(cs),
    decreases cs.len(),
{
    law_resolved_has_no_dots(cs);
    lemma_no_dots_stay(resolved(cs));
}

proof fn lemma_no_dots_stay(cs: Seq<Seq<u8>>)
    requires
        forall|i: int|
            0 <= i < cs.len() ==> (#[trigger] cs[i]) != dot_comp() && cs[i] != dotdot_comp(),
    ensures
        resolved(cs) == cs,
    decreases cs.len(),
{
    if cs.len() > 0 {
        assert(cs.last() == cs[cs.len() - 1]);
        lemma_no_dots_stay(cs.drop_last());
        assert(cs.drop_last().push(cs.last()) =~= cs);
    }
}

/// The views of some byte strings.
pub open spec fn byte_views(v: Seq<Vec<u8>>) -> Seq<Seq<u8>> {
    v.map_values(|c: Vec<u8>| c@)
}

/// A path: the bytes that write it, and the components that they write.
#[derive(Debug)]
pub struct Path {
    text: Vec<u8>,
    parts: Vec<Vec<u8>>,
}

impl View for Path {
    type V = Seq<u8>;

    closed spec fn view(&self) -> Seq<u8> {
        self.text@
    }
}

/// The position of the last slash before `n`, plus one; zero if there is none.
fn after_last_slash(t: &[u8], n: usize) -> (r: usize)
    requires
        n <= t@.len(),
    ensures
        r as int == last_index(t@.take(n as int), 47u8) + 1,
        r <= n,
{
    let mut i: usize = n;
    while i > 0
        invariant
            i <= n <= t@.len(),
            forall|j: int| i <= j < n ==> t@[j] != 47u8,
        decreases i,
    {
        if t[i - 1] == SLASH {
            proof {
                lemma_last_index_is(t@.take(n as int), 47u8, i - 1);
            }
            return i;
        }
        i -= 1;
    }
    proof {
        lemma_last_index_is(t@.take(n as int), 47u8, -1);
    }
    0
}

/// The length of the text in front of the last slash, which ends before `cut`.
fn head_len(cut: usize) -> (r: usize)
    requires
        cut > 0,
    ensures
        r == if cut == 1 {
            1
        } else {
            cut - 1
        },
{
    if cut == 1 {
        1
    } else {
        cut - 1
    }
}

fn void_piece(t: &[u8], from: usize, to: usize) -> (r: bool)
    requires
        from <= to <= t@.len(),
    ensures
        r == is_void(t@.subrange(from as int, to as int)),
{
    let ghost piece = t@.subrange(from as int, to as int);
    if from == to {
        return true;
    }
    if to - from == 1 && t[from] == DOT {
        assert(piece =~= dot_comp());
        return true;
    }
    assert(piece.len() == to - from);
    assert(piece[0] == t@[from as int]);
    false
}

fn single_slash(t: &[u8], n: usize) -> (r: bool)
    requires
        n <= t@.len(),
    ensures
        r == (t@.take(n as int) == root_comp()),
{
    let ghost u = t@.take(n as int);
    if n == 1 && t[0] == SLASH {
        assert(u =~= root_comp());
        true
    } else {
        assert(u.len() == n);
        if n == 1 {
            assert(u[0] == t@[0]);
        }
        false
    }
}

fn read_parts(t: &[u8], n: usize) -> (r: Vec<Vec<u8>>)
    requires
        n <= t@.len(),
    ensures
        byte_views(r@) == comps(t@.take(n as int)),
    decreases n,
{
    let ghost u = t@.take(n as int);
    let mut r: Vec<Vec<u8>> = Vec::new();
    if n == 0 {
        assert(byte_views(r@) =~= comps(u));
        return r;
    }
    let cut: usize = after_last_slash(t, n);
    if cut == 0 || single_slash(t, n) {
        r.push(vstd::slice::slice_to_vec(slice_subrange(t, 0, n)));
        assert(t@.subrange(0, n as int) =~= u);
        assert(byte_views(r@) =~= comps(u));
        return r;
    }
    proof {
        lemma_head(u);
        assert(t@.take(if cut == 1 {
            1
        } else {
            cut - 1
        }) =~= head(u));
        assert(t@.subrange(cut as int, n as int) =~= tail(u));
    }
    let mut r = read_parts(t, head_len(cut));
    if !void_piece(t, cut, n) {
        let ghost before = r@;
        r.push(vstd::slice::slice_to_vec(slice_subrange(t, cut, n)));
        assert(byte_views(r@) =~= byte_views(before).push(tail(u)));
    }
    r
}

/// The length of a text without what trails its last component.
fn chopped_len(t: &[u8], n: usize) -> (r: usize)
    requires
        n <= t@.len(),
    ensures
        r <= n,
        t@.take(r as int) == chopped(t@.take(n as int)),
    decreases n,
{
    let ghost u = t@.take(n as int);
    if n == 0 {
        return n;
    }
    let cut: usize = after_last_slash(t, n);
    if cut == 0 || single_slash(t, n) {
        return n;
    }
    proof {
        lemma_head(u);
        assert(t@.take(if cut == 1 {
            1
        } else {
            cut - 1
        }) =~= head(u));
        assert(t@.subrange(cut as int, n as int) =~= tail(u));
    }
    if void_piece(t, cut, n) {
        chopped_len(t, head_len(cut))
    } else {
        n
    }
}


/// Whether two lists of byte strings are the same.
fn same_parts(a: &Vec<Vec<u8>>, b: &Vec<Vec<u8>>) -> (r: bool)
    ensures
        r == (byte_views(a@) == byte_views(b@)),
{
    if a.len() != b.len() {
        assert(byte_views(a@).len() != byte_views(b@).len());
        return false;
    }
    let r = parts_begin(a, b);
    assert(byte_views(a@).take(b@.len() as int) =~= byte_views(a@));
    r
}

/// Whether one list of byte strings begins with another that is no longer.
fn parts_begin(a: &Vec<Vec<u8>>, b: &Vec<Vec<u8>>) -> (r: bool)
    requires
        b@.len() <= a@.len(),
    ensures
        r == (byte_views(a@).take(b@.len() as int) == byte_views(b@)),
{
    let mut i: usize = 0;
    while i < b.len()
        invariant
            i <= b@.len() <= a@.len(),
            forall|k: int| 0 <= k < i ==> a@[k]@ == b@[k]@,
        decreases b@.len() - i,
    {
        if !same_bytes(a[i].as_slice(), b[i].as_slice()) {
            assert(byte_views(a@).take(b@.len() as int)[i as int] == a@[i as int]@);
            assert(byte_views(b@)[i as int] == b@[i as int]@);
            return false;
        }
        i += 1;
    }
    assert(byte_views(a@).take(b@.len() as int) =~= byte_views(b@));
    true
}

/// The name that ends a path: its last component, if that is a name.
pub open spec fn name_of(t: Seq<u8>) -> Option<Seq<u8>> {
    let cs = comps(t);
    if cs.len() > 0 && cs.last() != root_comp() && cs.last() != dot_comp() && cs.last()
        != dotdot_comp() {
        Some(cs.last())
    } else {
        None
    }
}

impl Path {
    #[verifier::type_invariant]
    spec fn agrees(self) -> bool {
        byte_views(self.parts@) == comps(self.text@)
    }

    /// The components of the path.
    pub open spec fn comps(&self) -> Seq<Seq<u8>> {
        comps(self@)
    }

    /// The path that some bytes write.
    pub fn from_bytes(text: Vec<u8>) -> (r: Path)
        ensures
            r@ == text@,
    {
        let parts = read_parts(text.as_slice(), text.len());
        assert(text@.take(text@.len() as int) =~= text@);
        Path { text, parts }
    }

    /// The path that a text writes.
    pub fn new(s: &str) -> (r: Path)
        ensures
            r@ == vstd::utf8::encode_utf8(s@),
    {
        Path::from_bytes(to_bytes(s))
    }

    /// The path without components.
    pub fn empty() -> (r: Path)
        ensures
            r@ == Seq::<u8>::empty(),
    {
        Path::from_bytes(Vec::new())
    }

    /// The bytes that write the path.
    pub fn as_bytes(&self) -> (r: &[u8])
        ensures
            r@ == self@,
    {
        self.text.as_slice()
    }

    /// The same path, in storage of its own.
    pub fn copy(&self) -> (r: Path)
        ensures
            r@ == self@,
    {
        Path::from_bytes(vstd::slice::slice_to_vec(self.text.as_slice()))
    }

    /// The path as text, for people to read.
    pub fn display(&self) -> (r: String)
        ensures
            r@ == lossy_text(self@),
            vstd::utf8::valid_utf8(self@) ==> r@ == vstd::utf8::decode_utf8(self@),
    {
        read_lossy(self.text.as_slice())
    }

    /// Whether two paths have the same components.
    pub fn same(&self, other: &Path) -> (r: bool)
        ensures
            r == (self.comps() == other.comps()),
    {
        proof {
            use_type_invariant(self);
            use_type_invariant(other);
        }
        same_parts(&self.parts, &other.parts)
    }

    /// How many components the path has.
    pub fn depth(&self) -> (r: usize)
        ensures
            r as nat == self.comps().len(),
    {
        proof {
            use_type_invariant(self);
            assert(byte_views(self.parts@).len() == self.parts@.len());
        }
        self.parts.len()
    }

    /// Component number `i` of the path.
    pub fn comp(&self, i: usize) -> (r: &[u8])
        requires
            i < self.comps().len(),
        ensures
            r@ == self.comps()[i as int],
    {
        proof {
            use_type_invariant(self);
            assert(byte_views(self.parts@)[i as int] == self.parts@[i as int]@);
            assert(byte_views(self.parts@).len() == self.parts@.len());
        }
        self.parts[i].as_slice()
    }

    /// Whether the path begins at the root.
    pub fn is_absolute(&self) -> (r: bool)
        ensures
            r == (self@.len() > 0 && self@[0] == 47u8),
    {
        self.text.len() > 0 && self.text[0] == SLASH
    }

    /// Whether the components of the path begin with those of another.
    pub fn starts_with(&self, base: &Path) -> (r: bool)
        ensures
            r == base.comps().is_prefix_of(self.comps()),
    {
        proof {
            use_type_invariant(self);
            use_type_invariant(base);
            assert(byte_views(self.parts@).len() == self.parts@.len());
            assert(byte_views(base.parts@).len() == base.parts@.len());
        }
        let r = base.parts.len() <= self.parts.len() && parts_begin(&self.parts, &base.parts);
        assert(r == base.comps().is_prefix_of(self.comps())) by {
            if base.parts@.len() <= self.parts@.len() {
                assert(self.comps().take(base.comps().len() as int) =~= self.comps().subrange(
                    0,
                    base.comps().len() as int,
                ));
            }
        }
        r
    }

    /// The directory that holds the path; `None` for the root and for the
    /// empty path.
    pub fn parent(&self) -> (r: Option<Path>)
        ensures
            r is Some == parent_text(self@) is Some,
            r is Some ==> r->0@ == parent_text(self@)->0,
            r is Some ==> self.comps().len() > 0 && r->0.comps() == self.comps().drop_last(),
    {
        let t = self.text.as_slice();
        let n: usize = chopped_len(t, t.len());
        let ghost u = t@.take(n as int);
        proof {
            assert(t@.take(t@.len() as int) =~= t@);
            lemma_parent(self@);
        }
        if n == 0 || single_slash(t, n) {
            return None;
        }
        let cut: usize = after_last_slash(t, n);
        if cut == 0 {
            return Some(Path::empty());
        }
        proof {
            lemma_head(u);
            assert(t@.take(if cut == 1 {
                1
            } else {
                cut - 1
            }) =~= head(u));
        }
        let m: usize = chopped_len(t, head_len(cut));
        let up = Path::from_bytes(vstd::slice::slice_to_vec(slice_subrange(t, 0, m)));
        assert(t@.subrange(0, m as int) =~= t@.take(m as int));
        Some(up)
    }

    /// The name that ends the path.
    pub fn file_name(&self) -> (r: Option<Vec<u8>>)
        ensures
            r is Some == name_of(self@) is Some,
            r is Some ==> r->0@ == name_of(self@)->0,
    {
        let n: usize = self.depth();
        if n == 0 {
            return None;
        }
        let last = self.comp(n - 1);
        if (last.len() == 1 && (last[0] == SLASH || last[0] == DOT)) || (last.len() == 2 && last[0]
            == DOT && last[1] == DOT) {
            assert(last@ =~= root_comp() || last@ =~= dot_comp() || last@ =~= dotdot_comp());
            return None;
        }
        assert(last@ != root_comp() && last@ != dot_comp() && last@ != dotdot_comp()) by {
            assert(root_comp().len() == 1 && root_comp()[0] == 47u8);
            assert(dot_comp().len() == 1 && dot_comp()[0] == 46u8);
            assert(dotdot_comp().len() == 2 && dotdot_comp()[0] == 46u8 && dotdot_comp()[1] == 46u8);
        }
        Some(vstd::slice::slice_to_vec(last))
    }

    /// A path taken inside this one.
    pub fn join(&self, inner: &Path) -> (r: Path)
        ensures
            r@ == join_text(self@, inner@),
    {
        self.join_bytes(inner.text.as_slice())
    }

    /// What some bytes write, taken inside this path.
    pub fn join_bytes(&self, inner: &[u8]) -> (r: Path)
        ensures
            r@ == join_text(self@, inner@),
    {
        if inner.len() > 0 && inner[0] == SLASH {
            return Path::from_bytes(vstd::slice::slice_to_vec(inner));
        }
        let mut text = vstd::slice::slice_to_vec(self.text.as_slice());
        if text.len() > 0 && text[text.len() - 1] != SLASH {
            text.push(SLASH);
        }
        let mut i: usize = 0;
        let ghost start = text@;
        while i < inner.len()
            invariant
                i <= inner@.len(),
                text@ == start + inner@.take(i as int),
            decreases inner@.len() - i,
        {
            text.push(inner[i]);
            assert(start + inner@.take(i + 1) =~= (start + inner@.take(i as int)).push(
                inner@[i as int],
            ));
            i += 1;
        }
        assert(inner@.take(i as int) =~= inner@);
        Path::from_bytes(text)
    }

    /// What is left of the path after the components of `base`; `None` when
    /// the path does not begin with them.
    pub fn strip_prefix(&self, base: &Path) -> (r: Option<Path>)
        ensures
            r is Some == base.comps().is_prefix_of(self.comps()),
            r is Some ==> r->0@ == rest_text(self@, base.comps().len() as int),
            r is Some ==> r->0.comps() == self.comps().skip(base.comps().len() as int),
    {
        if !self.starts_with(base) {
            return None;
        }
        let n: usize = base.depth();
        proof {
            lemma_rest(self@, n as int);
        }
        let t = self.text.as_slice();
        assert(t@.take(t@.len() as int) =~= t@);
        if n == 0 {
            let m: usize = chopped_len(t, t.len());
            assert(t@.subrange(0, m as int) =~= t@.take(m as int));
            return Some(Path::from_bytes(vstd::slice::slice_to_vec(slice_subrange(t, 0, m))));
        }
        if n >= self.depth() {
            return Some(Path::empty());
        }
        let start: usize = find_start(t, t.len(), n);
        let rest = slice_subrange(t, start, t.len());
        assert(rest@ =~= t@.skip(start as int));
        let m: usize = chopped_len(rest, rest.len());
        assert(rest@.take(rest@.len() as int) =~= rest@);
        assert(rest@.subrange(0, m as int) =~= rest@.take(m as int));
        Some(Path::from_bytes(vstd::slice::slice_to_vec(slice_subrange(rest, 0, m))))
    }

    /// The path with its `.` and `..` resolved by reading alone: links are not
    /// followed.
    pub fn resolve(&self) -> (r: Path)
        ensures
            r@ == resolved_text(self.comps()),
            r.comps() == resolved(self.comps()),
    {
        let mut out = Path::empty();
        let n: usize = self.depth();
        let mut i: usize = 0;
        let ghost cs = self.comps();
        while i < n
            invariant
                i <= n,
                n == cs.len(),
                cs == self.comps(),
                out@ == resolved_text(cs.take(i as int)),
            decreases n - i,
        {
            let c = self.comp(i);
            assert(cs.take(i + 1).drop_last() =~= cs.take(i as int));
            assert(cs.take(i + 1).last() == c@);
            if c.len() == 1 && c[0] == DOT {
                assert(c@ =~= dot_comp());
            } else if c.len() == 2 && c[0] == DOT && c[1] == DOT {
                assert(c@ =~= dotdot_comp());
                assert(c@ != dot_comp()) by {
                    assert(dot_comp().len() == 1);
                }
                match out.parent() {
                    Some(up) => {
                        out = up;
                    },
                    None => {},
                }
            } else {
                assert(c@ != dot_comp() && c@ != dotdot_comp()) by {
                    assert(dot_comp().len() == 1 && dot_comp()[0] == 46u8);
                    assert(dotdot_comp().len() == 2 && dotdot_comp()[0] == 46u8 && dotdot_comp()[1]
                        == 46u8);
                }
                out = out.join_bytes(c);
            }
            i += 1;
        }
        proof {
            assert(cs.take(n as int) =~= cs);
            lemma_comps(self@);
            lemma_resolved_text(cs);
        }
        out
    }
}

/// Where component number `n` of a text begins.
fn find_start(t: &[u8], len: usize, n: usize) -> (r: usize)
    requires
        len <= t@.len(),
        1 <= n < comps(t@.take(len as int)).len(),
    ensures
        r as int == comp_start(t@.take(len as int), n as int),
        r <= len,
    decreases len,
{
    let ghost u = t@.take(len as int);
    let cut: usize = after_last_slash(t, len);
    proof {
        lemma_comp_start(u, n as int);
        lemma_head(u);
        assert(t@.take(if cut == 1 {
            1
        } else {
            cut - 1
        }) =~= head(u));
        assert(t@.subrange(cut as int, len as int) =~= tail(u));
    }
    let h: usize = head_len(cut);
    if void_piece(t, cut, len) || count_parts(t, h) > n {
        find_start(t, h, n)
    } else {
        cut
    }
}

/// How many components a text writes.
fn count_parts(t: &[u8], len: usize) -> (r: usize)
    requires
        len <= t@.len(),
    ensures
        r as nat == comps(t@.take(len as int)).len(),
{
    let v = read_parts(t, len);
    assert(byte_views(v@).len() == v@.len());
    v.len()
}

impl Clone for Path {
    fn clone(&self) -> (r: Path)
        ensures
            r@ == self@,
    {
        self.copy()
    }
}

impl PartialEq for Path {
    fn eq(&self, other: &Path) -> (r: bool) {
        self.same(other)
    }
}

impl vstd::std_specs::cmp::PartialEqSpecImpl for Path {
    open spec fn obeys_eq_spec() -> bool {
        true
    }

    open spec fn eq_spec(&self, other: &Path) -> bool {
        self.comps() == other.comps()
    }
}

/// A path begins with itself, and what is taken inside a path begins with it.
pub proof fn law_join_stays_inside(a: Seq<u8>, b: Seq<u8>)
    requires
        a.len() > 0,
        !(b.len() > 0 && b[0] == 47u8),
    ensures
        comps(a).is_prefix_of(comps(a)),
        comps(a).is_prefix_of(comps(join_text(a, b))),
        comps(rest_text(join_text(a, b), comps(a).len() as int)) == without_dot(comps(b)),
{
    lemma_join(a, b);
    assert(comps(a) =~= comps(a).subrange(0, comps(a).len() as int));
    let j = comps(join_text(a, b));
    assert(comps(a) =~= j.subrange(0, comps(a).len() as int));
    lemma_rest(join_text(a, b), comps(a).len() as int);
    assert(j.skip(comps(a).len() as int) =~= without_dot(comps(b)));
}

/// The parent of a name taken inside a path is that path, and the name is its
/// name.
pub proof fn law_parent_undoes_join(a: Seq<u8>, name: Seq<u8>)
    requires
        is_name(name),
    ensures
        parent_text(join_text(a, name)) is Some,
        comps(parent_text(join_text(a, name))->0) == comps(a),
        name_of(join_text(a, name)) == Some(name),
{
    lemma_join_name(a, name);
    lemma_parent(join_text(a, name));
    assert(name != root_comp()) by {
        assert(root_comp()[0] == 47u8);
    }
    assert(comps(a).push(name).last() == name);
    if comps(a).push(name) == seq![root_comp()] {
        assert(seq![root_comp()].last() == root_comp());
    }
    assert(comps(a).push(name).drop_last() =~= comps(a));
}

} // verus!
