//! Lexicographic order of sequences, given an order of their elements.
//!
//! An order is a function to an integer whose sign tells which of two values
//! comes first: negative when the first does, positive when the second does,
//! zero when the two are the same.

use vstd::prelude::*;

verus! {

/// Whether `f` orders `A` totally: swapping the arguments flips the sign, only
/// equal values compare as zero, and "not after" carries over.
pub open spec fn is_order<A>(f: spec_fn(A, A) -> int) -> bool {
    &&& forall|x: A, y: A| (#[trigger] f(x, y) < 0) == (f(y, x) > 0)
    &&& forall|x: A, y: A| (#[trigger] f(x, y) == 0) == (x == y)
    &&& forall|x: A, y: A, z: A|
        #[trigger] f(x, y) <= 0 && #[trigger] f(y, z) <= 0 ==> f(x, z) <= 0
}

/// Compare two sequences element by element; a proper prefix comes first.
pub open spec fn lex<A>(f: spec_fn(A, A) -> int, a: Seq<A>, b: Seq<A>) -> int
    decreases a.len(),
{
    if a.len() == 0 {
        if b.len() == 0 {
            0
        } else {
            -1
        }
    } else if b.len() == 0 {
        1
    } else if f(a[0], b[0]) != 0 {
        f(a[0], b[0])
    } else {
        lex(f, a.drop_first(), b.drop_first())
    }
}

/// Swapping the sequences flips the sign.
pub proof fn lemma_lex_flip<A>(f: spec_fn(A, A) -> int, a: Seq<A>, b: Seq<A>)
    requires
        is_order(f),
    ensures
        (lex(f, a, b) < 0) == (lex(f, b, a) > 0),
        (lex(f, a, b) > 0) == (lex(f, b, a) < 0),
    decreases a.len(),
{
    if a.len() > 0 && b.len() > 0 {
        let x = f(a[0], b[0]);
        let y = f(b[0], a[0]);
        assert((x < 0) == (y > 0));
        assert((y < 0) == (x > 0));
        lemma_lex_flip(f, a.drop_first(), b.drop_first());
    }
}

/// Only equal sequences compare as zero.
pub proof fn lemma_lex_zero<A>(f: spec_fn(A, A) -> int, a: Seq<A>, b: Seq<A>)
    requires
        is_order(f),
    ensures
        (lex(f, a, b) == 0) == (a == b),
    decreases a.len(),
{
    if a.len() > 0 && b.len() > 0 {
        assert((f(a[0], b[0]) == 0) == (a[0] == b[0]));
        lemma_lex_zero(f, a.drop_first(), b.drop_first());
        if a.drop_first() == b.drop_first() && a[0] == b[0] {
            assert(a =~= seq![a[0]] + a.drop_first());
            assert(b =~= seq![b[0]] + b.drop_first());
        }
    } else if lex(f, a, b) == 0 {
        assert(a =~= b);
    }
}

/// "Not after" carries over.
pub proof fn lemma_lex_carries<A>(f: spec_fn(A, A) -> int, a: Seq<A>, b: Seq<A>, c: Seq<A>)
    requires
        is_order(f),
        lex(f, a, b) <= 0,
        lex(f, b, c) <= 0,
    ensures
        lex(f, a, c) <= 0,
    decreases a.len(),
{
    if a.len() > 0 {
        assert(b.len() > 0);
        assert(c.len() > 0);
        let ab = f(a[0], b[0]);
        let bc = f(b[0], c[0]);
        let ac = f(a[0], c[0]);
        assert(ab <= 0 && bc <= 0);
        assert(ac <= 0);
        assert((f(a[0], b[0]) == 0) == (a[0] == b[0]));
        assert((f(b[0], c[0]) == 0) == (b[0] == c[0]));
        assert((f(a[0], c[0]) == 0) == (a[0] == c[0]));
        if ac == 0 {
            assert(f(b[0], a[0]) <= 0);
            assert((f(a[0], b[0]) < 0) == (f(b[0], a[0]) > 0));
            lemma_lex_carries(f, a.drop_first(), b.drop_first(), c.drop_first());
        }
    }
}

/// The order of characters by code point.
pub open spec fn char_order() -> spec_fn(char, char) -> int {
    |x: char, y: char| x as int - y as int
}

/// The order of bytes by value.
pub open spec fn byte_order() -> spec_fn(u8, u8) -> int {
    |x: u8, y: u8| x as int - y as int
}

/// Code points are totally ordered.
pub proof fn lemma_char_order()
    ensures
        is_order(char_order()),
{
}

/// Bytes are totally ordered.
pub proof fn lemma_byte_order()
    ensures
        is_order(byte_order()),
{
}

/// Whether `le` ranks `A`: of any two one is not after the other, and "not
/// after" carries over. Two values can rank the same.
pub open spec fn is_ranking<A>(le: spec_fn(A, A) -> bool) -> bool {
    &&& forall|x: A, y: A| #[trigger] le(x, y) || le(y, x)
    &&& forall|x: A, y: A, z: A| #[trigger] le(x, y) && #[trigger] le(y, z) ==> le(x, z)
}

/// `x` put into `s`, behind everything that is not after it.
pub open spec fn placed<A>(s: Seq<A>, x: A, le: spec_fn(A, A) -> bool) -> Seq<A>
    decreases s.len(),
{
    if s.len() == 0 || le(s.last(), x) {
        s.push(x)
    } else {
        placed(s.drop_last(), x, le).push(s.last())
    }
}

/// `s` in order; what ranks the same keeps its places.
pub open spec fn stable_sort<A>(s: Seq<A>, le: spec_fn(A, A) -> bool) -> Seq<A>
    decreases s.len(),
{
    if s.len() == 0 {
        s
    } else {
        placed(stable_sort(s.drop_last(), le), s.last(), le)
    }
}

/// Two sequences merged; of values that rank the same, those of `a` come first.
pub open spec fn merged<A>(a: Seq<A>, b: Seq<A>, le: spec_fn(A, A) -> bool) -> Seq<A>
    decreases a.len() + b.len(),
{
    if a.len() == 0 {
        b
    } else if b.len() == 0 {
        a
    } else if le(a.last(), b.last()) {
        merged(a, b.drop_last(), le).push(b.last())
    } else {
        merged(a.drop_last(), b, le).push(a.last())
    }
}

proof fn lemma_merged_placed<A>(a: Seq<A>, b: Seq<A>, x: A, le: spec_fn(A, A) -> bool)
    requires
        is_ranking(le),
    ensures
        placed(merged(a, b, le), x, le) == merged(a, placed(b, x, le), le),
    decreases a.len() + b.len(),
{
    if a.len() == 0 {
    } else if b.len() == 0 {
        let one = seq![x];
        assert(placed(b, x, le) =~= one);
        assert(one.drop_last() =~= b);
        if !le(a.last(), x) {
            lemma_merged_placed(a.drop_last(), b, x, le);
            assert(merged(a.drop_last(), b, le) =~= a.drop_last());
        }
    } else {
        let al = a.last();
        let bl = b.last();
        let a1 = a.drop_last();
        let b1 = b.drop_last();
        if le(bl, x) {
            assert(b.push(x).drop_last() =~= b);
            if !le(al, x) {
                assert(!le(al, bl));
                lemma_merged_placed(a1, b, x, le);
                assert(merged(a1, b, le).push(al).drop_last() =~= merged(a1, b, le));
            }
        } else {
            let pb = placed(b1, x, le);
            assert(pb.push(bl).drop_last() =~= pb);
            if le(al, bl) {
                lemma_merged_placed(a, b1, x, le);
                assert(merged(a, b1, le).push(bl).drop_last() =~= merged(a, b1, le));
            } else {
                assert(le(bl, al));
                assert(!le(al, x));
                lemma_merged_placed(a1, b, x, le);
                assert(merged(a1, b, le).push(al).drop_last() =~= merged(a1, b, le));
            }
        }
    }
}

/// Merging two sorted parts sorts the whole.
pub proof fn lemma_merge_sorts<A>(a: Seq<A>, b: Seq<A>, le: spec_fn(A, A) -> bool)
    requires
        is_ranking(le),
    ensures
        merged(stable_sort(a, le), stable_sort(b, le), le) == stable_sort(a + b, le),
    decreases b.len(),
{
    if b.len() == 0 {
        assert(a + b =~= a);
        assert(merged(stable_sort(a, le), stable_sort(b, le), le) =~= stable_sort(a, le));
    } else {
        assert((a + b).drop_last() =~= a + b.drop_last());
        lemma_merge_sorts(a, b.drop_last(), le);
        lemma_merged_placed(stable_sort(a, le), stable_sort(b.drop_last(), le), b.last(), le);
    }
}

/// Whether a sequence is in order.
pub open spec fn is_sorted<A>(s: Seq<A>, le: spec_fn(A, A) -> bool) -> bool {
    forall|i: int, j: int| 0 <= i < j < s.len() ==> le(#[trigger] s[i], #[trigger] s[j])
}

proof fn lemma_placed<A>(s: Seq<A>, x: A, le: spec_fn(A, A) -> bool)
    requires
        is_ranking(le),
        is_sorted(s, le),
    ensures
        is_sorted(placed(s, x, le), le),
        placed(s, x, le).len() == s.len() + 1,
        placed(s, x, le).to_multiset() == s.to_multiset().insert(x),
        forall|y: A| #[trigger] placed(s, x, le).contains(y) ==> y == x || s.contains(y),
    decreases s.len(),
{
    broadcast use vstd::seq_lib::group_to_multiset_ensures;

    if s.len() == 0 || le(s.last(), x) {
        assert forall|i: int, j: int| 0 <= i < j < s.push(x).len() implies le(
            #[trigger] s.push(x)[i],
            #[trigger] s.push(x)[j],
        ) by {
            if j == s.len() && i < s.len() - 1 {
                assert(le(s[i], s[s.len() - 1]));
                assert(le(s.last(), x));
            }
        }
        assert forall|y: A| #[trigger] s.push(x).contains(y) implies y == x || s.contains(y) by {
            let i = choose|i: int| 0 <= i < s.push(x).len() && s.push(x)[i] == y;
            if i < s.len() {
                assert(s[i] == y);
            }
        }
    } else {
        let init = s.drop_last();
        let l = s.last();
        assert(is_sorted(init, le)) by {
            assert forall|i: int, j: int| 0 <= i < j < init.len() implies le(
                #[trigger] init[i],
                #[trigger] init[j],
            ) by {
                assert(le(s[i], s[j]));
            }
        }
        lemma_placed(init, x, le);
        let p = placed(init, x, le);
        assert(le(x, l));
        assert forall|i: int, j: int| 0 <= i < j < p.push(l).len() implies le(
            #[trigger] p.push(l)[i],
            #[trigger] p.push(l)[j],
        ) by {
            if j < p.len() {
                assert(le(p[i], p[j]));
            } else {
                assert(p.contains(p[i]));
                if p[i] != x {
                    let k = choose|k: int| 0 <= k < init.len() && init[k] == p[i];
                    assert(le(s[k], s[s.len() - 1]));
                }
            }
        }
        assert forall|y: A| #[trigger] p.push(l).contains(y) implies y == x || s.contains(y) by {
            let i = choose|i: int| 0 <= i < p.push(l).len() && p.push(l)[i] == y;
            if i < p.len() {
                assert(p.contains(y));
                if y != x {
                    let k = choose|k: int| 0 <= k < init.len() && init[k] == y;
                    assert(s[k] == y);
                }
            } else {
                assert(s[s.len() - 1] == y);
            }
        }
        assert(s =~= init.push(l));
        assert(init.to_multiset().insert(x).insert(l) =~= init.to_multiset().insert(l).insert(x));
    }
}

/// A stable sort puts a sequence in order and keeps each of its values.
pub proof fn law_stable_sort<A>(s: Seq<A>, le: spec_fn(A, A) -> bool)
    requires
        is_ranking(le),
    ensures
        is_sorted(stable_sort(s, le), le),
        stable_sort(s, le).len() == s.len(),
        stable_sort(s, le).to_multiset() == s.to_multiset(),
        forall|y: A| #[trigger] stable_sort(s, le).contains(y) ==> s.contains(y),
    decreases s.len(),
{
    broadcast use vstd::seq_lib::group_to_multiset_ensures;

    if s.len() > 0 {
        let init = s.drop_last();
        law_stable_sort(init, le);
        lemma_placed(stable_sort(init, le), s.last(), le);
        assert(s =~= init.push(s.last()));
        assert forall|y: A| #[trigger] stable_sort(s, le).contains(y) implies s.contains(y) by {
            if y != s.last() {
                assert(stable_sort(init, le).contains(y));
                let k = choose|k: int| 0 <= k < init.len() && init[k] == y;
                assert(s[k] == y);
            } else {
                assert(s[s.len() - 1] == y);
            }
        }
    }
}

/// What is in order stays as it is.
pub proof fn law_sorted_stays<A>(s: Seq<A>, le: spec_fn(A, A) -> bool)
    requires
        is_sorted(s, le),
    ensures
        stable_sort(s, le) == s,
    decreases s.len(),
{
    if s.len() > 0 {
        let init = s.drop_last();
        assert(is_sorted(init, le)) by {
            assert forall|i: int, j: int| 0 <= i < j < init.len() implies le(
                #[trigger] init[i],
                #[trigger] init[j],
            ) by {
                assert(le(s[i], s[j]));
            }
        }
        law_sorted_stays(init, le);
        if init.len() > 0 {
            assert(le(s[s.len() - 2], s[s.len() - 1]));
        }
        assert(init.push(s.last()) =~= s);
    }
}

/// Sorting values and taking something of each is taking it of each and
/// sorting that, when the one order goes by the other.
pub proof fn lemma_sort_maps<A, B>(
    s: Seq<A>,
    f: spec_fn(A) -> B,
    ale: spec_fn(A, A) -> bool,
    ble: spec_fn(B, B) -> bool,
)
    requires
        forall|x: A, y: A| #[trigger] ale(x, y) == ble(f(x), f(y)),
    ensures
        stable_sort(s, ale).map_values(f) == stable_sort(s.map_values(f), ble),
    decreases s.len(),
{
    if s.len() == 0 {
        assert(stable_sort(s, ale).map_values(f) =~= stable_sort(s.map_values(f), ble));
    } else {
        lemma_sort_maps(s.drop_last(), f, ale, ble);
        assert(s.map_values(f).drop_last() =~= s.drop_last().map_values(f));
        lemma_placed_maps(stable_sort(s.drop_last(), ale), s.last(), f, ale, ble);
    }
}

proof fn lemma_placed_maps<A, B>(
    s: Seq<A>,
    x: A,
    f: spec_fn(A) -> B,
    ale: spec_fn(A, A) -> bool,
    ble: spec_fn(B, B) -> bool,
)
    requires
        forall|x: A, y: A| #[trigger] ale(x, y) == ble(f(x), f(y)),
    ensures
        placed(s, x, ale).map_values(f) == placed(s.map_values(f), f(x), ble),
    decreases s.len(),
{
    let m = s.map_values(f);
    if s.len() == 0 || ale(s.last(), x) {
        assert(s.push(x).map_values(f) =~= m.push(f(x)));
    } else {
        assert(m.last() == f(s.last()));
        lemma_placed_maps(s.drop_last(), x, f, ale, ble);
        assert(m.drop_last() =~= s.drop_last().map_values(f));
        assert(placed(s.drop_last(), x, ale).push(s.last()).map_values(f) =~= placed(
            s.drop_last(),
            x,
            ale,
        ).map_values(f).push(f(s.last())));
    }
}

/// Merges two lists of numbers below `n`, by an order that `le` computes.
fn merge_indices<F: Fn(usize, usize) -> bool>(
    a: &Vec<usize>,
    b: &Vec<usize>,
    n: usize,
    le: &F,
    Ghost(sle): Ghost<spec_fn(usize, usize) -> bool>,
) -> (r: Vec<usize>)
    requires
        forall|i: int| 0 <= i < a@.len() ==> #[trigger] a@[i] < n,
        forall|i: int| 0 <= i < b@.len() ==> #[trigger] b@[i] < n,
        forall|p: usize, q: usize| p < n && q < n ==> #[trigger] call_requires(*le, (p, q)),
        forall|p: usize, q: usize, c: bool| #[trigger]
            call_ensures(*le, (p, q), c) ==> c == sle(p, q),
    ensures
        r@ == merged(a@, b@, sle),
{
    let mut i: usize = a.len();
    let mut j: usize = b.len();
    let mut back: Vec<usize> = Vec::new();
    proof {
        assert(a@.take(i as int) =~= a@);
        assert(b@.take(j as int) =~= b@);
        assert(merged(a@, b@, sle) =~= merged(a@, b@, sle) + back@.reverse());
    }
    while i > 0 || j > 0
        invariant
            i <= a@.len(),
            j <= b@.len(),
            forall|i: int| 0 <= i < a@.len() ==> #[trigger] a@[i] < n,
            forall|i: int| 0 <= i < b@.len() ==> #[trigger] b@[i] < n,
            forall|p: usize, q: usize| p < n && q < n ==> #[trigger] call_requires(*le, (p, q)),
            forall|p: usize, q: usize, c: bool| #[trigger]
                call_ensures(*le, (p, q), c) ==> c == sle(p, q),
            merged(a@, b@, sle) == merged(a@.take(i as int), b@.take(j as int), sle)
                + back@.reverse(),
        decreases i + j,
    {
        let ghost ta = a@.take(i as int);
        let ghost tb = b@.take(j as int);
        let ghost before = back@;
        let ghost whole = merged(ta, tb, sle);
        let from_b = if i == 0 {
            true
        } else if j == 0 {
            false
        } else {
            assert(ta.last() == a@[i - 1]);
            assert(tb.last() == b@[j - 1]);
            le(a[i - 1], b[j - 1])
        };
        if from_b {
            let p: usize = b[j - 1];
            back.push(p);
            j -= 1;
            proof {
                assert(tb.drop_last() =~= b@.take(j as int));
                if i == 0 {
                    assert(whole =~= tb.drop_last().push(p));
                }
                assert(whole =~= merged(ta, tb.drop_last(), sle).push(p));
            }
        } else {
            let p: usize = a[i - 1];
            back.push(p);
            i -= 1;
            proof {
                assert(ta.drop_last() =~= a@.take(i as int));
                if j == 0 {
                    assert(tb =~= Seq::empty());
                    assert(merged(ta.drop_last(), tb, sle) =~= ta.drop_last());
                    assert(whole =~= ta.drop_last().push(p));
                }
                assert(whole =~= merged(ta.drop_last(), tb, sle).push(p));
            }
        }
        proof {
            let p = back@.last();
            let now = merged(a@.take(i as int), b@.take(j as int), sle);
            assert(back@.reverse() =~= seq![p] + before.reverse());
            assert(whole =~= now.push(p));
            assert(whole + before.reverse() =~= now + back@.reverse());
        }
    }
    assert(a@.take(0) =~= Seq::empty());
    assert(b@.take(0) =~= Seq::empty());
    assert(merged(a@, b@, sle) =~= back@.reverse());
    let mut out: Vec<usize> = Vec::new();
    let mut k: usize = back.len();
    assert(back@.skip(k as int).reverse() =~= out@);
    while k > 0
        invariant
            k <= back@.len(),
            out@ == back@.skip(k as int).reverse(),
        decreases k,
    {
        k -= 1;
        out.push(back[k]);
        assert(back@.skip(k as int) =~= seq![back@[k as int]] + back@.skip(k + 1));
        assert(out@ =~= back@.skip(k as int).reverse());
    }
    assert(back@.skip(0) =~= back@);
    out
}

/// Sorts a list of numbers below `n`, by an order that `le` computes.
pub(crate) fn sort_indices<F: Fn(usize, usize) -> bool>(
    v: Vec<usize>,
    n: usize,
    le: &F,
    Ghost(sle): Ghost<spec_fn(usize, usize) -> bool>,
) -> (r: Vec<usize>)
    requires
        is_ranking(sle),
        forall|i: int| 0 <= i < v@.len() ==> #[trigger] v@[i] < n,
        forall|p: usize, q: usize| p < n && q < n ==> #[trigger] call_requires(*le, (p, q)),
        forall|p: usize, q: usize, c: bool| #[trigger]
            call_ensures(*le, (p, q), c) ==> c == sle(p, q),
    ensures
        r@ == stable_sort(v@, sle),
    decreases v@.len(),
{
    let len: usize = v.len();
    if len <= 1 {
        proof {
            if len == 1 {
                assert(v@.drop_last() =~= Seq::empty());
                assert(stable_sort(v@.drop_last(), sle) =~= Seq::empty());
                assert(stable_sort(v@, sle) =~= v@);
            }
        }
        return v;
    }
    let half: usize = len / 2;
    let a = vstd::slice::slice_to_vec(vstd::slice::slice_subrange(v.as_slice(), 0, half));
    let b = vstd::slice::slice_to_vec(vstd::slice::slice_subrange(v.as_slice(), half, len));
    let ghost ga = a@;
    let ghost gb = b@;
    proof {
        assert(v@ =~= ga + gb);
        lemma_merge_sorts(ga, gb, sle);
        law_stable_sort(ga, sle);
        law_stable_sort(gb, sle);
    }
    let a = sort_indices(a, n, le, Ghost(sle));
    let b = sort_indices(b, n, le, Ghost(sle));
    proof {
        assert forall|i: int| 0 <= i < a@.len() implies #[trigger] a@[i] < n by {
            assert(stable_sort(ga, sle).contains(a@[i]));
            let k = choose|k: int| 0 <= k < ga.len() && ga[k] == a@[i];
            assert(v@[k] < n);
        }
        assert forall|i: int| 0 <= i < b@.len() implies #[trigger] b@[i] < n by {
            assert(stable_sort(gb, sle).contains(b@[i]));
            let k = choose|k: int| 0 <= k < gb.len() && gb[k] == b@[i];
            assert(v@[half + k] < n);
        }
    }
    merge_indices(&a, &b, n, le, Ghost(sle))
}

} // verus!
