//! Sets and maps of paths, kept in the order of their components.

use vstd::prelude::*;

use crate::order::{byte_order, is_order, lemma_byte_order, lemma_lex_flip};
use crate::order::{lemma_lex_carries, lemma_lex_zero, lex};
use crate::path::{comps, dot_comp, dotdot_comp, root_comp, Path};

verus! {

/// The rank of a component: the root first, `.` and `..` before names.
pub open spec fn comp_rank(c: Seq<u8>) -> int {
    if c == root_comp() {
        0
    } else if c == dot_comp() {
        1
    } else if c == dotdot_comp() {
        2
    } else {
        3
    }
}

/// The order of components: by rank, and names by their bytes.
pub open spec fn comp_order() -> spec_fn(Seq<u8>, Seq<u8>) -> int {
    |a: Seq<u8>, b: Seq<u8>|
        if comp_rank(a) != comp_rank(b) {
            comp_rank(a) - comp_rank(b)
        } else {
            lex(byte_order(), a, b)
        }
}

/// Components are totally ordered.
pub proof fn lemma_comp_order()
    ensures
        is_order(comp_order()),
{
    lemma_byte_order();
    let f = comp_order();
    assert forall|x: Seq<u8>, y: Seq<u8>| (#[trigger] f(x, y) < 0) == (f(y, x) > 0) by {
        lemma_lex_flip(byte_order(), x, y);
    }
    assert forall|x: Seq<u8>, y: Seq<u8>| (#[trigger] f(x, y) == 0) == (x == y) by {
        lemma_lex_zero(byte_order(), x, y);
    }
    assert forall|x: Seq<u8>, y: Seq<u8>, z: Seq<u8>|
        #[trigger] f(x, y) <= 0 && #[trigger] f(y, z) <= 0 implies f(x, z) <= 0 by {
        if comp_rank(x) == comp_rank(y) && comp_rank(y) == comp_rank(z) {
            lemma_lex_carries(byte_order(), x, y, z);
        }
    }
}

/// The order of paths: component by component.
pub open spec fn path_order(a: Seq<Seq<u8>>, b: Seq<Seq<u8>>) -> int {
    lex(comp_order(), a, b)
}

/// The order of paths is one, and the other way round the other way round.
pub proof fn lemma_path_order(a: Seq<Seq<u8>>, b: Seq<Seq<u8>>)
    ensures
        (path_order(a, b) < 0) == (path_order(b, a) > 0),
        (path_order(a, b) > 0) == (path_order(b, a) < 0),
        (path_order(a, b) == 0) == (a == b),
{
    lemma_comp_order();
    lemma_lex_flip(comp_order(), a, b);
    lemma_lex_zero(comp_order(), a, b);
}

proof fn lemma_path_order_carries(a: Seq<Seq<u8>>, b: Seq<Seq<u8>>, c: Seq<Seq<u8>>)
    requires
        path_order(a, b) <= 0,
        path_order(b, c) <= 0,
    ensures
        path_order(a, c) <= 0,
        path_order(a, b) < 0 || path_order(b, c) < 0 ==> path_order(a, c) < 0,
{
    lemma_comp_order();
    lemma_lex_carries(comp_order(), a, b, c);
    lemma_path_order(a, c);
    lemma_path_order(a, b);
    lemma_path_order(b, c);
}

fn rank_of(c: &[u8]) -> (r: i8)
    ensures
        r as int == comp_rank(c@),
{
    proof {
        assert(root_comp().len() == 1 && root_comp()[0] == 47u8);
        assert(dot_comp().len() == 1 && dot_comp()[0] == 46u8);
        assert(dotdot_comp().len() == 2 && dotdot_comp()[0] == 46u8 && dotdot_comp()[1] == 46u8);
    }
    if c.len() == 1 && c[0] == 47 {
        assert(c@ =~= root_comp());
        0
    } else if c.len() == 1 && c[0] == 46 {
        assert(c@ =~= dot_comp());
        1
    } else if c.len() == 2 && c[0] == 46 && c[1] == 46 {
        assert(c@ =~= dotdot_comp());
        2
    } else {
        3
    }
}

fn compare_bytes(a: &[u8], b: &[u8]) -> (r: i8)
    ensures
        (r < 0) == (lex(byte_order(), a@, b@) < 0),
        (r > 0) == (lex(byte_order(), a@, b@) > 0),
{
    let mut i: usize = 0;
    assert(a@.skip(0) =~= a@);
    assert(b@.skip(0) =~= b@);
    while i < a.len() && i < b.len()
        invariant
            i <= a@.len(),
            i <= b@.len(),
            lex(byte_order(), a@, b@) == lex(byte_order(), a@.skip(i as int), b@.skip(i as int)),
        decreases a@.len() - i,
    {
        assert(a@.skip(i as int)[0] == a@[i as int]);
        assert(b@.skip(i as int)[0] == b@[i as int]);
        if a[i] < b[i] {
            return -1;
        }
        if a[i] > b[i] {
            return 1;
        }
        assert(a@.skip(i as int).drop_first() =~= a@.skip(i + 1));
        assert(b@.skip(i as int).drop_first() =~= b@.skip(i + 1));
        i += 1;
    }
    if i < a.len() {
        1
    } else if i < b.len() {
        -1
    } else {
        0
    }
}

fn compare_comps(a: &[u8], b: &[u8]) -> (r: i8)
    ensures
        (r < 0) == (comp_order()(a@, b@) < 0),
        (r > 0) == (comp_order()(a@, b@) > 0),
{
    let x: i8 = rank_of(a);
    let y: i8 = rank_of(b);
    if x < y {
        -1
    } else if x > y {
        1
    } else {
        compare_bytes(a, b)
    }
}

/// The sign of the order of two paths: -1, 0 or 1.
pub fn compare_paths(a: &Path, b: &Path) -> (r: i8)
    ensures
        (r < 0) == (path_order(a.comps(), b.comps()) < 0),
        (r > 0) == (path_order(a.comps(), b.comps()) > 0),
{
    let n: usize = a.depth();
    let m: usize = b.depth();
    let mut i: usize = 0;
    let ghost x = a.comps();
    let ghost y = b.comps();
    assert(x.skip(0) =~= x);
    assert(y.skip(0) =~= y);
    while i < n && i < m
        invariant
            i <= n,
            i <= m,
            n == x.len(),
            m == y.len(),
            x == a.comps(),
            y == b.comps(),
            path_order(x, y) == path_order(x.skip(i as int), y.skip(i as int)),
        decreases n - i,
    {
        let c: i8 = compare_comps(a.comp(i), b.comp(i));
        assert(x.skip(i as int)[0] == x[i as int]);
        assert(y.skip(i as int)[0] == y[i as int]);
        if c != 0 {
            return c;
        }
        assert(x.skip(i as int).drop_first() =~= x.skip(i + 1));
        assert(y.skip(i as int).drop_first() =~= y.skip(i + 1));
        i += 1;
    }
    if i < n {
        1
    } else if i < m {
        -1
    } else {
        0
    }
}

/// A map from paths: at most one value for each list of components.
#[derive(Debug)]
pub struct PathMap<V> {
    keys: Vec<Path>,
    values: Vec<V>,
}

/// The place of a key among some paths.
spec fn place(keys: Seq<Path>, k: Seq<Seq<u8>>) -> int {
    choose|i: int| 0 <= i < keys.len() && (#[trigger] keys[i]).comps() == k
}

spec fn holds_key(keys: Seq<Path>, k: Seq<Seq<u8>>) -> bool {
    exists|i: int| 0 <= i < keys.len() && (#[trigger] keys[i]).comps() == k
}

/// The components of some paths.
pub open spec fn comps_of(keys: Seq<Path>) -> Seq<Seq<Seq<u8>>> {
    keys.map_values(|p: Path| p.comps())
}

/// Whether paths stand in their order, none twice.
pub open spec fn in_order(keys: Seq<Seq<Seq<u8>>>) -> bool {
    forall|i: int, j: int| 0 <= i < j < keys.len() ==> path_order(keys[i], keys[j]) < 0
}

impl<V> View for PathMap<V> {
    type V = Map<Seq<Seq<u8>>, V>;

    closed spec fn view(&self) -> Map<Seq<Seq<u8>>, V> {
        Map::new(
            |k: Seq<Seq<u8>>| holds_key(self.keys@, k),
            |k: Seq<Seq<u8>>| self.values@[place(self.keys@, k)],
        )
    }
}

/// Where a path stands among others that are in order, or where it would.
fn find(keys: &Vec<Path>, k: &Path) -> (r: (bool, usize))
    requires
        in_order(comps_of(keys@)),
    ensures
        r.1 <= keys@.len(),
        r.0 ==> r.1 < keys@.len() && keys@[r.1 as int].comps() == k.comps(),
        forall|i: int| 0 <= i < r.1 ==> path_order(#[trigger] keys@[i].comps(), k.comps()) < 0,
        forall|i: int|
            r.1 <= i < keys@.len() && (r.0 ==> i > r.1) ==> path_order(
                #[trigger] keys@[i].comps(),
                k.comps(),
            ) > 0,
{
    let mut lo: usize = 0;
    let mut hi: usize = keys.len();
    let ghost cs = comps_of(keys@);
    while lo < hi
        invariant
            lo <= hi <= keys@.len(),
            in_order(cs),
            cs == comps_of(keys@),
            forall|i: int| 0 <= i < lo ==> path_order(#[trigger] keys@[i].comps(), k.comps()) < 0,
            forall|i: int|
                hi <= i < keys@.len() ==> path_order(#[trigger] keys@[i].comps(), k.comps()) > 0,
        decreases hi - lo,
    {
        let mid: usize = lo + (hi - lo) / 2;
        let c: i8 = compare_paths(&keys[mid], k);
        let ghost m = keys@[mid as int].comps();
        proof {
            assert forall|i: int| 0 <= i < mid implies path_order(
                #[trigger] keys@[i].comps(),
                m,
            ) < 0 by {
                assert(cs[i] == keys@[i].comps());
                assert(cs[mid as int] == m);
            }
            assert forall|i: int| mid < i < keys@.len() implies path_order(
                m,
                #[trigger] keys@[i].comps(),
            ) < 0 by {
                assert(cs[i] == keys@[i].comps());
                assert(cs[mid as int] == m);
            }
            assert forall|i: int| c <= 0 && 0 <= i < mid implies path_order(
                #[trigger] keys@[i].comps(),
                k.comps(),
            ) < 0 by {
                lemma_path_order_carries(keys@[i].comps(), m, k.comps());
            }
            assert forall|i: int| c >= 0 && mid < i < keys@.len() implies path_order(
                #[trigger] keys@[i].comps(),
                k.comps(),
            ) > 0 by {
                lemma_path_order(k.comps(), m);
                lemma_path_order(k.comps(), keys@[i].comps());
                lemma_path_order_carries(k.comps(), m, keys@[i].comps());
            }
            lemma_path_order(m, k.comps());
        }
        if c == 0 {
            return (true, mid);
        }
        if c < 0 {
            lo = mid + 1;
        } else {
            hi = mid;
        }
    }
    (false, lo)
}

impl<V> PathMap<V> {
    #[verifier::type_invariant]
    spec fn ordered(self) -> bool {
        &&& self.keys@.len() == self.values@.len()
        &&& in_order(comps_of(self.keys@))
    }

    /// The keys, in order, as they are kept.
    pub closed spec fn spec_paths(&self) -> Seq<Path> {
        self.keys@
    }

    /// The keys, in order.
    pub open spec fn spec_keys(&self) -> Seq<Seq<Seq<u8>>> {
        comps_of(self.spec_paths())
    }

    proof fn lemma_place(&self, i: int)
        requires
            self.ordered(),
            0 <= i < self.keys@.len(),
        ensures
            self@.contains_key(self.keys@[i].comps()),
            self@[self.keys@[i].comps()] == self.values@[i],
    {
        let k = self.keys@[i].comps();
        let j = place(self.keys@, k);
        let cs = comps_of(self.keys@);
        assert(cs[i] == k && cs[j] == k);
        lemma_path_order(k, k);
    }

    /// The map without entries.
    pub fn new() -> (r: PathMap<V>)
        ensures
            r@ == Map::<Seq<Seq<u8>>, V>::empty(),
            r.spec_keys() == Seq::<Seq<Seq<u8>>>::empty(),
    {
        let r = PathMap { keys: Vec::new(), values: Vec::new() };
        assert(comps_of(r.keys@) =~= Seq::empty());
        assert(r@ =~= Map::<Seq<Seq<u8>>, V>::empty());
        r
    }

    /// How many entries there are.
    pub fn len(&self) -> (r: usize)
        ensures
            r as nat == self.spec_keys().len(),
            self@.dom().finite(),
            r as nat == self@.dom().len(),
    {
        let _keys = self.keys_are();
        proof {
            let ks = self.spec_keys();
            assert(self@.dom() =~= ks.to_set()) by {
                assert forall|k: Seq<Seq<u8>>|
                    ks.to_set().contains(k) == #[trigger] self@.dom().contains(k) by {
                    assert(ks.contains(k) <==> self@.contains_key(k));
                }
            }
            assert(ks.no_duplicates()) by {
                assert forall|i: int, j: int|
                    0 <= i < ks.len() && 0 <= j < ks.len() && i != j implies ks[i] != ks[j] by {
                    lemma_path_order(ks[i], ks[j]);
                    lemma_path_order(ks[j], ks[i]);
                    if i < j {
                        assert(path_order(ks[i], ks[j]) < 0);
                    } else {
                        assert(path_order(ks[j], ks[i]) < 0);
                    }
                }
            }
            ks.unique_seq_to_set();
            vstd::seq_lib::seq_to_set_is_finite(ks);
        }
        self.keys.len()
    }

    /// What the keys are in order: each key of the map once, in path order.
    pub fn keys_are(&self) -> (r: Ghost<Seq<Seq<Seq<u8>>>>)
        ensures
            r@ == self.spec_keys(),
            in_order(self.spec_keys()),
            forall|k: Seq<Seq<u8>>|
                self.spec_keys().contains(k) <==> #[trigger] self@.contains_key(k),
    {
        proof {
            use_type_invariant(self);
            let ks = self.spec_keys();
            assert forall|k: Seq<Seq<u8>>|
                ks.contains(k) <==> #[trigger] self@.contains_key(k) by {
                if ks.contains(k) {
                    let i = choose|i: int| 0 <= i < ks.len() && ks[i] == k;
                    assert(self.keys@[i].comps() == k);
                }
                if self@.contains_key(k) {
                    let i = place(self.keys@, k);
                    assert(ks[i] == k);
                }
            }
        }
        Ghost(self.spec_keys())
    }

    /// Whether there are no entries.
    pub fn is_empty(&self) -> (r: bool)
        ensures
            r == (self@ == Map::<Seq<Seq<u8>>, V>::empty()),
    {
        proof {
            use_type_invariant(self);
            if self.keys@.len() > 0 {
                self.lemma_place(0);
            } else {
                assert(self@ =~= Map::<Seq<Seq<u8>>, V>::empty());
            }
        }
        self.keys.len() == 0
    }

    /// Key number `i`, in order.
    pub fn key_at(&self, i: usize) -> (r: &Path)
        requires
            i < self.spec_keys().len(),
        ensures
            *r == self.spec_paths()[i as int],
            r.comps() == self.spec_keys()[i as int],
            self@.contains_key(r.comps()),
    {
        proof {
            use_type_invariant(self);
            self.lemma_place(i as int);
        }
        &self.keys[i]
    }

    /// The value of key number `i`, in order.
    pub fn value_at(&self, i: usize) -> (r: &V)
        requires
            i < self.spec_keys().len(),
        ensures
            self@.contains_key(self.spec_keys()[i as int]),
            *r == self@[self.spec_keys()[i as int]],
    {
        proof {
            use_type_invariant(self);
            self.lemma_place(i as int);
        }
        &self.values[i]
    }

    /// Whether a path has a value.
    pub fn contains(&self, k: &Path) -> (r: bool)
        ensures
            r == self@.contains_key(k.comps()),
    {
        self.get(k).is_some()
    }

    /// The value of a path.
    pub fn get(&self, k: &Path) -> (r: Option<&V>)
        ensures
            r is Some == self@.contains_key(k.comps()),
            r is Some ==> *r->0 == self@[k.comps()],
    {
        proof {
            use_type_invariant(self);
        }
        let (found, at): (bool, usize) = find(&self.keys, k);
        if found {
            proof {
                self.lemma_place(at as int);
            }
            Some(&self.values[at])
        } else {
            proof {
                lemma_path_order(k.comps(), k.comps());
                if holds_key(self.keys@, k.comps()) {
                    let i = place(self.keys@, k.comps());
                    assert(self.keys@[i].comps() == k.comps());
                }
            }
            None
        }
    }

    /// Gives a path a value, in place of the one that it had.
    pub fn insert(&mut self, k: Path, v: V)
        ensures
            final(self)@ == old(self)@.insert(k.comps(), v),
    {
        proof {
            use_type_invariant(&*self);
        }
        let (found, at): (bool, usize) = find(&self.keys, &k);
        let ghost before = *self;
        let mut taken: PathMap<V> = PathMap::new();
        std::mem::swap(&mut taken, self);
        let mut keys = taken.keys;
        let mut values = taken.values;
        let ghost kc = k.comps();
        if found {
            values.set(at, v);
        } else {
            keys.insert(at, k);
            values.insert(at, v);
        }
        proof {
            let old_cs = comps_of(before.keys@);
            let cs = comps_of(keys@);
            assert forall|i: int, j: int| 0 <= i < j < cs.len() implies path_order(cs[i], cs[j])
                < 0 by {
                if !found {
                    let oi = if i < at { i } else { i - 1 };
                    let oj = if j < at { j } else { j - 1 };
                    assert(i == at || cs[i] == old_cs[oi]);
                    assert(j == at || cs[j] == old_cs[oj]);
                    if i == at {
                        assert(cs[i] == kc);
                        assert(path_order(before.keys@[oj].comps(), kc) > 0);
                        lemma_path_order(before.keys@[oj].comps(), kc);
                    } else if j == at {
                        assert(path_order(before.keys@[oi].comps(), kc) < 0);
                    }
                } else {
                    assert(cs =~= old_cs);
                }
            }
        }
        *self = PathMap { keys, values };
        proof {
            let after = *self;
            assert(after@ =~= before@.insert(kc, v)) by {
                after.lemma_place(at as int);
                assert(after.keys@[at as int].comps() == kc);
                assert forall|q: Seq<Seq<u8>>| q != kc implies (#[trigger] after@.contains_key(q)
                    == before@.contains_key(q)) && (before@.contains_key(q) ==> after@[q]
                    == before@[q]) by {
                    if before@.contains_key(q) {
                        let i = place(before.keys@, q);
                        let ni = if found || i < at { i } else { i + 1 };
                        assert(after.keys@[ni] == before.keys@[i]);
                        after.lemma_place(ni);
                        before.lemma_place(i);
                    }
                    if after@.contains_key(q) {
                        let i = place(after.keys@, q);
                        let oi = if found || i < at { i } else { i - 1 };
                        assert(before.keys@[oi] == after.keys@[i]);
                        before.lemma_place(oi);
                    }
                }
            }
        }
    }

    /// Takes a path's value away.
    pub fn remove(&mut self, k: &Path) -> (r: Option<V>)
        ensures
            final(self)@ == old(self)@.remove(k.comps()),
            r is Some == old(self)@.contains_key(k.comps()),
            r is Some ==> r->0 == old(self)@[k.comps()],
    {
        proof {
            use_type_invariant(&*self);
        }
        let (found, at): (bool, usize) = find(&self.keys, k);
        let ghost before = *self;
        if !found {
            proof {
                lemma_path_order(k.comps(), k.comps());
                if holds_key(self.keys@, k.comps()) {
                    let i = place(self.keys@, k.comps());
                    assert(self.keys@[i].comps() == k.comps());
                }
                assert(before@ =~= before@.remove(k.comps()));
            }
            return None;
        }
        let mut taken: PathMap<V> = PathMap::new();
        std::mem::swap(&mut taken, self);
        let mut keys = taken.keys;
        let mut values = taken.values;
        let gone = keys.remove(at);
        let v = values.remove(at);
        proof {
            let old_cs = comps_of(before.keys@);
            let cs = comps_of(keys@);
            assert forall|i: int, j: int| 0 <= i < j < cs.len() implies path_order(cs[i], cs[j])
                < 0 by {
                let oi = if i < at { i } else { i + 1 };
                let oj = if j < at { j } else { j + 1 };
                assert(cs[i] == old_cs[oi]);
                assert(cs[j] == old_cs[oj]);
            }
        }
        *self = PathMap { keys, values };
        proof {
            let after = *self;
            before.lemma_place(at as int);
            assert(after@ =~= before@.remove(k.comps())) by {
                assert forall|q: Seq<Seq<u8>>| (#[trigger] after@.contains_key(q) == (q != k.comps()
                    && before@.contains_key(q))) && (after@.contains_key(q) ==> after@[q]
                    == before@[q]) by {
                    if before@.contains_key(q) && q != k.comps() {
                        let i = place(before.keys@, q);
                        let ni = if i < at { i } else { i - 1 };
                        assert(after.keys@[ni] == before.keys@[i]);
                        after.lemma_place(ni);
                        before.lemma_place(i);
                    }
                    if after@.contains_key(q) {
                        let i = place(after.keys@, q);
                        let oi = if i < at { i } else { i + 1 };
                        assert(before.keys@[oi] == after.keys@[i]);
                        before.lemma_place(oi);
                        after.lemma_place(i);
                        lemma_path_order(before.keys@[oi].comps(), k.comps());
                    }
                }
            }
        }
        Some(v)
    }
}

/// Whether two maps have the same entries, where `same` compares values.
pub fn same_map<V>(a: &PathMap<V>, b: &PathMap<V>, same: impl Fn(&V, &V) -> bool) -> (r: bool)
    requires
        forall|x: &V, y: &V| #[trigger] call_requires(same, (x, y)),
        forall|x: &V, y: &V, b: bool| #[trigger] call_ensures(same, (x, y), b) ==> b == (*x == *y),
    ensures
        r == (a@ == b@),
{
    let n: usize = a.len();
    if n != b.len() {
        return false;
    }
    let _keys = a.keys_are();
    let mut i: usize = 0;
    while i < n
        invariant
            i <= n,
            n == a.spec_keys().len(),
            forall|x: &V, y: &V| #[trigger] call_requires(same, (x, y)),
            forall|x: &V, y: &V, b: bool| #[trigger]
                call_ensures(same, (x, y), b) ==> b == (*x == *y),
            forall|j: int|
                0 <= j < i ==> b@.contains_key(#[trigger] a.spec_keys()[j])
                    && b@[a.spec_keys()[j]] == a@[a.spec_keys()[j]],
        decreases n - i,
    {
        let alike = match b.get(a.key_at(i)) {
            Some(v) => same(v, a.value_at(i)),
            None => false,
        };
        if !alike {
            return false;
        }
        i += 1;
    }
    proof {
        assert forall|k: Seq<Seq<u8>>| a@.dom().contains(k) implies #[trigger] b@.dom().contains(k)
            && b@[k] == a@[k] by {
            assert(a@.contains_key(k));
            assert(a.spec_keys().contains(k));
            let j = choose|j: int| 0 <= j < a.spec_keys().len() && a.spec_keys()[j] == k;
            assert(b@.contains_key(a.spec_keys()[j]));
        }
        assert(a@.dom().subset_of(b@.dom()));
        vstd::set_lib::lemma_subset_equality(a@.dom(), b@.dom());
        assert(a@ =~= b@);
    }
    true
}

/// Some paths put in their order.
pub open spec fn ordered(s: Set<Seq<Seq<u8>>>) -> Seq<Seq<Seq<u8>>> {
    choose|q: Seq<Seq<Seq<u8>>>|
        in_order(q) && forall|k: Seq<Seq<u8>>| #[trigger] q.contains(k) <==> s.contains(k)
}

/// There is one order for some paths.
pub proof fn lemma_in_order(a: Seq<Seq<Seq<u8>>>, b: Seq<Seq<Seq<u8>>>)
    requires
        in_order(a),
        in_order(b),
        forall|k: Seq<Seq<u8>>| #[trigger] a.contains(k) <==> b.contains(k),
    ensures
        a == b,
    decreases a.len(),
{
    if a.len() == 0 {
        if b.len() > 0 {
            assert(b.contains(b[0]));
            assert(a.contains(b[0]));
        }
        assert(a =~= b);
    } else {
        let x = a.last();
        assert(a.contains(x));
        assert(b.contains(x));
        let y = b.last();
        assert(b.contains(y));
        assert(a.contains(y));
        let i = choose|i: int| 0 <= i < a.len() && a[i] == y;
        let j = choose|j: int| 0 <= j < b.len() && b[j] == x;
        lemma_path_order(x, y);
        if i < a.len() - 1 {
            assert(path_order(a[i], a[a.len() - 1]) < 0);
        }
        if j < b.len() - 1 {
            assert(path_order(b[j], b[b.len() - 1]) < 0);
        }
        assert(x == y);
        let a1 = a.drop_last();
        let b1 = b.drop_last();
        assert forall|k: Seq<Seq<u8>>| #[trigger] a1.contains(k) <==> b1.contains(k) by {
            if a1.contains(k) {
                let m = choose|m: int| 0 <= m < a1.len() && a1[m] == k;
                assert(a[m] == k);
                assert(a.contains(k));
                assert(b.contains(k));
                let n = choose|n: int| 0 <= n < b.len() && b[n] == k;
                assert(path_order(a[m], a[a.len() - 1]) < 0);
                lemma_path_order(k, k);
                assert(n < b.len() - 1);
                assert(b1[n] == k);
            }
            if b1.contains(k) {
                let n = choose|n: int| 0 <= n < b1.len() && b1[n] == k;
                assert(b[n] == k);
                assert(b.contains(k));
                assert(a.contains(k));
                let m = choose|m: int| 0 <= m < a.len() && a[m] == k;
                assert(path_order(b[n], b[b.len() - 1]) < 0);
                lemma_path_order(k, k);
                assert(m < a.len() - 1);
                assert(a1[m] == k);
            }
        }
        lemma_in_order(a1, b1);
        assert(a =~= a1.push(x));
        assert(b =~= b1.push(y));
    }
}

/// Some paths that stand in their order are those paths put in their order.
pub proof fn lemma_ordered(s: Set<Seq<Seq<u8>>>, q: Seq<Seq<Seq<u8>>>)
    requires
        in_order(q),
        forall|k: Seq<Seq<u8>>| #[trigger] q.contains(k) <==> s.contains(k),
    ensures
        ordered(s) == q,
{
    let o = ordered(s);
    assert(in_order(o) && forall|k: Seq<Seq<u8>>| #[trigger] o.contains(k) <==> s.contains(k));
    assert forall|k: Seq<Seq<u8>>| #[trigger] o.contains(k) <==> q.contains(k) by {
        assert(q.contains(k) <==> s.contains(k));
    }
    lemma_in_order(o, q);
}

/// The list with one more path in its place.
proof fn lemma_put_in_order(q: Seq<Seq<Seq<u8>>>, k: Seq<Seq<u8>>) -> (r: Seq<Seq<Seq<u8>>>)
    requires
        in_order(q),
        !q.contains(k),
    ensures
        in_order(r),
        forall|x: Seq<Seq<u8>>| #[trigger] r.contains(x) <==> q.contains(x) || x == k,
    decreases q.len(),
{
    if q.len() == 0 || path_order(q.last(), k) < 0 {
        let r = q.push(k);
        assert forall|i: int, j: int| 0 <= i < j < r.len() implies path_order(r[i], r[j]) < 0 by {
            if j == q.len() && i < q.len() - 1 {
                lemma_path_order_carries(q[i], q.last(), k);
            }
        }
        assert forall|x: Seq<Seq<u8>>| #[trigger] r.contains(x) <==> q.contains(x) || x == k by {
            if q.contains(x) {
                let i = q.index_of(x);
                assert(r[i] == x);
            }
            if x == k {
                assert(r[q.len() as int] == k);
            }
            if r.contains(x) && x != k {
                let i = r.index_of(x);
                assert(q[i] == x);
            }
        }
        r
    } else {
        let last = q.last();
        let init = q.drop_last();
        assert(q[q.len() - 1] == last);
        lemma_path_order(last, k);
        assert(!init.contains(k)) by {
            if init.contains(k) {
                assert(q[init.index_of(k)] == k);
            }
        }
        let r0 = lemma_put_in_order(init, k);
        let r = r0.push(last);
        assert forall|i: int, j: int| 0 <= i < j < r.len() implies path_order(r[i], r[j]) < 0 by {
            if j == r0.len() {
                assert(r0.contains(r0[i]));
                if r0[i] != k {
                    let m = init.index_of(r0[i]);
                    assert(q[m] == r0[i]);
                }
            }
        }
        assert forall|x: Seq<Seq<u8>>| #[trigger] r.contains(x) <==> q.contains(x) || x == k by {
            if q.contains(x) {
                let i = q.index_of(x);
                if i < init.len() {
                    assert(init[i] == x);
                    assert(r0.contains(x));
                    assert(r[r0.index_of(x)] == x);
                } else {
                    assert(r[r0.len() as int] == x);
                }
            }
            if x == k {
                assert(r0.contains(k));
                assert(r[r0.index_of(k)] == k);
            }
            if r.contains(x) && x != k {
                let i = r.index_of(x);
                if i < r0.len() {
                    assert(r0[i] == x);
                    assert(r0.contains(x));
                    assert(q[init.index_of(x)] == x);
                }
            }
        }
        r
    }
}

/// Finitely many paths can be put in their order.
pub proof fn lemma_ordered_holds(s: Set<Seq<Seq<u8>>>)
    requires
        s.finite(),
    ensures
        in_order(ordered(s)),
        forall|k: Seq<Seq<u8>>| #[trigger] ordered(s).contains(k) <==> s.contains(k),
    decreases s.len(),
{
    if s.len() == 0 {
        let q = Seq::<Seq<Seq<u8>>>::empty();
        assert(s =~= Set::empty());
        lemma_ordered(s, q);
    } else {
        let k = s.choose();
        let rest = s.remove(k);
        lemma_ordered_holds(rest);
        let q = lemma_put_in_order(ordered(rest), k);
        assert forall|x: Seq<Seq<u8>>| #[trigger] q.contains(x) <==> s.contains(x) by {
            assert(rest.contains(x) <==> s.contains(x) && x != k);
            assert(ordered(rest).contains(x) <==> rest.contains(x));
        }
        lemma_ordered(s, q);
    }
}

/// The texts of some paths, in the order of the paths.
pub open spec fn listed(m: Map<Seq<Seq<u8>>, Seq<u8>>) -> Seq<Seq<u8>> {
    ordered(m.dom()).map_values(|k: Seq<Seq<u8>>| m[k])
}

/// The texts of some paths.
pub open spec fn path_texts(s: Seq<Path>) -> Seq<Seq<u8>> {
    s.map_values(|p: Path| p@)
}

/// Some texts with one more, unless the path is among them.
pub open spec fn texts_with(m: Map<Seq<Seq<u8>>, Seq<u8>>, t: Seq<u8>) -> Map<
    Seq<Seq<u8>>,
    Seq<u8>,
> {
    if m.contains_key(comps(t)) {
        m
    } else {
        m.insert(comps(t), t)
    }
}

/// A set of paths: no list of components twice. A member keeps the text with
/// which it came in.
#[derive(Debug)]
pub struct PathSet {
    map: PathMap<Path>,
}

impl View for PathSet {
    type V = Set<Seq<Seq<u8>>>;

    open spec fn view(&self) -> Set<Seq<Seq<u8>>> {
        self.texts().dom()
    }
}

impl PathSet {
    /// The members, with their texts.
    pub closed spec fn texts(&self) -> Map<Seq<Seq<u8>>, Seq<u8>> {
        self.map@.map_values(|p: Path| p@)
    }

    #[verifier::type_invariant]
    spec fn keeps_members(&self) -> bool {
        forall|k: Seq<Seq<u8>>| #[trigger]
            self.map@.contains_key(k) ==> self.map@[k].comps() == k
    }

    /// The set without members.
    pub fn new() -> (r: PathSet)
        ensures
            r.texts() == Map::<Seq<Seq<u8>>, Seq<u8>>::empty(),
            r@ == Set::<Seq<Seq<u8>>>::empty(),
    {
        let r = PathSet { map: PathMap::new() };
        assert(r.texts() =~= Map::<Seq<Seq<u8>>, Seq<u8>>::empty());
        assert(r@ =~= Set::<Seq<Seq<u8>>>::empty());
        r
    }

    /// How many members there are.
    pub fn len(&self) -> (r: usize)
        ensures
            r as nat == ordered(self@).len(),
            self@.finite(),
            r as nat == self@.len(),
    {
        let _keys = self.map.keys_are();
        proof {
            assert(self@ =~= self.map@.dom());
            lemma_ordered(self@, self.map.spec_keys());
        }
        self.map.len()
    }

    /// Whether there are no members.
    pub fn is_empty(&self) -> (r: bool)
        ensures
            r == (self@ == Set::<Seq<Seq<u8>>>::empty()),
            r == (ordered(self@).len() == 0),
    {
        let n: usize = self.len();
        proof {
            if n == 0 {
                assert(self@ =~= Set::<Seq<Seq<u8>>>::empty());
            }
        }
        n == 0
    }

    /// Member number `i`, in order.
    pub fn at(&self, i: usize) -> (r: &Path)
        requires
            i < ordered(self@).len(),
        ensures
            r.comps() == ordered(self@)[i as int],
            self@.contains(r.comps()),
            r@ == self.texts()[r.comps()],
    {
        let _keys = self.map.keys_are();
        proof {
            use_type_invariant(self);
            assert(self@ =~= self.map@.dom());
            lemma_ordered(self@, self.map.spec_keys());
        }
        self.map.value_at(i)
    }

    /// The members, in order.
    pub fn list(&self) -> (r: Vec<Path>)
        ensures
            path_texts(r@) == listed(self.texts()),
            comps_of(r@) == ordered(self@),
            in_order(ordered(self@)),
            forall|k: Seq<Seq<u8>>| #[trigger] ordered(self@).contains(k) <==> self@.contains(k),
    {
        let _keys = self.map.keys_are();
        proof {
            assert(self@ =~= self.map@.dom());
            lemma_ordered(self@, self.map.spec_keys());
        }
        let n: usize = self.len();
        let mut out: Vec<Path> = Vec::new();
        let mut i: usize = 0;
        while i < n
            invariant
                i <= n,
                n == ordered(self@).len(),
                out@.len() == i,
                forall|k: int|
                    0 <= k < i ==> (#[trigger] out@[k]).comps() == ordered(self@)[k] && out@[k]@
                        == self.texts()[ordered(self@)[k]],
            decreases n - i,
        {
            out.push(self.at(i).copy());
            i += 1;
        }
        assert(path_texts(out@) =~= listed(self.texts()));
        assert(comps_of(out@) =~= ordered(self@));
        out
    }

    /// The same set, in storage of its own.
    pub fn copy(&self) -> (r: PathSet)
        ensures
            r.texts() == self.texts(),
    {
        let n: usize = self.len();
        let _keys = self.map.keys_are();
        let mut out = PathSet::new();
        let mut i: usize = 0;
        let ghost ks = ordered(self@);
        proof {
            assert(self@ =~= self.map@.dom());
            lemma_ordered(self@, self.map.spec_keys());
        }
        while i < n
            invariant
                i <= n,
                n == ks.len(),
                ks == ordered(self@),
                in_order(ks),
                forall|k: Seq<Seq<u8>>| #[trigger] ks.contains(k) <==> self@.contains(k),
                forall|k: Seq<Seq<u8>>|
                    #![trigger out.texts().contains_key(k)]
                    out.texts().contains_key(k) <==> exists|j: int|
                        0 <= j < i && #[trigger] ks[j] == k,
                forall|k: Seq<Seq<u8>>| #[trigger]
                    out.texts().contains_key(k) ==> out.texts()[k] == self.texts()[k],
            decreases n - i,
        {
            let p = self.at(i).copy();
            let ghost held = out.texts();
            let _fresh = out.insert(p);
            proof {
                let k0 = ks[i as int];
                assert forall|k: Seq<Seq<u8>>|
                    #![trigger out.texts().contains_key(k)]
                    out.texts().contains_key(k) <==> exists|j: int|
                        0 <= j < i + 1 && #[trigger] ks[j] == k by {
                    assert(held.contains_key(k) || !held.contains_key(k));
                    if exists|j: int| 0 <= j < i + 1 && #[trigger] ks[j] == k {
                        let j = choose|j: int| 0 <= j < i + 1 && #[trigger] ks[j] == k;
                        if j < i {
                            assert(ks[j] == k);
                        }
                    }
                    if k == k0 {
                        assert(ks[i as int] == k);
                    }
                }
                assert forall|k: Seq<Seq<u8>>| #[trigger]
                    out.texts().contains_key(k) implies out.texts()[k] == self.texts()[k] by {
                    assert(held.contains_key(k) || !held.contains_key(k));
                }
            }
            i += 1;
        }
        proof {
            assert forall|k: Seq<Seq<u8>>|
                #![trigger self.texts().contains_key(k)]
                out.texts().contains_key(k) == self.texts().contains_key(k) by {
                assert(self@.contains(k) == self.texts().contains_key(k));
                assert(ks.contains(k) <==> self@.contains(k));
                if ks.contains(k) {
                    let j = choose|j: int| 0 <= j < ks.len() && ks[j] == k;
                    assert(ks[j] == k);
                }
            }
            assert(out.texts() =~= self.texts());
        }
        out
    }

    /// Whether a path is a member.
    pub fn contains(&self, k: &Path) -> (r: bool)
        ensures
            r == self@.contains(k.comps()),
            r == self.texts().contains_key(k.comps()),
    {
        self.map.contains(k)
    }

    /// Makes a path a member, if it is none.
    pub fn insert(&mut self, k: Path) -> (r: bool)
        ensures
            final(self).texts() == texts_with(old(self).texts(), k@),
            final(self)@ == old(self)@.insert(k.comps()),
            r == !old(self)@.contains(k.comps()),
    {
        let ghost before = *self;
        if self.map.contains(&k) {
            assert(self@ =~= before@.insert(k.comps()));
            return false;
        }
        proof {
            use_type_invariant(&*self);
        }
        let mut taken = PathSet::new();
        std::mem::swap(&mut taken, self);
        let mut map = taken.map;
        let key = k.copy();
        let ghost held = map@;
        map.insert(key, k);
        *self = PathSet { map };
        proof {
            assert(self.texts() =~= before.texts().insert(k.comps(), k@));
            assert(self@ =~= before@.insert(k.comps()));
        }
        true
    }

    /// Makes a path no member.
    pub fn remove(&mut self, k: &Path) -> (r: bool)
        ensures
            final(self).texts() == old(self).texts().remove(k.comps()),
            final(self)@ == old(self)@.remove(k.comps()),
            r == old(self)@.contains(k.comps()),
    {
        proof {
            use_type_invariant(&*self);
        }
        let ghost before = *self;
        let mut taken = PathSet::new();
        std::mem::swap(&mut taken, self);
        let mut map = taken.map;
        let r = map.remove(k).is_some();
        *self = PathSet { map };
        proof {
            assert(self.texts() =~= before.texts().remove(k.comps()));
            assert(self@ =~= before@.remove(k.comps()));
        }
        r
    }
}

} // verus!
