//! Looking for the first or the last place where something holds.

use vstd::prelude::*;

verus! {

/// The first place from `i` on, before `n`, where `p` holds; `n` if there is
/// none.
pub open spec fn first_from(p: spec_fn(int) -> bool, i: int, n: int) -> int
    decreases n - i,
{
    if i >= n {
        n
    } else if p(i) {
        i
    } else {
        first_from(p, i + 1, n)
    }
}

/// The last place before `i` where `p` holds; -1 if there is none.
pub open spec fn last_before(p: spec_fn(int) -> bool, i: int) -> int
    decreases i,
{
    if i <= 0 {
        -1
    } else if p(i - 1) {
        i - 1
    } else {
        last_before(p, i - 1)
    }
}

/// What `first_from` finds.
pub proof fn lemma_first_from(p: spec_fn(int) -> bool, i: int, n: int)
    requires
        i <= n,
    ensures
        i <= first_from(p, i, n) <= n,
        first_from(p, i, n) < n ==> p(first_from(p, i, n)),
        forall|j: int| i <= j < first_from(p, i, n) ==> !(#[trigger] p(j)),
    decreases n - i,
{
    if i < n && !p(i) {
        lemma_first_from(p, i + 1, n);
    }
}

/// What `last_before` finds.
pub proof fn lemma_last_before(p: spec_fn(int) -> bool, i: int)
    requires
        0 <= i,
    ensures
        -1 <= last_before(p, i) < i || i == 0,
        last_before(p, i) >= 0 ==> p(last_before(p, i)),
        forall|j: int| last_before(p, i) < j < i ==> !(#[trigger] p(j)),
    decreases i,
{
    if i > 0 && !p(i - 1) {
        lemma_last_before(p, i - 1);
    }
}

/// Going round: the place `off` further on from `start`, out of `n`.
pub fn round_up(start: usize, off: usize, n: usize) -> (r: usize)
    requires
        start <= n,
        off <= n,
        n > 0,
        start < n || off < n,
    ensures
        r < n,
        r as int == (start as int + off as int) % (n as int),
{
    let left: usize = n - start;
    let r: usize = if off < left {
        start + off
    } else {
        off - left
    };
    proof {
        if off < left {
            vstd::arithmetic::div_mod::lemma_small_mod((start + off) as nat, n as nat);
        } else {
            vstd::arithmetic::div_mod::lemma_fundamental_div_mod_converse(
                start as int + off as int,
                n as int,
                1,
                r as int,
            );
        }
    }
    r
}

/// Going round: the place `off` further back from `start`, out of `n`.
pub fn round_down(start: usize, off: usize, n: usize) -> (r: usize)
    requires
        start < n,
        off <= n,
    ensures
        r < n,
        r as int == (start as int - off as int) % (n as int),
{
    let r: usize = if off <= start {
        start - off
    } else {
        start + (n - off)
    };
    proof {
        if off <= start {
            vstd::arithmetic::div_mod::lemma_small_mod((start - off) as nat, n as nat);
        } else {
            assert((-1) * (n as int) + r as int == start as int - off as int);
            vstd::arithmetic::div_mod::lemma_fundamental_div_mod_converse(
                start as int - off as int,
                n as int,
                -1,
                r as int,
            );
        }
    }
    r
}

} // verus!
