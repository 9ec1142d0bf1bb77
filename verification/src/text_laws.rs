//! What holds of cutting texts up and putting them together.

use vstd::prelude::*;

use crate::text::{cut_last, drop_end, drop_start, first_index, joined, lemma_first_index};
use crate::text::{lemma_last_index, last_index, padded, pieces, repeated, replaced, replaced_all};
use crate::text::{trim_end, trim_start, trimmed, white_space, word_len, words};

verus! {

proof fn lemma_joined_first(first: Seq<char>, rest: Seq<Seq<char>>, sep: Seq<char>)
    requires
        rest.len() > 0,
    ensures
        joined(seq![first] + rest, sep) == first + sep + joined(rest, sep),
    decreases rest.len(),
{
    let all = seq![first] + rest;
    assert(all.last() == rest.last());
    if rest.len() == 1 {
        assert(all.drop_last() =~= seq![first]);
        assert(joined(seq![first], sep) == first);
    } else {
        assert(all.drop_last() =~= seq![first] + rest.drop_last());
        lemma_joined_first(first, rest.drop_last(), sep);
        assert(joined(all, sep) =~= first + sep + joined(rest, sep));
    }
}

/// The pieces between the places where a character stands do not hold it, and
/// with it between them they make up the text again.
pub proof fn law_pieces_make_up_the_text(s: Seq<char>, x: char)
    ensures
        pieces(s, x).len() > 0,
        joined(pieces(s, x), seq![x]) == s,
        forall|i: int| 0 <= i < pieces(s, x).len() ==> !(#[trigger] pieces(s, x)[i]).contains(x),
    decreases s.len(),
{
    lemma_first_index(s, x);
    let k = first_index(s, x);
    let all = pieces(s, x);
    if k < s.len() {
        let first = s.take(k);
        let rest = pieces(s.skip(k + 1), x);
        law_pieces_make_up_the_text(s.skip(k + 1), x);
        lemma_joined_first(first, rest, seq![x]);
        assert(all == seq![first] + rest);
        assert(s =~= first + seq![x] + s.skip(k + 1));
        assert(!first.contains(x)) by {
            if first.contains(x) {
                let i = first.index_of(x);
                assert(s[i] == x);
            }
        }
        assert forall|i: int| 0 <= i < all.len() implies !(#[trigger] all[i]).contains(x) by {
            if i > 0 {
                assert(all[i] == rest[i - 1]);
            }
        }
    } else {
        assert(all == seq![s]);
        assert(joined(seq![s], seq![x]) == s);
        assert(!s.contains(x)) by {
            if s.contains(x) {
                let i = s.index_of(x);
                assert(s[i] == x);
            }
        }
    }
}

/// A text is cut at the last place where a character stands: what comes before
/// and after it make up the text, and nothing after it holds the character. A
/// text without it is not cut.
pub proof fn law_cut_at_the_last(s: Seq<char>, x: char)
    ensures
        cut_last(s, x) is Some == s.contains(x),
        cut_last(s, x) matches Some((a, b)) ==> a + seq![x] + b == s && !b.contains(x),
{
    lemma_last_index(s, x);
    let k = last_index(s, x);
    if k >= 0 {
        let b = s.skip(k + 1);
        assert(s =~= s.take(k) + seq![x] + b);
        assert(s.contains(x)) by {
            assert(s[k] == x);
        }
        if b.contains(x) {
            let i = b.index_of(x);
            assert(s[k + 1 + i] == x);
        }
    } else if s.contains(x) {
        let i = s.index_of(x);
        assert(s[i] == x);
    }
}

/// Dropping a character at the end, or at the beginning, drops it as often as it
/// stands there and leaves the rest.
pub proof fn law_dropping(s: Seq<char>, x: char)
    ensures
        drop_end(s, x).is_prefix_of(s),
        drop_end(s, x).len() == 0 || drop_end(s, x).last() != x,
        forall|i: int| drop_end(s, x).len() <= i < s.len() ==> #[trigger] s[i] == x,
        drop_start(s, x).len() <= s.len(),
        s.skip(s.len() - drop_start(s, x).len()) == drop_start(s, x),
        drop_start(s, x).len() == 0 || drop_start(s, x)[0] != x,
        forall|i: int| 0 <= i < s.len() - drop_start(s, x).len() ==> #[trigger] s[i] == x,
    decreases s.len(),
{
    if s.len() > 0 {
        if s.last() == x {
            let init = s.drop_last();
            law_dropping(init, x);
            let d = drop_end(s, x);
            assert(d =~= s.subrange(0, d.len() as int)) by {
                assert(d == init.subrange(0, d.len() as int));
            }
            assert forall|i: int| d.len() <= i < s.len() implies #[trigger] s[i] == x by {
                if i < init.len() {
                    assert(init[i] == x);
                }
            }
        } else {
            assert(s =~= s.subrange(0, s.len() as int));
        }
        if s[0] == x {
            let rest = s.drop_first();
            law_dropping(rest, x);
            let d = drop_start(s, x);
            assert(s.skip(s.len() - d.len()) =~= rest.skip(rest.len() - d.len()));
            assert forall|i: int| 0 <= i < s.len() - d.len() implies #[trigger] s[i] == x by {
                if i > 0 {
                    assert(rest[i - 1] == x);
                }
            }
        } else {
            assert(s.skip(0) =~= s);
        }
    } else {
        assert(s.skip(0) =~= s);
        assert(s =~= s.subrange(0, 0));
    }
}

proof fn lemma_trim_start(s: Seq<char>)
    ensures
        trim_start(s).len() <= s.len(),
        s.skip(s.len() - trim_start(s).len()) == trim_start(s),
        trim_start(s).len() == 0 || !white_space(trim_start(s)[0]),
        forall|i: int| 0 <= i < s.len() - trim_start(s).len() ==> white_space(#[trigger] s[i]),
    decreases s.len(),
{
    if s.len() > 0 && white_space(s[0]) {
        let rest = s.drop_first();
        lemma_trim_start(rest);
        let d = trim_start(s);
        assert(s.skip(s.len() - d.len()) =~= rest.skip(rest.len() - d.len()));
        assert forall|i: int| 0 <= i < s.len() - d.len() implies white_space(#[trigger] s[i]) by {
            if i > 0 {
                assert(white_space(rest[i - 1]));
            }
        }
    } else {
        assert(s.skip(0) =~= s);
    }
}

proof fn lemma_trim_end(s: Seq<char>)
    ensures
        trim_end(s).len() <= s.len(),
        s.take(trim_end(s).len() as int) == trim_end(s),
        trim_end(s).len() == 0 || !white_space(trim_end(s).last()),
        forall|i: int| trim_end(s).len() <= i < s.len() ==> white_space(#[trigger] s[i]),
    decreases s.len(),
{
    if s.len() > 0 && white_space(s.last()) {
        let init = s.drop_last();
        lemma_trim_end(init);
        let d = trim_end(s);
        assert(s.take(d.len() as int) =~= init.take(d.len() as int));
        assert forall|i: int| d.len() <= i < s.len() implies white_space(#[trigger] s[i]) by {
            if i < init.len() {
                assert(white_space(init[i]));
            }
        }
    } else {
        assert(s.take(s.len() as int) =~= s);
    }
}

/// Trimming drops white space at both ends and nothing else.
pub proof fn law_trimming(s: Seq<char>)
    ensures
        trimmed(s).len() == 0 || (!white_space(trimmed(s)[0]) && !white_space(trimmed(s).last())),
        exists|i: int, j: int|
            0 <= i <= j <= s.len() && #[trigger] s.subrange(i, j) == trimmed(s) && (forall|k: int|
                0 <= k < i ==> white_space(#[trigger] s[k])) && (forall|k: int|
                j <= k < s.len() ==> white_space(#[trigger] s[k])),
{
    let a = trim_start(s);
    lemma_trim_start(s);
    lemma_trim_end(a);
    let t = trimmed(s);
    let i = s.len() - a.len();
    let j = i + t.len();
    assert(a == s.skip(i));
    assert(t =~= s.subrange(i, j)) by {
        assert(t == a.take(t.len() as int));
    }
    assert forall|k: int| j <= k < s.len() implies white_space(#[trigger] s[k]) by {
        assert(a[k - i] == s[k]);
    }
    if t.len() > 0 {
        assert(t[0] == a[0]);
    }
}

/// A text without a character stays as it is when that is replaced; where the
/// text is that character, what replaces it is all there is.
pub proof fn law_replacing(s: Seq<char>, t: Seq<char>, x: char, with: Seq<char>)
    ensures
        !s.contains(x) ==> replaced(s, x, with) == s,
        replaced(s + t, x, with) == replaced(s, x, with) + replaced(t, x, with),
        replaced(seq![x], x, with) == with,
    decreases s.len(),
{
    reveal_with_fuel(replaced, 2);
    assert(seq![x].skip(1) =~= Seq::empty());
    assert(with + Seq::<char>::empty() =~= with);
    if s.len() == 0 {
        assert(s + t =~= t);
        assert(replaced(s, x, with) + replaced(t, x, with) =~= replaced(t, x, with));
    } else {
        let rest = s.skip(1);
        law_replacing(rest, t, x, with);
        assert((s + t).skip(1) =~= rest + t);
        assert((s + t)[0] == s[0]);
        assert(replaced(s + t, x, with) =~= replaced(s, x, with) + replaced(t, x, with));
        if !s.contains(x) {
            assert(s[0] != x);
            if rest.contains(x) {
                let i = rest.index_of(x);
                assert(s[i + 1] == x);
            }
            assert(replaced(s, x, with) =~= s);
        }
    }
}

/// A pattern is replaced where it stands at the beginning, and what comes after
/// it is gone through in the same way; a text that does not begin with it keeps
/// its first character.
pub proof fn law_replacing_a_pattern(s: Seq<char>, c: char, pat: Seq<char>, with: Seq<char>)
    requires
        pat.len() > 0,
    ensures
        replaced_all(pat + s, pat, with) == with + replaced_all(s, pat, with),
        !pat.is_prefix_of(seq![c] + s) ==> replaced_all(seq![c] + s, pat, with) == seq![c]
            + replaced_all(s, pat, with),
        s.len() < pat.len() ==> replaced_all(s, pat, with) == s,
{
    let a = pat + s;
    assert(a.take(pat.len() as int) =~= pat);
    assert(a.skip(pat.len() as int) =~= s);
    let b = seq![c] + s;
    assert(b.skip(1) =~= s);
    assert(b[0] == c);
    if b.len() >= pat.len() {
        assert(b.take(pat.len() as int) =~= b.subrange(0, pat.len() as int));
    } else {
        assert(replaced_all(s, pat, with) == s);
    }
}

/// The words of a text hold no white space, and none is empty.
pub proof fn law_words_are_words(s: Seq<char>, i: int, j: int)
    requires
        0 <= i < words(s).len(),
        0 <= j < words(s)[i].len(),
    ensures
        !white_space(words(s)[i][j]),
        words(s)[i].len() > 0,
    decreases s.len(),
{
    if white_space(s[0]) {
        law_words_are_words(s.drop_first(), i, j);
    } else {
        crate::text::lemma_word_len(s);
        let n = word_len(s) as int;
        if i > 0 {
            assert(words(s)[i] == words(s.skip(n))[i - 1]);
            law_words_are_words(s.skip(n), i - 1, j);
        } else {
            lemma_word_chars(s, j);
            assert(words(s)[0] == s.take(n));
        }
    }
}

proof fn lemma_word_chars(s: Seq<char>, j: int)
    requires
        0 <= j < word_len(s),
    ensures
        word_len(s) <= s.len(),
        !white_space(s[j]),
    decreases s.len(),
{
    crate::text::lemma_word_len(s);
    if j > 0 {
        lemma_word_chars(s.drop_first(), j - 1);
    }
}

/// Padding makes a text as wide as asked, with blanks behind it, and never
/// shorter.
pub proof fn law_padding(s: Seq<char>, width: nat, i: int)
    ensures
        padded(s, width).len() == if s.len() < width {
            width
        } else {
            s.len()
        },
        0 <= i < s.len() ==> padded(s, width)[i] == s[i],
        s.len() <= i < width ==> padded(s, width)[i] == ' ',
{
    reveal_strlit(" ");
    if s.len() < width {
        lemma_blanks((width - s.len()) as nat);
    } else {
        lemma_blanks(0);
    }
}

proof fn lemma_blanks(n: nat)
    ensures
        repeated(" "@, n).len() == n,
        forall|i: int| 0 <= i < n ==> #[trigger] repeated(" "@, n)[i] == ' ',
    decreases n,
{
    reveal_strlit(" ");
    if n > 0 {
        lemma_blanks((n - 1) as nat);
    }
}

} // verus!
