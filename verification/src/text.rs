//! Text: sequences of characters, taken apart and put together.

use vstd::prelude::*;
use vstd::slice::slice_subrange;

use crate::order::{char_order, is_ranking, lemma_char_order, lemma_lex_carries, lemma_lex_flip};
use crate::order::{lemma_lex_zero, lex};

verus! {

/// `String::push`: appends one character to the end of the string.
pub assume_specification[ String::push ](s: &mut String, c: char)
    ensures
        final(s)@ == old(s)@.push(c),
;

/// A character in lower case, where it is a capital letter of ASCII.
pub open spec fn ascii_lower(c: char) -> char {
    if 'A' <= c && c <= 'Z' {
        (c as u32 + 32) as char
    } else {
        c
    }
}

/// Whether a text is ASCII.
pub open spec fn all_ascii(s: Seq<char>) -> bool {
    forall|i: int| 0 <= i < s.len() ==> (#[trigger] s[i] as u32) < 128
}

/// The lowercase equivalent of a text.
pub uninterp spec fn lowercase(s: Seq<char>) -> Seq<char>;

/// `str::to_lowercase`: the lowercase equivalent, which depends on the text
/// alone. An ASCII text is lowered letter by letter; what other texts come to is
/// left unsaid.
pub assume_specification[ str::to_lowercase ](s: &str) -> (r: String)
    ensures
        r@ == lowercase(s@),
        all_ascii(s@) ==> r@ == s@.map_values(|c: char| ascii_lower(c)),
;

/// Whether a character is white space.
pub uninterp spec fn white_space(c: char) -> bool;

/// `char::is_whitespace`: the Unicode property, which depends on the character
/// alone. Of ASCII the space has it, and the controls from the tab to the
/// carriage return; which other characters have it is left unsaid.
pub assume_specification[ char::is_whitespace ](c: char) -> (b: bool)
    ensures
        b == white_space(c),
        (c as u32) < 128 ==> b == (c == ' ' || ('\t' <= c && c <= '\r')),
;

/// Whether a character is a lowercase one.
pub uninterp spec fn lower_case(c: char) -> bool;

/// `char::is_lowercase`: the Unicode property, which depends on the character
/// alone. Of ASCII the small letters have it; which other characters have it is
/// left unsaid.
pub assume_specification[ char::is_lowercase ](c: char) -> (b: bool)
    ensures
        b == lower_case(c),
        (c as u32) < 128 ==> b == ('a' <= c && c <= 'z'),
;

/// What bytes read as, with a replacement character for what is not UTF-8.
pub uninterp spec fn lossy_text(b: Seq<u8>) -> Seq<char>;

/// `String::from_utf8_lossy`: reads bytes as UTF-8. Bytes that are valid UTF-8
/// read as what they encode; what the others read as is left unsaid, but for
/// its depending on the bytes alone.
#[verifier::external_body]
pub(crate) fn read_lossy(b: &[u8]) -> (r: String)
    ensures
        r@ == lossy_text(b@),
        vstd::utf8::valid_utf8(b@) ==> r@ == vstd::utf8::decode_utf8(b@),
{
    String::from_utf8_lossy(b).into_owned()
}

/// Whether two byte strings are the same.
pub fn same_bytes(a: &[u8], b: &[u8]) -> (r: bool)
    ensures
        r == (a@ == b@),
{
    if a.len() != b.len() {
        return false;
    }
    let mut i: usize = 0;
    while i < a.len()
        invariant
            a@.len() == b@.len(),
            i <= a@.len(),
            forall|k: int| 0 <= k < i ==> a@[k] == b@[k],
        decreases a@.len() - i,
    {
        if a[i] != b[i] {
            return false;
        }
        i += 1;
    }
    assert(a@ =~= b@);
    true
}

/// Whether two texts are the same.
pub fn same_text(a: &str, b: &str) -> (r: bool)
    ensures
        r == (a@ == b@),
{
    let r = same_bytes(a.as_bytes(), b.as_bytes());
    proof {
        vstd::utf8::encode_utf8_decode_utf8(a@);
        vstd::utf8::encode_utf8_decode_utf8(b@);
    }
    r
}

/// The characters of a text.
pub fn to_chars(s: &str) -> (v: Vec<char>)
    ensures
        v@ == s@,
{
    let mut v: Vec<char> = Vec::new();
    for c in it: s.chars()
        invariant
            v@ == it.seq().take(it.index() as int),
            it.seq() == s@,
    {
        v.push(c);
    }
    v
}

/// The text made of some characters.
pub fn from_chars(v: &[char]) -> (s: String)
    ensures
        s@ == v@,
{
    let mut s = String::new();
    let mut i: usize = 0;
    while i < v.len()
        invariant
            i <= v@.len(),
            s@ == v@.take(i as int),
        decreases v@.len() - i,
    {
        s.push(v[i]);
        assert(v@.take(i as int).push(v@[i as int]) =~= v@.take(i + 1));
        i += 1;
    }
    assert(v@.take(i as int) =~= v@);
    s
}

/// The bytes of a text, as UTF-8.
pub fn to_bytes(s: &str) -> (v: Vec<u8>)
    ensures
        v@ == vstd::utf8::encode_utf8(s@),
{
    vstd::slice::slice_to_vec(s.as_bytes())
}

/// Two texts, one after the other.
pub fn join2(a: &str, b: &str) -> (r: String)
    ensures
        r@ == a@ + b@,
{
    let mut r = a.to_owned();
    r.append(b);
    r
}

/// Three texts, one after the other.
pub fn join3(a: &str, b: &str, c: &str) -> (r: String)
    ensures
        r@ == a@ + b@ + c@,
{
    let mut r = a.to_owned();
    r.append(b);
    r.append(c);
    r
}

/// The last place where `x` stands in `s`, or -1.
pub open spec fn last_index<A>(s: Seq<A>, x: A) -> int
    decreases s.len(),
{
    if s.len() == 0 {
        -1
    } else if s.last() == x {
        s.len() - 1
    } else {
        last_index(s.drop_last(), x)
    }
}

/// What `last_index` finds.
pub proof fn lemma_last_index<A>(s: Seq<A>, x: A)
    ensures
        -1 <= last_index(s, x) < s.len(),
        last_index(s, x) >= 0 ==> s[last_index(s, x)] == x,
        forall|i: int| last_index(s, x) < i < s.len() ==> s[i] != x,
    decreases s.len(),
{
    if s.len() > 0 && s.last() != x {
        lemma_last_index(s.drop_last(), x);
        let k = last_index(s, x);
        assert forall|i: int| k < i < s.len() implies s[i] != x by {
            if i < s.len() - 1 {
                assert(s.drop_last()[i] != x);
            }
        }
    }
}

/// The one place that `last_index` can be.
pub proof fn lemma_last_index_is<A>(s: Seq<A>, x: A, k: int)
    requires
        -1 <= k < s.len(),
        k >= 0 ==> s[k] == x,
        forall|i: int| k < i < s.len() ==> s[i] != x,
    ensures
        last_index(s, x) == k,
{
    lemma_last_index(s, x);
}

/// The first place where `x` stands in `s`, or the length of `s`.
pub open spec fn first_index<A>(s: Seq<A>, x: A) -> int
    decreases s.len(),
{
    if s.len() == 0 || s[0] == x {
        0
    } else {
        1 + first_index(s.drop_first(), x)
    }
}

/// What `first_index` finds.
pub proof fn lemma_first_index<A>(s: Seq<A>, x: A)
    ensures
        0 <= first_index(s, x) <= s.len(),
        first_index(s, x) < s.len() ==> s[first_index(s, x)] == x,
        forall|i: int| 0 <= i < first_index(s, x) ==> s[i] != x,
    decreases s.len(),
{
    if s.len() > 0 && s[0] != x {
        lemma_first_index(s.drop_first(), x);
        let k = first_index(s, x);
        assert forall|i: int| 0 <= i < k implies s[i] != x by {
            if i > 0 {
                assert(s.drop_first()[i - 1] != x);
            }
        }
    }
}

/// The one place that `first_index` can be.
pub proof fn lemma_first_index_is<A>(s: Seq<A>, x: A, k: int)
    requires
        0 <= k <= s.len(),
        k < s.len() ==> s[k] == x,
        forall|i: int| 0 <= i < k ==> s[i] != x,
    ensures
        first_index(s, x) == k,
{
    lemma_first_index(s, x);
}

/// A text cut at the last `x`: what stands before it and what stands after.
pub open spec fn cut_last(s: Seq<char>, x: char) -> Option<(Seq<char>, Seq<char>)> {
    let k = last_index(s, x);
    if k < 0 {
        None
    } else {
        Some((s.take(k), s.skip(k + 1)))
    }
}

/// Cut a text at the last `x`.
pub fn rsplit_once(s: &str, x: char) -> (r: Option<(String, String)>)
    ensures
        match r {
            Some(p) => cut_last(s@, x) == Some((p.0@, p.1@)),
            None => cut_last(s@, x) is None,
        },
{
    let v = to_chars(s);
    let mut i: usize = v.len();
    while i > 0
        invariant
            v@ == s@,
            i <= v@.len(),
            forall|k: int| i <= k < v@.len() ==> v@[k] != x,
        decreases i,
    {
        if v[i - 1] == x {
            proof {
                lemma_last_index_is(s@, x, i - 1);
            }
            let a = from_chars(slice_subrange(v.as_slice(), 0, i - 1));
            let b = from_chars(slice_subrange(v.as_slice(), i, v.len()));
            return Some((a, b));
        }
        i -= 1;
    }
    proof {
        lemma_last_index_is(s@, x, -1);
    }
    None
}

/// Whether `p` begins `s`.
pub open spec fn begins_with<A>(s: Seq<A>, p: Seq<A>) -> bool {
    p.len() <= s.len() && s.take(p.len() as int) == p
}

/// What follows `p` in `s`, when `s` begins with it.
pub fn strip_prefix(s: &str, p: &str) -> (r: Option<String>)
    ensures
        r is Some == begins_with(s@, p@),
        r is Some ==> r->0@ == s@.skip(p@.len() as int),
{
    let v = to_chars(s);
    let w = to_chars(p);
    if w.len() > v.len() {
        return None;
    }
    let mut i: usize = 0;
    while i < w.len()
        invariant
            v@ == s@,
            w@ == p@,
            w@.len() <= v@.len(),
            i <= w@.len(),
            forall|k: int| 0 <= k < i ==> v@[k] == w@[k],
        decreases w@.len() - i,
    {
        if v[i] != w[i] {
            assert(s@.take(p@.len() as int)[i as int] != p@[i as int]);
            return None;
        }
        i += 1;
    }
    assert(s@.take(p@.len() as int) =~= p@);
    Some(from_chars(slice_subrange(v.as_slice(), w.len(), v.len())))
}

/// Whether a text begins with a character.
pub fn starts_with_char(s: &str, x: char) -> (r: bool)
    ensures
        r == (s@.len() > 0 && s@[0] == x),
{
    let v = to_chars(s);
    v.len() > 0 && v[0] == x
}

/// Whether `needle` stands somewhere in `hay`.
pub open spec fn holds_text(hay: Seq<char>, needle: Seq<char>) -> bool {
    exists|i: int|
        0 <= i && i + needle.len() <= hay.len() && #[trigger] hay.subrange(
            i,
            i + needle.len(),
        ) == needle
}

/// Whether one text contains another.
pub fn contains_text(hay: &str, needle: &str) -> (r: bool)
    ensures
        r == holds_text(hay@, needle@),
{
    let v = to_chars(hay);
    let w = to_chars(needle);
    if w.len() > v.len() {
        return false;
    }
    let mut i: usize = 0;
    while i <= v.len() - w.len()
        invariant
            v@ == hay@,
            w@ == needle@,
            w@.len() <= v@.len(),
            i <= v@.len() - w@.len() + 1,
            forall|k: int| 0 <= k < i ==> #[trigger] hay@.subrange(k, k + needle@.len()) != needle@,
        decreases v@.len() - i + 1,
    {
        let mut j: usize = 0;
        while j < w.len() && v[i + j] == w[j]
            invariant
                v@ == hay@,
                w@ == needle@,
                i + w.len() <= v.len(),
                j <= w@.len(),
                forall|k: int| 0 <= k < j ==> v@[i + k] == w@[k],
            decreases w@.len() - j,
        {
            j += 1;
        }
        if j == w.len() {
            assert(hay@.subrange(i as int, i + needle@.len()) =~= needle@);
            return true;
        }
        assert(hay@.subrange(i as int, i + needle@.len())[j as int] != needle@[j as int]);
        i += 1;
    }
    false
}

/// Whether a text holds a character.
pub fn contains_char(s: &str, x: char) -> (r: bool)
    ensures
        r == s@.contains(x),
{
    let v = to_chars(s);
    let mut i: usize = 0;
    while i < v.len()
        invariant
            v@ == s@,
            i <= v@.len(),
            forall|k: int| 0 <= k < i ==> v@[k] != x,
        decreases v@.len() - i,
    {
        if v[i] == x {
            assert(s@[i as int] == x);
            return true;
        }
        i += 1;
    }
    false
}

/// A text without the white space that begins it.
pub open spec fn trim_start(s: Seq<char>) -> Seq<char>
    decreases s.len(),
{
    if s.len() > 0 && white_space(s[0]) {
        trim_start(s.drop_first())
    } else {
        s
    }
}

/// A text without the white space that ends it.
pub open spec fn trim_end(s: Seq<char>) -> Seq<char>
    decreases s.len(),
{
    if s.len() > 0 && white_space(s.last()) {
        trim_end(s.drop_last())
    } else {
        s
    }
}

/// A text without the white space around it.
pub open spec fn trimmed(s: Seq<char>) -> Seq<char> {
    trim_end(trim_start(s))
}

/// Drop the white space around a text.
pub fn trim(s: &str) -> (r: String)
    ensures
        r@ == trimmed(s@),
{
    let v = to_chars(s);
    let mut i: usize = 0;
    assert(v@.skip(0) =~= s@);
    while i < v.len() && v[i].is_whitespace()
        invariant
            v@ == s@,
            i <= v@.len(),
            trim_start(s@) == trim_start(v@.skip(i as int)),
        decreases v@.len() - i,
    {
        assert(v@.skip(i as int).drop_first() =~= v@.skip(i + 1));
        i += 1;
    }
    let ghost t = v@.skip(i as int);
    assert(trim_start(s@) == t);
    let mut j: usize = v.len();
    assert(v@.subrange(i as int, j as int) =~= t);
    while j > i && v[j - 1].is_whitespace()
        invariant
            v@ == s@,
            i <= j <= v@.len(),
            t == v@.skip(i as int),
            trim_end(t) == trim_end(v@.subrange(i as int, j as int)),
        decreases j,
    {
        assert(v@.subrange(i as int, j as int).drop_last() =~= v@.subrange(i as int, j - 1));
        j -= 1;
    }
    from_chars(slice_subrange(v.as_slice(), i, j))
}

/// A sequence without the `x`s that end it.
pub open spec fn drop_end<A>(s: Seq<A>, x: A) -> Seq<A>
    decreases s.len(),
{
    if s.len() > 0 && s.last() == x {
        drop_end(s.drop_last(), x)
    } else {
        s
    }
}

/// Drop every `x` that ends a text.
pub fn trim_end_char(s: &str, x: char) -> (r: String)
    ensures
        r@ == drop_end(s@, x),
{
    let v = to_chars(s);
    let mut j: usize = v.len();
    assert(v@.take(j as int) =~= s@);
    while j > 0 && v[j - 1] == x
        invariant
            v@ == s@,
            j <= v@.len(),
            drop_end(s@, x) == drop_end(v@.take(j as int), x),
        decreases j,
    {
        assert(v@.take(j as int).drop_last() =~= v@.take(j - 1));
        j -= 1;
    }
    from_chars(slice_subrange(v.as_slice(), 0, j))
}

/// A sequence without the `x`s that begin it.
pub open spec fn drop_start<A>(s: Seq<A>, x: A) -> Seq<A>
    decreases s.len(),
{
    if s.len() > 0 && s[0] == x {
        drop_start(s.drop_first(), x)
    } else {
        s
    }
}

/// Drop every `x` that begins a text.
pub fn trim_start_char(s: &str, x: char) -> (r: String)
    ensures
        r@ == drop_start(s@, x),
{
    let v = to_chars(s);
    let mut j: usize = 0;
    assert(v@.skip(0) =~= s@);
    while j < v.len() && v[j] == x
        invariant
            v@ == s@,
            j <= v@.len(),
            drop_start(s@, x) == drop_start(v@.skip(j as int), x),
        decreases v@.len() - j,
    {
        assert(v@.skip(j as int).drop_first() =~= v@.skip(j + 1));
        j += 1;
    }
    from_chars(slice_subrange(v.as_slice(), j, v.len()))
}

/// How many characters of `s` stand before its first white space.
pub open spec fn word_len(s: Seq<char>) -> nat
    decreases s.len(),
{
    if s.len() == 0 || white_space(s[0]) {
        0
    } else {
        1 + word_len(s.drop_first())
    }
}

pub proof fn lemma_word_len(s: Seq<char>)
    ensures
        word_len(s) <= s.len(),
        forall|i: int| 0 <= i < word_len(s) ==> !white_space(#[trigger] s[i]),
        word_len(s) < s.len() ==> white_space(s[word_len(s) as int]),
    decreases s.len(),
{
    if s.len() > 0 && !white_space(s[0]) {
        lemma_word_len(s.drop_first());
        assert forall|i: int| 0 <= i < word_len(s) implies !white_space(#[trigger] s[i]) by {
            if i > 0 {
                assert(!white_space(s.drop_first()[i - 1]));
            }
        }
    }
}

proof fn lemma_trim_start_len(s: Seq<char>)
    ensures
        trim_start(s).len() <= s.len(),
    decreases s.len(),
{
    if s.len() > 0 && white_space(s[0]) {
        lemma_trim_start_len(s.drop_first());
    }
}

/// The words of a text: its runs of characters that are not white space.
pub open spec fn words(s: Seq<char>) -> Seq<Seq<char>>
    decreases s.len(),
{
    if s.len() == 0 {
        Seq::empty()
    } else if white_space(s[0]) {
        words(s.drop_first())
    } else {
        proof {
            lemma_word_len(s);
        }
        seq![s.take(word_len(s) as int)] + words(s.skip(word_len(s) as int))
    }
}

/// The texts that some strings hold.
pub open spec fn views(v: Seq<String>) -> Seq<Seq<char>> {
    v.map_values(|s: String| s@)
}

/// Split a text at its white space.
pub fn split_whitespace(s: &str) -> (r: Vec<String>)
    ensures
        views(r@) == words(s@),
{
    let v = to_chars(s);
    let mut out: Vec<String> = Vec::new();
    let mut i: usize = 0;
    assert(v@.skip(0) =~= s@);
    assert(views(out@) =~= Seq::<Seq<char>>::empty());
    assert(words(s@) =~= views(out@) + words(v@.skip(0)));
    while i < v.len()
        invariant
            v@ == s@,
            i <= v@.len(),
            words(s@) == views(out@) + words(v@.skip(i as int)),
        decreases v@.len() - i,
    {
        if v[i].is_whitespace() {
            assert(v@.skip(i as int).drop_first() =~= v@.skip(i + 1));
            i += 1;
        } else {
            let ghost rest = v@.skip(i as int);
            let mut j: usize = i;
            assert(v@.skip(j as int) == rest);
            while j < v.len() && !v[j].is_whitespace()
                invariant
                    v@ == s@,
                    i <= j <= v@.len(),
                    rest == v@.skip(i as int),
                    word_len(rest) == (j - i) + word_len(v@.skip(j as int)),
                decreases v@.len() - j,
            {
                assert(v@.skip(j as int).drop_first() =~= v@.skip(j + 1));
                j += 1;
            }
            assert(word_len(rest) == j - i);
            let ghost before = out@;
            let word = from_chars(slice_subrange(v.as_slice(), i, j));
            out.push(word);
            proof {
                assert(rest.take(word_len(rest) as int) =~= v@.subrange(i as int, j as int));
                assert(rest.skip(word_len(rest) as int) =~= v@.skip(j as int));
                assert(views(out@) =~= views(before).push(word@));
                assert(views(before) + (seq![word@] + words(v@.skip(j as int))) =~= views(out@)
                    + words(v@.skip(j as int)));
            }
            i = j;
        }
    }
    assert(words(v@.skip(i as int)) =~= Seq::<Seq<char>>::empty());
    assert(views(out@) + words(v@.skip(i as int)) =~= views(out@));
    out
}

/// The pieces of a sequence between the places where `x` stands.
pub open spec fn pieces<A>(s: Seq<A>, x: A) -> Seq<Seq<A>>
    decreases s.len(),
{
    let k = first_index(s, x);
    if k < s.len() {
        proof {
            lemma_first_index(s, x);
        }
        seq![s.take(k)] + pieces(s.skip(k + 1), x)
    } else {
        seq![s]
    }
}

/// Split a text at every `x`.
pub fn split(s: &str, x: char) -> (r: Vec<String>)
    ensures
        views(r@) == pieces(s@, x),
        r@.len() > 0,
{
    let v = to_chars(s);
    let mut out: Vec<String> = Vec::new();
    let mut i: usize = 0;
    let mut j: usize = 0;
    assert(v@.skip(0) =~= s@);
    assert(views(out@) + pieces(v@.skip(0), x) =~= pieces(s@, x));
    while j < v.len()
        invariant
            v@ == s@,
            i <= j <= v@.len(),
            forall|k: int| i <= k < j ==> v@[k] != x,
            pieces(s@, x) == views(out@) + pieces(v@.skip(i as int), x),
        decreases v@.len() - j,
    {
        if v[j] == x {
            let ghost rest = v@.skip(i as int);
            proof {
                lemma_first_index_is(rest, x, j - i);
            }
            let ghost before = out@;
            let piece = from_chars(slice_subrange(v.as_slice(), i, j));
            out.push(piece);
            proof {
                assert(rest.take(j - i) =~= v@.subrange(i as int, j as int));
                assert(rest.skip(j - i + 1) =~= v@.skip(j + 1));
                assert(views(out@) =~= views(before).push(piece@));
                assert(views(before) + (seq![piece@] + pieces(v@.skip(j + 1), x)) =~= views(out@)
                    + pieces(v@.skip(j + 1), x));
            }
            i = j + 1;
        }
        j += 1;
    }
    let ghost rest = v@.skip(i as int);
    proof {
        lemma_first_index_is(rest, x, rest.len() as int);
    }
    let ghost before = out@;
    let piece = from_chars(slice_subrange(v.as_slice(), i, v.len()));
    out.push(piece);
    assert(piece@ =~= rest);
    assert(views(out@) =~= views(before) + seq![rest]);
    out
}

/// Split a byte string at every `x`.
pub fn split_bytes(v: &[u8], x: u8) -> (r: Vec<Vec<u8>>)
    ensures
        r@.map_values(|p: Vec<u8>| p@) == pieces(v@, x),
{
    let ghost see = |p: Vec<u8>| p@;
    let mut out: Vec<Vec<u8>> = Vec::new();
    let mut i: usize = 0;
    let mut j: usize = 0;
    assert(v@.skip(0) =~= v@);
    assert(out@.map_values(see) + pieces(v@.skip(0), x) =~= pieces(v@, x));
    while j < v.len()
        invariant
            i <= j <= v@.len(),
            see == (|p: Vec<u8>| p@),
            forall|k: int| i <= k < j ==> v@[k] != x,
            pieces(v@, x) == out@.map_values(see) + pieces(v@.skip(i as int), x),
        decreases v@.len() - j,
    {
        if v[j] == x {
            let ghost rest = v@.skip(i as int);
            proof {
                lemma_first_index_is(rest, x, j - i);
            }
            let ghost before = out@;
            let piece = vstd::slice::slice_to_vec(slice_subrange(v, i, j));
            out.push(piece);
            proof {
                assert(rest.take(j - i) =~= v@.subrange(i as int, j as int));
                assert(rest.skip(j - i + 1) =~= v@.skip(j + 1));
                assert(out@.map_values(see) =~= before.map_values(see).push(piece@));
                assert(before.map_values(see) + (seq![piece@] + pieces(v@.skip(j + 1), x))
                    =~= out@.map_values(see) + pieces(v@.skip(j + 1), x));
            }
            i = j + 1;
        }
        j += 1;
    }
    let ghost rest = v@.skip(i as int);
    proof {
        lemma_first_index_is(rest, x, rest.len() as int);
    }
    let ghost before = out@;
    let piece = vstd::slice::slice_to_vec(slice_subrange(v, i, v.len()));
    out.push(piece);
    assert(piece@ =~= rest);
    assert(out@.map_values(see) =~= before.map_values(see) + seq![rest]);
    out
}

/// The character of a decimal digit.
pub open spec fn digit_char(d: int) -> char {
    (('0' as u32 + d) as u32) as char
}

/// A number written in decimal.
pub open spec fn digits(n: nat) -> Seq<char>
    decreases n,
{
    if n < 10 {
        seq![digit_char(n as int)]
    } else {
        digits(n / 10).push(digit_char((n % 10) as int))
    }
}

fn digit_of(d: u64) -> (c: char)
    requires
        d < 10,
    ensures
        c == digit_char(d as int),
{
    let b: u8 = 48 + d as u8;
    b as char
}

/// Write a number in decimal.
pub fn decimal(n: u64) -> (r: String)
    ensures
        r@ == digits(n as nat),
    decreases n,
{
    if n < 10 {
        let mut s = String::new();
        s.push(digit_of(n));
        assert(s@ =~= digits(n as nat));
        s
    } else {
        let mut s = decimal(n / 10);
        s.push(digit_of(n % 10));
        s
    }
}

/// Whether a character is a decimal digit.
pub open spec fn is_digit(c: char) -> bool {
    '0' as u32 <= c as u32 <= '9' as u32
}

/// What a decimal digit is worth.
pub open spec fn digit_value(c: char) -> int {
    c as u32 - '0' as u32
}

/// What a run of decimal digits is worth.
pub open spec fn digits_value(s: Seq<char>) -> int
    decreases s.len(),
{
    if s.len() == 0 {
        0
    } else {
        digits_value(s.drop_last()) * 10 + digit_value(s.last())
    }
}

/// The digits of a written number: all of it, but for one leading `+`.
pub open spec fn number_digits(s: Seq<char>) -> Seq<char> {
    if s.len() > 0 && s[0] == '+' {
        s.drop_first()
    } else {
        s
    }
}

/// The number that a text writes, when it is an optional `+` and then one or
/// more decimal digits, and the number is at most `max`.
pub open spec fn number(s: Seq<char>, max: int) -> Option<int> {
    let d = number_digits(s);
    if d.len() > 0 && (forall|i: int| 0 <= i < d.len() ==> is_digit(#[trigger] d[i]))
        && digits_value(d) <= max {
        Some(digits_value(d))
    } else {
        None
    }
}

proof fn lemma_digits_value_grows(s: Seq<char>, n: int)
    requires
        0 <= n <= s.len(),
        forall|i: int| 0 <= i < s.len() ==> is_digit(#[trigger] s[i]),
    ensures
        0 <= digits_value(s.take(n)) <= digits_value(s),
    decreases s.len(),
{
    if s.len() == 0 {
        assert(s.take(n) =~= s);
    } else if n == s.len() {
        lemma_digits_value_grows(s.drop_last(), n - 1);
        assert(s.take(n) =~= s);
        assert(s.drop_last().take(n - 1) =~= s.drop_last());
        assert(is_digit(s[n - 1]));
    } else {
        lemma_digits_value_grows(s.drop_last(), n);
        assert(s.drop_last().take(n) =~= s.take(n));
        assert(is_digit(s[s.len() - 1]));
    }
}

/// Read a number that is at most `max`.
pub fn parse_number(s: &str, max: u64) -> (r: Option<u64>)
    ensures
        match r {
            Some(n) => number(s@, max as int) == Some(n as int),
            None => number(s@, max as int) is None,
        },
{
    let v = to_chars(s);
    let start: usize = if v.len() > 0 && v[0] == '+' {
        1
    } else {
        0
    };
    let ghost d = number_digits(s@);
    assert(d =~= v@.skip(start as int));
    if start == v.len() {
        return None;
    }
    let mut acc: u64 = 0;
    let mut i: usize = start;
    assert(d.take(0) =~= Seq::<char>::empty());
    while i < v.len()
        invariant
            v@ == s@,
            start <= i <= v@.len(),
            d == number_digits(s@),
            d == v@.skip(start as int),
            forall|k: int| 0 <= k < i - start ==> is_digit(#[trigger] d[k]),
            acc == digits_value(d.take(i - start)),
            acc <= max,
        decreases v@.len() - i,
    {
        let c = v[i];
        assert(d[i - start] == c);
        let code: u32 = c as u32;
        if code < 48 || code > 57 {
            assert(!is_digit(d[i - start]));
            return None;
        }
        let digit: u64 = (code - 48) as u64;
        proof {
            assert(d.take(i - start + 1).drop_last() =~= d.take(i - start));
            assert(digits_value(d.take(i - start + 1)) == acc * 10 + digit);
        }
        if acc > max / 10 || digit > max || acc * 10 > max - digit {
            proof {
                assert(acc * 10 + digit > max);
                if forall|k: int| 0 <= k < d.len() ==> is_digit(#[trigger] d[k]) {
                    lemma_digits_value_grows(d, i - start + 1);
                }
            }
            return None;
        }
        acc = acc * 10 + digit;
        i += 1;
    }
    assert(d.take(i - start) =~= d);
    Some(acc)
}

/// A written number reads back as the number.
pub proof fn law_number_reads_back(n: nat, max: int)
    requires
        n <= max,
    ensures
        number(digits(n), max) == Some(n as int),
        digits(n).len() > 0,
{
    lemma_digits_read_back(n);
    assert(is_digit(digits(n)[0]));
}

pub proof fn lemma_digits_read_back(n: nat)
    ensures
        digits(n).len() > 0,
        forall|i: int| 0 <= i < digits(n).len() ==> is_digit(#[trigger] digits(n)[i]),
        digits_value(digits(n)) == n,
    decreases n,
{
    let d = digits(n);
    let low = (n % 10) as int;
    assert(is_digit(digit_char(low)) && digit_value(digit_char(low)) == low);
    if n < 10 {
        assert(d.drop_last() =~= Seq::<char>::empty());
        reveal_with_fuel(digits_value, 2);
    } else {
        lemma_digits_read_back(n / 10);
        assert(d.drop_last() =~= digits(n / 10));
        assert forall|i: int| 0 <= i < d.len() implies is_digit(#[trigger] d[i]) by {
            if i < d.len() - 1 {
                assert(is_digit(digits(n / 10)[i]));
            }
        }
    }
}

/// How two texts are ordered: by code point, a proper prefix first.
pub open spec fn text_order(a: Seq<char>, b: Seq<char>) -> int {
    lex(char_order(), a, b)
}

/// What holds of the order of three texts.
pub proof fn lemma_text_order(a: Seq<char>, b: Seq<char>, c: Seq<char>)
    ensures
        (text_order(a, b) < 0) == (text_order(b, a) > 0),
        (text_order(a, b) > 0) == (text_order(b, a) < 0),
        text_order(a, b) <= 0 && text_order(b, c) <= 0 ==> text_order(a, c) <= 0,
        text_order(a, b) <= 0 && text_order(b, c) <= 0 && text_order(a, c) == 0 ==> text_order(
            a,
            b,
        ) == 0 && text_order(b, c) == 0,
{
    lemma_char_order();
    lemma_lex_flip(char_order(), a, b);
    lemma_lex_flip(char_order(), b, c);
    lemma_lex_flip(char_order(), a, c);
    if text_order(a, b) <= 0 && text_order(b, c) <= 0 {
        lemma_lex_carries(char_order(), a, b, c);
        if text_order(a, c) == 0 {
            lemma_lex_zero(char_order(), a, c);
        }
    }
}

/// Whether one text does not come after another.
pub open spec fn text_le() -> spec_fn(Seq<char>, Seq<char>) -> bool {
    |a: Seq<char>, b: Seq<char>| text_order(a, b) <= 0
}

/// Texts are ranked.
pub proof fn lemma_text_le()
    ensures
        is_ranking(text_le()),
{
    let le = text_le();
    assert forall|x: Seq<char>, y: Seq<char>| #[trigger] le(x, y) || le(y, x) by {
        lemma_text_order(x, y, y);
    }
    assert forall|x: Seq<char>, y: Seq<char>, z: Seq<char>| #[trigger]
        le(x, y) && #[trigger] le(y, z) implies le(x, z) by {
        lemma_text_order(x, y, z);
    }
}

/// The sign of the order of two texts: -1, 0 or 1.
pub fn compare_text(a: &str, b: &str) -> (r: i8)
    ensures
        (r < 0) == (text_order(a@, b@) < 0),
        (r > 0) == (text_order(a@, b@) > 0),
{
    let v = to_chars(a);
    let w = to_chars(b);
    let mut i: usize = 0;
    assert(v@.skip(0) =~= a@);
    assert(w@.skip(0) =~= b@);
    while i < v.len() && i < w.len()
        invariant
            v@ == a@,
            w@ == b@,
            i <= v@.len(),
            i <= w@.len(),
            text_order(a@, b@) == text_order(v@.skip(i as int), w@.skip(i as int)),
        decreases v@.len() - i,
    {
        let x: u32 = v[i] as u32;
        let y: u32 = w[i] as u32;
        proof {
            vstd::utf8::char_is_scalar(v@[i as int]);
            vstd::utf8::char_is_scalar(w@[i as int]);
            vstd::utf8::char_u32_cast(v@[i as int], x);
            vstd::utf8::char_u32_cast(w@[i as int], y);
            assert(v@.skip(i as int)[0] == v@[i as int]);
            assert(w@.skip(i as int)[0] == w@[i as int]);
        }
        if x < y {
            return -1;
        }
        if x > y {
            return 1;
        }
        assert(v@.skip(i as int).drop_first() =~= v@.skip(i + 1));
        assert(w@.skip(i as int).drop_first() =~= w@.skip(i + 1));
        i += 1;
    }
    if i < v.len() {
        1
    } else if i < w.len() {
        -1
    } else {
        0
    }
}

/// `s` with `with` in place of every `x`.
pub open spec fn replaced(s: Seq<char>, x: char, with: Seq<char>) -> Seq<char>
    decreases s.len(),
{
    if s.len() == 0 {
        s
    } else {
        (if s[0] == x {
            with
        } else {
            seq![s[0]]
        }) + replaced(s.skip(1), x, with)
    }
}

/// Puts a text in place of every `x`.
pub fn replace_char(s: &str, x: char, with: &str) -> (r: String)
    ensures
        r@ == replaced(s@, x, with@),
{
    let v = to_chars(s);
    let mut out = String::new();
    let mut i: usize = 0;
    assert(v@.skip(0) =~= s@);
    assert(out@ + replaced(v@.skip(0), x, with@) =~= replaced(s@, x, with@));
    while i < v.len()
        invariant
            v@ == s@,
            i <= v@.len(),
            replaced(s@, x, with@) == out@ + replaced(v@.skip(i as int), x, with@),
        decreases v@.len() - i,
    {
        let ghost held = out@;
        let ghost rest = v@.skip(i as int);
        assert(rest[0] == v@[i as int]);
        assert(rest.skip(1) =~= v@.skip(i + 1));
        if v[i] == x {
            out = join2(out.as_str(), with);
            assert(held + (with@ + replaced(v@.skip(i + 1), x, with@)) =~= out@ + replaced(
                v@.skip(i + 1),
                x,
                with@,
            ));
        } else {
            out.push(v[i]);
            assert(held + (seq![v@[i as int]] + replaced(v@.skip(i + 1), x, with@)) =~= out@
                + replaced(v@.skip(i + 1), x, with@));
        }
        i += 1;
    }
    assert(out@ + replaced(v@.skip(i as int), x, with@) =~= out@);
    out
}

/// `s` with `with` in place of `pat`, wherever it stands, from the left.
pub open spec fn replaced_all(s: Seq<char>, pat: Seq<char>, with: Seq<char>) -> Seq<char>
    decreases s.len(),
{
    if pat.len() == 0 || s.len() < pat.len() {
        s
    } else if s.take(pat.len() as int) == pat {
        with + replaced_all(s.skip(pat.len() as int), pat, with)
    } else {
        seq![s[0]] + replaced_all(s.skip(1), pat, with)
    }
}

/// Puts a text in place of another that is not empty, wherever it stands.
pub fn replace_all(s: &str, pat: &str, with: &str) -> (r: String)
    requires
        pat@.len() > 0,
    ensures
        r@ == replaced_all(s@, pat@, with@),
{
    let v = to_chars(s);
    let w = to_chars(pat);
    let n: usize = w.len();
    let mut out = String::new();
    let mut i: usize = 0;
    assert(v@.skip(0) =~= s@);
    assert(out@ + replaced_all(v@.skip(0), pat@, with@) =~= replaced_all(s@, pat@, with@));
    while i < v.len()
        invariant
            v@ == s@,
            w@ == pat@,
            n == w@.len(),
            n > 0,
            i <= v.len(),
            replaced_all(s@, pat@, with@) == out@ + replaced_all(v@.skip(i as int), pat@, with@),
        decreases v@.len() - i,
    {
        let ghost held = out@;
        let ghost rest = v@.skip(i as int);
        assert(rest[0] == v@[i as int]);
        let mut hit = v.len() - i >= n;
        if hit {
            let mut j: usize = 0;
            while j < n && v[i + j] == w[j]
                invariant
                    i + n <= v.len(),
                    n == w@.len(),
                    j <= n,
                    forall|k: int| 0 <= k < j ==> v@[i + k] == w@[k],
                decreases n - j,
            {
                j += 1;
            }
            hit = j == n;
            proof {
                if hit {
                    assert(rest.take(n as int) =~= pat@);
                } else {
                    assert(rest.take(n as int)[j as int] == v@[i + j]);
                }
            }
        }
        if hit {
            out = join2(out.as_str(), with);
            assert(rest.skip(n as int) =~= v@.skip(i + n));
            i += n;
            assert(held + (with@ + replaced_all(v@.skip(i as int), pat@, with@)) =~= out@
                + replaced_all(v@.skip(i as int), pat@, with@));
        } else {
            out.push(v[i]);
            assert(rest.skip(1) =~= v@.skip(i + 1));
            proof {
                if rest.len() < n {
                    lemma_short_stays(rest, pat@, with@);
                }
            }
            assert(held + (seq![v@[i as int]] + replaced_all(v@.skip(i + 1), pat@, with@)) =~= out@
                + replaced_all(v@.skip(i + 1), pat@, with@));
            i += 1;
        }
    }
    assert(out@ + replaced_all(v@.skip(i as int), pat@, with@) =~= out@);
    out
}

proof fn lemma_short_stays(s: Seq<char>, pat: Seq<char>, with: Seq<char>)
    requires
        0 < s.len() < pat.len(),
    ensures
        replaced_all(s, pat, with) == seq![s[0]] + replaced_all(s.skip(1), pat, with),
{
    assert(seq![s[0]] + s.skip(1) =~= s);
}

/// Texts one after another, with `sep` between.
pub open spec fn joined(parts: Seq<Seq<char>>, sep: Seq<char>) -> Seq<char>
    decreases parts.len(),
{
    if parts.len() == 0 {
        Seq::empty()
    } else if parts.len() == 1 {
        parts[0]
    } else {
        joined(parts.drop_last(), sep) + sep + parts.last()
    }
}

/// Puts texts one after another, with `sep` between.
pub fn join_with(parts: &Vec<String>, sep: &str) -> (r: String)
    ensures
        r@ == joined(views(parts@), sep@),
{
    let mut out = String::new();
    let mut i: usize = 0;
    let ghost ps = views(parts@);
    assert(out@ =~= joined(ps.take(0), sep@));
    while i < parts.len()
        invariant
            i <= parts@.len(),
            ps == views(parts@),
            out@ == joined(ps.take(i as int), sep@),
        decreases parts@.len() - i,
    {
        let ghost t = ps.take(i + 1);
        assert(t.drop_last() =~= ps.take(i as int));
        assert(t.last() == parts@[i as int]@);
        if i > 0 {
            out = join3(out.as_str(), sep, parts[i].as_str());
        } else {
            out = parts[i].clone();
            assert(t[0] == parts@[0]@);
        }
        i += 1;
    }
    assert(ps.take(i as int) =~= ps);
    out
}

/// A text written so many times.
pub open spec fn repeated(s: Seq<char>, n: nat) -> Seq<char>
    decreases n,
{
    if n == 0 {
        Seq::empty()
    } else {
        repeated(s, (n - 1) as nat) + s
    }
}

/// Write a text so many times.
pub fn repeat(s: &str, n: usize) -> (r: String)
    ensures
        r@ == repeated(s@, n as nat),
{
    let mut r = String::new();
    let mut i: usize = 0;
    assert(r@ =~= Seq::empty());
    while i < n
        invariant
            i <= n,
            r@ == repeated(s@, i as nat),
        decreases n - i,
    {
        r.append(s);
        i += 1;
    }
    r
}

/// A text with spaces behind it, up to a width.
pub open spec fn padded(s: Seq<char>, width: nat) -> Seq<char> {
    s + repeated(" "@, if s.len() < width {
        (width - s.len()) as nat
    } else {
        0
    })
}

/// Put spaces behind a text, up to a width.
pub fn pad(s: &str, width: usize) -> (r: String)
    ensures
        r@ == padded(s@, width as nat),
{
    let n: usize = to_chars(s).len();
    let fill = if n < width {
        repeat(" ", width - n)
    } else {
        repeat(" ", 0)
    };
    join2(s, fill.as_str())
}

/// Four texts, one after the other.
pub fn join4(a: &str, b: &str, c: &str, d: &str) -> (r: String)
    ensures
        r@ == a@ + b@ + c@ + d@,
{
    let mut r = a.to_owned();
    r.append(b);
    r.append(c);
    r.append(d);
    r
}

} // verus!
