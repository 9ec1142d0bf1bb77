//! Which names match what is typed to filter the tree.

use vstd::prelude::*;

use crate::text::{all_ascii, ascii_lower, lower_case, to_bytes, to_chars};

verus! {

/// `nucleo_matcher::Matcher`: the storage that matching works in.
#[verifier::external_type_specification]
#[verifier::external_body]
pub struct ExMatcher(nucleo_matcher::Matcher);

/// How many characters can be matched without the score leaving its range.
pub const MAX_SCORED: usize = 2520;

/// The longest name that is matched, in bytes.
pub const MAX_NAME: usize = 4294967295;

/// The longest query that is matched, in characters.
pub const MAX_QUERY: usize = 69000000;

/// A character without regard to case.
pub uninterp spec fn folded_char(c: char) -> char;

/// `nucleo_matcher::chars::to_lower_case`: a character by the simple case folding
/// of Unicode, which depends on the character alone. Of ASCII the capital letters
/// are lowered; what other characters come to is left unsaid.
pub assume_specification[ nucleo_matcher::chars::to_lower_case ](c: char) -> (r: char)
    ensures
        r == folded_char(c),
        (c as u32) < 128 ==> r == ascii_lower(c),
;

/// A character without its accents.
pub uninterp spec fn bare_char(c: char) -> char;

/// `nucleo_matcher::chars::normalize`: the ASCII character that a Latin one is a
/// variant of, which depends on the character alone. ASCII stays as it is; what
/// other characters come to is left unsaid.
pub assume_specification[ nucleo_matcher::chars::normalize ](c: char) -> (r: char)
    ensures
        r == bare_char(c),
        (c as u32) < 128 ==> r == c,
;

/// How many backslashes there are in a text.
pub open spec fn backslashes(s: Seq<char>) -> nat
    decreases s.len(),
{
    if s.len() == 0 {
        0
    } else {
        backslashes(s.drop_last()) + if s.last() == '\\' {
            1nat
        } else {
            0nat
        }
    }
}

/// How many characters the words of a query can have together. Where it is not
/// all ASCII, a backslash can count twice.
pub open spec fn asked_for(query: Seq<char>) -> nat {
    if all_ascii(query) {
        query.len()
    } else {
        query.len() + backslashes(query)
    }
}

/// Whether a query holds an accented character, which makes accents count.
pub open spec fn has_accent(query: Seq<char>) -> bool {
    exists|i: int|
        0 <= i < query.len() && bare_char(folded_char(#[trigger] query[i])) != folded_char(query[i])
}

/// Whether a query holds a character in one case or another.
pub open spec fn holds_char(query: Seq<char>, c: char) -> bool {
    exists|i: int| 0 <= i < query.len() && folded_char(#[trigger] query[i]) == c
}

/// Whether a character is a lowercase one that still is another without regard
/// to case, and that other is in a query.
pub open spec fn is_odd_for(query: Seq<char>, c: char) -> bool {
    lower_case(c) && folded_char(c) != c && holds_char(query, folded_char(c))
}

/// Whether a name and a query cannot be matched for the way in which they are
/// written: accents count, and the name writes a character of the query in an
/// odd way.
pub open spec fn clashes(query: Seq<char>, name: Seq<char>) -> bool {
    has_accent(query) && exists|i: int|
        0 <= i < name.len() && is_odd_for(query, #[trigger] name[i])
}

/// Whether a name and a query are short enough to be matched. What is matched is
/// at most as long as the query, and as the name.
pub open spec fn short_enough(query: Seq<char>, name: Seq<char>) -> bool {
    let bytes = vstd::utf8::encode_utf8(name).len();
    &&& query.len() <= MAX_QUERY
    &&& bytes <= MAX_NAME
    &&& bytes * MAX_SCORED <= usize::MAX
    &&& asked_for(query) <= MAX_SCORED || bytes <= MAX_SCORED
}

/// How well a name matches a query; `None` where it does not.
pub uninterp spec fn fuzzy_score(query: Seq<char>, name: Seq<char>) -> Option<u32>;

/// `nucleo_matcher::Matcher::new`: fresh storage. Nothing is said of it.
#[verifier::external_body]
pub(crate) fn new_matcher() -> (r: nucleo_matcher::Matcher) {
    nucleo_matcher::Matcher::new(nucleo_matcher::Config::DEFAULT)
}

/// `nucleo_matcher::pattern::Pattern::score`, with the default settings and
/// without regard to case: how well a name matches a query depends on the two
/// texts alone. Which names match which queries is left unsaid.
///
/// The lengths are bounded. The score of one word of the query is counted in 16
/// bits, at most 26 for each of its characters and 10 more for the first; the sum
/// over the words is counted in 32 bits, and so are places in a name, which can
/// be places of bytes; the size of a table, as long as the name and as high as
/// the word, is counted in a `usize`. A name that clashes with the query is left
/// out: the first character of a word is looked for in two ways, which have to
/// agree, and only one of them takes a lowercase character as another.
#[verifier::external_body]
fn score(matcher: &mut nucleo_matcher::Matcher, query: &str, name: &str) -> (r: Option<u32>)
    requires
        short_enough(query@, name@),
        !clashes(query@, name@),
    ensures
        r == fuzzy_score(query@, name@),
{
    matcher.config = nucleo_matcher::Config::DEFAULT;
    let mut buf = Vec::new();
    let pattern = nucleo_matcher::pattern::Pattern::parse(
        query,
        nucleo_matcher::pattern::CaseMatching::Ignore,
        nucleo_matcher::pattern::Normalization::Smart,
    );
    pattern.score(nucleo_matcher::Utf32Str::new(name, &mut buf), matcher)
}

fn find_asked_for(query: &Vec<char>) -> (r: usize)
    requires
        query@.len() <= MAX_QUERY,
    ensures
        r == asked_for(query@),
{
    let mut ascii = true;
    let mut doubled: usize = 0;
    let mut i: usize = 0;
    while i < query.len()
        invariant
            i <= query@.len() <= MAX_QUERY,
            ascii == all_ascii(query@.take(i as int)),
            doubled == backslashes(query@.take(i as int)),
            doubled <= i,
        decreases query@.len() - i,
    {
        let c = query[i];
        proof {
            let t = query@.take(i + 1);
            assert(t.drop_last() =~= query@.take(i as int));
            assert(t.last() == c);
            assert(all_ascii(t) == (all_ascii(t.drop_last()) && (c as u32) < 128)) by {
                if all_ascii(t) {
                    assert forall|k: int| 0 <= k < i implies (#[trigger] t.drop_last()[k] as u32)
                        < 128 by {
                        assert(t[k] == t.drop_last()[k]);
                    }
                    assert((t[i as int] as u32) < 128);
                } else if all_ascii(t.drop_last()) && (c as u32) < 128 {
                    assert forall|k: int| 0 <= k < t.len() implies (#[trigger] t[k] as u32)
                        < 128 by {
                        if k < i {
                            assert((t.drop_last()[k] as u32) < 128);
                        }
                    }
                }
            }
        }
        if (c as u32) >= 128 {
            ascii = false;
        }
        if c == '\\' {
            doubled += 1;
        }
        i += 1;
    }
    assert(query@.take(i as int) =~= query@);
    if ascii {
        query.len()
    } else {
        query.len() + doubled
    }
}

fn find_accent(query: &Vec<char>) -> (r: bool)
    ensures
        r == has_accent(query@),
{
    let mut i: usize = 0;
    while i < query.len()
        invariant
            i <= query@.len(),
            forall|k: int|
                0 <= k < i ==> bare_char(folded_char(#[trigger] query@[k])) == folded_char(query@[k]),
        decreases query@.len() - i,
    {
        let c = nucleo_matcher::chars::to_lower_case(query[i]);
        if nucleo_matcher::chars::normalize(c) != c {
            return true;
        }
        i += 1;
    }
    false
}

fn find_char(query: &Vec<char>, c: char) -> (r: bool)
    ensures
        r == holds_char(query@, c),
{
    let mut i: usize = 0;
    while i < query.len()
        invariant
            i <= query@.len(),
            forall|k: int| 0 <= k < i ==> folded_char(#[trigger] query@[k]) != c,
        decreases query@.len() - i,
    {
        if nucleo_matcher::chars::to_lower_case(query[i]) == c {
            return true;
        }
        i += 1;
    }
    false
}

fn find_clash(query: &Vec<char>, name: &Vec<char>) -> (r: bool)
    ensures
        r == clashes(query@, name@),
{
    if !find_accent(query) {
        return false;
    }
    let mut i: usize = 0;
    while i < name.len()
        invariant
            i <= name@.len(),
            has_accent(query@),
            forall|k: int| 0 <= k < i ==> !is_odd_for(query@, #[trigger] name@[k]),
        decreases name@.len() - i,
    {
        let c = name[i];
        if c.is_lowercase() {
            let plain = nucleo_matcher::chars::to_lower_case(c);
            if plain != c && find_char(query, plain) {
                assert(is_odd_for(query@, name@[i as int]));
                return true;
            }
        }
        i += 1;
    }
    false
}

/// Whether a name matches a query. An empty query is matched by every name. A
/// name that is too long to be matched, or that clashes with the query, matches
/// nothing else.
pub open spec fn matches_query(query: Seq<char>, name: Seq<char>) -> bool {
    query.len() == 0 || (short_enough(query, name) && !clashes(query, name) && fuzzy_score(
        query,
        name,
    ) is Some)
}

/// Whether a name matches a query.
pub fn name_matches(matcher: &mut nucleo_matcher::Matcher, query: &str, name: &str) -> (r: bool)
    ensures
        r == matches_query(query@, name@),
{
    if query.is_empty() {
        return true;
    }
    let asked = to_chars(query);
    let bytes: usize = to_bytes(name).len();
    if asked.len() > MAX_QUERY || bytes > MAX_NAME || bytes > usize::MAX / MAX_SCORED {
        return false;
    }
    if find_asked_for(&asked) > MAX_SCORED && bytes > MAX_SCORED {
        return false;
    }
    if find_clash(&asked, &to_chars(name)) {
        return false;
    }
    score(matcher, query, name).is_some()
}

} // verus!
