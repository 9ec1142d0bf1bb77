//! What holds of the names that copies and trashed files get, and of paths that
//! lead through links.

use vstd::prelude::*;

use crate::path::{comps, join_text, rest_text};
use crate::text::digits;
use crate::tree::ops::{above, canonical, lenient, paste_name, refuses_rename, trash_name};
use crate::tree::ops::{name_text, paste_try, trash_try};
use crate::tree::order_laws::law_name_parts;

verus! {

/// What is pasted keeps its name where that is free. Otherwise `_copy` comes
/// before its extension, and from the second time on a number behind that.
pub proof fn law_copies_are_numbered(stem: Seq<char>, ext: Seq<char>, n: int)
    requires
        stem.len() > 0,
        ext.len() > 0,
        !ext.contains('.'),
        n >= 2,
    ensures
        ({
            let name = stem + (seq!['.'] + ext);
            &&& paste_name(name, 0) == name
            &&& paste_name(name, 1) == stem + "_copy"@ + "."@ + ext
            &&& paste_name(name, n) == stem + ("_copy_"@ + digits(n as nat)) + "."@ + ext
        }),
        paste_name(ext, 0) == ext,
        paste_name(ext, 1) == ext + "_copy"@,
        paste_name(ext, n) == ext + ("_copy_"@ + digits(n as nat)),
{
    law_name_parts(stem, ext);
}

/// What is trashed keeps its name where that is free, and otherwise has a number
/// behind it.
pub proof fn law_trash_is_numbered(name: Seq<char>, n: int)
    requires
        n >= 1,
    ensures
        trash_name(name, 0) == name,
        trash_name(name, n) == name + " "@ + digits(n as nat),
{
}

/// Both are tried in the directory that they go to.
pub proof fn law_tries_are_in_the_directory(dest: Seq<u8>, src: Seq<u8>, n: int)
    requires
        n >= 1,
    ensures
        paste_try(dest, src, n) == join_text(
            dest,
            vstd::utf8::encode_utf8(paste_name(name_text(src), n)),
        ),
        paste_try(dest, src, 0) == join_text(dest, vstd::utf8::encode_utf8(name_text(src))),
        trash_try(dest, src, n) == join_text(
            dest,
            vstd::utf8::encode_utf8(trash_name(name_text(src), n)),
        ),
{
}

/// A rename onto something that is there is refused, unless both names are the
/// same entry; one onto a free name is not.
pub proof fn law_renames_refused(
    same: bool,
    from: Option<Seq<Seq<u8>>>,
    to: Option<Seq<Seq<u8>>>,
)
    ensures
        !refuses_rename(false, same, from, to),
        !same ==> refuses_rename(true, same, from, to),
        from != to ==> refuses_rename(true, same, from, to),
        same && from is Some && from == to ==> !refuses_rename(true, same, from, to),
{
}

/// A path that is there is taken as what it really is.
pub proof fn law_existing_paths_are_resolved(
    p: Seq<u8>,
    q: Seq<u8>,
    reals: Seq<Option<Seq<u8>>>,
)
    ensures
        canonical(p, Some(q), reals) == q,
{
}

proof fn lemma_lenient(
    p: Seq<u8>,
    ups: Seq<Seq<u8>>,
    reals: Seq<Option<Seq<u8>>>,
    i: int,
    q: Seq<u8>,
)
    requires
        0 <= i < ups.len(),
        i < reals.len(),
        reals[i] == Some(q),
        forall|j: int| 0 <= j < i ==> (#[trigger] reals[j]) is None,
    ensures
        lenient(p, ups, reals) == join_text(q, rest_text(p, comps(ups[i]).len() as int)),
    decreases i,
{
    if i > 0 {
        assert(reals[0] is None);
        let us = ups.skip(1);
        let rs = reals.skip(1);
        assert(rs[i - 1] == Some(q));
        assert(us[i - 1] == ups[i]);
        assert forall|j: int| 0 <= j < i - 1 implies (#[trigger] rs[j]) is None by {
            assert(rs[j] == reals[j + 1]);
        }
        lemma_lenient(p, us, rs, i - 1, q);
    }
}

/// A path that is not there is taken from the nearest directory above it that
/// is: what that really is, with the rest of the path behind it.
pub proof fn law_missing_paths_are_resolved_above(
    p: Seq<u8>,
    reals: Seq<Option<Seq<u8>>>,
    i: int,
    q: Seq<u8>,
)
    requires
        0 <= i < above(p).len(),
        i < reals.len(),
        reals[i] == Some(q),
        forall|j: int| 0 <= j < i ==> (#[trigger] reals[j]) is None,
    ensures
        canonical(p, None, reals) == join_text(q, rest_text(p, comps(above(p)[i]).len() as int)),
{
    lemma_lenient(p, above(p), reals, i, q);
}

} // verus!
