//! What holds of the lines that the editor sends.

use vstd::prelude::*;

use crate::diagnostics::Counts;
use crate::ipc::{accepts, absolute_text, cut_first, folded, line_of, BatchView, Line, LineView};
use crate::ipc::MessageView;
use crate::text::{cut_last, digits, law_number_reads_back, lemma_digits_read_back};
use crate::text::{lemma_first_index_is, lemma_last_index, lemma_last_index_is, number};

verus! {

proof fn lemma_cut_first(a: Seq<char>, b: Seq<char>)
    requires
        !a.contains(' '),
    ensures
        cut_first(a + " "@ + b) == Some((a, b)),
{
    reveal_strlit(" ");
    let s = a + " "@ + b;
    let k = a.len() as int;
    assert(s[k] == ' ');
    assert forall|i: int| 0 <= i < k implies s[i] != ' ' by {
        assert(s[i] == a[i]);
        if a[i] == ' ' {
            assert(a.contains(' '));
        }
    }
    lemma_first_index_is(s, ' ', k);
    assert(s.take(k) =~= a);
    assert(s.skip(k + 1) =~= b);
}

proof fn lemma_digits_are_no_blanks(n: nat)
    ensures
        !digits(n).contains(' '),
{
    lemma_digits_read_back(n);
    if digits(n).contains(' ') {
        let i = digits(n).index_of(' ');
        assert(crate::text::is_digit(digits(n)[i]));
    }
}

/// A line that reports on a file is read as what it says: so many errors, so
/// many warnings, and the path to the end of the line.
pub proof fn law_diagnostics_read_back(errors: u32, warnings: u32, path: Seq<char>)
    requires
        path.len() > 0,
    ensures
        line_of("diagnostics "@ + (digits(errors as nat) + " "@ + (digits(warnings as nat) + " "@ + path)))
            == Some(LineView::Diagnostics { path, counts: Counts { errors, warnings } }),
{
    let more = digits(warnings as nat) + " "@ + path;
    let rest = digits(errors as nat) + " "@ + more;
    let s = "diagnostics "@ + rest;
    reveal_strlit("diagnostics ");
    reveal_strlit("diagnostics-end ");
    reveal_strlit("diagnostics-begin ");
    assert(s.take(12) =~= "diagnostics "@);
    assert(s.skip(12) =~= rest);
    assert(s[11] == ' ');
    assert(s.take("diagnostics-begin "@.len() as int)[11] == ' ' || s.len()
        < "diagnostics-begin "@.len());
    assert(s.take("diagnostics-end "@.len() as int)[11] == ' ' || s.len()
        < "diagnostics-end "@.len());
    lemma_digits_are_no_blanks(errors as nat);
    lemma_digits_are_no_blanks(warnings as nat);
    lemma_cut_first(digits(errors as nat), more);
    lemma_cut_first(digits(warnings as nat), path);
    law_number_reads_back(errors as nat, u32::MAX as int);
    law_number_reads_back(warnings as nat, u32::MAX as int);
}

/// A line that begins a list, or ends one, is read as what it says.
pub proof fn law_list_lines_read_back(sender: Seq<char>, n: u64)
    ensures
        line_of("diagnostics-begin "@ + (sender + " "@ + digits(n as nat))) == Some(
            LineView::Begin { sender, seq: n },
        ),
        line_of("diagnostics-begin "@ + digits(n as nat)) == Some(
            LineView::Begin { sender: Seq::empty(), seq: n },
        ),
        line_of("diagnostics-end "@ + digits(n as nat)) == Some(LineView::End(n)),
{
    reveal_strlit(" ");
    reveal_strlit("diagnostics-begin ");
    reveal_strlit("diagnostics-end ");
    let d = digits(n as nat);
    let rest = sender + " "@ + d;
    let a = "diagnostics-begin "@ + rest;
    let b = "diagnostics-begin "@ + d;
    let c = "diagnostics-end "@ + d;
    lemma_digits_are_no_blanks(n as nat);
    law_number_reads_back(n as nat, u64::MAX as int);
    assert(a.take(18) =~= "diagnostics-begin "@);
    assert(a.skip(18) =~= rest);
    assert(b.take(18) =~= "diagnostics-begin "@);
    assert(b.skip(18) =~= d);
    assert(c.take(16) =~= "diagnostics-end "@);
    assert(c.skip(16) =~= d);
    assert(c[12] == 'e');
    assert(c.take(18)[12] == 'e' || c.len() < 18);
    let k = sender.len() as int;
    assert(rest[k] == ' ');
    assert forall|i: int| k < i < rest.len() implies rest[i] != ' ' by {
        assert(rest[i] == d[i - k - 1]);
        if d[i - k - 1] == ' ' {
            assert(d.contains(' '));
        }
    }
    lemma_last_index_is(rest, ' ', k);
    assert(rest.take(k) =~= sender);
    assert(rest.skip(k + 1) =~= d);
    lemma_last_index(d, ' ');
    if cut_last(d, ' ') is Some {
        assert(d.contains(' '));
    }
}

/// A line that begins with none of the five words says nothing, and neither does
/// a request to reveal without a path.
pub proof fn law_other_lines_say_nothing(s: Seq<char>)
    ensures
        line_of(s) is Some ==> crate::text::begins_with(s, "diagnostics-begin "@)
            || crate::text::begins_with(s, "diagnostics-end "@) || crate::text::begins_with(
            s,
            "diagnostics "@,
        ) || crate::text::begins_with(s, "reveal-follow "@) || crate::text::begins_with(
            s,
            "reveal "@,
        ),
        line_of(s) matches Some(LineView::Reveal { path, follow }) ==> path.len() > 0,
        line_of(s) matches Some(LineView::Diagnostics { path, counts }) ==> path.len() > 0,
{
}

/// A list is taken over only if it is newer than the last one from the same
/// sender; one from another sender, and the first one, always is.
pub proof fn law_stale_lists_are_refused(from: Seq<char>, at: u64, sender: Seq<char>, seq: u64)
    ensures
        accepts(None, sender, seq),
        from != sender ==> accepts(Some((from, at)), sender, seq),
        accepts(Some((from, at)), from, seq) == (seq > at),
{
}

/// A report by itself is passed on at once; one inside a list waits for its end.
/// A list that ends under another number than it began with is dropped, and so
/// is one that another begins after. A request to reveal is passed on at once
/// and leaves a list alone.
pub proof fn law_lines_are_put_together(b: BatchView, line: Line)
    ensures
        line matches Line::Reveal(r) ==> folded(None, line).1 == Some(MessageView::Reveal(r))
            && folded(Some(b), line) == (Some(b), Some(MessageView::Reveal(r))),
        line matches Line::Diagnostics(d) ==> folded(None, line) == (
            None::<BatchView>,
            Some(MessageView::Diagnostics(d)),
        ) && folded(Some(b), line).1 is None && folded(Some(b), line).0 == Some(
            BatchView { files: b.files.push((d.path, d.counts)), ..b },
        ),
        line matches Line::Begin { sender, seq } ==> folded(Some(b), line).1 is None && (folded(
            Some(b),
            line,
        ).0 matches Some(n) && n.files.len() == 0 && n.seq == seq && n.sender == sender@),
        line matches Line::End(n) ==> folded(Some(b), line).0 is None && folded(Some(b), line).1 is Some
            == (n == b.seq) && folded(None, line).1 is None,
{
}

/// A path that is asked for is taken as it is if it begins with a slash.
pub proof fn law_absolute_paths_are_kept(path: Seq<char>, cwd: Option<Seq<u8>>)
    requires
        vstd::utf8::encode_utf8(path).len() > 0,
        vstd::utf8::encode_utf8(path)[0] == 47u8,
    ensures
        absolute_text(path, cwd) == path,
{
}

/// Any other path that is asked for is taken in the working directory, where
/// that is known.
pub proof fn law_relative_paths_are_completed(path: Seq<char>, dir: Seq<u8>)
    requires
        vstd::utf8::encode_utf8(path).len() == 0 || vstd::utf8::encode_utf8(path)[0] != 47u8,
    ensures
        absolute_text(path, Some(dir)) == crate::text::lossy_text(
            crate::path::join_text(dir, vstd::utf8::encode_utf8(path)),
        ),
        absolute_text(path, None) == path,
{
}

} // verus!
