//! What holds of the statuses that git prints, code by code and record by
//! record.

use vstd::prelude::*;

use crate::git::{done, requested, status_of, with_records, AfterScan, GitStatus, ScanSchedule};
use crate::path::{comps, join_text};
use crate::text::{drop_end, lossy_text};

verus! {

/// The codes of unmerged paths: DD, AU, UD, UA, DU, AA and UU.
pub open spec fn is_unmerged(x: u8, y: u8) -> bool {
    ||| (x, y) == (68u8, 68u8)
    ||| (x, y) == (65u8, 85u8)
    ||| (x, y) == (85u8, 68u8)
    ||| (x, y) == (85u8, 65u8)
    ||| (x, y) == (68u8, 85u8)
    ||| (x, y) == (65u8, 65u8)
    ||| (x, y) == (85u8, 85u8)
}

/// The letters of a change: none, M, T, A, D, R and C.
pub open spec fn is_change_letter(c: u8) -> bool {
    c == 32 || c == 77 || c == 84 || c == 65 || c == 68 || c == 82 || c == 67
}

/// The codes that git prints: those of unmerged paths, two letters of changes,
/// two question marks, two exclamation marks.
pub open spec fn is_code(x: u8, y: u8) -> bool {
    ||| is_unmerged(x, y)
    ||| is_change_letter(x) && is_change_letter(y)
    ||| (x, y) == (63u8, 63u8)
    ||| (x, y) == (33u8, 33u8)
}

/// Of the codes that git prints, the seven of unmerged paths are conflicts and
/// no others are; and no pair of letters without a U, but AA and DD, is one.
pub proof fn law_unmerged_is_conflict(x: u8, y: u8)
    ensures
        is_unmerged(x, y) ==> status_of(x, y) == GitStatus::Conflict,
        is_code(x, y) ==> (status_of(x, y) == GitStatus::Conflict) == is_unmerged(x, y),
        x != 85 && y != 85 && !is_unmerged(x, y) ==> status_of(x, y) != GitStatus::Conflict,
{
}

/// Untracked and ignored paths are those with the codes `??` and `!!`, whatever
/// the letters.
pub proof fn law_untracked_and_ignored(x: u8, y: u8)
    ensures
        (status_of(x, y) == GitStatus::Untracked) == (x == 63 && y == 63),
        (status_of(x, y) == GitStatus::Ignored) == (x == 33 && y == 33),
{
}

/// Of the other codes, one with an R in either place is a rename. Otherwise a
/// letter in the first place makes a path staged, whatever the second; without
/// one a D in the second makes it deleted, and anything else there dirty.
pub proof fn law_changes_have_their_status(x: u8, y: u8)
    requires
        is_change_letter(x),
        is_change_letter(y),
        !is_unmerged(x, y),
    ensures
        x == 82 || y == 82 ==> status_of(x, y) == GitStatus::Renamed,
        x != 82 && y != 82 && x != 32 ==> status_of(x, y) == GitStatus::Staged,
        x == 32 && y == 68 ==> status_of(x, y) == GitStatus::Deleted,
        x == 32 && y != 68 && y != 82 ==> status_of(x, y) == GitStatus::Dirty,
{
}

/// The statuses from the one that gives way to all others to the one that none
/// outranks.
pub open spec fn by_priority() -> Seq<GitStatus> {
    seq![
        GitStatus::Ignored,
        GitStatus::Untracked,
        GitStatus::Conflict,
        GitStatus::Deleted,
        GitStatus::Renamed,
        GitStatus::Dirty,
        GitStatus::Staged,
    ]
}

/// Of two statuses the one further on in the order of priority dominates.
pub proof fn law_priority(i: int, j: int)
    requires
        0 <= i <= j < 7,
    ensures
        by_priority()[i].spec_dominant(by_priority()[j]) == by_priority()[j],
        by_priority()[j].spec_dominant(by_priority()[i]) == by_priority()[j],
{
    assert(j == 0 || j == 1 || j == 2 || j == 3 || j == 4 || j == 5 || j == 6);
}

/// A scan that failed is run again after a second; one that succeeded is run
/// again at once if it was asked for meanwhile, and otherwise not at all. What
/// was asked for before is forgotten in each case.
pub proof fn law_failed_scan_is_tried_again(s: ScanSchedule)
    ensures
        done(s, false).0 == AfterScan::Retry(1000),
        s.again ==> done(s, true).0 == AfterScan::Rerun,
        !s.again ==> done(s, true).0 == AfterScan::Idle && requested(done(s, true).1).0,
        !done(s, false).1.again && !done(s, true).1.again,
{
}

/// Whether a record is one of a rename or a copy.
pub open spec fn moves(rec: Seq<u8>) -> bool {
    rec[0] == 82 || rec[1] == 82 || rec[0] == 67 || rec[1] == 67
}

/// Whether a field names a path: what stands behind its code and a space,
/// without slashes at the end, inside the repository.
pub open spec fn names(top: Seq<u8>, rec: Seq<u8>, k: Seq<Seq<u8>>) -> bool {
    rec.len() >= 3 && comps(
        join_text(top, vstd::utf8::encode_utf8(drop_end(lossy_text(rec.skip(3)), '/'))),
    ) == k
}

/// Whether every field is a record of its own.
pub open spec fn all_plain(fields: Seq<Seq<u8>>) -> bool {
    forall|i: int|
        0 <= i < fields.len() ==> (#[trigger] fields[i]).len() >= 3 ==> !moves(fields[i])
}

/// A path that no field names keeps the status that it had, or has none.
pub proof fn law_unnamed_keeps_its_status(
    fields: Seq<Seq<u8>>,
    top: Seq<u8>,
    m: Map<Seq<Seq<u8>>, GitStatus>,
    k: Seq<Seq<u8>>,
)
    requires
        forall|i: int| 0 <= i < fields.len() ==> !names(top, #[trigger] fields[i], k),
    ensures
        with_records(fields, top, m).contains_key(k) == m.contains_key(k),
        m.contains_key(k) ==> with_records(fields, top, m)[k] == m[k],
    decreases fields.len(),
{
    if fields.len() > 0 {
        let rec = fields[0];
        let one = fields.skip(1);
        assert forall|i: int| 0 <= i < one.len() implies !names(top, #[trigger] one[i], k) by {
            assert(one[i] == fields[i + 1]);
        }
        assert(!names(top, rec, k));
        let more = m.insert(
            comps(join_text(top, vstd::utf8::encode_utf8(drop_end(lossy_text(rec.skip(3)), '/')))),
            status_of(rec[0], rec[1]),
        );
        law_unnamed_keeps_its_status(one, top, m, k);
        law_unnamed_keeps_its_status(one, top, more, k);
        if fields.len() >= 2 {
            let two = fields.skip(2);
            assert forall|i: int| 0 <= i < two.len() implies !names(top, #[trigger] two[i], k) by {
                assert(two[i] == fields[i + 2]);
            }
            law_unnamed_keeps_its_status(two, top, more, k);
        }
    }
}

/// Fields are read from the first to the last: those that come after a list
/// without renames and copies add to what that list gave.
pub proof fn law_records_add_up(
    a: Seq<Seq<u8>>,
    b: Seq<Seq<u8>>,
    top: Seq<u8>,
    m: Map<Seq<Seq<u8>>, GitStatus>,
)
    requires
        all_plain(a),
    ensures
        with_records(a + b, top, m) == with_records(b, top, with_records(a, top, m)),
    decreases a.len(),
{
    if a.len() == 0 {
        assert(a + b =~= b);
    } else {
        let rest = a.skip(1);
        assert((a + b)[0] == a[0]);
        assert((a + b).skip(1) =~= rest + b);
        assert forall|i: int| 0 <= i < rest.len() implies (#[trigger] rest[i]).len() >= 3
            ==> !moves(rest[i]) by {
            assert(rest[i] == a[i + 1]);
        }
        assert(a[0].len() >= 3 ==> !moves(a[0]));
        law_records_add_up(rest, b, top, m);
        let more = m.insert(
            comps(
                join_text(top, vstd::utf8::encode_utf8(drop_end(lossy_text(a[0].skip(3)), '/'))),
            ),
            status_of(a[0][0], a[0][1]),
        );
        law_records_add_up(rest, b, top, more);
    }
}

/// The last record that names a path gives it the status of its two letters.
/// The field behind a rename or a copy is not read, whatever it holds.
pub proof fn law_last_record_counts(
    before: Seq<Seq<u8>>,
    rec: Seq<u8>,
    origin: Seq<u8>,
    after: Seq<Seq<u8>>,
    top: Seq<u8>,
    m: Map<Seq<Seq<u8>>, GitStatus>,
    k: Seq<Seq<u8>>,
)
    requires
        all_plain(before),
        names(top, rec, k),
        forall|i: int| 0 <= i < after.len() ==> !names(top, #[trigger] after[i], k),
    ensures
        !moves(rec) ==> {
            let all = with_records(before + (seq![rec] + after), top, m);
            all.contains_key(k) && all[k] == status_of(rec[0], rec[1])
        },
        moves(rec) ==> {
            let all = with_records(before + (seq![rec, origin] + after), top, m);
            all.contains_key(k) && all[k] == status_of(rec[0], rec[1])
        },
{
    let so_far = with_records(before, top, m);
    let more = so_far.insert(k, status_of(rec[0], rec[1]));
    law_unnamed_keeps_its_status(after, top, more, k);
    if moves(rec) {
        let tail = seq![rec, origin] + after;
        law_records_add_up(before, tail, top, m);
        assert(tail[0] == rec);
        assert(tail.skip(2) =~= after);
    } else {
        let tail = seq![rec] + after;
        law_records_add_up(before, tail, top, m);
        assert(tail[0] == rec);
        assert(tail.skip(1) =~= after);
    }
}

} // verus!
