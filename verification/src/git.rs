//! Git: the porcelain status of a working tree, read into one status per path,
//! and the schedule by which scans follow one another.

use vstd::prelude::*;

use crate::path::{byte_views, comps, join_text, Path};
use crate::paths::PathMap;
use crate::text::{drop_end, lossy_text, pieces, read_lossy, split_bytes, to_bytes};
use crate::text::{trim, trim_end_char, trimmed};

verus! {

/// The effective status of a file, or the dominant one below a directory, the
/// lowest priority first.
#[derive(Clone, Copy, Debug, PartialEq, Eq, PartialOrd, Ord, Hash, Structural)]
pub enum GitStatus {
    Ignored,
    Untracked,
    Conflict,
    Deleted,
    Renamed,
    Dirty,
    Staged,
}

impl GitStatus {
    /// The priority of a status.
    pub open spec fn spec_rank(self) -> int {
        match self {
            GitStatus::Ignored => 0,
            GitStatus::Untracked => 1,
            GitStatus::Conflict => 2,
            GitStatus::Deleted => 3,
            GitStatus::Renamed => 4,
            GitStatus::Dirty => 5,
            GitStatus::Staged => 6,
        }
    }

    /// The priority of a status.
    pub fn rank(self) -> (r: u8)
        ensures
            r as int == self.spec_rank(),
    {
        match self {
            GitStatus::Ignored => 0,
            GitStatus::Untracked => 1,
            GitStatus::Conflict => 2,
            GitStatus::Deleted => 3,
            GitStatus::Renamed => 4,
            GitStatus::Dirty => 5,
            GitStatus::Staged => 6,
        }
    }

    /// The one of two statuses with the higher priority.
    pub open spec fn spec_dominant(self, other: GitStatus) -> GitStatus {
        if self.spec_rank() < other.spec_rank() {
            other
        } else {
            self
        }
    }

    /// The one of two statuses with the higher priority.
    pub fn dominant(self, other: GitStatus) -> (r: GitStatus)
        ensures
            r == self.spec_dominant(other),
    {
        if self.rank() < other.rank() {
            other
        } else {
            self
        }
    }

    /// The glyph of a status.
    pub open spec fn spec_glyph(self) -> Seq<char> {
        match self {
            GitStatus::Staged => "✓"@,
            GitStatus::Dirty => "✗"@,
            GitStatus::Renamed => "➜"@,
            GitStatus::Deleted => ""@,
            GitStatus::Conflict => ""@,
            GitStatus::Untracked => "★"@,
            GitStatus::Ignored => "◌"@,
        }
    }

    /// The glyph of a status.
    pub fn glyph(self) -> (r: &'static str)
        ensures
            r@ == self.spec_glyph(),
    {
        match self {
            GitStatus::Staged => "✓",
            GitStatus::Dirty => "✗",
            GitStatus::Renamed => "➜",
            GitStatus::Deleted => "",
            GitStatus::Conflict => "",
            GitStatus::Untracked => "★",
            GitStatus::Ignored => "◌",
        }
    }
}

/// The status that a two-letter code stands for: unmerged codes first, then
/// untracked and ignored, then renames; staged changes come before those of
/// the working tree.
pub open spec fn status_of(x: u8, y: u8) -> GitStatus {
    let u = 85u8;
    let a = 65u8;
    let d = 68u8;
    let r = 82u8;
    let question = 63u8;
    let bang = 33u8;
    let space = 32u8;
    if x == u || y == u || (x == a && y == a) || (x == d && y == d) {
        GitStatus::Conflict
    } else if x == question && y == question {
        GitStatus::Untracked
    } else if x == bang && y == bang {
        GitStatus::Ignored
    } else if x == r || y == r {
        GitStatus::Renamed
    } else if x != space && x != question {
        GitStatus::Staged
    } else if y == d {
        GitStatus::Deleted
    } else {
        GitStatus::Dirty
    }
}

/// Classifies a two-letter porcelain code.
pub fn classify(x: u8, y: u8) -> (r: GitStatus)
    ensures
        r == status_of(x, y),
{
    if x == 85 || y == 85 || (x == 65 && y == 65) || (x == 68 && y == 68) {
        return GitStatus::Conflict;
    }
    if x == 63 && y == 63 {
        return GitStatus::Untracked;
    }
    if x == 33 && y == 33 {
        return GitStatus::Ignored;
    }
    if x == 82 || y == 82 {
        return GitStatus::Renamed;
    }
    if x != 32 && x != 63 {
        return GitStatus::Staged;
    }
    if y == 68 {
        GitStatus::Deleted
    } else {
        GitStatus::Dirty
    }
}

/// Whether a record is followed by a field with the path that was.
pub open spec fn has_origin(rec: Seq<u8>) -> bool {
    rec[0] == 82u8 || rec[1] == 82u8 || rec[0] == 67u8 || rec[1] == 67u8
}

/// The path that a record names, inside the repository at `top`.
pub open spec fn record_path(top: Seq<u8>, rec: Seq<u8>) -> Seq<u8> {
    join_text(top, vstd::utf8::encode_utf8(drop_end(lossy_text(rec.skip(3)), '/')))
}

/// What the fields of a porcelain status add to `m`. A field with fewer than
/// three bytes is no record.
pub open spec fn with_records(
    fields: Seq<Seq<u8>>,
    top: Seq<u8>,
    m: Map<Seq<Seq<u8>>, GitStatus>,
) -> Map<Seq<Seq<u8>>, GitStatus>
    decreases fields.len(),
{
    if fields.len() == 0 {
        m
    } else {
        let rec = fields[0];
        if rec.len() < 3 {
            with_records(fields.skip(1), top, m)
        } else {
            let more = m.insert(comps(record_path(top, rec)), status_of(rec[0], rec[1]));
            if has_origin(rec) && fields.len() >= 2 {
                with_records(fields.skip(2), top, more)
            } else {
                with_records(fields.skip(1), top, more)
            }
        }
    }
}

/// Reads a NUL-separated porcelain status. Each record is two letters, a space
/// and a path; after a rename or a copy comes the path that was, which is
/// skipped.
pub fn parse_porcelain_z(buf: &[u8], top: &Path, out: &mut PathMap<GitStatus>)
    ensures
        final(out)@ == with_records(pieces(buf@, 0u8), top@, old(out)@),
{
    let fields = split_bytes(buf, 0);
    let ghost fs = pieces(buf@, 0u8);
    let ghost start = out@;
    let mut i: usize = 0;
    assert(fs.skip(0) =~= fs);
    while i < fields.len()
        invariant
            byte_views(fields@) == fs,
            i <= fields.len(),
            with_records(fs, top@, start) == with_records(fs.skip(i as int), top@, out@),
        decreases fields@.len() - i,
    {
        let rec = fields[i].as_slice();
        let ghost rest = fs.skip(i as int);
        assert(byte_views(fields@)[i as int] == rec@);
        assert(byte_views(fields@).len() == fields@.len());
        assert(rest[0] == rec@);
        assert(rest.skip(1) =~= fs.skip(i + 1));
        if rec.len() < 3 {
            i += 1;
            continue;
        }
        let x: u8 = rec[0];
        let y: u8 = rec[1];
        let rel = read_lossy(vstd::slice::slice_subrange(rec, 3, rec.len()));
        assert(rec@.subrange(3, rec@.len() as int) =~= rec@.skip(3));
        let rel = to_bytes(trim_end_char(rel.as_str(), '/').as_str());
        out.insert(top.join_bytes(rel.as_slice()), classify(x, y));
        i += 1;
        if x == 82 || y == 82 || x == 67 || y == 67 {
            if i < fields.len() {
                assert(rest.skip(2) =~= fs.skip(i + 1));
                i += 1;
            }
        }
    }
    assert(fs.skip(i as int) =~= Seq::empty());
}

/// The statuses of a working tree.
#[derive(Debug)]
pub struct GitData {
    /// The top of the repository, if there is one.
    pub toplevel: Option<Path>,
    /// The status of each path that has one.
    pub statuses: PathMap<GitStatus>,
}

impl Default for GitData {
    fn default() -> (r: GitData)
        ensures
            r.toplevel is None,
            r.statuses@ == Map::<Seq<Seq<u8>>, GitStatus>::empty(),
    {
        GitData { toplevel: None, statuses: PathMap::new() }
    }
}

/// The top of a repository, from what `git rev-parse --show-toplevel` printed;
/// `None` in place of the output means that the command failed.
pub fn toplevel(printed: Option<&[u8]>) -> (r: Option<Path>)
    ensures
        r is Some == (printed is Some && trimmed(lossy_text(printed->0@)).len() > 0),
        r is Some ==> r->0@ == vstd::utf8::encode_utf8(trimmed(lossy_text(printed->0@))),
{
    let out = match printed {
        Some(b) => read_lossy(b),
        None => {
            return None;
        },
    };
    let name = trim(out.as_str());
    if name.as_str().is_empty() {
        None
    } else {
        Some(Path::new(name.as_str()))
    }
}

/// The statuses of the repository at `top`, from what `git status` printed.
/// Outside a repository there are none. `None` comes back when the command
/// failed, so that what was known before can stay.
pub fn scan(top: Option<Path>, printed: Option<&[u8]>) -> (r: Option<GitData>)
    ensures
        r is None <==> top is Some && printed is None,
        r is Some && top is None ==> r->0.toplevel is None && r->0.statuses@ == Map::<
            Seq<Seq<u8>>,
            GitStatus,
        >::empty(),
        r is Some && top is Some ==> r->0.toplevel == top && r->0.statuses@ == with_records(
            pieces(printed->0@, 0u8),
            top->0@,
            Map::empty(),
        ),
{
    let top = match top {
        Some(top) => top,
        None => {
            return Some(GitData::default());
        },
    };
    match printed {
        Some(buf) => {
            let mut statuses: PathMap<GitStatus> = PathMap::new();
            parse_porcelain_z(buf, &top, &mut statuses);
            Some(GitData { toplevel: Some(top), statuses })
        },
        None => None,
    }
}

/// Whether two scans found the same statuses.
pub fn same_statuses(a: &PathMap<GitStatus>, b: &PathMap<GitStatus>) -> (r: bool)
    ensures
        r == (a@ == b@),
{
    let same = |x: &GitStatus, y: &GitStatus| -> (b: bool)
        ensures
            b == (*x == *y),
        { *x == *y };
    crate::paths::same_map(a, b, same)
}

/// How long a failed scan waits before it runs again, in milliseconds.
pub const RETRY_DELAY: u64 = 1000;

/// What follows a scan.
#[derive(Clone, Copy, Debug, PartialEq, Eq, Structural)]
pub enum AfterScan {
    /// Nothing.
    Idle,
    /// Another scan, at once.
    Rerun,
    /// Another scan, after so many milliseconds.
    Retry(u64),
}

/// Which scans to start. One runs at a time; what is asked for meanwhile makes
/// one more run when that one is done.
#[derive(Clone, Copy, Debug, PartialEq, Eq, Structural)]
pub struct ScanSchedule {
    pub running: bool,
    pub again: bool,
}

impl Default for ScanSchedule {
    fn default() -> (r: ScanSchedule)
        ensures
            r == (ScanSchedule { running: false, again: false }),
    {
        ScanSchedule { running: false, again: false }
    }
}

/// The schedule after a scan is asked for, and whether one is to be started.
pub open spec fn requested(s: ScanSchedule) -> (bool, ScanSchedule) {
    if s.running {
        (false, ScanSchedule { running: true, again: true })
    } else {
        (true, ScanSchedule { running: true, ..s })
    }
}

/// The schedule after a scan is done, and what follows.
pub open spec fn done(s: ScanSchedule, ok: bool) -> (AfterScan, ScanSchedule) {
    if !ok {
        (AfterScan::Retry(RETRY_DELAY), ScanSchedule { running: true, again: false })
    } else if s.again {
        (AfterScan::Rerun, ScanSchedule { running: true, again: false })
    } else {
        (AfterScan::Idle, ScanSchedule { running: false, again: false })
    }
}

impl ScanSchedule {
    /// Asks for a scan. Says whether one is to be started now.
    pub fn request(&mut self) -> (r: bool)
        ensures
            (r, *final(self)) == requested(*old(self)),
    {
        if self.running {
            self.again = true;
            false
        } else {
            self.running = true;
            true
        }
    }

    /// Takes note that the scan is done, and whether it brought a result.
    pub fn finished(&mut self, ok: bool) -> (r: AfterScan)
        ensures
            (r, *final(self)) == done(*old(self), ok),
    {
        let again = self.again;
        self.again = false;
        if !ok {
            self.running = true;
            AfterScan::Retry(RETRY_DELAY)
        } else if again {
            self.running = true;
            AfterScan::Rerun
        } else {
            self.running = false;
            AfterScan::Idle
        }
    }
}

/// One scan runs at a time: while one runs, asking starts no other, and once it
/// is done one runs exactly if one was started.
pub proof fn law_one_scan_at_a_time(s: ScanSchedule, ok: bool)
    ensures
        s.running ==> !requested(s).0,
        requested(s).1.running,
        done(s, ok).1.running == (done(s, ok).0 != AfterScan::Idle),
{
}

/// What is asked for while a scan runs is not lost: that scan is followed by
/// another.
pub proof fn law_no_request_is_lost(s: ScanSchedule, ok: bool)
    requires
        s.running,
    ensures
        done(requested(s).1, ok).0 != AfterScan::Idle,
{
}

/// Of two statuses the staged one dominates everything, an ignored one nothing
/// but itself, and which of two comes first makes no difference.
pub proof fn law_dominance(a: GitStatus, b: GitStatus, c: GitStatus)
    ensures
        a.spec_dominant(b) == b.spec_dominant(a),
        a.spec_dominant(b.spec_dominant(c)) == a.spec_dominant(b).spec_dominant(c),
        a.spec_dominant(GitStatus::Staged) == GitStatus::Staged,
        a.spec_dominant(GitStatus::Ignored) == a,
{
}

/// A record with a path leaves that path with the record's status, unless a
/// later record names the path again; the field after a rename is no record.
pub proof fn law_rename_skips_origin(
    rec: Seq<u8>,
    origin: Seq<u8>,
    rest: Seq<Seq<u8>>,
    top: Seq<u8>,
    m: Map<Seq<Seq<u8>>, GitStatus>,
)
    requires
        rec.len() >= 3,
        has_origin(rec),
    ensures
        with_records(seq![rec, origin] + rest, top, m) == with_records(
            rest,
            top,
            m.insert(comps(record_path(top, rec)), status_of(rec[0], rec[1])),
        ),
{
    let all = seq![rec, origin] + rest;
    assert(all[0] == rec);
    assert(all.skip(2) =~= rest);
}

} // verus!
