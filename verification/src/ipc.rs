//! The wire between the editor and the tree: one command per line.
//!
//! - `reveal <path>`: show the path, because the user asked to.
//! - `reveal-follow <path>`: show the path, because the editor went there.
//! - `diagnostics <errors> <warnings> <path>`: the counts of one file; two
//!   zeros clear it. The counts come first, so that the path can hold spaces.
//! - `diagnostics-begin [<sender>] <seq>` ... `diagnostics-end <seq>`: a
//!   complete snapshot. The `diagnostics` lines between are all the files that
//!   have any, and are applied together at the end.
//!
//! A path is taken as it stands up to the end of the line.

use vstd::prelude::*;

use crate::diagnostics::Counts;
use crate::path::{join_text, Path};
use crate::text::{begins_with, contains_char, cut_last, first_index, join2, lemma_first_index};
use crate::text::{lossy_text, number, parse_number, rsplit_once, same_text, strip_prefix};

verus! {

/// A path to show.
#[derive(Debug, PartialEq)]
pub struct Reveal {
    pub path: Path,
    /// Whether the editor sent it by itself.
    pub follow: bool,
}

/// The counts of a file, as the editor reports them.
#[derive(Debug, PartialEq)]
pub struct DiagnosticsUpdate {
    pub path: Path,
    pub counts: Counts,
}

/// What a connection delivers.
#[derive(Debug, PartialEq)]
pub enum Message {
    Reveal(Reveal),
    Diagnostics(DiagnosticsUpdate),
    DiagnosticsSnapshot {
        /// Who sent it; empty when the sender did not say.
        sender: String,
        seq: u64,
        files: Vec<(Path, Counts)>,
    },
}

/// One line, read.
#[derive(Debug, PartialEq)]
pub enum Line {
    Reveal(Reveal),
    Diagnostics(DiagnosticsUpdate),
    Begin { sender: String, seq: u64 },
    End(u64),
}

/// A snapshot that is being read.
#[derive(Debug, PartialEq)]
pub struct Batch {
    pub sender: String,
    pub seq: u64,
    pub files: Vec<(Path, Counts)>,
}

/// A message, with texts and lists in place of strings and vectors.
pub enum MessageView {
    Reveal(Reveal),
    Diagnostics(DiagnosticsUpdate),
    DiagnosticsSnapshot { sender: Seq<char>, seq: u64, files: Seq<(Path, Counts)> },
}

/// A line, with texts in place of strings and paths.
pub enum LineView {
    Reveal { path: Seq<char>, follow: bool },
    Diagnostics { path: Seq<char>, counts: Counts },
    Begin { sender: Seq<char>, seq: u64 },
    End(u64),
}

/// A batch, with texts and lists in place of strings and vectors.
#[verifier::ext_equal]
pub struct BatchView {
    pub sender: Seq<char>,
    pub seq: u64,
    pub files: Seq<(Path, Counts)>,
}

impl View for Message {
    type V = MessageView;

    open spec fn view(&self) -> MessageView {
        match self {
            Message::Reveal(r) => MessageView::Reveal(*r),
            Message::Diagnostics(d) => MessageView::Diagnostics(*d),
            Message::DiagnosticsSnapshot { sender, seq, files } => MessageView::DiagnosticsSnapshot {
                sender: sender@,
                seq: *seq,
                files: files@,
            },
        }
    }
}

impl View for Batch {
    type V = BatchView;

    open spec fn view(&self) -> BatchView {
        BatchView { sender: self.sender@, seq: self.seq, files: self.files@ }
    }
}

impl Line {
    /// Whether the line says what the view says.
    pub open spec fn says(&self, v: LineView) -> bool {
        match (self, v) {
            (Line::Reveal(r), LineView::Reveal { path, follow }) => r.path@
                == vstd::utf8::encode_utf8(path) && r.follow == follow,
            (Line::Diagnostics(d), LineView::Diagnostics { path, counts }) => d.path@
                == vstd::utf8::encode_utf8(path) && d.counts == counts,
            (Line::Begin { sender, seq }, LineView::Begin { sender: from, seq: at }) => sender@
                == from && *seq == at,
            (Line::End(seq), LineView::End(at)) => *seq == at,
            _ => false,
        }
    }
}

/// The view of a batch that may be there.
pub open spec fn batch_view(b: Option<Batch>) -> Option<BatchView> {
    match b {
        Some(b) => Some(b@),
        None => None,
    }
}

/// What a line does to the batch of its connection, and what it delivers. A
/// `diagnostics` line joins the batch if there is one. The batch is delivered
/// only when its end carries the number of its beginning.
pub open spec fn folded(batch: Option<BatchView>, line: Line) -> (
    Option<BatchView>,
    Option<MessageView>,
) {
    match line {
        Line::Reveal(r) => (batch, Some(MessageView::Reveal(r))),
        Line::Begin { sender, seq } => (
            Some(BatchView { sender: sender@, seq, files: Seq::empty() }),
            None,
        ),
        Line::Diagnostics(d) => match batch {
            Some(b) => (Some(BatchView { files: b.files.push((d.path, d.counts)), ..b }), None),
            None => (None, Some(MessageView::Diagnostics(d))),
        },
        Line::End(seq) => match batch {
            Some(b) => (
                None,
                if b.seq == seq {
                    Some(
                        MessageView::DiagnosticsSnapshot {
                            sender: b.sender,
                            seq,
                            files: b.files,
                        },
                    )
                } else {
                    None
                },
            ),
            None => (None, None),
        },
    }
}

/// Folds a line into the batch of its connection, and says what to deliver.
pub fn fold_line(batch: &mut Option<Batch>, line: Line) -> (r: Option<Message>)
    ensures
        batch_view(*final(batch)) == folded(batch_view(*old(batch)), line).0,
        r is Some == folded(batch_view(*old(batch)), line).1 is Some,
        r is Some ==> r->0@ == folded(batch_view(*old(batch)), line).1->0,
{
    match line {
        Line::Reveal(reveal) => Some(Message::Reveal(reveal)),
        Line::Begin { sender, seq } => {
            let b = Batch { sender, seq, files: Vec::new() };
            assert(b@ =~= BatchView { sender: sender@, seq, files: Seq::empty() });
            *batch = Some(b);
            None
        },
        Line::Diagnostics(update) => match batch.take() {
            Some(mut b) => {
                b.files.push((update.path, update.counts));
                *batch = Some(b);
                None
            },
            None => Some(Message::Diagnostics(update)),
        },
        Line::End(seq) => match batch.take() {
            Some(b) => if b.seq == seq {
                Some(Message::DiagnosticsSnapshot { sender: b.sender, seq, files: b.files })
            } else {
                None
            },
            None => None,
        },
    }
}

/// The text after the first space of `s`, and the text before it.
pub open spec fn cut_first(s: Seq<char>) -> Option<(Seq<char>, Seq<char>)> {
    let k = first_index(s, ' ');
    if k < s.len() {
        Some((s.take(k), s.skip(k + 1)))
    } else {
        None
    }
}

fn split_first(s: &str) -> (r: Option<(String, String)>)
    ensures
        cut_first(s@) == match r {
            Some((a, b)) => Some((a@, b@)),
            None => None,
        },
{
    let v = crate::text::to_chars(s);
    let mut i: usize = 0;
    proof {
        lemma_first_index(s@, ' ');
    }
    while i < v.len() && v[i] != ' '
        invariant
            v@ == s@,
            i <= v.len(),
            forall|k: int| 0 <= k < i ==> v@[k] != ' ',
        decreases v@.len() - i,
    {
        i += 1;
    }
    proof {
        crate::text::lemma_first_index_is(s@, ' ', i as int);
    }
    if i < v.len() {
        let a = crate::text::from_chars(vstd::slice::slice_subrange(v.as_slice(), 0, i));
        let b = crate::text::from_chars(vstd::slice::slice_subrange(v.as_slice(), i + 1, v.len()));
        assert(a@ =~= s@.take(i as int));
        assert(b@ =~= s@.skip(i + 1));
        Some((a, b))
    } else {
        None
    }
}

/// What the text after `diagnostics ` says.
pub open spec fn diagnostics_in(rest: Seq<char>) -> Option<LineView> {
    match cut_first(rest) {
        Some((errors, more)) => match cut_first(more) {
            Some((warnings, path)) => match (
                number(errors, u32::MAX as int),
                number(warnings, u32::MAX as int),
            ) {
                (Some(e), Some(w)) => if path.len() > 0 {
                    Some(
                        LineView::Diagnostics {
                            path,
                            counts: Counts { errors: e as u32, warnings: w as u32 },
                        },
                    )
                } else {
                    None
                },
                _ => None,
            },
            None => None,
        },
        None => None,
    }
}

/// What a line says, if it says anything.
pub open spec fn line_of(s: Seq<char>) -> Option<LineView> {
    if begins_with(s, "diagnostics-begin "@) {
        let rest = s.skip("diagnostics-begin "@.len() as int);
        let (sender, seq) = match cut_last(rest, ' ') {
            Some((sender, seq)) => (sender, seq),
            None => (Seq::empty(), rest),
        };
        match number(seq, u64::MAX as int) {
            Some(n) => Some(LineView::Begin { sender, seq: n as u64 }),
            None => None,
        }
    } else if begins_with(s, "diagnostics-end "@) {
        match number(s.skip("diagnostics-end "@.len() as int), u64::MAX as int) {
            Some(n) => Some(LineView::End(n as u64)),
            None => None,
        }
    } else if begins_with(s, "diagnostics "@) {
        diagnostics_in(s.skip("diagnostics "@.len() as int))
    } else if begins_with(s, "reveal-follow "@) {
        let path = s.skip("reveal-follow "@.len() as int);
        if path.len() > 0 {
            Some(LineView::Reveal { path, follow: true })
        } else {
            None
        }
    } else if begins_with(s, "reveal "@) {
        let path = s.skip("reveal "@.len() as int);
        if path.len() > 0 {
            Some(LineView::Reveal { path, follow: false })
        } else {
            None
        }
    } else {
        None
    }
}

fn parse_diagnostics(rest: &str) -> (r: Option<Line>)
    ensures
        r is Some == diagnostics_in(rest@) is Some,
        r is Some ==> r->0.says(diagnostics_in(rest@)->0),
{
    let (errors, more) = match split_first(rest) {
        Some(p) => p,
        None => {
            return None;
        },
    };
    let (warnings, path) = match split_first(more.as_str()) {
        Some(p) => p,
        None => {
            return None;
        },
    };
    match (
        parse_number(errors.as_str(), 4294967295),
        parse_number(warnings.as_str(), 4294967295),
    ) {
        (Some(e), Some(w)) => {
            if path.as_str().is_empty() {
                None
            } else {
                Some(
                    Line::Diagnostics(
                        DiagnosticsUpdate {
                            path: Path::new(path.as_str()),
                            counts: Counts { errors: e as u32, warnings: w as u32 },
                        },
                    ),
                )
            }
        },
        _ => None,
    }
}

/// Reads one line. A line that is not understood is no error: it is left
/// aside.
pub fn parse_line(line: &str) -> (r: Option<Line>)
    ensures
        r is Some == line_of(line@) is Some,
        r is Some ==> r->0.says(line_of(line@)->0),
{
    if let Some(rest) = strip_prefix(line, "diagnostics-begin ") {
        let (sender, seq) = match rsplit_once(rest.as_str(), ' ') {
            Some(p) => p,
            None => (String::new(), rest),
        };
        return match parse_number(seq.as_str(), u64::MAX) {
            Some(seq) => Some(Line::Begin { sender, seq }),
            None => None,
        };
    }
    if let Some(seq) = strip_prefix(line, "diagnostics-end ") {
        return match parse_number(seq.as_str(), u64::MAX) {
            Some(seq) => Some(Line::End(seq)),
            None => None,
        };
    }
    if let Some(rest) = strip_prefix(line, "diagnostics ") {
        return parse_diagnostics(rest.as_str());
    }
    let (rest, follow) = match strip_prefix(line, "reveal-follow ") {
        Some(rest) => (rest, true),
        None => match strip_prefix(line, "reveal ") {
            Some(rest) => (rest, false),
            None => {
                return None;
            },
        },
    };
    if rest.as_str().is_empty() {
        None
    } else {
        Some(Line::Reveal(Reveal { path: Path::new(rest.as_str()), follow }))
    }
}

/// The path to ask for: as it is if it begins at the root or if there is no
/// working directory to take it in.
pub open spec fn absolute_text(path: Seq<char>, cwd: Option<Seq<u8>>) -> Seq<char> {
    let bytes = vstd::utf8::encode_utf8(path);
    if bytes.len() > 0 && bytes[0] == 47u8 {
        path
    } else {
        match cwd {
            Some(dir) => lossy_text(join_text(dir, bytes)),
            None => path,
        }
    }
}

/// The line that asks a running tree to show a path, without its end. A path
/// with a line break would be read as a second command, so there is none for
/// it.
pub fn reveal_request(path: &str, cwd: Option<&Path>) -> (r: Option<String>)
    ensures
        r is Some == !path@.contains('\n'),
        r is Some ==> r->0@ == "reveal "@ + absolute_text(
            path@,
            match cwd {
                Some(dir) => Some(dir@),
                None => None,
            },
        ),
{
    if contains_char(path, '\n') {
        return None;
    }
    let asked = Path::new(path);
    if asked.is_absolute() {
        return Some(join2("reveal ", path));
    }
    match cwd {
        Some(dir) => Some(join2("reveal ", dir.join(&asked).display().as_str())),
        None => Some(join2("reveal ", path)),
    }
}

/// Where the socket is: the place that was given, if any, and otherwise a file
/// named after the session, in a folder of the runtime directory.
pub fn socket_path(given: Option<&[u8]>, runtime: Option<&Path>, session: &str) -> (r: Path)
    ensures
        given is Some && given->0@.len() > 0 ==> r@ == given->0@,
        !(given is Some && given->0@.len() > 0) ==> r@ == join_text(
            join_text(
                match runtime {
                    Some(dir) => dir@,
                    None => vstd::utf8::encode_utf8("/tmp"@),
                },
                vstd::utf8::encode_utf8("treelix"@),
            ),
            vstd::utf8::encode_utf8(session@ + ".sock"@),
        ),
{
    if let Some(p) = given {
        if p.len() > 0 {
            return Path::from_bytes(vstd::slice::slice_to_vec(p));
        }
    }
    let base = match runtime {
        Some(dir) => dir.copy(),
        None => Path::new("/tmp"),
    };
    base.join(&Path::new("treelix")).join(&Path::new(join2(session, ".sock").as_str()))
}

/// Which snapshot was applied last.
#[derive(Debug)]
pub struct SnapshotGate {
    pub last: Option<(String, u64)>,
}

/// Whether a snapshot is to be applied: not when it comes from the last sender
/// and is not newer than what was applied.
pub open spec fn accepts(last: Option<(Seq<char>, u64)>, sender: Seq<char>, seq: u64) -> bool {
    match last {
        Some((from, at)) => from != sender || seq > at,
        None => true,
    }
}

impl SnapshotGate {
    /// Who sent the last snapshot that was applied, and its number.
    pub open spec fn spec_last(&self) -> Option<(Seq<char>, u64)> {
        match self.last {
            Some((from, at)) => Some((from@, at)),
            None => None,
        }
    }

    /// Says whether to apply a snapshot, and takes note of it if so.
    pub fn accept(&mut self, sender: String, seq: u64) -> (r: bool)
        ensures
            r == accepts(old(self).spec_last(), sender@, seq),
            final(self).spec_last() == if r {
                Some((sender@, seq))
            } else {
                old(self).spec_last()
            },
    {
        let stale = match &self.last {
            Some((from, at)) => same_text(from.as_str(), sender.as_str()) && seq <= *at,
            None => false,
        };
        if stale {
            return false;
        }
        self.last = Some((sender, seq));
        true
    }
}

/// The line that asks for a path is read as a request for that path.
pub proof fn law_reveal_request_reads_back(path: Seq<char>)
    requires
        path.len() > 0,
    ensures
        line_of("reveal "@ + path) == Some(LineView::Reveal { path, follow: false }),
{
    let s = "reveal "@ + path;
    reveal_strlit("reveal ");
    reveal_strlit("reveal-follow ");
    reveal_strlit("diagnostics ");
    reveal_strlit("diagnostics-end ");
    reveal_strlit("diagnostics-begin ");
    assert(s.take(7) =~= "reveal "@);
    assert(s.skip(7) =~= path);
    assert(s[0] == 'r' && s[6] == ' ');
    assert(s.take("diagnostics-begin "@.len() as int)[0] == 'r' || s.len()
        < "diagnostics-begin "@.len());
    assert(s.take("diagnostics-end "@.len() as int)[0] == 'r' || s.len()
        < "diagnostics-end "@.len());
    assert(s.take("diagnostics "@.len() as int)[0] == 'r' || s.len() < "diagnostics "@.len());
    assert(s.take("reveal-follow "@.len() as int)[6] == ' ' || s.len() < "reveal-follow "@.len());
}

/// The line that tells which file is open in the editor is read as such.
pub proof fn law_follow_reads_back(path: Seq<char>)
    requires
        path.len() > 0,
    ensures
        line_of("reveal-follow "@ + path) == Some(LineView::Reveal { path, follow: true }),
{
    let s = "reveal-follow "@ + path;
    reveal_strlit("reveal-follow ");
    reveal_strlit("diagnostics ");
    reveal_strlit("diagnostics-end ");
    reveal_strlit("diagnostics-begin ");
    assert(s.take(14) =~= "reveal-follow "@);
    assert(s.skip(14) =~= path);
    assert(s[0] == 'r');
    assert(s.take("diagnostics-begin "@.len() as int)[0] == 'r' || s.len()
        < "diagnostics-begin "@.len());
    assert(s.take("diagnostics-end "@.len() as int)[0] == 'r' || s.len()
        < "diagnostics-end "@.len());
    assert(s.take("diagnostics "@.len() as int)[0] == 'r' || s.len() < "diagnostics "@.len());
}

/// What a connection delivers for a list of lines, one after another.
pub open spec fn delivered(batch: Option<BatchView>, lines: Seq<Line>) -> Seq<MessageView>
    decreases lines.len(),
{
    if lines.len() == 0 {
        Seq::empty()
    } else {
        let (next, message) = folded(batch, lines[0]);
        let rest = delivered(next, lines.skip(1));
        match message {
            Some(m) => seq![m] + rest,
            None => rest,
        }
    }
}

/// The files that the `diagnostics` lines among some lines report, in their
/// order.
pub open spec fn files_in(lines: Seq<Line>) -> Seq<(Path, Counts)>
    decreases lines.len(),
{
    if lines.len() == 0 {
        Seq::empty()
    } else {
        let rest = files_in(lines.skip(1));
        match lines[0] {
            Line::Diagnostics(d) => seq![(d.path, d.counts)] + rest,
            _ => rest,
        }
    }
}

/// What the lines among some lines that ask for a path deliver, in their order.
pub open spec fn reveals_in(lines: Seq<Line>) -> Seq<MessageView>
    decreases lines.len(),
{
    if lines.len() == 0 {
        Seq::empty()
    } else {
        let rest = reveals_in(lines.skip(1));
        match lines[0] {
            Line::Reveal(r) => seq![MessageView::Reveal(r)] + rest,
            _ => rest,
        }
    }
}

/// What the end of a batch delivers.
pub open spec fn ended(b: BatchView, files: Seq<(Path, Counts)>, end: u64) -> Seq<MessageView> {
    if end == b.seq {
        seq![
            MessageView::DiagnosticsSnapshot { sender: b.sender, seq: end, files: b.files + files },
        ]
    } else {
        Seq::empty()
    }
}

/// A snapshot is delivered whole: its lines, between a beginning and an end
/// with one number, make one message with all its files in their order. With
/// another number at the end it is not delivered. A line between them that asks
/// for a path is delivered at once, and the snapshot goes on.
pub proof fn law_snapshot_is_whole(
    batch: Option<BatchView>,
    sender: String,
    seq: u64,
    lines: Seq<Line>,
    end: u64,
)
    requires
        forall|i: int|
            0 <= i < lines.len() ==> #[trigger] lines[i] is Diagnostics || lines[i] is Reveal,
    ensures
        delivered(batch, seq![Line::Begin { sender, seq }] + lines + seq![Line::End(end)])
            == reveals_in(lines) + if end == seq {
            seq![
                MessageView::DiagnosticsSnapshot { sender: sender@, seq, files: files_in(lines) },
            ]
        } else {
            Seq::<MessageView>::empty()
        },
{
    let all = seq![Line::Begin { sender, seq }] + lines + seq![Line::End(end)];
    let started = BatchView { sender: sender@, seq, files: Seq::empty() };
    assert(all[0] == Line::Begin { sender, seq });
    assert(all.skip(1) =~= lines + seq![Line::End(end)]);
    lemma_batch_gathers(started, lines, end);
    assert(Seq::<(Path, Counts)>::empty() + files_in(lines) =~= files_in(lines));
}

proof fn lemma_batch_gathers(b: BatchView, lines: Seq<Line>, end: u64)
    requires
        forall|i: int|
            0 <= i < lines.len() ==> #[trigger] lines[i] is Diagnostics || lines[i] is Reveal,
    ensures
        delivered(Some(b), lines + seq![Line::End(end)]) == reveals_in(lines) + ended(
            b,
            files_in(lines),
            end,
        ),
    decreases lines.len(),
{
    let all = lines + seq![Line::End(end)];
    if lines.len() == 0 {
        assert(all[0] == Line::End(end));
        assert(all.skip(1) =~= Seq::empty());
        assert(b.files + files_in(lines) =~= b.files);
        assert(delivered(None, all.skip(1)) =~= Seq::empty());
        assert(delivered(Some(b), all) =~= reveals_in(lines) + ended(b, files_in(lines), end));
    } else {
        let rest = lines.skip(1);
        assert(all[0] == lines[0]);
        assert(all.skip(1) =~= rest + seq![Line::End(end)]);
        assert forall|i: int| 0 <= i < rest.len() implies #[trigger] rest[i] is Diagnostics
            || rest[i] is Reveal by {
            assert(rest[i] == lines[i + 1]);
        }
        assert(lines[0] is Diagnostics || lines[0] is Reveal);
        match lines[0] {
            Line::Diagnostics(d) => {
                let next = BatchView { files: b.files.push((d.path, d.counts)), ..b };
                lemma_batch_gathers(next, rest, end);
                assert(next.files + files_in(rest) =~= b.files + files_in(lines));
            },
            Line::Reveal(r) => {
                lemma_batch_gathers(b, rest, end);
                let m = seq![MessageView::Reveal(r)];
                let tail = ended(b, files_in(rest), end);
                assert(m + (reveals_in(rest) + tail) =~= (m + reveals_in(rest)) + tail);
            },
            _ => {},
        }
    }
}

} // verus!
