//! What a filter finds in the tree on disk. Directories are walked whether or
//! not they were ever opened; what each holds comes in from outside.

use vstd::prelude::*;

use crate::fuzzy::{matches_query, name_matches};
use crate::git::GitStatus;
use crate::order::{law_stable_sort, stable_sort};
use crate::path::{comps, join_text, lemma_parent, parent_text, Path};
use crate::paths::{path_texts, PathMap, PathSet};
use crate::text::{lossy_text, read_lossy, starts_with_char, views};
use crate::tree::depth::{no_deeper, sort_by_depth};
use crate::tree::model::status_at;
use crate::tree::node::path_view;
use crate::tree::rows::{excluded, is_excluded};
use crate::watcher::{is_churn, is_high_churn_name};

verus! {

/// How many entries one walk looks at.
pub const FILTER_WALK_CAP: usize = 50000;

/// How many directories a filter opens at most.
pub const FILTER_EXPAND_CAP: usize = 500;

/// What an entry of a directory is.
#[derive(Debug)]
pub enum EntryKind {
    /// Nothing that can be walked.
    Leaf,
    Directory,
    /// A link to a directory, and the real path of that, where it has one.
    LinkedDirectory(Option<Path>),
}

/// What an entry is, with a text in place of the path.
pub enum EntryKindView {
    Leaf,
    Directory,
    LinkedDirectory(Option<Seq<u8>>),
}

impl View for EntryKind {
    type V = EntryKindView;

    open spec fn view(&self) -> EntryKindView {
        match self {
            EntryKind::Leaf => EntryKindView::Leaf,
            EntryKind::Directory => EntryKindView::Directory,
            EntryKind::LinkedDirectory(p) => EntryKindView::LinkedDirectory(path_view(*p)),
        }
    }
}

/// An entry of a directory.
#[derive(Debug)]
pub struct WalkEntry {
    pub name: Vec<u8>,
    pub kind: EntryKind,
}

/// An entry, with lists in place of vectors.
pub struct WalkEntryView {
    pub name: Seq<u8>,
    pub kind: EntryKindView,
}

impl View for WalkEntry {
    type V = WalkEntryView;

    open spec fn view(&self) -> WalkEntryView {
        WalkEntryView { name: self.name@, kind: self.kind@ }
    }
}

/// The views of some entries.
pub open spec fn entries_view(s: Seq<WalkEntry>) -> Seq<WalkEntryView> {
    s.map_values(|e: WalkEntry| e@)
}

/// What a walk depends on, besides what is typed.
pub struct WalkRules<'a> {
    /// Whether directories are shown whatever their names.
    pub show_folders: bool,
    /// Whether directories whose names say that they change too much are left
    /// unwalked.
    pub prune: bool,
    pub statuses: &'a PathMap<GitStatus>,
    pub exclude: &'a Vec<String>,
}

/// What a walk depends on, with maps and lists.
#[verifier::ext_equal]
pub struct RulesView {
    pub show_folders: bool,
    pub prune: bool,
    pub statuses: Map<Seq<Seq<u8>>, GitStatus>,
    pub exclude: Seq<Seq<char>>,
}

impl<'a> View for WalkRules<'a> {
    type V = RulesView;

    open spec fn view(&self) -> RulesView {
        RulesView {
            show_folders: self.show_folders,
            prune: self.prune,
            statuses: self.statuses@,
            exclude: views(self.exclude@),
        }
    }
}

/// What a filter found, and for which query and toggles.
#[derive(Debug)]
pub struct LiveScan {
    pub query: String,
    pub root: Path,
    pub show_hidden: bool,
    pub show_ignored: bool,
    pub custom_active: bool,
    /// What stays visible: what matches, the directories above it, and every
    /// directory where those are always shown.
    pub visible: PathSet,
    /// The directories to open so that what matches can be seen.
    pub expand: Vec<Path>,
    /// Whether there was too much to look at, so that matches may be missing.
    pub truncated: bool,
}

/// What a filter found, with texts and sets.
#[verifier::ext_equal]
pub struct LiveScanView {
    pub query: Seq<char>,
    pub root: Seq<u8>,
    pub show_hidden: bool,
    pub show_ignored: bool,
    pub custom_active: bool,
    pub visible: Set<Seq<Seq<u8>>>,
    pub expand: Seq<Seq<u8>>,
    pub truncated: bool,
}

impl View for LiveScan {
    type V = LiveScanView;

    open spec fn view(&self) -> LiveScanView {
        LiveScanView {
            query: self.query@,
            root: self.root@,
            show_hidden: self.show_hidden,
            show_ignored: self.show_ignored,
            custom_active: self.custom_active,
            visible: self.visible@,
            expand: path_texts(self.expand@),
            truncated: self.truncated,
        }
    }
}

/// A walk that is under way.
#[derive(Debug)]
pub struct FilterWalk {
    /// What was found so far; what is to be opened is in the order in which it
    /// was come by.
    pub found: LiveScan,
    /// The directories that are to be opened.
    pub seen: PathSet,
    /// The real paths of the links that were followed.
    pub links: PathSet,
    /// How many entries were looked at.
    pub walked: usize,
    /// The directories that are still to be read, the next one last.
    pub stack: Vec<Path>,
}

/// A walk, with texts and sets.
#[verifier::ext_equal]
pub struct WalkView {
    pub found: LiveScanView,
    pub seen: Set<Seq<Seq<u8>>>,
    pub links: Set<Seq<Seq<u8>>>,
    pub walked: int,
    pub stack: Seq<Seq<u8>>,
}

impl View for FilterWalk {
    type V = WalkView;

    open spec fn view(&self) -> WalkView {
        WalkView {
            found: self.found@,
            seen: self.seen@,
            links: self.links@,
            walked: self.walked as int,
            stack: path_texts(self.stack@),
        }
    }
}

/// The directories above `t`, strictly below `root`.
pub open spec fn between(root: Seq<Seq<u8>>, t: Seq<Seq<u8>>) -> Set<Seq<Seq<u8>>> {
    Set::new(
        |k: Seq<Seq<u8>>|
            root.is_prefix_of(k) && k != root && k.is_prefix_of(t) && k != t,
    )
}

/// What is to be opened after the chain from a directory up to the root was
/// added to it, as far as it was not there.
pub open spec fn with_chain(
    seen: Set<Seq<Seq<u8>>>,
    expand: Seq<Seq<u8>>,
    from: Option<Seq<u8>>,
    root: Seq<Seq<u8>>,
) -> (Set<Seq<Seq<u8>>>, Seq<Seq<u8>>)
    decreases
            match from {
                Some(t) => comps(t).len() + 1,
                None => 0,
            },
{
    match from {
        Some(t) => if !root.is_prefix_of(comps(t)) || seen.contains(comps(t)) {
            (seen, expand)
        } else if comps(t) == root {
            (seen.insert(comps(t)), expand.push(t))
        } else {
            proof {
                lemma_parent(t);
            }
            with_chain(seen.insert(comps(t)), expand.push(t), parent_text(t), root)
        },
        None => (seen, expand),
    }
}

/// Whether an entry is passed over.
pub open spec fn passed_over(w: WalkView, dir: Seq<u8>, e: WalkEntryView, rules: RulesView) -> bool {
    let name = lossy_text(e.name);
    ||| !w.found.show_hidden && name.len() > 0 && name[0] == '.'
    ||| !w.found.show_ignored && status_at(rules.statuses, comps(join_text(dir, e.name))) == Some(
        GitStatus::Ignored,
    )
    ||| w.found.custom_active && is_excluded(name, rules.exclude)
}

/// A walk after an entry was shown: it stays visible, and so do the directories
/// above it.
pub open spec fn shown_entry(w: WalkView, path: Seq<u8>) -> WalkView {
    WalkView {
        found: LiveScanView {
            visible: w.found.visible.insert(comps(path)).union(
                between(comps(w.found.root), comps(path)),
            ),
            ..w.found
        },
        ..w
    }
}

/// A walk after an entry was found to match: the directories above it are to be
/// opened.
pub open spec fn matched_entry(w: WalkView, path: Seq<u8>) -> WalkView {
    let (seen, expand) = with_chain(
        w.seen,
        w.found.expand,
        parent_text(path),
        comps(w.found.root),
    );
    WalkView { found: LiveScanView { expand, ..w.found }, seen, ..w }
}

/// A walk after it was decided whether to go into an entry. A link is followed
/// only to where no other led.
pub open spec fn entered(
    w: WalkView,
    path: Seq<u8>,
    e: WalkEntryView,
    rules: RulesView,
) -> WalkView {
    if rules.prune && is_churn(lossy_text(e.name)) {
        w
    } else {
        match e.kind {
            EntryKindView::Leaf => w,
            EntryKindView::Directory => WalkView { stack: w.stack.push(path), ..w },
            EntryKindView::LinkedDirectory(actual) => match actual {
                Some(p) => if w.links.contains(comps(p)) {
                    w
                } else {
                    WalkView { links: w.links.insert(comps(p)), stack: w.stack.push(path), ..w }
                },
                None => w,
            },
        }
    }
}

/// A walk after it looked at one entry of a directory. One that looked at too
/// many is over.
pub open spec fn after_entry(
    w: WalkView,
    dir: Seq<u8>,
    e: WalkEntryView,
    rules: RulesView,
) -> WalkView {
    if w.found.truncated {
        w
    } else if w.walked >= FILTER_WALK_CAP {
        WalkView { found: LiveScanView { truncated: true, ..w.found }, stack: Seq::empty(), ..w }
    } else {
        let counted = WalkView { walked: w.walked + 1, ..w };
        if passed_over(w, dir, e, rules) {
            counted
        } else {
            let path = join_text(dir, e.name);
            let matched = matches_query(w.found.query, lossy_text(e.name));
            let is_dir = !(e.kind is Leaf);
            let shown = if matched || (is_dir && rules.show_folders) {
                shown_entry(counted, path)
            } else {
                counted
            };
            let marked = if matched && w.found.query.len() > 0 {
                matched_entry(shown, path)
            } else {
                shown
            };
            entered(marked, path, e, rules)
        }
    }
}

/// A walk after it looked at some entries of a directory.
pub open spec fn after_entries(
    w: WalkView,
    dir: Seq<u8>,
    es: Seq<WalkEntryView>,
    rules: RulesView,
) -> WalkView
    decreases es.len(),
{
    if es.len() == 0 {
        w
    } else {
        after_entry(after_entries(w, dir, es.drop_last(), rules), dir, es.last(), rules)
    }
}

/// A walk after it read the next directory; `None` when that could not be read.
pub open spec fn after_dir(
    w: WalkView,
    es: Option<Seq<WalkEntryView>>,
    rules: RulesView,
) -> WalkView {
    if w.stack.len() == 0 {
        w
    } else {
        let gone = WalkView { stack: w.stack.drop_last(), ..w };
        match es {
            Some(es) => after_entries(gone, w.stack.last(), es, rules),
            None => gone,
        }
    }
}

/// What a walk comes to: what is to be opened is in order of depth.
pub open spec fn walk_result(w: WalkView) -> LiveScanView {
    LiveScanView { expand: stable_sort(w.found.expand, no_deeper()), ..w.found }
}

/// A walk before it has read anything.
pub open spec fn new_walk(
    query: Seq<char>,
    root: Seq<u8>,
    show_hidden: bool,
    show_ignored: bool,
    custom_active: bool,
) -> WalkView {
    WalkView {
        found: LiveScanView {
            query,
            root,
            show_hidden,
            show_ignored,
            custom_active,
            visible: Set::empty(),
            expand: Seq::empty(),
            truncated: false,
        },
        seen: Set::empty(),
        links: Set::empty(),
        walked: 0,
        stack: seq![root],
    }
}

/// Whether what was found is still what is asked for.
pub open spec fn still_holds(
    scan: LiveScanView,
    query: Seq<char>,
    root: Seq<u8>,
    show_hidden: bool,
    show_ignored: bool,
    custom_active: bool,
) -> bool {
    scan.query == query && comps(scan.root) == comps(root) && scan.show_hidden == show_hidden
        && scan.show_ignored == show_ignored && scan.custom_active == custom_active
}

impl LiveScan {
    /// Whether what was found is still what is asked for.
    pub fn holds(
        &self,
        query: &str,
        root: &Path,
        show_hidden: bool,
        show_ignored: bool,
        custom_active: bool,
    ) -> (r: bool)
        ensures
            r == still_holds(self@, query@, root@, show_hidden, show_ignored, custom_active),
    {
        crate::text::same_text(self.query.as_str(), query) && self.root.same(root)
            && self.show_hidden == show_hidden && self.show_ignored == show_ignored
            && self.custom_active == custom_active
    }
}

/// Adds the directories above a path, strictly below the root, to a set.
pub fn add_between(set: &mut PathSet, root: &Path, path: &Path)
    ensures
        final(set)@ == old(set)@.union(between(root.comps(), path.comps())),
{
    let ghost start = set@;
    let ghost t = path.comps();
    let ghost r = root.comps();
    let mut cur = path.copy();
    let ghost mut n: nat = cur.comps().len();
    proof {
        assert(t.take(n as int) =~= t);
        assert(start =~= start.union(from_depth(r, t, n as int)));
    }
    let mut more = true;
    while more
        invariant
            t == path.comps(),
            r == root.comps(),
            n <= t.len(),
            cur.comps() == t.take(n as int),
            more ==> set@ == start.union(from_depth(r, t, n as int)),
            !more ==> set@ == start.union(between(r, t)),
        decreases
            n + if more {
                1nat
            } else {
                0nat
            },
    {
        let parent = cur.parent();
        proof {
            lemma_parent(cur@);
        }
        let ghost held = set@;
        match parent {
            Some(p) => {
                if p.same(root) || !p.starts_with(root) {
                    more = false;
                    proof {
                        assert(cur.comps().drop_last() =~= t.take(n - 1));
                        lemma_no_more(r, t, n as int, start);
                    }
                } else {
                    let _fresh = set.insert(p.copy());
                    proof {
                        let m = (n - 1) as int;
                        assert(cur.comps().drop_last() =~= t.take(m));
                        lemma_one_more(r, t, n as int, start);
                        n = (n - 1) as nat;
                    }
                    cur = p;
                }
            },
            None => {
                more = false;
                proof {
                    lemma_top(r, t, n as int, start, cur@);
                }
            },
        }
    }
}

spec fn from_depth(r: Seq<Seq<u8>>, t: Seq<Seq<u8>>, n: int) -> Set<Seq<Seq<u8>>> {
    Set::new(
        |k: Seq<Seq<u8>>|
            r.is_prefix_of(k) && k != r && k.is_prefix_of(t) && n <= k.len() < t.len(),
    )
}

proof fn lemma_prefix_of_depth(t: Seq<Seq<u8>>, k: Seq<Seq<u8>>)
    requires
        k.is_prefix_of(t),
    ensures
        k == t.take(k.len() as int),
{
    assert(k =~= t.take(k.len() as int));
}

proof fn lemma_no_more(r: Seq<Seq<u8>>, t: Seq<Seq<u8>>, n: int, start: Set<Seq<Seq<u8>>>)
    requires
        0 < n <= t.len(),
        t.take(n - 1) == r || !r.is_prefix_of(t.take(n - 1)),
    ensures
        start.union(from_depth(r, t, n)) == start.union(between(r, t)),
{
    assert forall|k: Seq<Seq<u8>>| from_depth(r, t, n).contains(k) == between(r, t).contains(
        k,
    ) by {
        if between(r, t).contains(k) {
            lemma_prefix_of_depth(t, k);
            if k.len() < n {
                assert(r.len() < k.len()) by {
                    if r.len() == k.len() {
                        assert(r =~= k);
                    }
                }
                let up = t.take(n - 1);
                assert(k.is_prefix_of(up)) by {
                    assert(k =~= up.take(k.len() as int));
                }
                assert(r.is_prefix_of(up)) by {
                    assert(r =~= up.take(r.len() as int));
                }
                assert(up.len() > r.len());
            }
        }
        if k.is_prefix_of(t) && k.len() == t.len() {
            assert(k =~= t);
        }
    }
    assert(from_depth(r, t, n) =~= between(r, t));
}

proof fn lemma_one_more(r: Seq<Seq<u8>>, t: Seq<Seq<u8>>, n: int, start: Set<Seq<Seq<u8>>>)
    requires
        0 < n <= t.len(),
        t.take(n - 1) != r,
        r.is_prefix_of(t.take(n - 1)),
    ensures
        start.union(from_depth(r, t, n)).insert(t.take(n - 1)) == start.union(
            from_depth(r, t, n - 1),
        ),
{
    let up = t.take(n - 1);
    assert forall|k: Seq<Seq<u8>>| from_depth(r, t, n - 1).contains(k) == (from_depth(
        r,
        t,
        n,
    ).contains(k) || k == up) by {
        if from_depth(r, t, n - 1).contains(k) && k.len() == n - 1 {
            lemma_prefix_of_depth(t, k);
        }
        if k == up {
            assert(up.is_prefix_of(t));
        }
    }
    assert(start.union(from_depth(r, t, n)).insert(up) =~= start.union(from_depth(r, t, n - 1)));
}

proof fn lemma_top(
    r: Seq<Seq<u8>>,
    t: Seq<Seq<u8>>,
    n: int,
    start: Set<Seq<Seq<u8>>>,
    cur: Seq<u8>,
)
    requires
        0 <= n <= t.len(),
        comps(cur) == t.take(n),
        parent_text(cur) is None,
    ensures
        start.union(from_depth(r, t, n)) == start.union(between(r, t)),
{
    lemma_parent(cur);
    assert(comps(cur).len() == n);
    assert(n <= 1) by {
        if comps(cur).len() > 0 {
            assert(comps(cur) == seq![crate::path::root_comp()]);
        }
    }
    assert forall|k: Seq<Seq<u8>>| from_depth(r, t, n).contains(k) == between(r, t).contains(
        k,
    ) by {
        if between(r, t).contains(k) {
            lemma_prefix_of_depth(t, k);
            if k.len() == 0 {
                assert(r =~= k);
            }
        }
        if k.is_prefix_of(t) && k.len() == t.len() {
            assert(k =~= t);
        }
    }
    assert(from_depth(r, t, n) =~= between(r, t));
}

impl FilterWalk {
    /// A walk that begins at the root.
    pub fn new(
        query: &str,
        root: &Path,
        show_hidden: bool,
        show_ignored: bool,
        custom_active: bool,
    ) -> (r: FilterWalk)
        ensures
            r@ == new_walk(query@, root@, show_hidden, show_ignored, custom_active),
    {
        let mut stack: Vec<Path> = Vec::new();
        stack.push(root.copy());
        let r = FilterWalk {
            found: LiveScan {
                query: query.to_owned(),
                root: root.copy(),
                show_hidden,
                show_ignored,
                custom_active,
                visible: PathSet::new(),
                expand: Vec::new(),
                truncated: false,
            },
            seen: PathSet::new(),
            links: PathSet::new(),
            walked: 0,
            stack,
        };
        proof {
            assert(r@.stack =~= seq![root@]);
            assert(r@.found.expand =~= Seq::empty());
        }
        r
    }

    /// The directory that is to be read next.
    pub fn next_dir(&self) -> (r: Option<&Path>)
        ensures
            match r {
                Some(p) => self@.stack.len() > 0 && p@ == self@.stack.last(),
                None => self@.stack.len() == 0,
            },
    {
        if self.stack.len() == 0 {
            None
        } else {
            Some(&self.stack[self.stack.len() - 1])
        }
    }

    /// Adds the chain from a directory up to the root to what is to be opened.
    fn add_chain(&mut self, from: Option<Path>)
        ensures
            final(self)@ == {
                let (seen, expand) = with_chain(
                    old(self)@.seen,
                    old(self)@.found.expand,
                    path_view(from),
                    comps(old(self)@.found.root),
                );
                WalkView { found: LiveScanView { expand, ..old(self)@.found }, seen, ..old(self)@ }
            },
    {
        let ghost start = self@;
        let ghost root = comps(start.found.root);
        let ghost target = with_chain(start.seen, start.found.expand, path_view(from), root);
        let mut cur = from;
        let ghost mut left: nat = match path_view(cur) {
            Some(t) => comps(t).len() + 1,
            None => 0,
        };
        while cur.is_some()
            invariant
                root == comps(start.found.root),
                self@ == (WalkView {
                    found: LiveScanView { expand: self@.found.expand, ..start.found },
                    seen: self@.seen,
                    ..start
                }),
                target == with_chain(self@.seen, self@.found.expand, path_view(cur), root),
                left == match path_view(cur) {
                    Some(t) => comps(t).len() + 1,
                    None => 0nat,
                },
            decreases left,
        {
            let here = match cur {
                Some(p) => p,
                None => Path::empty(),
            };
            proof {
                lemma_parent(here@);
            }
            if !here.starts_with(&self.found.root) || self.seen.contains(&here) {
                cur = None;
                proof {
                    left = 0;
                }
            } else {
                let ghost held = self.found.expand@;
                let ghost before = self@;
                let _fresh = self.seen.insert(here.copy());
                self.found.expand.push(here.copy());
                proof {
                    assert(path_texts(self.found.expand@) =~= path_texts(held).push(here@));
                    assert(self@.found.expand == before.found.expand.push(here@));
                    assert(self@.seen == before.seen.insert(comps(here@)));
                }
                if here.same(&self.found.root) {
                    cur = None;
                } else {
                    cur = here.parent();
                }
                proof {
                    left = match path_view(cur) {
                        Some(t) => comps(t).len() + 1,
                        None => 0,
                    };
                }
            }
        }
    }

    /// Takes note of where to go on.
    fn enter(&mut self, path: Path, entry: &WalkEntry, name: &str, rules: &WalkRules)
        requires
            name@ == lossy_text(entry@.name),
        ensures
            final(self)@ == entered(old(self)@, path@, entry@, rules@),
    {
        if rules.prune && is_high_churn_name(name) {
            return;
        }
        let ghost held = self.stack@;
        match &entry.kind {
            EntryKind::Leaf => {},
            EntryKind::Directory => {
                self.stack.push(path);
                assert(path_texts(self.stack@) =~= path_texts(held).push(path@));
            },
            EntryKind::LinkedDirectory(actual) => {
                if let Some(p) = actual {
                    if self.links.insert(p.copy()) {
                        self.stack.push(path);
                        assert(path_texts(self.stack@) =~= path_texts(held).push(path@));
                    } else {
                        assert(self.links@ =~= old(self).links@);
                    }
                }
            },
        }
    }

    /// Looks at one entry of a directory.
    fn visit(
        &mut self,
        dir: &Path,
        entry: &WalkEntry,
        rules: &WalkRules,
        matcher: &mut nucleo_matcher::Matcher,
    )
        ensures
            final(self)@ == after_entry(old(self)@, dir@, entry@, rules@),
    {
        if self.found.truncated {
            return;
        }
        if self.walked >= FILTER_WALK_CAP {
            self.found.truncated = true;
            self.stack = Vec::new();
            assert(path_texts(self.stack@) =~= Seq::empty());
            return;
        }
        self.walked += 1;
        let name = read_lossy(entry.name.as_slice());
        let path = dir.join_bytes(entry.name.as_slice());
        if !self.found.show_hidden && starts_with_char(name.as_str(), '.') {
            return;
        }
        if !self.found.show_ignored {
            if let Some(s) = rules.statuses.get(&path) {
                if *s == GitStatus::Ignored {
                    return;
                }
            }
        }
        if self.found.custom_active && excluded(name.as_str(), rules.exclude) {
            return;
        }
        let is_dir = match entry.kind {
            EntryKind::Leaf => false,
            _ => true,
        };
        let matched = name_matches(matcher, self.found.query.as_str(), name.as_str());
        if matched || (is_dir && rules.show_folders) {
            let _fresh = self.found.visible.insert(path.copy());
            add_between(&mut self.found.visible, &self.found.root, &path);
        }
        if matched && !self.found.query.as_str().is_empty() {
            self.add_chain(path.parent());
        }
        self.enter(path, entry, name.as_str(), rules);
    }

    /// Reads the next directory; `None` when it could not be read. A name is
    /// found by `matches_query`, which leaves out names that are too long to be
    /// scored, or are written in a way that clashes with the query.
    pub fn read(
        &mut self,
        entries: Option<Vec<WalkEntry>>,
        rules: &WalkRules,
        matcher: &mut nucleo_matcher::Matcher,
    )
        ensures
            final(self)@ == after_dir(
                old(self)@,
                match entries {
                    Some(v) => Some(entries_view(v@)),
                    None => None,
                },
                rules@,
            ),
    {
        let ghost start = self@;
        let ghost held = self.stack@;
        let dir = match self.stack.pop() {
            Some(d) => d,
            None => {
                return;
            },
        };
        proof {
            assert(path_texts(self.stack@) =~= start.stack.drop_last());
            assert(start.stack.last() == dir@);
        }
        let ghost gone = WalkView { stack: start.stack.drop_last(), ..start };
        if let Some(v) = entries {
            let ghost es = entries_view(v@);
            let mut i: usize = 0;
            assert(es.take(0) =~= Seq::empty());
            while i < v.len()
                invariant
                    i <= v@.len(),
                    es == entries_view(v@),
                    self@ == after_entries(gone, dir@, es.take(i as int), rules@),
                decreases v@.len() - i,
            {
                proof {
                    assert(es.take(i + 1).drop_last() =~= es.take(i as int));
                    assert(es.take(i + 1).last() == v@[i as int]@);
                }
                self.visit(&dir, &v[i], rules, matcher);
                i += 1;
            }
            assert(es.take(i as int) =~= es);
        }
    }

    /// What the walk comes to.
    pub fn finish(self) -> (r: LiveScan)
        ensures
            r@ == walk_result(self@),
    {
        let expand = sort_by_depth(&self.found.expand);
        LiveScan { expand, ..self.found }
    }
}

/// Whether the directories above what stays visible, as far as they are below
/// the root, stay visible too.
pub open spec fn closed_upward(w: WalkView) -> bool {
    forall|k: Seq<Seq<u8>>, a: Seq<Seq<u8>>| #[trigger]
        w.found.visible.contains(k) && #[trigger] between(comps(w.found.root), k).contains(a)
            ==> w.found.visible.contains(a)
}

proof fn lemma_shown_entry_closed(w: WalkView, path: Seq<u8>)
    requires
        closed_upward(w),
    ensures
        closed_upward(shown_entry(w, path)),
{
    let n = shown_entry(w, path);
    let r = comps(w.found.root);
    let t = comps(path);
    assert forall|k: Seq<Seq<u8>>, a: Seq<Seq<u8>>| #[trigger]
        n.found.visible.contains(k) && #[trigger] between(comps(n.found.root), k).contains(
            a,
        ) implies n.found.visible.contains(a) by {
        if w.found.visible.contains(k) {
            assert(w.found.visible.contains(a));
        } else {
            assert(k.is_prefix_of(t));
            assert(a.is_prefix_of(t)) by {
                assert(a =~= t.take(a.len() as int));
            }
            assert(a != t) by {
                if a == t {
                    assert(a.len() == k.len());
                    assert(a =~= k);
                }
            }
            assert(between(r, t).contains(a));
        }
    }
}

proof fn lemma_entry_closed(w: WalkView, dir: Seq<u8>, e: WalkEntryView, rules: RulesView)
    requires
        closed_upward(w),
    ensures
        closed_upward(after_entry(w, dir, e, rules)),
        after_entry(w, dir, e, rules).found.root == w.found.root,
{
    let path = join_text(dir, e.name);
    let counted = WalkView { walked: w.walked + 1, ..w };
    assert(closed_upward(counted));
    lemma_shown_entry_closed(counted, path);
    let n = after_entry(w, dir, e, rules);
    assert(n.found.visible == w.found.visible || n.found.visible == shown_entry(
        counted,
        path,
    ).found.visible);
}

proof fn lemma_entries_closed(
    w: WalkView,
    dir: Seq<u8>,
    es: Seq<WalkEntryView>,
    rules: RulesView,
)
    requires
        closed_upward(w),
    ensures
        closed_upward(after_entries(w, dir, es, rules)),
    decreases es.len(),
{
    if es.len() > 0 {
        lemma_entries_closed(w, dir, es.drop_last(), rules);
        lemma_entry_closed(
            after_entries(w, dir, es.drop_last(), rules),
            dir,
            es.last(),
            rules,
        );
    }
}

/// Whatever a walk reads, the directories above what stays visible stay visible
/// too, so that there is always a way from the root to a match.
pub proof fn law_visible_reaches_the_root(
    w: WalkView,
    es: Option<Seq<WalkEntryView>>,
    rules: RulesView,
    query: Seq<char>,
    root: Seq<u8>,
    show_hidden: bool,
    show_ignored: bool,
    custom_active: bool,
)
    ensures
        closed_upward(new_walk(query, root, show_hidden, show_ignored, custom_active)),
        closed_upward(w) ==> closed_upward(after_dir(w, es, rules)),
{
    if closed_upward(w) && w.stack.len() > 0 && es is Some {
        let gone = WalkView { stack: w.stack.drop_last(), ..w };
        assert(closed_upward(gone));
        lemma_entries_closed(gone, w.stack.last(), es->0, rules);
    }
}

/// An entry that is looked at, is not passed over and matches stays visible, and
/// the directory that it is in is to be opened, if that is in the tree.
pub proof fn law_match_is_found(w: WalkView, dir: Seq<u8>, e: WalkEntryView, rules: RulesView)
    requires
        !w.found.truncated,
        w.walked < FILTER_WALK_CAP,
        !passed_over(w, dir, e, rules),
        w.found.query.len() > 0,
        matches_query(w.found.query, lossy_text(e.name)),
    ensures
        after_entry(w, dir, e, rules).found.visible.contains(comps(join_text(dir, e.name))),
        parent_text(join_text(dir, e.name)) is Some && comps(w.found.root).is_prefix_of(
            comps(parent_text(join_text(dir, e.name))->0),
        ) ==> after_entry(w, dir, e, rules).seen.contains(
            comps(parent_text(join_text(dir, e.name))->0),
        ),
{
    let path = join_text(dir, e.name);
    let counted = WalkView { walked: w.walked + 1, ..w };
    let shown = shown_entry(counted, path);
    match parent_text(path) {
        Some(up) => {
            if comps(w.found.root).is_prefix_of(comps(up)) && !shown.seen.contains(comps(up)) {
                lemma_parent(up);
                lemma_chain_keeps(
                    shown.seen.insert(comps(up)),
                    shown.found.expand.push(up),
                    parent_text(up),
                    comps(w.found.root),
                    comps(up),
                );
            }
        },
        None => {},
    }
}

proof fn lemma_chain_keeps(
    seen: Set<Seq<Seq<u8>>>,
    expand: Seq<Seq<u8>>,
    from: Option<Seq<u8>>,
    root: Seq<Seq<u8>>,
    k: Seq<Seq<u8>>,
)
    requires
        seen.contains(k),
    ensures
        with_chain(seen, expand, from, root).0.contains(k),
    decreases
            match from {
                Some(t) => comps(t).len() + 1,
                None => 0,
            },
{
    match from {
        Some(t) => {
            if root.is_prefix_of(comps(t)) && !seen.contains(comps(t)) && comps(t) != root {
                lemma_parent(t);
                lemma_chain_keeps(
                    seen.insert(comps(t)),
                    expand.push(t),
                    parent_text(t),
                    root,
                    k,
                );
            }
        },
        None => {},
    }
}

/// A walk looks at no more entries than it may.
pub proof fn law_walk_is_bounded(w: WalkView, dir: Seq<u8>, e: WalkEntryView, rules: RulesView)
    requires
        w.walked <= FILTER_WALK_CAP,
    ensures
        w.walked <= after_entry(w, dir, e, rules).walked <= FILTER_WALK_CAP,
        after_entry(w, dir, e, rules).walked == w.walked ==> after_entry(
            w,
            dir,
            e,
            rules,
        ).found.truncated,
{
}

/// The directories strictly above a path, the root and those below it.
pub open spec fn on_the_way(root: Seq<Seq<u8>>, t: Seq<Seq<u8>>) -> Set<Seq<Seq<u8>>> {
    Set::new(|k: Seq<Seq<u8>>| root.is_prefix_of(k) && k.is_prefix_of(t) && k != t)
}

/// Whether a list names each of some directories once, and no others.
pub open spec fn listed_once(dirs: Set<Seq<Seq<u8>>>, list: Seq<Seq<u8>>) -> bool {
    &&& forall|i: int| 0 <= i < list.len() ==> dirs.contains(comps(#[trigger] list[i]))
    &&& forall|k: Seq<Seq<u8>>| #[trigger]
        dirs.contains(k) ==> exists|i: int| 0 <= i < list.len() && comps(#[trigger] list[i]) == k
    &&& forall|i: int, j: int|
        0 <= i < j < list.len() ==> comps(#[trigger] list[i]) != comps(#[trigger] list[j])
}

/// Whether what is to be opened is exactly the directories above some matches,
/// each once.
pub open spec fn opens_above(w: WalkView, matches: Set<Seq<Seq<u8>>>) -> bool {
    let root = comps(w.found.root);
    &&& root.len() > 0
    &&& listed_once(w.seen, w.found.expand)
    &&& forall|k: Seq<Seq<u8>>| #[trigger]
        w.seen.contains(k) <==> exists|p: Seq<Seq<u8>>| #[trigger]
            matches.contains(p) && on_the_way(root, p).contains(k)
}

/// Whether an entry is looked at and matches.
pub open spec fn is_match(w: WalkView, dir: Seq<u8>, e: WalkEntryView, rules: RulesView) -> bool {
    &&& !w.found.truncated
    &&& w.walked < FILTER_WALK_CAP
    &&& !passed_over(w, dir, e, rules)
    &&& w.found.query.len() > 0
    &&& matches_query(w.found.query, lossy_text(e.name))
}

/// The paths of the entries of a directory that match.
pub open spec fn matches_in(
    w: WalkView,
    dir: Seq<u8>,
    es: Seq<WalkEntryView>,
    rules: RulesView,
) -> Set<Seq<Seq<u8>>>
    decreases es.len(),
{
    if es.len() == 0 {
        Set::empty()
    } else {
        let before = matches_in(w, dir, es.drop_last(), rules);
        if is_match(after_entries(w, dir, es.drop_last(), rules), dir, es.last(), rules) {
            before.insert(comps(join_text(dir, es.last().name)))
        } else {
            before
        }
    }
}

/// The paths that match in the directory that is read next.
pub open spec fn next_matches(
    w: WalkView,
    es: Option<Seq<WalkEntryView>>,
    rules: RulesView,
) -> Set<Seq<Seq<u8>>> {
    match es {
        Some(es) => if w.stack.len() == 0 {
            Set::empty()
        } else {
            matches_in(
                WalkView { stack: w.stack.drop_last(), ..w },
                w.stack.last(),
                es,
                rules,
            )
        },
        None => Set::empty(),
    }
}

/// The directories from the root down to a path.
spec fn up_to(root: Seq<Seq<u8>>, t: Seq<Seq<u8>>) -> Set<Seq<Seq<u8>>> {
    Set::new(|k: Seq<Seq<u8>>| root.is_prefix_of(k) && k.is_prefix_of(t))
}

/// Whether with a directory no deeper than `depth` all above it are there.
spec fn whole_ways(seen: Set<Seq<Seq<u8>>>, root: Seq<Seq<u8>>, depth: int) -> bool {
    forall|k: Seq<Seq<u8>>, a: Seq<Seq<u8>>|
        #![trigger seen.contains(k), up_to(root, k).contains(a)]
        seen.contains(k) && k.len() <= depth && up_to(root, k).contains(a) ==> seen.contains(a)
}

proof fn lemma_chain_adds(
    seen: Set<Seq<Seq<u8>>>,
    expand: Seq<Seq<u8>>,
    t: Seq<u8>,
    root: Seq<Seq<u8>>,
)
    requires
        root.len() > 0,
        listed_once(seen, expand),
        whole_ways(seen, root, comps(t).len() as int),
    ensures
        with_chain(seen, expand, Some(t), root).0 == seen.union(up_to(root, comps(t))),
        listed_once(
            with_chain(seen, expand, Some(t), root).0,
            with_chain(seen, expand, Some(t), root).1,
        ),
    decreases comps(t).len(),
{
    let c = comps(t);
    let all = seen.union(up_to(root, c));
    assert(c.is_prefix_of(c)) by {
        assert(c =~= c.subrange(0, c.len() as int));
    }
    if !root.is_prefix_of(c) {
        assert forall|k: Seq<Seq<u8>>| !up_to(root, c).contains(k) by {
            if up_to(root, c).contains(k) {
                assert(root =~= k.subrange(0, root.len() as int));
                assert(k =~= c.subrange(0, k.len() as int));
                assert(root =~= c.subrange(0, root.len() as int));
            }
        }
        assert(all =~= seen);
    } else if seen.contains(c) {
        assert forall|k: Seq<Seq<u8>>| up_to(root, c).contains(k) implies seen.contains(k) by {}
        assert(all =~= seen);
    } else {
        let more = seen.insert(c);
        let list = expand.push(t);
        assert(listed_once(more, list)) by {
            assert forall|i: int| 0 <= i < list.len() implies more.contains(
                comps(#[trigger] list[i]),
            ) by {
                if i < expand.len() {
                    assert(seen.contains(comps(expand[i])));
                }
            }
            assert forall|k: Seq<Seq<u8>>| #[trigger] more.contains(k) implies exists|i: int|
                0 <= i < list.len() && comps(#[trigger] list[i]) == k by {
                if k == c {
                    assert(comps(list[expand.len() as int]) == k);
                } else {
                    assert(seen.contains(k));
                    let i = choose|i: int| 0 <= i < expand.len() && comps(#[trigger] expand[i]) == k;
                    assert(comps(list[i]) == k);
                }
            }
            assert forall|i: int, j: int| 0 <= i < j < list.len() implies comps(
                #[trigger] list[i],
            ) != comps(#[trigger] list[j]) by {
                assert(list[i] == expand[i]);
                assert(seen.contains(comps(expand[i])));
                if j < expand.len() {
                    assert(comps(expand[i]) != comps(expand[j]));
                }
            }
        }
        if c == root {
            assert forall|k: Seq<Seq<u8>>| up_to(root, c).contains(k) implies k == c by {
                assert(root =~= k.subrange(0, root.len() as int));
                assert(k =~= c.subrange(0, k.len() as int));
                assert(k =~= c);
            }
            assert(all =~= more);
        } else {
            lemma_parent(t);
            assert(root =~= c.subrange(0, root.len() as int));
            if c.len() == root.len() {
                assert(c =~= root);
            }
            let up = parent_text(t)->0;
            let d = comps(up);
            assert(whole_ways(more, root, d.len() as int)) by {
                assert forall|k: Seq<Seq<u8>>, a: Seq<Seq<u8>>|
                    #![trigger more.contains(k), up_to(root, k).contains(a)]
                    more.contains(k) && k.len() <= d.len() && up_to(root, k).contains(
                        a,
                    ) implies more.contains(a) by {
                    assert(seen.contains(k));
                }
            }
            lemma_chain_adds(more, list, up, root);
            assert forall|k: Seq<Seq<u8>>| up_to(root, c).contains(k) == (up_to(root, d).contains(k)
                || k == c) by {
                if up_to(root, c).contains(k) && k != c {
                    assert(k =~= c.subrange(0, k.len() as int));
                    if k.len() == c.len() {
                        assert(k =~= c);
                    }
                    assert(k =~= d.subrange(0, k.len() as int));
                }
                if up_to(root, d).contains(k) {
                    assert(k =~= d.subrange(0, k.len() as int));
                    assert(k =~= c.subrange(0, k.len() as int));
                }
            }
            assert(more.union(up_to(root, d)) =~= all);
        }
    }
}

proof fn lemma_match_opens(w: WalkView, path: Seq<u8>, matches: Set<Seq<Seq<u8>>>)
    requires
        opens_above(w, matches),
    ensures
        opens_above(matched_entry(w, path), matches.insert(comps(path))),
{
    let root = comps(w.found.root);
    let c = comps(path);
    let m = matches.insert(c);
    let n = matched_entry(w, path);
    lemma_parent(path);
    match parent_text(path) {
        None => {
            assert(n.seen == w.seen);
            assert forall|k: Seq<Seq<u8>>| !on_the_way(root, c).contains(k) by {
                if on_the_way(root, c).contains(k) {
                    assert(root =~= k.subrange(0, root.len() as int));
                    assert(k =~= c.subrange(0, k.len() as int));
                    assert(k =~= c);
                }
            }
        },
        Some(up) => {
            let d = comps(up);
            assert(whole_ways(w.seen, root, d.len() as int)) by {
                assert forall|k: Seq<Seq<u8>>, a: Seq<Seq<u8>>|
                    #![trigger w.seen.contains(k), up_to(root, k).contains(a)]
                    w.seen.contains(k) && k.len() <= d.len() && up_to(root, k).contains(
                        a,
                    ) implies w.seen.contains(a) by {
                    let p = choose|p: Seq<Seq<u8>>| #[trigger]
                        matches.contains(p) && on_the_way(root, p).contains(k);
                    assert(a =~= k.subrange(0, a.len() as int));
                    assert(k =~= p.subrange(0, k.len() as int));
                    assert(a =~= p.subrange(0, a.len() as int));
                    if a == p {
                        assert(k =~= p);
                    }
                    assert(on_the_way(root, p).contains(a));
                }
            }
            lemma_chain_adds(w.seen, w.found.expand, up, root);
            assert forall|k: Seq<Seq<u8>>| up_to(root, d).contains(k) == on_the_way(
                root,
                c,
            ).contains(k) by {
                if up_to(root, d).contains(k) {
                    assert(k =~= d.subrange(0, k.len() as int));
                    assert(k =~= c.subrange(0, k.len() as int));
                }
                if on_the_way(root, c).contains(k) {
                    assert(k =~= c.subrange(0, k.len() as int));
                    if k.len() == c.len() {
                        assert(k =~= c);
                    }
                    assert(k =~= d.subrange(0, k.len() as int));
                }
            }
        },
    }
    assert forall|k: Seq<Seq<u8>>| #[trigger] n.seen.contains(k) <==> exists|p: Seq<Seq<u8>>|
        #[trigger] m.contains(p) && on_the_way(root, p).contains(k) by {
        if n.seen.contains(k) {
            if w.seen.contains(k) {
                let p = choose|p: Seq<Seq<u8>>| #[trigger]
                    matches.contains(p) && on_the_way(root, p).contains(k);
                assert(m.contains(p));
            } else {
                assert(m.contains(c) && on_the_way(root, c).contains(k));
            }
        }
        if exists|p: Seq<Seq<u8>>| #[trigger] m.contains(p) && on_the_way(root, p).contains(k) {
            let p = choose|p: Seq<Seq<u8>>| #[trigger]
                m.contains(p) && on_the_way(root, p).contains(k);
            if p != c {
                assert(matches.contains(p));
                assert(w.seen.contains(k));
            }
        }
    }
}

proof fn lemma_entries_open(
    w: WalkView,
    dir: Seq<u8>,
    es: Seq<WalkEntryView>,
    rules: RulesView,
    matches: Set<Seq<Seq<u8>>>,
)
    requires
        opens_above(w, matches),
    ensures
        opens_above(
            after_entries(w, dir, es, rules),
            matches.union(matches_in(w, dir, es, rules)),
        ),
    decreases es.len(),
{
    if es.len() == 0 {
        assert(matches.union(matches_in(w, dir, es, rules)) =~= matches);
    } else {
        let e = es.last();
        let before = after_entries(w, dir, es.drop_last(), rules);
        let found = matches.union(matches_in(w, dir, es.drop_last(), rules));
        lemma_entries_open(w, dir, es.drop_last(), rules, matches);
        let path = join_text(dir, e.name);
        let counted = WalkView { walked: before.walked + 1, ..before };
        let all = matches.union(matches_in(w, dir, es, rules));
        if is_match(before, dir, e, rules) {
            let shown = shown_entry(counted, path);
            assert(opens_above(shown, found));
            lemma_match_opens(shown, path, found);
            assert(all =~= found.insert(comps(path)));
        } else {
            assert(all =~= found);
        }
    }
}

/// Whatever a walk reads, the directories that are to be opened are exactly those
/// above the paths that matched so far, each once.
pub proof fn law_walk_opens_above_matches(
    w: WalkView,
    es: Option<Seq<WalkEntryView>>,
    rules: RulesView,
    matches: Set<Seq<Seq<u8>>>,
)
    requires
        opens_above(w, matches),
    ensures
        opens_above(after_dir(w, es, rules), matches.union(next_matches(w, es, rules))),
{
    let none = Set::<Seq<Seq<u8>>>::empty();
    assert(matches.union(none) =~= matches);
    if w.stack.len() > 0 {
        let gone = WalkView { stack: w.stack.drop_last(), ..w };
        assert(opens_above(gone, matches));
        if es is Some {
            lemma_entries_open(gone, w.stack.last(), es->0, rules, matches);
        }
    }
}

/// A walk that has read nothing opens nothing.
pub proof fn law_new_walk_opens_nothing(
    query: Seq<char>,
    root: Seq<u8>,
    show_hidden: bool,
    show_ignored: bool,
    custom_active: bool,
)
    requires
        comps(root).len() > 0,
    ensures
        opens_above(
            new_walk(query, root, show_hidden, show_ignored, custom_active),
            Set::empty(),
        ),
{
}

/// What a walk comes to names the directories above the matches, each once, the
/// shallowest first.
pub proof fn law_result_opens_in_order(w: WalkView, matches: Set<Seq<Seq<u8>>>)
    requires
        opens_above(w, matches),
    ensures
        listed_once(w.seen, walk_result(w).expand),
        forall|i: int, j: int|
            0 <= i < j < walk_result(w).expand.len() ==> comps(
                #[trigger] walk_result(w).expand[i],
            ).len() <= comps(#[trigger] walk_result(w).expand[j]).len(),
{
    broadcast use vstd::seq_lib::group_to_multiset_ensures;

    let all = w.found.expand;
    let d = walk_result(w).expand;
    let le = no_deeper();
    law_stable_sort(all, le);
    assert forall|x: Seq<u8>| #[trigger] d.contains(x) <==> all.contains(x) by {
        assert(d.to_multiset().count(x) == all.to_multiset().count(x));
    }
    assert(all.no_duplicates()) by {
        assert forall|a: int, b: int|
            0 <= a < all.len() && 0 <= b < all.len() && a != b implies all[a] != all[b] by {
            if a < b {
                assert(comps(all[a]) != comps(all[b]));
            } else {
                assert(comps(all[b]) != comps(all[a]));
            }
        }
    }
    all.lemma_multiset_has_no_duplicates();
    d.lemma_multiset_has_no_duplicates_conv();
    assert forall|i: int| 0 <= i < d.len() implies w.seen.contains(comps(#[trigger] d[i])) by {
        assert(d.contains(d[i]));
        let a = choose|a: int| 0 <= a < all.len() && all[a] == d[i];
        assert(w.seen.contains(comps(all[a])));
    }
    assert forall|k: Seq<Seq<u8>>| #[trigger] w.seen.contains(k) implies exists|i: int|
        0 <= i < d.len() && comps(#[trigger] d[i]) == k by {
        let a = choose|a: int| 0 <= a < all.len() && comps(#[trigger] all[a]) == k;
        assert(all.contains(all[a]));
        assert(d.contains(all[a]));
        let i = choose|i: int| 0 <= i < d.len() && d[i] == all[a];
        assert(comps(d[i]) == k);
    }
    assert forall|i: int, j: int| 0 <= i < j < d.len() implies comps(#[trigger] d[i]) != comps(
        #[trigger] d[j],
    ) && comps(d[i]).len() <= comps(d[j]).len() by {
        assert(le(d[i], d[j]));
        assert(d.contains(d[i]) && d.contains(d[j]));
        let a = choose|a: int| 0 <= a < all.len() && all[a] == d[i];
        let b = choose|b: int| 0 <= b < all.len() && all[b] == d[j];
        if a < b {
            assert(comps(all[a]) != comps(all[b]));
        } else if b < a {
            assert(comps(all[b]) != comps(all[a]));
        }
    }
}

} // verus!
