//! What holds of a whole walk: it finds everything that there is to find, and
//! nothing else.

use vstd::prelude::*;

use crate::filter::{after_dir, after_entries, after_entry, new_walk, passed_over};
use crate::filter::{EntryKindView, LiveScanView, RulesView, WalkEntryView, WalkView};
use crate::fuzzy::matches_query;
use crate::git::GitStatus;
use crate::path::{comps, join_text};
use crate::text::{holds_text, lossy_text};
use crate::watcher::is_churn;

verus! {

/// Whether an entry may be found: names that begin with a dot only where those
/// are shown, what git ignores only where that is shown, and no name that holds
/// a text that is left out.
pub open spec fn may_be_found(
    asked: LiveScanView,
    dir: Seq<u8>,
    e: WalkEntryView,
    rules: RulesView,
) -> bool {
    let name = lossy_text(e.name);
    let k = comps(join_text(dir, e.name));
    &&& name.len() > 0 && name[0] == '.' ==> asked.show_hidden
    &&& rules.statuses.contains_key(k) && rules.statuses[k] == GitStatus::Ignored
        ==> asked.show_ignored
    &&& asked.custom_active ==> forall|i: int|
        0 <= i < rules.exclude.len() ==> !holds_text(name, #[trigger] rules.exclude[i])
}

/// Whether an entry is wanted: its name matches, or it is a directory where
/// those are always shown.
pub open spec fn is_wanted(asked: LiveScanView, e: WalkEntryView, rules: RulesView) -> bool {
    matches_query(asked.query, lossy_text(e.name)) || (!(e.kind is Leaf) && rules.show_folders)
}

/// Whether a walk has no reason to stay out of what an entry holds, because of
/// its name.
pub open spec fn may_be_walked(e: WalkEntryView, rules: RulesView) -> bool {
    rules.prune ==> !is_churn(lossy_text(e.name))
}

/// A walk after it read `n` directories of a disk.
pub open spec fn walk_on(
    w: WalkView,
    disk: spec_fn(Seq<u8>) -> Option<Seq<WalkEntryView>>,
    rules: RulesView,
    n: nat,
) -> WalkView
    decreases n,
{
    if n == 0 {
        w
    } else {
        let before = walk_on(w, disk, rules, (n - 1) as nat);
        after_dir(before, disk(before.stack.last()), rules)
    }
}

/// The directory that a way leads to.
pub open spec fn way_end(dir: Seq<u8>, way: Seq<WalkEntryView>) -> Seq<u8>
    decreases way.len(),
{
    if way.len() == 0 {
        dir
    } else {
        join_text(way_end(dir, way.drop_last()), way.last().name)
    }
}

/// Whether a disk holds an entry in a directory.
pub open spec fn holds_entry(
    disk: spec_fn(Seq<u8>) -> Option<Seq<WalkEntryView>>,
    dir: Seq<u8>,
    e: WalkEntryView,
) -> bool {
    disk(dir) is Some && disk(dir)->0.contains(e)
}

/// Whether a way leads down a disk through directories, each of which may be
/// found and walked. Links to directories are on it only where `links` says so.
pub open spec fn is_way(
    disk: spec_fn(Seq<u8>) -> Option<Seq<WalkEntryView>>,
    asked: LiveScanView,
    rules: RulesView,
    dir: Seq<u8>,
    way: Seq<WalkEntryView>,
    links: bool,
) -> bool
    decreases way.len(),
{
    way.len() > 0 ==> {
        let up = way_end(dir, way.drop_last());
        let e = way.last();
        &&& is_way(disk, asked, rules, dir, way.drop_last(), links)
        &&& holds_entry(disk, up, e)
        &&& may_be_found(asked, up, e, rules)
        &&& may_be_walked(e, rules)
        &&& e.kind is Directory || (links && e.kind is LinkedDirectory)
    }
}

/// An entry is passed over exactly when it may not be found.
proof fn lemma_passed_over(w: WalkView, dir: Seq<u8>, e: WalkEntryView, rules: RulesView)
    ensures
        passed_over(w, dir, e, rules) == !may_be_found(w.found, dir, e, rules),
{
}

/// A directory that may be found and walked is walked, whether or not its own
/// name matches; a link to one is walked too, unless another led to the same
/// place.
pub proof fn law_directories_are_walked(
    w: WalkView,
    dir: Seq<u8>,
    e: WalkEntryView,
    rules: RulesView,
)
    requires
        !w.found.truncated,
        w.walked < 50000,
        may_be_found(w.found, dir, e, rules),
        may_be_walked(e, rules),
    ensures
        e.kind is Directory ==> after_entry(w, dir, e, rules).stack == w.stack.push(
            join_text(dir, e.name),
        ),
        e.kind matches EntryKindView::LinkedDirectory(Some(p)) ==> {
            &&& after_entry(w, dir, e, rules).links.contains(comps(p))
            &&& !w.links.contains(comps(p)) ==> after_entry(w, dir, e, rules).stack
                == w.stack.push(join_text(dir, e.name))
            &&& w.links.contains(comps(p)) ==> after_entry(w, dir, e, rules).stack == w.stack
        },
        e.kind is Leaf || e.kind == EntryKindView::LinkedDirectory(None) ==> after_entry(
            w,
            dir,
            e,
            rules,
        ).stack == w.stack,
{
    lemma_passed_over(w, dir, e, rules);
}

/// What may not be found, or may not be walked, is never walked; and what may
/// not be found changes nothing that was found.
pub proof fn law_nothing_else_is_walked(
    w: WalkView,
    dir: Seq<u8>,
    e: WalkEntryView,
    rules: RulesView,
)
    requires
        !w.found.truncated,
        w.walked < 50000,
    ensures
        !may_be_found(w.found, dir, e, rules) || !may_be_walked(e, rules) ==> after_entry(
            w,
            dir,
            e,
            rules,
        ).stack == w.stack,
        !may_be_found(w.found, dir, e, rules) ==> after_entry(w, dir, e, rules).found == w.found,
        after_entry(w, dir, e, rules).walked == w.walked + 1,
        !after_entry(w, dir, e, rules).found.truncated,
{
    lemma_passed_over(w, dir, e, rules);
}

/// What a walk still asks for after some entries is what it asked for before.
spec fn same_question(a: LiveScanView, b: LiveScanView) -> bool {
    &&& a.query == b.query
    &&& a.root == b.root
    &&& a.show_hidden == b.show_hidden
    &&& a.show_ignored == b.show_ignored
    &&& a.custom_active == b.custom_active
}

/// Whether a walk has done what an entry asks of it.
spec fn is_done_with(
    w: WalkView,
    done: Set<Seq<u8>>,
    dir: Seq<u8>,
    e: WalkEntryView,
    rules: RulesView,
) -> bool {
    may_be_found(w.found, dir, e, rules) ==> {
        &&& is_wanted(w.found, e, rules) ==> w.found.visible.contains(
            comps(join_text(dir, e.name)),
        )
        &&& e.kind is Directory && may_be_walked(e, rules) ==> done.contains(
            join_text(dir, e.name),
        ) || w.stack.contains(join_text(dir, e.name))
    }
}

/// Whether one walk goes on from another, with nothing lost.
spec fn goes_on(a: WalkView, b: WalkView) -> bool {
    &&& same_question(a.found, b.found)
    &&& a.found.visible.subset_of(b.found.visible)
    &&& forall|d: Seq<u8>| #[trigger] a.stack.contains(d) ==> b.stack.contains(d)
}

proof fn lemma_entry_done(
    w: WalkView,
    done: Set<Seq<u8>>,
    dir: Seq<u8>,
    e: WalkEntryView,
    rules: RulesView,
)
    requires
        !after_entry(w, dir, e, rules).found.truncated,
    ensures
        !w.found.truncated,
        goes_on(w, after_entry(w, dir, e, rules)),
        is_done_with(after_entry(w, dir, e, rules), done, dir, e, rules),
{
    let after = after_entry(w, dir, e, rules);
    let path = join_text(dir, e.name);
    lemma_passed_over(w, dir, e, rules);
    assert(after.stack == w.stack || after.stack == w.stack.push(path));
    assert forall|d: Seq<u8>| #[trigger] w.stack.contains(d) implies after.stack.contains(d) by {
        let i = w.stack.index_of(d);
        assert(after.stack[i] == d);
    }
    if may_be_found(w.found, dir, e, rules) && e.kind is Directory && may_be_walked(e, rules) {
        assert(after.stack[w.stack.len() as int] == path);
    }
}

proof fn lemma_stays_done(
    a: WalkView,
    b: WalkView,
    done: Set<Seq<u8>>,
    dir: Seq<u8>,
    e: WalkEntryView,
    rules: RulesView,
)
    requires
        goes_on(a, b),
        is_done_with(a, done, dir, e, rules),
    ensures
        is_done_with(b, done, dir, e, rules),
{
}

proof fn lemma_entries_done(
    w: WalkView,
    done: Set<Seq<u8>>,
    dir: Seq<u8>,
    es: Seq<WalkEntryView>,
    rules: RulesView,
)
    requires
        !after_entries(w, dir, es, rules).found.truncated,
    ensures
        !w.found.truncated,
        goes_on(w, after_entries(w, dir, es, rules)),
        forall|i: int|
            0 <= i < es.len() ==> is_done_with(
                after_entries(w, dir, es, rules),
                done,
                dir,
                #[trigger] es[i],
                rules,
            ),
    decreases es.len(),
{
    if es.len() > 0 {
        let init = es.drop_last();
        let before = after_entries(w, dir, init, rules);
        let after = after_entries(w, dir, es, rules);
        lemma_entry_done(before, done, dir, es.last(), rules);
        lemma_entries_done(w, done, dir, init, rules);
        assert forall|i: int| 0 <= i < es.len() implies is_done_with(
            after,
            done,
            dir,
            #[trigger] es[i],
            rules,
        ) by {
            if i < init.len() {
                assert(es[i] == init[i]);
                lemma_stays_done(before, after, done, dir, init[i], rules);
            }
        }
    }
}

/// The directories that a walk read.
spec fn dirs_read(
    w: WalkView,
    disk: spec_fn(Seq<u8>) -> Option<Seq<WalkEntryView>>,
    rules: RulesView,
    n: nat,
) -> Set<Seq<u8>>
    decreases n,
{
    if n == 0 {
        Set::empty()
    } else {
        let before = walk_on(w, disk, rules, (n - 1) as nat);
        let done = dirs_read(w, disk, rules, (n - 1) as nat);
        if before.stack.len() == 0 {
            done
        } else {
            done.insert(before.stack.last())
        }
    }
}

/// What a walk has done with the directories that it read.
proof fn lemma_walk_done(
    w: WalkView,
    disk: spec_fn(Seq<u8>) -> Option<Seq<WalkEntryView>>,
    rules: RulesView,
    n: nat,
    first: Seq<u8>,
)
    requires
        !walk_on(w, disk, rules, n).found.truncated,
        w.stack.contains(first),
    ensures
        same_question(w.found, walk_on(w, disk, rules, n).found),
        dirs_read(w, disk, rules, n).contains(first) || walk_on(w, disk, rules, n).stack.contains(
            first,
        ),
        forall|d: Seq<u8>, e: WalkEntryView|
            dirs_read(w, disk, rules, n).contains(d) && #[trigger] holds_entry(disk, d, e)
                ==> is_done_with(
                walk_on(w, disk, rules, n),
                dirs_read(w, disk, rules, n),
                d,
                e,
                rules,
            ),
    decreases n,
{
    if n > 0 {
        let m = (n - 1) as nat;
        let before = walk_on(w, disk, rules, m);
        let done = dirs_read(w, disk, rules, m);
        let after = walk_on(w, disk, rules, n);
        if before.stack.len() > 0 {
            let d0 = before.stack.last();
            let now = done.insert(d0);
            let gone = WalkView { stack: before.stack.drop_last(), ..before };
            if let Some(es) = disk(d0) {
                lemma_entries_done(gone, now, d0, es, rules);
            }
            lemma_walk_done(w, disk, rules, m, first);
            assert(goes_on(gone, after));
            assert forall|d: Seq<u8>| #[trigger] before.stack.contains(d) implies now.contains(d)
                || after.stack.contains(d) by {
                if d != d0 {
                    let i = before.stack.index_of(d);
                    assert(gone.stack[i] == d);
                    assert(gone.stack.contains(d));
                }
            }
            assert forall|d: Seq<u8>, e: WalkEntryView|
                now.contains(d) && #[trigger] holds_entry(disk, d, e) implies is_done_with(
                after,
                now,
                d,
                e,
                rules,
            ) by {
                if d == d0 {
                    let es = disk(d0)->0;
                    let i = es.index_of(e);
                    assert(es[i] == e);
                } else {
                    assert(is_done_with(before, done, d, e, rules));
                }
            }
        } else {
            lemma_walk_done(w, disk, rules, m, first);
        }
    }
}

/// Every directory that a way leads to was read by a walk that is over.
proof fn lemma_way_is_read(
    w: WalkView,
    disk: spec_fn(Seq<u8>) -> Option<Seq<WalkEntryView>>,
    rules: RulesView,
    n: nat,
    first: Seq<u8>,
    way: Seq<WalkEntryView>,
)
    requires
        walk_on(w, disk, rules, n).stack.len() == 0,
        !walk_on(w, disk, rules, n).found.truncated,
        w.stack.contains(first),
        is_way(disk, w.found, rules, first, way, false),
    ensures
        dirs_read(w, disk, rules, n).contains(way_end(first, way)),
    decreases way.len(),
{
    lemma_walk_done(w, disk, rules, n, first);
    if way.len() > 0 {
        let up = way_end(first, way.drop_last());
        let e = way.last();
        lemma_way_is_read(w, disk, rules, n, first, way.drop_last());
        assert(holds_entry(disk, up, e));
        assert(is_done_with(
            walk_on(w, disk, rules, n),
            dirs_read(w, disk, rules, n),
            up,
            e,
            rules,
        ));
    }
}

/// A walk that came to its end without being cut short has found everything:
/// whatever lies on the disk at the end of a way of directories that may be
/// found and walked, may itself be found, and matches what is typed, is
/// visible. So is a directory there where directories are always shown.
pub proof fn law_walk_is_complete(
    query: Seq<char>,
    root: Seq<u8>,
    show_hidden: bool,
    show_ignored: bool,
    custom_active: bool,
    disk: spec_fn(Seq<u8>) -> Option<Seq<WalkEntryView>>,
    rules: RulesView,
    n: nat,
    way: Seq<WalkEntryView>,
    e: WalkEntryView,
)
    requires
        ({
            let start = new_walk(query, root, show_hidden, show_ignored, custom_active);
            let end = walk_on(start, disk, rules, n);
            &&& end.stack.len() == 0
            &&& !end.found.truncated
            &&& is_way(disk, start.found, rules, root, way, false)
            &&& holds_entry(disk, way_end(root, way), e)
            &&& may_be_found(start.found, way_end(root, way), e, rules)
            &&& matches_query(query, lossy_text(e.name)) || (!(e.kind is Leaf)
                && rules.show_folders)
        }),
    ensures
        walk_on(
            new_walk(query, root, show_hidden, show_ignored, custom_active),
            disk,
            rules,
            n,
        ).found.visible.contains(comps(join_text(way_end(root, way), e.name))),
{
    let start = new_walk(query, root, show_hidden, show_ignored, custom_active);
    assert(start.stack[0] == root);
    assert(start.stack.contains(root));
    lemma_walk_done(start, disk, rules, n, root);
    lemma_way_is_read(start, disk, rules, n, root, way);
    assert(is_done_with(
        walk_on(start, disk, rules, n),
        dirs_read(start, disk, rules, n),
        way_end(root, way),
        e,
        rules,
    ));
}

/// Whether a visible path has a reason: an entry at the end of a way, wanted and
/// allowed, that the path is or is above.
pub open spec fn is_justified(
    disk: spec_fn(Seq<u8>) -> Option<Seq<WalkEntryView>>,
    asked: LiveScanView,
    rules: RulesView,
    way: Seq<WalkEntryView>,
    e: WalkEntryView,
    k: Seq<Seq<u8>>,
) -> bool {
    let dir = way_end(asked.root, way);
    &&& is_way(disk, asked, rules, asked.root, way, true)
    &&& holds_entry(disk, dir, e)
    &&& may_be_found(asked, dir, e, rules)
    &&& is_wanted(asked, e, rules)
    &&& k.is_prefix_of(comps(join_text(dir, e.name)))
}

/// Whether a directory is the end of a way.
spec fn is_reached(
    disk: spec_fn(Seq<u8>) -> Option<Seq<WalkEntryView>>,
    asked: LiveScanView,
    rules: RulesView,
    d: Seq<u8>,
) -> bool {
    exists|way: Seq<WalkEntryView>|
        #[trigger] is_way(disk, asked, rules, asked.root, way, true) && way_end(asked.root, way)
            == d
}

/// Whether all that a walk found and has still to read has a reason.
spec fn is_sound(
    w: WalkView,
    asked: LiveScanView,
    disk: spec_fn(Seq<u8>) -> Option<Seq<WalkEntryView>>,
    rules: RulesView,
) -> bool {
    &&& same_question(w.found, asked)
    &&& forall|i: int|
        0 <= i < w.stack.len() ==> is_reached(disk, asked, rules, #[trigger] w.stack[i])
    &&& forall|k: Seq<Seq<u8>>| #[trigger]
        w.found.visible.contains(k) ==> exists|way: Seq<WalkEntryView>, e: WalkEntryView|
            is_justified(disk, asked, rules, way, e, k)
}

proof fn lemma_entry_sound(
    w: WalkView,
    asked: LiveScanView,
    disk: spec_fn(Seq<u8>) -> Option<Seq<WalkEntryView>>,
    dir: Seq<u8>,
    e: WalkEntryView,
    rules: RulesView,
)
    requires
        is_sound(w, asked, disk, rules),
        is_reached(disk, asked, rules, dir),
        holds_entry(disk, dir, e),
    ensures
        is_sound(after_entry(w, dir, e, rules), asked, disk, rules),
{
    let after = after_entry(w, dir, e, rules);
    let path = join_text(dir, e.name);
    lemma_passed_over(w, dir, e, rules);
    let way = choose|way: Seq<WalkEntryView>|
        #[trigger] is_way(disk, asked, rules, asked.root, way, true) && way_end(asked.root, way)
            == dir;
    assert forall|k: Seq<Seq<u8>>| #[trigger] after.found.visible.contains(k) implies exists|
        way: Seq<WalkEntryView>,
        e: WalkEntryView,
    | is_justified(disk, asked, rules, way, e, k) by {
        if !w.found.visible.contains(k) {
            assert(is_justified(disk, asked, rules, way, e, k)) by {
                assert(comps(path).is_prefix_of(comps(path)));
            }
        }
    }
    assert forall|i: int| 0 <= i < after.stack.len() implies is_reached(
        disk,
        asked,
        rules,
        #[trigger] after.stack[i],
    ) by {
        if i < w.stack.len() {
            assert(after.stack[i] == w.stack[i]);
        } else {
            let on = way.push(e);
            assert(on.drop_last() =~= way);
            assert(on.last() == e);
            assert(may_be_found(asked, dir, e, rules));
            assert(is_way(disk, asked, rules, asked.root, on, true));
            assert(way_end(asked.root, on) == path);
        }
    }
}

proof fn lemma_entries_sound(
    w: WalkView,
    asked: LiveScanView,
    disk: spec_fn(Seq<u8>) -> Option<Seq<WalkEntryView>>,
    dir: Seq<u8>,
    es: Seq<WalkEntryView>,
    rules: RulesView,
)
    requires
        is_sound(w, asked, disk, rules),
        is_reached(disk, asked, rules, dir),
        forall|i: int| 0 <= i < es.len() ==> holds_entry(disk, dir, #[trigger] es[i]),
    ensures
        is_sound(after_entries(w, dir, es, rules), asked, disk, rules),
    decreases es.len(),
{
    if es.len() > 0 {
        let init = es.drop_last();
        assert forall|i: int| 0 <= i < init.len() implies holds_entry(
            disk,
            dir,
            #[trigger] init[i],
        ) by {
            assert(init[i] == es[i]);
        }
        lemma_entries_sound(w, asked, disk, dir, init, rules);
        assert(holds_entry(disk, dir, es[es.len() - 1]));
        lemma_entry_sound(
            after_entries(w, dir, init, rules),
            asked,
            disk,
            dir,
            es.last(),
            rules,
        );
    }
}

proof fn lemma_walk_sound(
    w: WalkView,
    asked: LiveScanView,
    disk: spec_fn(Seq<u8>) -> Option<Seq<WalkEntryView>>,
    rules: RulesView,
    n: nat,
)
    requires
        is_sound(w, asked, disk, rules),
    ensures
        is_sound(walk_on(w, disk, rules, n), asked, disk, rules),
    decreases n,
{
    if n > 0 {
        let before = walk_on(w, disk, rules, (n - 1) as nat);
        lemma_walk_sound(w, asked, disk, rules, (n - 1) as nat);
        if before.stack.len() > 0 {
            let dir = before.stack.last();
            let gone = WalkView { stack: before.stack.drop_last(), ..before };
            assert(is_reached(disk, asked, rules, before.stack[before.stack.len() - 1]));
            assert forall|i: int| 0 <= i < gone.stack.len() implies is_reached(
                disk,
                asked,
                rules,
                #[trigger] gone.stack[i],
            ) by {
                assert(gone.stack[i] == before.stack[i]);
            }
            assert(is_sound(gone, asked, disk, rules));
            if let Some(es) = disk(dir) {
                assert forall|i: int| 0 <= i < es.len() implies holds_entry(
                    disk,
                    dir,
                    #[trigger] es[i],
                ) by {}
                lemma_entries_sound(gone, asked, disk, dir, es, rules);
            }
        }
    }
}

/// A walk finds nothing without a reason: what is visible is an entry that may
/// be found and that matches, or a directory where those are always shown, or
/// it is above one; and a way of directories that may be found and walked leads
/// there.
pub proof fn law_walk_is_sound(
    query: Seq<char>,
    root: Seq<u8>,
    show_hidden: bool,
    show_ignored: bool,
    custom_active: bool,
    disk: spec_fn(Seq<u8>) -> Option<Seq<WalkEntryView>>,
    rules: RulesView,
    n: nat,
    k: Seq<Seq<u8>>,
)
    requires
        walk_on(
            new_walk(query, root, show_hidden, show_ignored, custom_active),
            disk,
            rules,
            n,
        ).found.visible.contains(k),
    ensures
        exists|way: Seq<WalkEntryView>, e: WalkEntryView|
            is_justified(
                disk,
                new_walk(query, root, show_hidden, show_ignored, custom_active).found,
                rules,
                way,
                e,
                k,
            ),
{
    let start = new_walk(query, root, show_hidden, show_ignored, custom_active);
    assert(is_way(disk, start.found, rules, start.found.root, Seq::empty(), true));
    assert(is_reached(disk, start.found, rules, start.stack[0])) by {
        assert(way_end(root, Seq::<WalkEntryView>::empty()) == root);
    }
    assert(is_sound(start, start.found, disk, rules));
    lemma_walk_sound(start, start.found, disk, rules, n);
}

/// A walk is cut short only once it has looked at fifty thousand entries, and
/// nothing is left to read after that.
pub proof fn law_walk_is_cut_late(w: WalkView, dir: Seq<u8>, e: WalkEntryView, rules: RulesView)
    requires
        !w.found.truncated,
    ensures
        after_entry(w, dir, e, rules).found.truncated == (w.walked >= 50000),
        after_entry(w, dir, e, rules).found.truncated ==> after_entry(w, dir, e, rules).stack.len()
            == 0 && after_entry(w, dir, e, rules).found.visible == w.found.visible,
{
}

} // verus!
