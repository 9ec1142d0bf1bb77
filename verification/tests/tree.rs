//! The tree, with a disk that is only in memory.

use std::collections::BTreeMap;

use treelix::git::{GitData, GitStatus};
use treelix::path::Path;
use treelix::paths::{PathMap, PathSet};
use treelix::tree::model::{DirScan, Tree};
use treelix::tree::node::{Node, NodeKind};
use treelix::tree::ops::{
    canonicalize_lenient, copy_refused, paste_target, rename_refused, trash_target, trash_way,
    TrashWay,
};
use treelix::tree::rows::ViewOptions;

/// The entries of a disk, each with whether it is a directory, and a clock that
/// counts the changes.
struct Disk {
    entries: BTreeMap<String, bool>,
    changed: BTreeMap<String, i128>,
    clock: i128,
}

impl Disk {
    fn new(dirs: &[&str], files: &[&str]) -> Disk {
        let mut d = Disk { entries: BTreeMap::new(), changed: BTreeMap::new(), clock: 0 };
        d.add("/d", true);
        for p in dirs {
            d.add(p, true);
        }
        for p in files {
            d.add(p, false);
        }
        d
    }

    fn touch_parent(&mut self, p: &str) {
        self.clock += 1;
        if let Some(i) = p.rfind('/') {
            self.changed.insert(p[..i].to_string(), self.clock);
        }
    }

    fn add(&mut self, p: &str, is_dir: bool) {
        self.entries.insert(p.to_string(), is_dir);
        self.touch_parent(p);
        if is_dir {
            self.changed.insert(p.to_string(), self.clock);
        }
    }

    fn remove(&mut self, p: &str) {
        let below = format!("{p}/");
        self.entries.retain(|k, _| k != p && !k.starts_with(&below));
        self.touch_parent(p);
    }

    fn scan(&self, p: &Path) -> DirScan {
        let dir = p.display();
        if self.entries.get(&dir) != Some(&true) {
            return DirScan { mtime: None, entries: None };
        }
        let below = format!("{dir}/");
        let nodes = self
            .entries
            .iter()
            .filter(|(k, _)| k.starts_with(&below) && !k[below.len()..].contains('/'))
            .map(|(k, is_dir)| {
                let kind = if *is_dir { NodeKind::Directory } else { NodeKind::File };
                Node::new(Path::new(k), kind, false, None)
            })
            .collect();
        DirScan { mtime: self.changed.get(&dir).copied(), entries: Some(nodes) }
    }

    fn tree(&self) -> Tree {
        let root = Path::new("/d");
        let scan = self.scan(&root);
        Tree::new(root, scan)
    }
}

fn path(s: &str) -> Path {
    Path::new(s)
}

fn expand(tree: &mut Tree, disk: &Disk, p: &str) {
    let mut next = Some(path(p));
    while let Some(q) = next {
        let scan = disk.scan(&q);
        next = tree.expand(&q, scan);
    }
}

fn names(tree: &Tree, opts: &ViewOptions) -> Vec<String> {
    tree.flatten(opts).into_iter().map(|r| r.name).collect()
}

fn shows(tree: &Tree, opts: &ViewOptions, name: &str) -> bool {
    names(tree, opts).iter().any(|n| n == name)
}

fn open(tree: &Tree, p: &str) -> bool {
    tree.collect_expanded().contains(&path(p))
}

fn statuses(list: &[(&str, GitStatus)]) -> GitData {
    let mut map = PathMap::new();
    for (p, s) in list {
        map.insert(path(p), *s);
    }
    GitData { toplevel: Some(path("/d")), statuses: map }
}

#[test]
fn dirs_sort_before_files() {
    let disk = Disk::new(&["/d/zdir"], &["/d/afile"]);
    let rows = disk.tree().flatten(&ViewOptions::default());
    assert_eq!(rows[0].name, "zdir");
    assert_eq!(rows[1].name, "afile");
}

#[test]
fn flatten_and_reveal() {
    let disk = Disk::new(&["/d/sub", "/d/sub/inner"], &["/d/sub/inner/deep.txt"]);
    let mut tree = disk.tree();
    let opts = ViewOptions::default();
    assert!(shows(&tree, &opts, "sub"));
    assert!(!shows(&tree, &opts, "deep.txt"));

    let chain = tree.reveal_chain(&path("/d/sub/inner/deep.txt"));
    assert_eq!(chain, vec![path("/d"), path("/d/sub"), path("/d/sub/inner")]);
    for p in &chain {
        let scan = disk.scan(p);
        tree.do_expand(p, scan);
    }
    assert!(shows(&tree, &opts, "deep.txt"));
    assert!(tree.reveal_chain(&path("/elsewhere/x")).is_empty());
}

#[test]
fn ignored_filter() {
    let disk = Disk::new(&["/d/build"], &["/d/keep.txt"]);
    let mut tree = disk.tree();
    tree.apply_git(&statuses(&[("/d/build", GitStatus::Ignored)]));

    let mut opts = ViewOptions::default();
    assert!(!shows(&tree, &opts, "build"));
    assert!(shows(&tree, &opts, "keep.txt"));
    opts.show_ignored = true;
    assert!(shows(&tree, &opts, "build"));
}

#[test]
fn ignored_child_does_not_hide_parent_after_expand() {
    let disk = Disk::new(
        &[
            "/d/packages",
            "/d/packages/pkg-a",
            "/d/packages/pkg-a/node_modules",
            "/d/packages/pkg-a/dist",
        ],
        &[
            "/d/packages/pkg-a/node_modules/index.js",
            "/d/packages/pkg-a/dist/out.js",
            "/d/packages/pkg-a/package.json",
        ],
    );
    let mut tree = disk.tree();
    expand(&mut tree, &disk, "/d/packages");
    expand(&mut tree, &disk, "/d/packages/pkg-a");
    tree.apply_git(&statuses(&[
        ("/d/packages/pkg-a/node_modules", GitStatus::Ignored),
        ("/d/packages/pkg-a/dist", GitStatus::Ignored),
    ]));

    let git = |p: &str| tree.root.find(&path(p)).unwrap().git;
    assert_eq!(git("/d/packages/pkg-a"), None, "pkg-a must not inherit child Ignored status");
    assert_eq!(git("/d/packages"), None, "packages/ must not inherit child Ignored status");
    assert_eq!(git("/d/packages/pkg-a/node_modules"), Some(GitStatus::Ignored));

    let opts = ViewOptions::default();
    assert!(shows(&tree, &opts, "packages"), "packages/ stays visible");
    assert!(shows(&tree, &opts, "pkg-a"), "pkg-a stays visible");
    assert!(!shows(&tree, &opts, "node_modules"), "node_modules hidden");
    assert!(!shows(&tree, &opts, "dist"), "dist hidden");
}

#[test]
fn hidden_filter() {
    let disk = Disk::new(&[], &["/d/.secret", "/d/visible"]);
    let tree = disk.tree();
    let mut opts = ViewOptions::default();
    assert!(!shows(&tree, &opts, ".secret"));
    opts.show_hidden = true;
    assert!(shows(&tree, &opts, ".secret"));
}

#[test]
fn refresh_dir_merges_and_preserves_expansion() {
    let mut disk = Disk::new(
        &["/d/sub", "/d/sub/inner"],
        &["/d/sub/inner/deep.txt", "/d/old.txt"],
    );
    let mut tree = disk.tree();
    expand(&mut tree, &disk, "/d/sub");
    expand(&mut tree, &disk, "/d/sub/inner");
    assert!(open(&tree, "/d/sub/inner"));

    disk.add("/d/new.txt", false);
    disk.remove("/d/old.txt");
    assert!(tree.refresh_dir(&path("/d"), disk.scan(&path("/d"))));

    let opts = ViewOptions::default();
    assert!(shows(&tree, &opts, "new.txt"), "new file should appear");
    assert!(!shows(&tree, &opts, "old.txt"), "removed file should be gone");
    assert!(
        open(&tree, "/d/sub/inner"),
        "expansion state of untouched subtree should be preserved"
    );
    assert!(shows(&tree, &opts, "deep.txt"), "deep file still visible");

    let nowhere = path("/d/does-not-exist");
    assert!(!tree.refresh_dir(&nowhere, disk.scan(&nowhere)));
}

#[test]
fn children_are_loaded_once() {
    let mut disk = Disk::new(&["/d/sub"], &["/d/sub/a.txt"]);
    let mut tree = disk.tree();
    assert!(!tree.is_loaded(&path("/d/sub")));
    tree.load_children(&path("/d/sub"), disk.scan(&path("/d/sub")));
    assert!(tree.is_loaded(&path("/d/sub")));
    assert!(!open(&tree, "/d/sub"), "loading does not open");
    disk.add("/d/sub/b.txt", false);
    tree.load_children(&path("/d/sub"), disk.scan(&path("/d/sub")));
    let sub = tree.root.find(&path("/d/sub")).unwrap();
    assert_eq!(sub.children.len(), 1, "what is loaded is not read again");
}

#[test]
fn toggling_twice_leaves_what_is_open() {
    let disk = Disk::new(
        &["/d/sub", "/d/sub/inner", "/d/other"],
        &["/d/sub/inner/x", "/d/a.txt", "/d/other/y"],
    );
    let mut tree = disk.tree();
    expand(&mut tree, &disk, "/d/sub");
    expand(&mut tree, &disk, "/d/sub/inner");
    let toggle = |tree: &mut Tree, p: &str| tree.toggle(&path(p), disk.scan(&path(p)));

    toggle(&mut tree, "/d/sub");
    assert!(!tree.is_open(&path("/d/sub")));
    assert!(tree.is_open(&path("/d/sub/inner")), "what is below stays open");
    toggle(&mut tree, "/d/sub");
    assert!(tree.is_open(&path("/d/sub")) && tree.is_open(&path("/d/sub/inner")));

    toggle(&mut tree, "/d/other");
    assert!(tree.is_open(&path("/d/other")));
    toggle(&mut tree, "/d/other");
    assert!(!tree.is_open(&path("/d/other")));

    for p in ["/d/a.txt", "/d/nowhere"] {
        toggle(&mut tree, p);
        assert_eq!(tree.collect_expanded().len(), 3, "{p}");
    }
}

#[test]
fn a_reload_keeps_what_is_open() {
    let mut disk = Disk::new(
        &["/d/sub", "/d/sub/inner", "/d/other"],
        &["/d/sub/inner/x", "/d/other/y"],
    );
    let mut tree = disk.tree();
    for p in ["/d/sub", "/d/sub/inner"] {
        expand(&mut tree, &disk, p);
    }
    tree.show_hidden = true;
    disk.add("/d/sub/inner/new", false);
    disk.remove("/d/sub/inner/x");

    let open_before = tree.collect_expanded();
    let again = tree.reload_preserving(&open_before, disk.scan(&path("/d")));
    let order: Vec<String> = again.iter().map(|p| p.display()).collect();
    assert_eq!(order, ["/d", "/d/sub", "/d/sub/inner"]);
    for p in &again {
        tree.do_expand(p, disk.scan(p));
    }

    let open_after = tree.collect_expanded();
    assert_eq!(open_after.len(), open_before.len());
    assert!(open_before.list().iter().all(|p| open_after.contains(p)));
    let opts = ViewOptions::default();
    assert_eq!(names(&tree, &opts), ["other", "sub", "inner", "new"]);
    assert!(!tree.is_loaded(&path("/d/other")), "no other directory is read");
    assert!(tree.show_hidden);
}

#[test]
fn everything_is_opened() {
    let disk = Disk::new(
        &["/d/a", "/d/a/b", "/d/a/b/c", "/d/e"],
        &["/d/a/x", "/d/a/b/c/y", "/d/z"],
    );
    let mut tree = disk.tree();
    let mut stack = vec![path("/d")];
    while let Some(top) = stack.last() {
        let scan = disk.scan(top);
        tree.expand_all(&mut stack, scan);
    }
    let open: Vec<String> = tree.collect_expanded().list().iter().map(|p| p.display()).collect();
    assert_eq!(open, ["/d", "/d/a", "/d/a/b", "/d/a/b/c", "/d/e"]);
}

#[test]
fn a_directory_shows_the_highest_status_below_it() {
    let disk = Disk::new(&["/d/a"], &["/d/a/x", "/d/a/y", "/d/a/i"]);
    let mut tree = disk.tree();
    expand(&mut tree, &disk, "/d/a");
    let of = |tree: &Tree| tree.root.find(&path("/d/a")).unwrap().git;
    tree.apply_git(&statuses(&[
        ("/d/a/x", GitStatus::Untracked),
        ("/d/a/y", GitStatus::Renamed),
        ("/d/a/i", GitStatus::Ignored),
    ]));
    assert_eq!(of(&tree), Some(GitStatus::Renamed));
    tree.apply_git(&statuses(&[
        ("/d/a", GitStatus::Staged),
        ("/d/a/y", GitStatus::Renamed),
    ]));
    assert_eq!(of(&tree), Some(GitStatus::Staged));
    tree.apply_git(&statuses(&[("/d/a/i", GitStatus::Ignored)]));
    assert_eq!(of(&tree), None);
}

#[test]
fn marks_tell_where_siblings_end() {
    let disk = Disk::new(
        &["/d/a", "/d/a/b", "/d/c"],
        &["/d/a/b/x", "/d/a/z", "/d/e"],
    );
    let mut tree = disk.tree();
    for p in ["/d/a", "/d/a/b"] {
        expand(&mut tree, &disk, p);
    }
    let rows = tree.flatten(&ViewOptions::default());
    let found: Vec<(&str, usize, &[bool])> = rows
        .iter()
        .map(|r| (r.name.as_str(), r.depth, r.ancestor_last.as_slice()))
        .collect();
    let expected: Vec<(&str, usize, &[bool])> = vec![
        ("a", 0, &[false]),
        ("b", 1, &[false, false]),
        ("x", 2, &[false, false, true]),
        ("z", 1, &[false, true]),
        ("c", 0, &[false]),
        ("e", 0, &[true]),
    ];
    assert_eq!(found, expected);
}

#[test]
fn expand_rereads_loaded_dir_from_disk() {
    let mut disk = Disk::new(&["/d/sub", "/d/sub/inner"], &["/d/sub/old.txt"]);
    let mut tree = disk.tree();
    expand(&mut tree, &disk, "/d/sub");
    expand(&mut tree, &disk, "/d/sub/inner");
    tree.collapse(&path("/d/sub"));

    disk.add("/d/sub/new.txt", false);
    disk.remove("/d/sub/old.txt");

    expand(&mut tree, &disk, "/d/sub");
    let opts = ViewOptions::default();
    assert!(shows(&tree, &opts, "new.txt"), "missed file appears on expand");
    assert!(!shows(&tree, &opts, "old.txt"), "missed deletion applied on expand");
    assert!(
        open(&tree, "/d/sub/inner"),
        "child expansion state preserved across the re-read"
    );
}

#[test]
fn refresh_dir_keeps_children_when_dir_unreadable() {
    let mut disk = Disk::new(&["/d/sub"], &["/d/sub/kept.txt"]);
    let mut tree = disk.tree();
    expand(&mut tree, &disk, "/d/sub");
    disk.remove("/d/sub");

    let sub = path("/d/sub");
    assert!(!tree.refresh_dir(&sub, disk.scan(&sub)), "unreadable dir: no refresh");
    let node = tree.root.find(&sub).unwrap();
    assert!(
        node.children.iter().any(|c| c.name == "kept.txt"),
        "cached listing preserved until the parent refresh prunes the node"
    );
}

#[test]
fn group_empty_chain() {
    let disk = Disk::new(&["/d/a", "/d/a/b", "/d/a/b/c"], &["/d/a/b/c/file.txt"]);
    let mut tree = disk.tree();
    tree.group_empty = true;
    expand(&mut tree, &disk, "/d/a");
    let mut opts = ViewOptions::default();
    opts.group_empty = true;
    assert!(shows(&tree, &opts, "a/b/c"), "rows: {:?}", names(&tree, &opts));
    assert!(shows(&tree, &opts, "file.txt"));
}

#[test]
fn group_empty_chain_follows_visible_sole_child_past_hidden_sibling() {
    let disk = Disk::new(&["/d/a", "/d/a/b"], &["/d/a/.DS_Store", "/d/a/b/file.txt"]);
    let mut tree = disk.tree();
    tree.group_empty = true;
    expand(&mut tree, &disk, "/d/a");
    let mut opts = ViewOptions::default();
    opts.group_empty = true;
    let seen = names(&tree, &opts);
    assert!(
        shows(&tree, &opts, "a/b"),
        "a and its sole visible child b group into one row: {seen:?}"
    );
    assert!(
        shows(&tree, &opts, "file.txt"),
        "the file under the grouped chain is reachable: {seen:?}"
    );
}

#[test]
fn group_empty_does_not_descend_into_high_churn_sole_child() {
    let disk = Disk::new(
        &["/d/pkg", "/d/pkg/node_modules", "/d/pkg/node_modules/dep"],
        &["/d/pkg/node_modules/dep/index.js"],
    );
    let mut tree = disk.tree();
    tree.group_empty = true;
    expand(&mut tree, &disk, "/d/pkg");
    let nm = tree.root.find(&path("/d/pkg/node_modules")).unwrap();
    assert!(
        !nm.loaded,
        "high-churn sole child must not be chain-expanded/loaded"
    );
}

#[test]
fn closing_and_opening_again_needs_no_listing() {
    let disk = Disk::new(&["/d/sub"], &["/d/sub/x"]);
    let mut tree = disk.tree();
    expand(&mut tree, &disk, "/d/sub");
    let sub = path("/d/sub");
    let mtime = disk.scan(&sub).mtime;
    tree.collapse(&sub);
    assert!(!tree.wants_listing(&sub, mtime));
    assert!(tree.wants_listing(&sub, Some(-1)));
    tree.do_expand(&sub, DirScan { mtime, entries: None });
    assert!(shows(&tree, &ViewOptions::default(), "x"));
}

#[test]
fn everything_opens_and_closes() {
    let disk = Disk::new(&["/d/a", "/d/a/b", "/d/c"], &["/d/a/b/x", "/d/c/y"]);
    let mut tree = disk.tree();
    let mut stack = vec![path("/d")];
    while let Some(top) = stack.last().map(|p| p.copy()) {
        let scan = disk.scan(&top);
        tree.expand_all(&mut stack, scan);
    }
    let opts = ViewOptions::default();
    assert_eq!(names(&tree, &opts), vec!["a", "b", "x", "c", "y"]);
    tree.collapse_all();
    assert_eq!(names(&tree, &opts), vec!["a", "c"]);
    assert!(open(&tree, "/d") && !open(&tree, "/d/a"));
}

#[test]
fn paste_target_avoids_collision() {
    let src = path("/d/a.txt");
    let mut taken = PathSet::new();
    // No collision: same name.
    let t1 = paste_target(&path("/d/other"), &src, &taken);
    assert_eq!(t1, path("/d/other/a.txt"));
    // Collision in same dir.
    taken.insert(path("/d/a.txt"));
    let t2 = paste_target(&path("/d"), &src, &taken);
    assert_eq!(t2, path("/d/a_copy.txt"));
    taken.insert(path("/d/a_copy.txt"));
    let t3 = paste_target(&path("/d"), &src, &taken);
    assert_eq!(t3, path("/d/a_copy_2.txt"));
}

#[test]
fn paste_target_goes_on_until_a_name_is_free() {
    let mut taken = PathSet::new();
    taken.insert(path("/d/a.txt"));
    taken.insert(path("/d/a_copy.txt"));
    for n in 2..10_005 {
        taken.insert(path(&format!("/d/a_copy_{n}.txt")));
    }
    let target = paste_target(&path("/d"), &path("/s/a.txt"), &taken);
    assert_eq!(target, path("/d/a_copy_10005.txt"));
}

#[test]
fn the_trash_keeps_what_it_holds() {
    let mut taken = PathSet::new();
    let dir = path("/home/u/.Trash");
    let first = trash_target(&dir, &path("/d/x"), &taken);
    assert_eq!(first, path("/home/u/.Trash/x"));
    taken.insert(first);
    let second = trash_target(&dir, &path("/d/x"), &taken);
    assert_eq!(second, path("/home/u/.Trash/x 1"));
}

#[test]
fn trash_never_permanently_removes() {
    let (p, dir) = (path("/d/precious"), path("/home/u/.Trash"));
    let mut taken = PathSet::new();
    assert!(matches!(trash_way(&p, true, false, None, &taken), TrashWay::Program));
    assert!(matches!(trash_way(&p, true, true, None, &taken), TrashWay::Refused));
    assert!(
        matches!(trash_way(&p, false, false, None, &taken), TrashWay::Refused),
        "no trash mechanism must be an error"
    );
    taken.insert(path("/home/u/.Trash/precious"));
    for (program, failed) in [(false, false), (true, true)] {
        match trash_way(&p, program, failed, Some(&dir), &taken) {
            TrashWay::Rename(to) => assert_eq!(to, path("/home/u/.Trash/precious 1")),
            other => panic!("{other:?}"),
        }
    }
}

#[test]
fn renaming_onto_something_else_is_refused() {
    let (a, b) = (path("/d/a"), path("/d/b"));
    assert!(rename_refused(true, false, Some(&a), Some(&b)));
    assert!(rename_refused(true, true, Some(&a), Some(&b)), "two names of one file");
    assert!(!rename_refused(true, true, Some(&a), Some(&a)), "another case of the same name");
    assert!(rename_refused(true, false, Some(&a), Some(&a)), "a link to what moves is in the way");
    assert!(!rename_refused(false, false, Some(&a), None));
    assert!(rename_refused(true, false, Some(&a), None), "a dangling link is in the way");
}

#[test]
fn copying_into_itself_is_refused() {
    assert!(copy_refused(&path("/d/src"), &path("/d/src/src")));
    assert!(copy_refused(&path("/d/src"), &path("/d/src/sub/src")));
    assert!(!copy_refused(&path("/d/src"), &path("/d/dst")));
    assert!(!copy_refused(&path("/d/src"), &path("/d/srcx")));
}

#[test]
fn a_path_that_is_not_there_yet_is_resolved_as_far_as_it_is() {
    let p = path("/tmp/new/file");
    let reals = vec![None, Some(path("/private/tmp")), Some(path("/"))];
    assert_eq!(canonicalize_lenient(&p, None, &reals), path("/private/tmp/new/file"));
    assert_eq!(
        canonicalize_lenient(&p, Some(path("/real")), &reals),
        path("/real")
    );
    assert_eq!(canonicalize_lenient(&p, None, &Vec::new()), p);
}
