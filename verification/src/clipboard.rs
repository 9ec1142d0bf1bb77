//! What was cut or copied, to be pasted.

use vstd::prelude::*;

use crate::path::{comps, Path};
use crate::paths::path_texts;

verus! {

/// What is to become of what is pasted.
#[derive(Clone, Copy, Debug, PartialEq, Eq, Structural)]
pub enum ClipOp {
    Cut,
    Copy,
}

/// What was cut or copied.
#[derive(Debug)]
pub struct Clipboard {
    pub op: Option<ClipOp>,
    pub paths: Vec<Path>,
}

/// A clipboard, with texts in place of paths.
#[verifier::ext_equal]
pub struct ClipView {
    pub op: Option<ClipOp>,
    pub paths: Seq<Seq<u8>>,
}

impl View for Clipboard {
    type V = ClipView;

    open spec fn view(&self) -> ClipView {
        ClipView { op: self.op, paths: path_texts(self.paths@) }
    }
}

/// Whether one of some paths is the path `k`.
pub open spec fn holds_path(paths: Seq<Seq<u8>>, k: Seq<Seq<u8>>) -> bool {
    exists|i: int| 0 <= i < paths.len() && comps(#[trigger] paths[i]) == k
}

/// Whether one of some paths is a given one.
pub fn any_path(paths: &Vec<Path>, path: &Path) -> (r: bool)
    ensures
        r == holds_path(path_texts(paths@), path.comps()),
{
    let mut i: usize = 0;
    let ghost ts = path_texts(paths@);
    while i < paths.len()
        invariant
            i <= paths@.len(),
            ts == path_texts(paths@),
            forall|k: int| 0 <= k < i ==> comps(#[trigger] ts[k]) != path.comps(),
        decreases paths@.len() - i,
    {
        assert(ts[i as int] == paths@[i as int]@);
        if paths[i].same(path) {
            return true;
        }
        i += 1;
    }
    false
}

/// Some paths without those that are among others.
pub open spec fn left_out(paths: Seq<Seq<u8>>, gone: Seq<Seq<u8>>) -> Seq<Seq<u8>>
    decreases paths.len(),
{
    if paths.len() == 0 {
        paths
    } else if holds_path(gone, comps(paths.last())) {
        left_out(paths.drop_last(), gone)
    } else {
        left_out(paths.drop_last(), gone).push(paths.last())
    }
}

impl Default for Clipboard {
    fn default() -> (r: Clipboard)
        ensures
            r@ == (ClipView { op: None, paths: Seq::empty() }),
    {
        let r = Clipboard { op: None, paths: Vec::new() };
        assert(r@.paths =~= Seq::empty());
        r
    }
}

impl ClipView {
    /// Whether a path was cut.
    pub open spec fn is_cut(self, k: Seq<Seq<u8>>) -> bool {
        self.op == Some(ClipOp::Cut) && holds_path(self.paths, k)
    }

    /// Whether a path was copied.
    pub open spec fn is_copied(self, k: Seq<Seq<u8>>) -> bool {
        self.op == Some(ClipOp::Copy) && holds_path(self.paths, k)
    }
}

impl Clipboard {
    /// Puts paths on the clipboard, in place of what was there.
    pub fn set(&mut self, op: ClipOp, paths: Vec<Path>)
        ensures
            final(self)@ == (ClipView { op: Some(op), paths: path_texts(paths@) }),
    {
        self.op = Some(op);
        self.paths = paths;
    }

    /// Empties the clipboard.
    pub fn clear(&mut self)
        ensures
            final(self)@ == (ClipView { op: None, paths: Seq::empty() }),
    {
        self.op = None;
        self.paths = Vec::new();
        assert(self@.paths =~= Seq::empty());
    }

    /// Whether there is nothing to paste.
    pub fn is_empty(&self) -> (r: bool)
        ensures
            r == (self@.paths.len() == 0),
    {
        self.paths.len() == 0
    }

    /// Whether a path was cut.
    pub fn is_cut(&self, path: &Path) -> (r: bool)
        ensures
            r == self@.is_cut(path.comps()),
    {
        match self.op {
            Some(ClipOp::Cut) => any_path(&self.paths, path),
            _ => false,
        }
    }

    /// Whether a path was copied.
    pub fn is_copied(&self, path: &Path) -> (r: bool)
        ensures
            r == self@.is_copied(path.comps()),
    {
        match self.op {
            Some(ClipOp::Copy) => any_path(&self.paths, path),
            _ => false,
        }
    }

    /// Takes paths off the clipboard. One that is left without any is empty.
    pub fn take_off(&mut self, gone: &Vec<Path>)
        ensures
            final(self)@ == {
                let left = left_out(old(self)@.paths, path_texts(gone@));
                if left.len() == 0 {
                    ClipView { op: None, paths: Seq::empty() }
                } else {
                    ClipView { op: old(self)@.op, paths: left }
                }
            },
    {
        let mut out: Vec<Path> = Vec::new();
        let mut i: usize = 0;
        let ghost ts = path_texts(self.paths@);
        assert(path_texts(out@) =~= left_out(ts.take(0), path_texts(gone@)));
        while i < self.paths.len()
            invariant
                i <= self.paths@.len(),
                *self == *old(self),
                ts == path_texts(self.paths@),
                path_texts(out@) == left_out(ts.take(i as int), path_texts(gone@)),
            decreases self.paths@.len() - i,
        {
            let ghost held = out@;
            proof {
                assert(ts.take(i + 1).drop_last() =~= ts.take(i as int));
                assert(ts.take(i + 1).last() == self.paths@[i as int]@);
            }
            if !any_path(gone, &self.paths[i]) {
                let p = self.paths[i].copy();
                out.push(p);
                assert(path_texts(out@) =~= path_texts(held).push(p@));
            }
            i += 1;
        }
        assert(ts.take(i as int) =~= ts);
        if out.len() == 0 {
            self.clear();
        } else {
            self.paths = out;
        }
    }
}

/// What is taken off the clipboard is not on it, and all the rest is.
pub proof fn law_take_off(paths: Seq<Seq<u8>>, gone: Seq<Seq<u8>>, k: Seq<Seq<u8>>)
    ensures
        holds_path(left_out(paths, gone), k) == (holds_path(paths, k) && !holds_path(gone, k)),
    decreases paths.len(),
{
    if paths.len() > 0 {
        let init = paths.drop_last();
        law_take_off(init, gone, k);
        let a = left_out(init, gone);
        let b = left_out(paths, gone);
        let last = paths[paths.len() - 1];
        assert(holds_path(paths, k) == (holds_path(init, k) || comps(last) == k)) by {
            if holds_path(paths, k) {
                let i = choose|i: int| 0 <= i < paths.len() && comps(#[trigger] paths[i]) == k;
                if i < paths.len() - 1 {
                    assert(init[i] == paths[i]);
                }
            }
            if holds_path(init, k) {
                let i = choose|i: int| 0 <= i < init.len() && comps(#[trigger] init[i]) == k;
                assert(paths[i] == init[i]);
            }
        }
        if !holds_path(gone, comps(last)) {
            assert(holds_path(b, k) == (holds_path(a, k) || comps(last) == k)) by {
                assert(b[b.len() - 1] == last);
                if holds_path(b, k) {
                    let i = choose|i: int| 0 <= i < b.len() && comps(#[trigger] b[i]) == k;
                    if i < b.len() - 1 {
                        assert(a[i] == b[i]);
                    }
                }
                if holds_path(a, k) {
                    let i = choose|i: int| 0 <= i < a.len() && comps(#[trigger] a[i]) == k;
                    assert(b[i] == a[i]);
                }
            }
        }
    }
}

} // verus!
