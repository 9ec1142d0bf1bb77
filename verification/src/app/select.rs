//! The cursor: which row it is on, and how it moves.

use vstd::prelude::*;

use crate::app::find::{first_from, last_before, lemma_first_from, lemma_last_before};
use crate::app::find::{round_down, round_up};
use crate::app::state::{seen, App, AppView, ListState};
use crate::git::GitStatus;
use crate::path::{comps, parent_text, Path};
use crate::text::{contains_text, holds_text, join2, lowercase};
use crate::tree::node::path_view;
use crate::tree::rows::{rows_view, Row, RowView};

verus! {

/// Whether a row is that of a path.
pub open spec fn at_path(rows: Seq<RowView>, k: Seq<Seq<u8>>) -> spec_fn(int) -> bool {
    |i: int| comps(rows[i].path) == k
}

/// The first row of a path; the number of rows where it has none.
pub open spec fn row_place(rows: Seq<RowView>, k: Seq<Seq<u8>>) -> int {
    first_from(at_path(rows, k), 0, rows.len() as int)
}

/// Whether two paths lie in the same directory.
pub open spec fn same_parent(a: Seq<u8>, b: Seq<u8>) -> bool {
    match (parent_text(a), parent_text(b)) {
        (Some(x), Some(y)) => comps(x) == comps(y),
        (None, None) => true,
        _ => false,
    }
}

/// Whether a row is a sibling of row `c`, or that row.
pub open spec fn sibling_of(rows: Seq<RowView>, c: int) -> spec_fn(int) -> bool {
    |i: int| rows[i].depth == rows[c].depth && same_parent(rows[i].path, rows[c].path)
}

/// Whether git says that a row was changed.
pub open spec fn is_changed(row: RowView) -> bool {
    row.git is Some && row.git != Some(GitStatus::Ignored)
}

/// Whether the row `off` further down, going round, was changed.
pub open spec fn changed_below(rows: Seq<RowView>, cur: int) -> spec_fn(int) -> bool {
    |off: int| is_changed(rows[(cur + off) % (rows.len() as int)])
}

/// Whether the row `off` further up, going round, was changed.
pub open spec fn changed_above(rows: Seq<RowView>, cur: int) -> spec_fn(int) -> bool {
    |off: int| is_changed(rows[(cur - off) % (rows.len() as int)])
}

/// Whether the name of the row `off` further down from `start`, going round,
/// holds a text, in lower case.
pub open spec fn named_below(rows: Seq<RowView>, start: int, q: Seq<char>) -> spec_fn(int) -> bool {
    |off: int| holds_text(lowercase(rows[(start + off) % (rows.len() as int)].name), q)
}

impl AppView {
    /// The row under the cursor.
    pub open spec fn current(self) -> Option<RowView> {
        match self.list.selected {
            Some(i) => if i < self.rows.len() {
                Some(self.rows[i as int])
            } else {
                None
            },
            None => None,
        }
    }

    /// The path under the cursor.
    pub open spec fn selected_path(self) -> Option<Seq<u8>> {
        match self.current() {
            Some(row) => Some(row.path),
            None => None,
        }
    }

    /// With the cursor on a row.
    pub open spec fn at_row(self, i: int) -> AppView {
        AppView { list: ListState { selected: Some(i as usize), ..self.list }, ..self }
    }

    /// Where the cursor counts from.
    pub open spec fn cursor(self) -> int {
        match self.list.selected {
            Some(i) => i as int,
            None => 0,
        }
    }

    /// With the cursor one row down or up, as far as there are rows.
    #[verifier::opaque]
    pub open spec fn moved(self, down: bool) -> AppView {
        if self.rows.len() == 0 {
            self
        } else if down {
            if self.cursor() + 1 < self.rows.len() {
                self.at_row(self.cursor() + 1)
            } else {
                self.at_row(self.rows.len() - 1)
            }
        } else {
            if self.cursor() > 0 {
                self.at_row(self.cursor() - 1)
            } else {
                self.at_row(0)
            }
        }
    }

    /// With the cursor on a path, if it has a row.
    #[verifier::opaque]
    pub open spec fn on_path(self, p: Seq<u8>) -> AppView {
        let i = row_place(self.rows, comps(p));
        if i < self.rows.len() {
            self.at_row(i)
        } else {
            self
        }
    }

    /// With the cursor on the first or the last sibling.
    #[verifier::opaque]
    pub open spec fn at_sibling_edge(self, first: bool) -> AppView {
        let n = self.rows.len() as int;
        if self.current() is None {
            self
        } else if first {
            self.at_row(first_from(sibling_of(self.rows, self.cursor()), 0, n))
        } else {
            self.at_row(last_before(sibling_of(self.rows, self.cursor()), n))
        }
    }

    /// With the cursor on the next or the previous sibling, if there is one.
    #[verifier::opaque]
    pub open spec fn at_sibling_step(self, down: bool) -> AppView {
        let n = self.rows.len() as int;
        if self.current() is None {
            self
        } else if down {
            let i = first_from(sibling_of(self.rows, self.cursor()), self.cursor() + 1, n);
            if i < n {
                self.at_row(i)
            } else {
                self
            }
        } else {
            let i = last_before(sibling_of(self.rows, self.cursor()), self.cursor());
            if i >= 0 {
                self.at_row(i)
            } else {
                self
            }
        }
    }

    /// With the cursor on the next row that was changed, down or up, going
    /// round.
    #[verifier::opaque]
    pub open spec fn at_change(self, down: bool) -> AppView {
        let n = self.rows.len() as int;
        if n == 0 {
            self
        } else if down {
            let off = first_from(changed_below(self.rows, self.cursor()), 1, n + 1);
            if off <= n {
                self.at_row((self.cursor() + off) % n)
            } else {
                self.said("no git changes"@)
            }
        } else {
            let off = first_from(changed_above(self.rows, self.cursor()), 1, n + 1);
            if off <= n {
                self.at_row((self.cursor() - off) % n)
            } else {
                self.said("no git changes"@)
            }
        }
    }

    /// With the cursor on the next row whose name holds a text, in any case,
    /// going round.
    #[verifier::opaque]
    pub open spec fn searched(self, query: Seq<char>) -> AppView {
        let n = self.rows.len() as int;
        let start = match self.list.selected {
            Some(i) => i + 1,
            None => 0,
        };
        let off = first_from(named_below(self.rows, start, lowercase(query)), 0, n);
        if off < n {
            self.at_row((start + off) % n)
        } else {
            self.said("no match: "@ + query)
        }
    }

    /// The directory to act in: the one under the cursor, or the one that the
    /// file under the cursor is in.
    pub open spec fn dir_context(self) -> Seq<u8> {
        match self.current() {
            Some(row) => if row.kind.spec_is_dir() {
                row.dir_target()
            } else {
                match parent_text(row.path) {
                    Some(up) => up,
                    None => self.tree.root.path,
                }
            },
            None => self.tree.root.path,
        }
    }
}

/// The first row of a path.
pub fn place_of(rows: &Vec<Row>, path: &Path) -> (r: Option<usize>)
    ensures
        match r {
            Some(i) => i < rows@.len() && i as int == row_place(rows_view(rows@), path.comps()),
            None => row_place(rows_view(rows@), path.comps()) == rows@.len(),
        },
{
    let n: usize = rows.len();
    let ghost v = rows_view(rows@);
    let ghost p = at_path(v, path.comps());
    let mut i: usize = 0;
    while i < n
        invariant
            i <= n,
            n == rows@.len(),
            v == rows_view(rows@),
            p == at_path(v, path.comps()),
            first_from(p, 0, n as int) == first_from(p, i as int, n as int),
        decreases n - i,
    {
        assert(v[i as int] == rows@[i as int]@);
        if rows[i].path.same(path) {
            assert(p(i as int));
            return Some(i);
        }
        assert(!p(i as int));
        i += 1;
    }
    None
}

fn parents_agree(a: &Path, b: &Path) -> (r: bool)
    ensures
        r == same_parent(a@, b@),
{
    match (a.parent(), b.parent()) {
        (Some(x), Some(y)) => x.same(&y),
        (None, None) => true,
        _ => false,
    }
}

impl App {
    /// The row under the cursor.
    pub fn current_row(&self) -> (r: Option<&Row>)
        ensures
            r is Some == self@.current() is Some,
            r is Some ==> r->0@ == self@.current()->0,
    {
        proof {
            reveal(seen);
        }
        match self.list.selected {
            Some(i) => if i < self.rows.len() {
                Some(&self.rows[i])
            } else {
                None
            },
            None => None,
        }
    }

    /// The path under the cursor.
    pub fn selected_path(&self) -> (r: Option<Path>)
        ensures
            path_view(r) == self@.selected_path(),
    {
        match self.current_row() {
            Some(row) => Some(row.path.copy()),
            None => None,
        }
    }

    /// Puts the cursor on a row.
    fn select_row(&mut self, i: usize)
        requires
            old(self).wf(),
            i == 0 || i < old(self).rows@.len(),
        ensures
            final(self).wf(),
            final(self)@ == old(self)@.at_row(i as int),
    {
        proof {
            reveal(seen);
        }
        self.list = ListState { selected: Some(i), offset: self.list.offset };
    }

    /// Puts the cursor on the first row.
    pub fn select_top(&mut self)
        requires
            old(self).wf(),
        ensures
            final(self).wf(),
            final(self)@ == old(self)@.at_row(0),
    {
        self.select_row(0);
    }

    /// Moves the cursor one row down or up.
    pub fn move_selection(&mut self, down: bool)
        requires
            old(self).wf(),
        ensures
            final(self).wf(),
            final(self)@ == old(self)@.moved(down),
    {
        proof {
            reveal(AppView::moved);
            reveal(seen);
        }
        let n: usize = self.rows.len();
        if n == 0 {
            return;
        }
        let cur: usize = match self.list.selected {
            Some(i) => i,
            None => 0,
        };
        if down {
            if cur < n - 1 {
                self.select_row(cur + 1);
            } else {
                self.select_row(n - 1);
            }
        } else {
            if cur > 0 {
                self.select_row(cur - 1);
            } else {
                self.select_row(0);
            }
        }
    }

    /// The first row of a path.
    pub fn position(&self, path: &Path) -> (r: Option<usize>)
        ensures
            match r {
                Some(i) => i < self.rows@.len() && i as int == row_place(
                    self@.rows,
                    path.comps(),
                ),
                None => row_place(self@.rows, path.comps()) == self@.rows.len(),
            },
    {
        proof {
            reveal(seen);
        }
        place_of(&self.rows, path)
    }

    /// Puts the cursor on a path, if it has a row.
    pub fn select_path(&mut self, path: &Path)
        requires
            old(self).wf(),
        ensures
            final(self).wf(),
            final(self)@ == old(self)@.on_path(path@),
    {
        proof {
            reveal(AppView::on_path);
            reveal(seen);
        }
        if let Some(i) = self.position(path) {
            self.select_row(i);
        }
    }

    /// Whether two rows are siblings.
    fn siblings(&self, i: usize, c: usize) -> (r: bool)
        requires
            i < self.rows@.len(),
            c < self.rows@.len(),
        ensures
            r == sibling_of(self@.rows, c as int)(i as int),
    {
        proof {
            reveal(seen);
        }
        assert(self@.rows[i as int] == self.rows@[i as int]@);
        assert(self@.rows[c as int] == self.rows@[c as int]@);
        self.rows[i].depth == self.rows[c].depth && parents_agree(
            &self.rows[i].path,
            &self.rows[c].path,
        )
    }

    /// The first sibling of a row from a place on.
    fn sibling_from(&self, c: usize, from: usize) -> (r: usize)
        requires
            c < self.rows@.len(),
            from <= self.rows@.len(),
        ensures
            r as int == first_from(
                sibling_of(self@.rows, c as int),
                from as int,
                self.rows@.len() as int,
            ),
            r <= self.rows@.len(),
    {
        proof {
            reveal(seen);
        }
        let n: usize = self.rows.len();
        let ghost p = sibling_of(self@.rows, c as int);
        let mut i: usize = from;
        while i < n
            invariant
                from <= i <= n,
                n == self.rows@.len(),
                c < n,
                p == sibling_of(self@.rows, c as int),
                first_from(p, from as int, n as int) == first_from(p, i as int, n as int),
            decreases n - i,
        {
            if self.siblings(i, c) {
                return i;
            }
            i += 1;
        }
        n
    }

    /// The last sibling of a row before a place.
    fn sibling_before(&self, c: usize, before: usize) -> (r: Option<usize>)
        requires
            c < self.rows@.len(),
            before <= self.rows@.len(),
        ensures
            match r {
                Some(i) => i as int == last_before(sibling_of(self@.rows, c as int), before as int)
                    && i < before,
                None => last_before(sibling_of(self@.rows, c as int), before as int) < 0,
            },
    {
        proof {
            reveal(seen);
        }
        let ghost p = sibling_of(self@.rows, c as int);
        let mut i: usize = before;
        while i > 0
            invariant
                i <= before <= self.rows@.len(),
                c < self.rows@.len(),
                p == sibling_of(self@.rows, c as int),
                last_before(p, before as int) == last_before(p, i as int),
            decreases i,
        {
            if self.siblings(i - 1, c) {
                return Some(i - 1);
            }
            i -= 1;
        }
        None
    }

    /// Puts the cursor on the first or the last sibling.
    pub fn jump_sibling_edge(&mut self, first: bool)
        requires
            old(self).wf(),
        ensures
            final(self).wf(),
            final(self)@ == old(self)@.at_sibling_edge(first),
    {
        proof {
            reveal(AppView::at_sibling_edge);
            reveal(seen);
        }
        let n: usize = self.rows.len();
        let c: usize = match self.list.selected {
            Some(i) => i,
            None => {
                return;
            },
        };
        if c >= n {
            return;
        }
        let ghost p = sibling_of(self@.rows, c as int);
        assert(p(c as int));
        if first {
            let i: usize = self.sibling_from(c, 0);
            proof {
                lemma_first_from(p, 0, n as int);
            }
            self.select_row(i);
        } else {
            proof {
                lemma_last_before(p, n as int);
            }
            if let Some(i) = self.sibling_before(c, n) {
                self.select_row(i);
            }
        }
    }

    /// Puts the cursor on the next or the previous sibling.
    pub fn jump_sibling_step(&mut self, down: bool)
        requires
            old(self).wf(),
        ensures
            final(self).wf(),
            final(self)@ == old(self)@.at_sibling_step(down),
    {
        proof {
            reveal(AppView::at_sibling_step);
            reveal(seen);
        }
        let n: usize = self.rows.len();
        let c: usize = match self.list.selected {
            Some(i) => i,
            None => {
                return;
            },
        };
        if c >= n {
            return;
        }
        if down {
            let i: usize = self.sibling_from(c, c + 1);
            if i < n {
                self.select_row(i);
            }
        } else {
            if let Some(i) = self.sibling_before(c, c) {
                self.select_row(i);
            }
        }
    }

    /// Whether git says that a row was changed.
    fn row_changed(&self, i: usize) -> (r: bool)
        requires
            i < self.rows@.len(),
        ensures
            r == is_changed(self@.rows[i as int]),
    {
        proof {
            reveal(seen);
        }
        assert(self@.rows[i as int] == self.rows@[i as int]@);
        match self.rows[i].git {
            Some(s) => s != GitStatus::Ignored,
            None => false,
        }
    }

    /// Puts the cursor on the next row that was changed, down or up, going
    /// round.
    pub fn jump_git(&mut self, down: bool)
        requires
            old(self).wf(),
        ensures
            final(self).wf(),
            final(self)@ == old(self)@.at_change(down),
    {
        proof {
            reveal(AppView::at_change);
            reveal(seen);
        }
        let n: usize = self.rows.len();
        if n == 0 {
            return;
        }
        let cur: usize = match self.list.selected {
            Some(i) => i,
            None => 0,
        };
        let ghost p = if down {
            changed_below(self@.rows, cur as int)
        } else {
            changed_above(self@.rows, cur as int)
        };
        let ghost start = *self;
        let mut done: usize = 0;
        while done < n
            invariant
                self.wf(),
                *self == start,
                start == *old(self),
                done <= n,
                n == self.rows@.len(),
                n > 0,
                cur < n,
                cur as int == self@.cursor(),
                p == if down {
                    changed_below(self@.rows, cur as int)
                } else {
                    changed_above(self@.rows, cur as int)
                },
                first_from(p, 1, n + 1) == first_from(p, done + 1, n + 1),
            decreases n - done,
        {
            proof {
                reveal(seen);
                reveal(AppView::at_change);
            }
            let off: usize = done + 1;
            let i: usize = if down {
                round_up(cur, off, n)
            } else {
                round_down(cur, off, n)
            };
            if self.row_changed(i) {
                assert(p(off as int));
                self.select_row(i);
                return;
            }
            assert(!p(off as int));
            done += 1;
        }
        self.set_status("no git changes".to_owned());
    }

    /// Puts the cursor on the next row whose name holds a text, in any case,
    /// going round.
    pub fn search(&mut self, query: &str)
        requires
            old(self).wf(),
        ensures
            final(self).wf(),
            final(self)@ == old(self)@.searched(query@),
    {
        proof {
            reveal(AppView::searched);
            reveal(seen);
        }
        let q = query.to_lowercase();
        let n: usize = self.rows.len();
        if n == 0 {
            self.set_status(join2("no match: ", query));
            return;
        }
        let start: usize = match self.list.selected {
            Some(i) => i + 1,
            None => 0,
        };
        let ghost p = named_below(self@.rows, start as int, q@);
        let mut off: usize = 0;
        let ghost before = *self;
        while off < n
            invariant
                self.wf(),
                *self == before,
                before == *old(self),
                off <= n,
                n == self.rows@.len(),
                start <= n,
                n > 0,
                start as int == match self@.list.selected {
                    Some(i) => i + 1,
                    None => 0,
                },
                q@ == lowercase(query@),
                p == named_below(self@.rows, start as int, q@),
                first_from(p, 0, n as int) == first_from(p, off as int, n as int),
            decreases n - off,
        {
            proof {
                reveal(seen);
                reveal(AppView::searched);
            }
            let i: usize = round_up(start, off, n);
            assert(self@.rows[i as int] == self.rows@[i as int]@);
            let name = self.rows[i].name.as_str().to_lowercase();
            if contains_text(name.as_str(), q.as_str()) {
                assert(p(off as int));
                self.select_row(i);
                return;
            }
            assert(!p(off as int));
            off += 1;
        }
        self.set_status(join2("no match: ", query));
    }

    /// The directory to act in.
    pub fn current_dir_context(&self) -> (r: Path)
        ensures
            r@ == self@.dir_context(),
    {
        proof {
            reveal(seen);
        }
        match self.current_row() {
            Some(row) => if row.kind.is_dir() {
                row.dir_target().copy()
            } else {
                match row.path.parent() {
                    Some(up) => up,
                    None => self.tree.root.path.copy(),
                }
            },
            None => self.tree.root.path.copy(),
        }
    }
}

} // verus!
