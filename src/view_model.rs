use vstd::prelude::*;

use crate::model::{Cell, DomOp, Tag, fresh_cell};

verus! {

/// The abstract state of a section: its rows of cell slots (`None` is a hole)
/// and every structural change made so far.
pub struct CacheView {
    pub rows: Seq<Seq<Option<Cell>>>,
    pub ops: Seq<DomOp>,
}

/// The first slot at or after `j` that holds an element.
pub open spec fn next_present(row: Seq<Option<Cell>>, j: int) -> Option<usize>
    decreases row.len() - j,
{
    if j < 0 || j >= row.len() {
        None
    } else if row[j] is Some {
        Some(j as usize)
    } else {
        next_present(row, j + 1)
    }
}

/// `row` cut to at most `k` slots.
pub open spec fn truncated(row: Seq<Option<Cell>>, k: int) -> Seq<Option<Cell>> {
    if k < row.len() {
        row.take(k)
    } else {
        row
    }
}

/// How many slots row `i` keeps when trimmed by a per-row list: its entry, or,
/// past the list, one less than it has.
pub open spec fn keep_at(ks: Seq<usize>, i: int, n: int) -> int {
    if i < ks.len() {
        ks[i] as int
    } else if n > 0 {
        n - 1
    } else {
        0
    }
}

impl CacheView {
    /// Writing back the cell a slot already holds changes nothing.
    pub proof fn lemma_put_same(self, r: int, c: int)
        requires
            self.cell(r, c) is Some,
        ensures
            self.put(r, c, self.cell(r, c)->0) == self,
    {
        assert(self.rows[r].update(c, self.rows[r][c]) =~= self.rows[r]);
        assert(self.rows.update(r, self.rows[r]) =~= self.rows);
    }

    /// The cell at a position, if the position is tracked and not a hole.
    pub open spec fn cell(self, r: int, c: int) -> Option<Cell> {
        if 0 <= r < self.rows.len() && 0 <= c < self.rows[r].len() {
            self.rows[r][c]
        } else {
            None
        }
    }

    /// Rows appended until row `r` exists.
    pub open spec fn with_row(self, r: int) -> CacheView {
        if r < self.rows.len() {
            self
        } else {
            let n = (r + 1 - self.rows.len()) as nat;
            CacheView {
                rows: self.rows + Seq::new(n, |_i: int| Seq::<Option<Cell>>::empty()),
                ops: self.ops + Seq::new(n, |_i: int| DomOp::AppendRow),
            }
        }
    }

    /// The slot `(r, c)` set to `cell`.
    pub open spec fn put(self, r: int, c: int, cell: Cell) -> CacheView {
        CacheView { rows: self.rows.update(r, self.rows[r].update(c, Some(cell))), ops: self.ops }
    }

    /// Get-or-create: after it, slot `(r, c)` holds an element of kind `tag`.
    pub open spec fn get_cell(self, tag: Tag, r: int, c: int) -> CacheView {
        let m = self.with_row(r);
        let row = m.rows[r];
        if c >= row.len() {
            let row2 = (row + Seq::new((c - row.len()) as nat, |_i: int| None::<Cell>)).push(
                Some(fresh_cell(tag)),
            );
            CacheView {
                rows: m.rows.update(r, row2),
                ops: m.ops.push(DomOp::AppendCell { row: r as usize, col: c as usize, tag }),
            }
        } else if row[c] is None {
            CacheView {
                rows: m.rows.update(r, row.update(c, Some(fresh_cell(tag)))),
                ops: m.ops.push(
                    DomOp::InsertCell {
                        row: r as usize,
                        col: c as usize,
                        tag,
                        before: next_present(row, c + 1),
                    },
                ),
            }
        } else if row[c]->0.tag != tag {
            CacheView {
                rows: m.rows.update(r, row.update(c, Some(fresh_cell(tag)))),
                ops: m.ops.push(DomOp::ReplaceCell { row: r as usize, col: c as usize, tag }),
            }
        } else {
            m
        }
    }

    /// The element of slot `(r, c)`, if any, detached; the slot becomes a hole.
    pub open spec fn clear_slot(self, r: int, c: int) -> CacheView {
        let m = self.with_row(r);
        if c < m.rows[r].len() && m.rows[r][c] is Some {
            CacheView {
                rows: m.rows.update(r, m.rows[r].update(c, None)),
                ops: m.ops.push(DomOp::RemoveCell { row: r as usize, col: c as usize }),
            }
        } else {
            m
        }
    }

    /// Rows from `k` on detached and forgotten.
    pub open spec fn trim_rows(self, k: int) -> CacheView {
        if k < self.rows.len() {
            CacheView {
                rows: self.rows.take(k),
                ops: self.ops + Seq::new(
                    (self.rows.len() - k) as nat,
                    |_i: int| DomOp::RemoveRow { row: k as usize },
                ),
            }
        } else {
            self
        }
    }

    /// Every row cut to at most `k` slots.
    pub open spec fn trim_columns(self, k: int) -> CacheView {
        CacheView {
            rows: Seq::new(self.rows.len(), |i: int| truncated(self.rows[i], k)),
            ops: self.ops + Seq::new(
                self.rows.len(),
                |i: int| DomOp::TruncateRow { row: i as usize, len: k as usize },
            ),
        }
    }

    /// Each row cut to the number of slots that `ks` gives it.
    pub open spec fn trim_columns_each(self, ks: Seq<usize>) -> CacheView {
        CacheView {
            rows: Seq::new(
                self.rows.len(),
                |i: int| truncated(self.rows[i], keep_at(ks, i, self.rows[i].len() as int)),
            ),
            ops: self.ops + Seq::new(
                self.rows.len(),
                |i: int|
                    DomOp::TruncateRow {
                        row: i as usize,
                        len: keep_at(ks, i, self.rows[i].len() as int) as usize,
                    },
            ),
        }
    }
}

/// Requesting a cell of another kind at an occupied slot replaces its element in
/// place: the slot then holds a new element of the requested kind, every other
/// slot and every row length stay as they were, and the change is logged as
/// one replacement at that position.
pub proof fn lemma_tag_replacement(m: CacheView, tag: Tag, r: int, c: int)
    requires
        m.cell(r, c) is Some,
        m.cell(r, c)->0.tag != tag,
    ensures
        m.get_cell(tag, r, c).cell(r, c) == Some(fresh_cell(tag)),
        m.get_cell(tag, r, c).rows.len() == m.rows.len(),
        forall|i: int|
            0 <= i < m.rows.len() ==> #[trigger] m.get_cell(tag, r, c).rows[i].len()
                == m.rows[i].len(),
        forall|i: int, j: int|
            (i != r || j != c) ==> #[trigger] m.get_cell(tag, r, c).cell(i, j) == m.cell(i, j),
        m.get_cell(tag, r, c).ops == m.ops.push(
            (DomOp::ReplaceCell { row: r as usize, col: c as usize, tag }),
        ),
{
    assert(m.with_row(r) == m);
}

/// Trimming to `k` rows, fewer than there are, leaves exactly `k` rows, keeps
/// them as they were, and logs exactly one row removal for each row dropped.
pub proof fn lemma_trim_rows(m: CacheView, k: int)
    requires
        0 <= k < m.rows.len(),
    ensures
        m.trim_rows(k).rows.len() == k,
        forall|i: int| 0 <= i < k ==> #[trigger] m.trim_rows(k).rows[i] == m.rows[i],
        m.trim_rows(k).ops.len() == m.ops.len() + (m.rows.len() - k),
        m.trim_rows(k).ops.subrange(0, m.ops.len() as int) == m.ops,
        forall|j: int|
            m.ops.len() <= j < m.trim_rows(k).ops.len() ==> #[trigger] m.trim_rows(k).ops[j]
                == (DomOp::RemoveRow { row: k as usize }),
{
    assert(m.trim_rows(k).ops.subrange(0, m.ops.len() as int) =~= m.ops);
}

/// Asking again for a slot just obtained changes nothing and logs nothing.
pub proof fn lemma_get_cell_again(m: CacheView, tag: Tag, r: int, c: int)
    requires
        0 <= r,
        0 <= c,
    ensures
        m.get_cell(tag, r, c).get_cell(tag, r, c) == m.get_cell(tag, r, c),
{
    let m1 = m.get_cell(tag, r, c);
    assert(m1.rows.len() > r);
    assert(m1.with_row(r) == m1);
    assert(m1.rows[r].len() > c);
    assert(m1.rows[r][c] == Some(fresh_cell(tag)) || m1.rows[r][c] == m.with_row(r).rows[r][c]);
}

/// What get-or-create does to the slots: row `r` exists afterwards and slot
/// `(r, c)` holds a `tag` element; every other slot keeps its content.
pub proof fn lemma_get_cell_slots(m: CacheView, tag: Tag, r: int, c: int)
    requires
        0 <= r,
        0 <= c,
    ensures
        m.get_cell(tag, r, c).rows.len() == (if r < m.rows.len() {
            m.rows.len() as int
        } else {
            r + 1
        }),
        m.get_cell(tag, r, c).cell(r, c) is Some,
        m.get_cell(tag, r, c).cell(r, c)->0.tag == tag,
        forall|i: int, j: int|
            (i != r || j != c) ==> #[trigger] m.get_cell(tag, r, c).cell(i, j) == m.cell(i, j),
        (r < m.rows.len() && m.cell(r, c) is Some && m.cell(r, c)->0.tag == tag) ==> m.get_cell(
            tag,
            r,
            c,
        ) == m,
{
    let m0 = m.with_row(r);
    assert forall|i: int, j: int| (i != r || j != c) implies #[trigger] m0.cell(i, j) == m.cell(
        i,
        j,
    ) by {
        if r >= m.rows.len() && m.rows.len() <= i < m0.rows.len() {
            assert(m0.rows[i] == Seq::<Option<Cell>>::empty());
        }
    }
    let m2 = m.get_cell(tag, r, c);
    assert forall|i: int, j: int| (i != r || j != c) implies #[trigger] m2.cell(i, j) == m0.cell(
        i,
        j,
    ) by {
        if i == r && c >= m0.rows[r].len() && 0 <= j < m2.rows[r].len() && j >= m0.rows[r].len() {
            assert(m2.rows[r][j] == None::<Cell>);
        }
    }
}

/// What detaching a slot does to the slots: row `r` exists afterwards, slot
/// `(r, c)` is a hole, and every other slot keeps its content.
pub proof fn lemma_clear_slot_slots(m: CacheView, r: int, c: int)
    requires
        0 <= r,
        0 <= c,
    ensures
        m.clear_slot(r, c).rows.len() == (if r < m.rows.len() {
            m.rows.len() as int
        } else {
            r + 1
        }),
        m.clear_slot(r, c).cell(r, c) is None,
        forall|i: int, j: int|
            (i != r || j != c) ==> #[trigger] m.clear_slot(r, c).cell(i, j) == m.cell(i, j),
        (r < m.rows.len() && m.cell(r, c) is None) ==> m.clear_slot(r, c) == m,
{
    let m0 = m.with_row(r);
    assert forall|i: int, j: int| (i != r || j != c) implies #[trigger] m0.cell(i, j) == m.cell(
        i,
        j,
    ) by {
        if r >= m.rows.len() && m.rows.len() <= i < m0.rows.len() {
            assert(m0.rows[i] == Seq::<Option<Cell>>::empty());
        }
    }
}

/// Writing a slot that holds an element changes that slot alone.
pub proof fn lemma_put_slots(m: CacheView, r: int, c: int, x: Cell)
    requires
        m.cell(r, c) is Some,
    ensures
        m.put(r, c, x).rows.len() == m.rows.len(),
        m.put(r, c, x).ops == m.ops,
        m.put(r, c, x).cell(r, c) == Some(x),
        forall|i: int, j: int|
            (i != r || j != c) ==> #[trigger] m.put(r, c, x).cell(i, j) == m.cell(i, j),
{
}

/// The element cache of one table section: a grid of live cell elements under
/// their row elements, created on demand and trimmed explicitly.
pub struct ViewModel {
    rows: Vec<Vec<Option<Cell>>>,
    ops: Vec<DomOp>,
}

impl View for ViewModel {
    type V = CacheView;

    closed spec fn view(&self) -> CacheView {
        CacheView {
            rows: self.rows@.map_values(|row: Vec<Option<Cell>>| row@),
            ops: self.ops@,
        }
    }
}

impl ViewModel {
    pub fn new() -> (r: ViewModel)
        ensures
            r@.rows.len() == 0,
            r@.ops.len() == 0,
    {
        ViewModel { rows: Vec::new(), ops: Vec::new() }
    }

    pub fn num_rows(&self) -> (r: usize)
        ensures
            r == self@.rows.len(),
    {
        self.rows.len()
    }

    /// The number of slots of the first row.
    pub fn num_columns(&self) -> (r: usize)
        ensures
            r == (if self@.rows.len() == 0 {
                0
            } else {
                self@.rows[0].len()
            }),
    {
        if self.rows.len() == 0 {
            0
        } else {
            self.rows[0].len()
        }
    }

    /// The number of slots of the last row, creating the first row if there is none.
    pub fn num_hol_columns(&mut self) -> (r: usize)
        ensures
            final(self)@ == old(self)@.with_row(0),
            r == final(self)@.rows.last().len(),
    {
        let idx: usize = if self.rows.len() <= 1 {
            0
        } else {
            self.rows.len() - 1
        };
        self.get_row(idx);
        self.rows[idx].len()
    }

    /// The cell at a position; `None` for a hole or a position beyond the tracked extent.
    pub fn fetch_cell(&self, r: usize, c: usize) -> (res: Option<Cell>)
        ensures
            res == self@.cell(r as int, c as int),
    {
        if r < self.rows.len() && c < self.rows[r].len() {
            self.rows[r][c]
        } else {
            None
        }
    }

    /// Overwrites the element record at an occupied slot.
    pub fn put_cell(&mut self, r: usize, c: usize, cell: Cell)
        requires
            old(self)@.cell(r as int, c as int) is Some,
        ensures
            final(self)@ == old(self)@.put(r as int, c as int, cell),
    {
        self.rows[r].set(c, Some(cell));
        assert(self@.rows =~= old(self)@.put(r as int, c as int, cell).rows);
    }

    /// The log of structural changes, handed over and cleared.
    pub fn take_ops(&mut self) -> (r: Vec<DomOp>)
        ensures
            r@ == old(self)@.ops,
            final(self)@.rows == old(self)@.rows,
            final(self)@.ops.len() == 0,
    {
        let mut out: Vec<DomOp> = Vec::new();
        std::mem::swap(&mut out, &mut self.ops);
        out
    }

    fn get_row(&mut self, r: usize)
        ensures
            final(self)@ == old(self)@.with_row(r as int),
            r < final(self).rows.len(),
    {
        let ghost start = self@;
        if r >= self.rows.len() {
            let ghost n0 = self.rows.len() as int;
            while self.rows.len() <= r
                invariant
                    n0 <= self.rows.len() <= r + 1,
                    n0 == start.rows.len(),
                    self@.rows =~= start.rows + Seq::new(
                        (self.rows.len() - n0) as nat,
                        |_i: int| Seq::<Option<Cell>>::empty(),
                    ),
                    self@.ops =~= start.ops + Seq::new(
                        (self.rows.len() - n0) as nat,
                        |_i: int| DomOp::AppendRow,
                    ),
                decreases r + 1 - self.rows.len(),
            {
                let ghost prev = self@.rows;
                let fresh: Vec<Option<Cell>> = Vec::new();
                self.rows.push(fresh);
                self.ops.push(DomOp::AppendRow);
                assert(self@.rows =~= prev.push(Seq::<Option<Cell>>::empty()));
            }
        }
        assert(self@.rows =~= start.with_row(r as int).rows);
        assert(self@.ops =~= start.with_row(r as int).ops);
    }

    fn next_present_exec(&self, r: usize, j: usize) -> (res: Option<usize>)
        requires
            r < self.rows.len(),
        ensures
            res == next_present(self@.rows[r as int], j as int),
    {
        let row = &self.rows[r];
        let mut k = j;
        while k < row.len()
            invariant
                j <= k,
                row@ == self@.rows[r as int],
                next_present(row@, j as int) == next_present(row@, k as int),
            decreases row.len() - k,
        {
            if row[k].is_some() {
                return Some(k);
            }
            k += 1;
        }
        None
    }

    /// Returns with slot `(r, c)` holding an element of kind `tag`: the row is
    /// created if absent, the row padded with holes up to `c`, a hole filled
    /// (inserted before the next element of the row), and an element of
    /// another kind replaced in place.
    pub fn get_cell(&mut self, tag: Tag, r: usize, c: usize)
        ensures
            final(self)@ == old(self)@.get_cell(tag, r as int, c as int),
    {
        self.get_row(r);
        let ghost m = self@;
        let len = self.rows[r].len();
        if c >= len {
            let mut k = len;
            while k < c
                invariant
                    len <= k <= c,
                    r < self.rows.len(),
                    self.rows@.len() == m.rows.len(),
                    self.ops@ == m.ops,
                    forall|i: int| 0 <= i < m.rows.len() && i != r ==> #[trigger] self.rows@[i]@ == m.rows[i],
                    self.rows@[r as int]@ =~= m.rows[r as int] + Seq::new(
                        (k - len) as nat,
                        |_i: int| None::<Cell>,
                    ),
                decreases c - k,
            {
                self.rows[r].push(None);
                k += 1;
            }
            self.rows[r].push(Some(Cell::fresh(tag)));
            self.ops.push(DomOp::AppendCell { row: r, col: c, tag });
            assert(self@.rows =~= old(self)@.get_cell(tag, r as int, c as int).rows);
        } else {
            match self.rows[r][c] {
                None => {
                    let before = self.next_present_exec(r, c + 1);
                    self.rows[r].set(c, Some(Cell::fresh(tag)));
                    self.ops.push(DomOp::InsertCell { row: r, col: c, tag, before });
                    assert(self@.rows =~= old(self)@.get_cell(tag, r as int, c as int).rows);
                },
                Some(cell) => {
                    if cell.tag != tag {
                        self.rows[r].set(c, Some(Cell::fresh(tag)));
                        self.ops.push(DomOp::ReplaceCell { row: r, col: c, tag });
                        assert(self@.rows =~= old(self)@.get_cell(tag, r as int, c as int).rows);
                    }
                },
            }
        }
        assert(self@.ops =~= old(self)@.get_cell(tag, r as int, c as int).ops);
    }

    /// Detaches the element of slot `(r, c)`, if any, and leaves a hole there.
    pub fn replace_cell(&mut self, r: usize, c: usize)
        ensures
            final(self)@ == old(self)@.clear_slot(r as int, c as int),
    {
        self.get_row(r);
        if c < self.rows[r].len() && self.rows[r][c].is_some() {
            self.rows[r].set(c, None);
            self.ops.push(DomOp::RemoveCell { row: r, col: c });
            assert(self@.rows =~= old(self)@.clear_slot(r as int, c as int).rows);
        }
    }

    /// Detaches and forgets every row from `k` on.
    pub fn clean_rows(&mut self, k: usize)
        ensures
            final(self)@ == old(self)@.trim_rows(k as int),
    {
        let ghost start = self@;
        let n = self.rows.len();
        if k < n {
            let mut j: usize = k;
            while j < n
                invariant
                    k <= j <= n,
                    self.rows@ == old(self).rows@,
                    self.ops@ =~= start.ops + Seq::new(
                        (j - k) as nat,
                        |_i: int| DomOp::RemoveRow { row: k },
                    ),
                decreases n - j,
            {
                self.ops.push(DomOp::RemoveRow { row: k });
                j += 1;
            }
            self.rows.truncate(k);
            assert(self@.rows =~= start.trim_rows(k as int).rows);
        }
    }

    /// Cuts every row to at most `k` slots, detaching the elements beyond.
    pub fn clean_columns(&mut self, k: usize)
        ensures
            final(self)@ == old(self)@.trim_columns(k as int),
    {
        let ghost start = self@;
        let n = self.rows.len();
        let mut i: usize = 0;
        while i < n
            invariant
                i <= n,
                n == start.rows.len(),
                self.rows@.len() == n,
                forall|j: int| 0 <= j < i ==> #[trigger] self.rows@[j]@ == truncated(start.rows[j], k as int),
                forall|j: int| i <= j < n ==> #[trigger] self.rows@[j]@ == start.rows[j],
                self.ops@ =~= start.ops + Seq::new(
                    i as nat,
                    |j: int| DomOp::TruncateRow { row: j as usize, len: k },
                ),
            decreases n - i,
        {
            self.rows[i].truncate(k);
            self.ops.push(DomOp::TruncateRow { row: i, len: k });
            i += 1;
        }
        assert(self@.rows =~= start.trim_columns(k as int).rows);
        assert(self@.ops =~= start.trim_columns(k as int).ops);
    }

    /// Cuts row `i` to `ks[i]` slots; a row past the list loses its last slot.
    pub fn clean_columns_cache(&mut self, ks: &Vec<usize>)
        ensures
            final(self)@ == old(self)@.trim_columns_each(ks@),
    {
        let ghost start = self@;
        let n = self.rows.len();
        let mut i: usize = 0;
        while i < n
            invariant
                i <= n,
                n == start.rows.len(),
                self.rows@.len() == n,
                forall|j: int|
                    0 <= j < i ==> #[trigger] self.rows@[j]@ == truncated(
                        start.rows[j],
                        keep_at(ks@, j, start.rows[j].len() as int),
                    ),
                forall|j: int| i <= j < n ==> #[trigger] self.rows@[j]@ == start.rows[j],
                self.ops@ =~= start.ops + Seq::new(
                    i as nat,
                    |j: int|
                        DomOp::TruncateRow {
                            row: j as usize,
                            len: keep_at(ks@, j, start.rows[j].len() as int) as usize,
                        },
                ),
            decreases n - i,
        {
            let len = self.rows[i].len();
            let keep: usize = if i < ks.len() {
                ks[i]
            } else if len > 0 {
                len - 1
            } else {
                0
            };
            self.rows[i].truncate(keep);
            self.ops.push(DomOp::TruncateRow { row: i, len: keep });
            i += 1;
        }
        assert(self@.rows =~= start.trim_columns_each(ks@).rows);
        assert(self@.ops =~= start.trim_columns_each(ks@).ops);
    }
}

} // verus!
