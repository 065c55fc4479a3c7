use vstd::prelude::*;

use crate::model::{
    apply_sizing, bump, content_of, render_value, sized_cell, Cell, CellRef, CellValue, DomOp,
    MetaData, Tag,
};
use crate::sizes::{lookup, ColumnSizes, SizesView};
use crate::view_model::{CacheView, ViewModel};

verus! {

/// The column to draw.
pub struct ColumnState {
    /// Index of the column's first slot.
    pub cidx: usize,
    pub column_name: CellValue,
    /// One value per row (data mode).
    pub column_data: Vec<CellValue>,
    /// One header path per row; in row-header mode these are the rows drawn.
    pub row_headers: Option<Vec<Vec<CellValue>>>,
}

/// The viewport of the pass.
pub struct ViewState {
    /// Height of a row, when known.
    pub row_height: Option<usize>,
    /// Depth of the row-header paths.
    pub row_headers_length: usize,
    /// Dataset index of the first drawn row.
    pub ridx_offset: usize,
    pub x1: u32,
    pub y1: usize,
}

/// What a body pass reports.
pub struct BodyDraw {
    /// Per depth (one in data mode), the last cell drawn afresh.
    pub tds: Vec<CellRef>,
    /// The number of rows of the last depth drawn.
    pub ridx: usize,
    /// The last cell drawn afresh.
    pub metadata: Option<CellRef>,
    pub row_height: Option<usize>,
}

/// The inputs of a body pass, as plain values.
pub struct BodyInput {
    pub th: bool,
    pub container_height: usize,
    pub cidx: usize,
    pub column_name: CellValue,
    pub values: Seq<CellValue>,
    pub paths: Option<Seq<Seq<CellValue>>>,
    pub row_height: Option<usize>,
    pub iterations: nat,
    pub ridx_offset: usize,
    pub x1: u32,
    pub y1: usize,
    pub x: Option<u32>,
    pub x0: Option<u32>,
    pub size_key: u64,
    pub virtual_x: usize,
    pub sizes: SizesView,
}

/// The state that a body pass carries from row to row.
pub struct PassView {
    pub cache: CacheView,
    /// Per depth, the rowspan of the open run.
    pub rspan: Seq<usize>,
    /// Per row, the colspan of the open run.
    pub cspan: Seq<usize>,
    pub tds: Seq<CellRef>,
    pub last: Option<CellRef>,
    pub ridx: nat,
}

impl BodyInput {
    /// The number of rows the pass walks through.
    pub open spec fn num_rows(self) -> nat {
        if self.th {
            match self.paths {
                Some(p) => p.len(),
                None => 0,
            }
        } else {
            self.values.len()
        }
    }

    /// The row-header value of row `r` at depth `i`.
    pub open spec fn header_value(self, r: int, i: int) -> CellValue {
        let p = self.paths->0[r];
        if 0 <= i < p.len() {
            p[i]
        } else {
            CellValue::Undefined
        }
    }

    /// Whether the pass stops after `ridx` rows: the rows drawn overflow the
    /// container, or the row height is still unknown.
    pub open spec fn cut_off(self, ridx: nat) -> bool {
        match self.row_height {
            Some(h) => ridx * h > self.container_height,
            None => true,
        }
    }
}

/// `s` extended with `v` up to length `n`.
pub open spec fn pad_to(s: Seq<usize>, n: int, v: usize) -> Seq<usize> {
    if s.len() < n {
        s + Seq::new((n - s.len()) as nat, |_i: int| v)
    } else {
        s
    }
}

/// The run counter at `j` grown by one (a missing counter starts at 2).
pub open spec fn grown_at(s: Seq<usize>, j: int, fill: usize) -> Seq<usize> {
    let p = pad_to(s, j, fill);
    if j < p.len() {
        p.update(j, bump(p[j]))
    } else {
        p.push(2)
    }
}

/// The run counter at `j` restarted at 1 (pushed when missing).
pub open spec fn reset_at(s: Seq<usize>, j: int) -> Seq<usize> {
    if j < s.len() {
        s.update(j, 1)
    } else {
        s.push(1)
    }
}

/// `s` with `x` at `j`, or `x` pushed when `j` is past the end.
pub open spec fn set_or_push(s: Seq<CellRef>, j: int, x: CellRef) -> Seq<CellRef> {
    if j < s.len() {
        s.update(j, x)
    } else {
        s.push(x)
    }
}

/// The cache after drawing `v` into slot `(r, c)` as a `tag` cell.
pub open spec fn drawn_td(
    cache: CacheView,
    tag: Tag,
    r: int,
    v: CellValue,
    c: int,
    column_name: CellValue,
    ridx_offset: usize,
    size_key: u64,
    sizes: SizesView,
) -> CacheView {
    let m = cache.get_cell(tag, r, c);
    let cell = m.rows[r][c]->0;
    let meta = MetaData {
        y: Some((r + ridx_offset) as usize),
        size_key: Some(size_key),
        column_header: if tag == Tag::Td {
            column_name
        } else {
            cell.meta.column_header
        },
        value: v,
        ..cell.meta
    };
    let cell2 = sized_cell(
        Cell { meta, content: content_of(v), ..cell },
        lookup(sizes.overrides, size_key),
        lookup(sizes.auto, size_key),
    );
    m.put(r, c, cell2)
}

/// A row-header cell drawn afresh: no spans, and its position recorded.
pub open spec fn header_finished(cell: Cell, r: int, i: int, inp: BodyInput) -> Cell {
    Cell {
        rowspan: None,
        colspan: None,
        meta: MetaData {
            row_header: Some(r as usize),
            row_header_x: Some(i as u64),
            x0: inp.x0,
            y0: Some(inp.ridx_offset),
            y1: Some(inp.y1),
            virtual_x: Some(i as usize),
            ..cell.meta
        },
        ..cell
    }
}

/// `x - x0`, when both are known.
pub open spec fn delta(x: Option<u32>, x0: Option<u32>) -> Option<i64> {
    if x is Some && x0 is Some {
        Some((x->0 - x0->0) as i64)
    } else {
        None
    }
}

/// A data cell drawn: its position in the viewport recorded.
pub open spec fn data_finished(cell: Cell, r: int, inp: BodyInput) -> Cell {
    Cell {
        meta: MetaData {
            x: inp.x,
            x0: inp.x0,
            x1: Some(inp.x1),
            row_header: match inp.paths {
                Some(p) => if r < p.len() {
                    Some(r as usize)
                } else {
                    None
                },
                None => None,
            },
            y0: Some(inp.ridx_offset),
            y1: Some(inp.y1),
            dx: delta(inp.x, inp.x0),
            dy: Some(r as usize),
            virtual_x: Some(inp.virtual_x),
            ..cell.meta
        },
        ..cell
    }
}

/// The slot `(r, c)` of `m`, which holds an element, transformed by `f`.
pub open spec fn touched(m: CacheView, r: int, c: int, f: spec_fn(Cell) -> Cell) -> CacheView {
    m.put(r, c, f(m.rows[r][c]->0))
}

/// How many rows up the open run of depth `i` began.
pub open spec fn row_off(st: PassView, i: int) -> int {
    if 0 <= i < st.rspan.len() {
        st.rspan[i] as int
    } else {
        1
    }
}

/// How many columns left the open run of row `r` began.
pub open spec fn col_off(st: PassView, r: int) -> int {
    if 0 <= r < st.cspan.len() {
        st.cspan[r] as int
    } else {
        1
    }
}

/// The cell where the run above slot `(r, cidx + i)` began, if any.
pub open spec fn prev_row_of(st: PassView, inp: BodyInput, i: int, r: int) -> Option<Cell> {
    if r >= row_off(st, i) {
        st.cache.cell(r - row_off(st, i), inp.cidx + i)
    } else {
        None
    }
}

/// The cell where the run left of slot `(r, cidx + i)` began, if any.
pub open spec fn prev_col_of(st: PassView, inp: BodyInput, i: int, r: int) -> Option<Cell> {
    if inp.cidx + i >= col_off(st, r) {
        st.cache.cell(r, inp.cidx + i - col_off(st, r))
    } else {
        None
    }
}

/// Whether the value at `(r, i)` extends the run on its left: the same value
/// (or none), and that cell spans no rows.
pub open spec fn col_merges(st: PassView, inp: BodyInput, i: int, r: int) -> bool {
    let p = prev_col_of(st, inp, i, r);
    let v = inp.header_value(r, i);
    p is Some && (p->0.meta.value == v || v == CellValue::Undefined) && p->0.rowspan is None
}

/// Whether the value at `(r, i)` extends the run above it: the same value,
/// and that cell spans no columns.
pub open spec fn row_merges(st: PassView, inp: BodyInput, i: int, r: int) -> bool {
    let p = prev_row_of(st, inp, i, r);
    p is Some && p->0.meta.value == inp.header_value(r, i) && p->0.colspan is None
}

/// One row of a row-header column at depth `i`: extend the colspan of the cell
/// to the left, else the rowspan of the cell above, else draw a new cell.
pub open spec fn header_step(st: PassView, inp: BodyInput, i: int, r: int) -> PassView {
    let c = inp.cidx + i;
    let v = inp.header_value(r, i);
    let next = if col_merges(st, inp, i, r) {
        let cspan = grown_at(st.cspan, r, 1);
        let cache = st.cache.put(
            r,
            c - col_off(st, r),
            Cell { colspan: Some(cspan[r]), ..prev_col_of(st, inp, i, r)->0 },
        );
        PassView { cache: cache.clear_slot(r, c), cspan, ..st }
    } else if row_merges(st, inp, i, r) {
        let rspan = grown_at(st.rspan, i, 2);
        let cache = st.cache.put(
            r - row_off(st, i),
            c,
            Cell { rowspan: Some(rspan[i]), ..prev_row_of(st, inp, i, r)->0 },
        );
        PassView { cache: cache.clear_slot(r, c), rspan, ..st }
    } else {
        let m = drawn_td(
            st.cache,
            Tag::Th,
            r,
            v,
            c,
            inp.column_name,
            inp.ridx_offset,
            i as u64,
            inp.sizes,
        );
        let at = CellRef { row: r as usize, col: c as usize };
        PassView {
            cache: touched(m, r, c, |cell: Cell| header_finished(cell, r, i, inp)),
            rspan: reset_at(st.rspan, i),
            cspan: reset_at(st.cspan, r),
            tds: set_or_push(st.tds, i, at),
            last: Some(at),
            ..st
        }
    };
    PassView { ridx: (r + 1) as nat, ..next }
}

/// One row of a data column: always a new cell.
pub open spec fn data_step(st: PassView, inp: BodyInput, r: int) -> PassView {
    let c = inp.cidx as int;
    let m = drawn_td(
        st.cache,
        Tag::Td,
        r,
        inp.values[r],
        c,
        inp.column_name,
        inp.ridx_offset,
        inp.size_key,
        inp.sizes,
    );
    let at = CellRef { row: r as usize, col: c as usize };
    PassView {
        cache: touched(m, r, c, |cell: Cell| data_finished(cell, r, inp)),
        tds: set_or_push(st.tds, 0, at),
        last: Some(at),
        ridx: (r + 1) as nat,
        ..st
    }
}

pub open spec fn body_step(st: PassView, inp: BodyInput, i: int, r: int) -> PassView {
    if inp.th {
        header_step(st, inp, i, r)
    } else {
        data_step(st, inp, r)
    }
}

/// Rows `r..` of depth `i`, up to the cut-off.
pub open spec fn rows_pass(st: PassView, inp: BodyInput, i: int, r: nat) -> PassView
    decreases inp.num_rows() - r,
{
    if r >= inp.num_rows() {
        st
    } else {
        let st1 = body_step(st, inp, i, r as int);
        if inp.cut_off(st1.ridx) {
            st1
        } else {
            rows_pass(st1, inp, i, r + 1)
        }
    }
}

/// Depths `i..`, each from row 0.
pub open spec fn depths_pass(st: PassView, inp: BodyInput, i: nat) -> PassView
    decreases inp.iterations - i,
{
    if i >= inp.iterations {
        st
    } else {
        depths_pass(rows_pass(PassView { ridx: 0, ..st }, inp, i as int, 0), inp, i + 1)
    }
}

/// The whole pass from `cache`: every depth, then rows past the last drawn trimmed.
pub open spec fn body_pass(cache: CacheView, inp: BodyInput) -> PassView {
    let st = depths_pass(
        PassView {
            cache,
            rspan: Seq::empty(),
            cspan: Seq::empty(),
            tds: Seq::empty(),
            last: None,
            ridx: 0,
        },
        inp,
        0,
    );
    PassView { cache: st.cache.trim_rows(st.ridx as int), ..st }
}

/// Every row below `k` holds a data cell in column `c`, and row `k - 1` exists.
pub open spec fn td_ready(cache: CacheView, c: int, k: int) -> bool {
    &&& cache.rows.len() >= k
    &&& forall|r: int| 0 <= r < k ==> #[trigger] cache.cell(r, c) is Some && cache.cell(r, c)->0.tag
        == Tag::Td
}

/// The number of rows a data pass draws from row `r` on.
pub open spec fn td_stop(inp: BodyInput, r: nat) -> nat
    decreases inp.num_rows() - r,
{
    if r >= inp.num_rows() {
        r
    } else if inp.cut_off(r + 1) {
        r + 1
    } else {
        td_stop(inp, r + 1)
    }
}

proof fn lemma_data_step_shape(st: PassView, inp: BodyInput, r: int)
    requires
        !inp.th,
        0 <= r,
    ensures
        data_step(st, inp, r).ridx == r + 1,
        data_step(st, inp, r).cache.cell(r, inp.cidx as int) is Some,
        data_step(st, inp, r).cache.cell(r, inp.cidx as int)->0.tag == Tag::Td,
        data_step(st, inp, r).cache.rows.len() == (if r < st.cache.rows.len() {
            st.cache.rows.len() as int
        } else {
            r + 1
        }),
        forall|i: int, j: int|
            (i != r || j != inp.cidx) ==> #[trigger] data_step(st, inp, r).cache.cell(i, j)
                == st.cache.cell(i, j),
        (r < st.cache.rows.len() && st.cache.cell(r, inp.cidx as int) is Some && st.cache.cell(
            r,
            inp.cidx as int,
        )->0.tag == Tag::Td) ==> data_step(st, inp, r).cache.ops == st.cache.ops,
{
    let c = inp.cidx as int;
    crate::view_model::lemma_get_cell_slots(st.cache, Tag::Td, r, c);
    let m = st.cache.get_cell(Tag::Td, r, c);
    let d = drawn_td(
        st.cache,
        Tag::Td,
        r,
        inp.values[r],
        c,
        inp.column_name,
        inp.ridx_offset,
        inp.size_key,
        inp.sizes,
    );
    let cell = m.rows[r][c]->0;
    let meta = MetaData {
        y: Some((r + inp.ridx_offset) as usize),
        size_key: Some(inp.size_key),
        column_header: inp.column_name,
        value: inp.values[r],
        ..cell.meta
    };
    let cell2 = sized_cell(
        Cell { meta, content: content_of(inp.values[r]), ..cell },
        lookup(inp.sizes.overrides, inp.size_key),
        lookup(inp.sizes.auto, inp.size_key),
    );
    crate::view_model::lemma_put_slots(m, r, c, cell2);
    let f = |x: Cell| data_finished(x, r, inp);
    crate::view_model::lemma_put_slots(d, r, c, f(cell2));
}

proof fn lemma_first_pass(st: PassView, inp: BodyInput, r: nat)
    requires
        !inp.th,
        st.ridx == r,
        td_ready(st.cache, inp.cidx as int, r as int),
    ensures
        rows_pass(st, inp, 0, r).ridx == td_stop(inp, r),
        td_ready(rows_pass(st, inp, 0, r).cache, inp.cidx as int, td_stop(inp, r) as int),
    decreases inp.num_rows() - r,
{
    if r < inp.num_rows() {
        let st1 = body_step(st, inp, 0, r as int);
        lemma_data_step_shape(st, inp, r as int);
        assert(td_ready(st1.cache, inp.cidx as int, (r + 1) as int)) by {
            assert forall|q: int| 0 <= q < r + 1 implies #[trigger] st1.cache.cell(
                q,
                inp.cidx as int,
            ) is Some && st1.cache.cell(q, inp.cidx as int)->0.tag == Tag::Td by {
                if q < r {
                    assert(st.cache.cell(q, inp.cidx as int) is Some);
                }
            }
        }
        if !inp.cut_off(st1.ridx) {
            lemma_first_pass(st1, inp, r + 1);
        }
    }
}

proof fn lemma_second_pass(st: PassView, inp: BodyInput, r: nat)
    requires
        !inp.th,
        td_ready(st.cache, inp.cidx as int, td_stop(inp, r) as int),
    ensures
        rows_pass(st, inp, 0, r).cache.ops == st.cache.ops,
        rows_pass(st, inp, 0, r).cache.rows.len() == st.cache.rows.len(),
        td_ready(rows_pass(st, inp, 0, r).cache, inp.cidx as int, td_stop(inp, r) as int),
    decreases inp.num_rows() - r,
{
    if r < inp.num_rows() {
        let k = td_stop(inp, r) as int;
        assert(k >= r + 1) by {
            lemma_td_stop_grows(inp, r);
        }
        let st1 = body_step(st, inp, 0, r as int);
        lemma_data_step_shape(st, inp, r as int);
        assert(st.cache.cell(r as int, inp.cidx as int) is Some);
        assert(td_ready(st1.cache, inp.cidx as int, k)) by {
            assert forall|q: int| 0 <= q < k implies #[trigger] st1.cache.cell(
                q,
                inp.cidx as int,
            ) is Some && st1.cache.cell(q, inp.cidx as int)->0.tag == Tag::Td by {
                if q != r {
                    assert(st.cache.cell(q, inp.cidx as int) is Some);
                }
            }
        }
        if !inp.cut_off(st1.ridx) {
            assert(td_stop(inp, r + 1) == td_stop(inp, r));
            lemma_second_pass(st1, inp, r + 1);
        }
    }
}

pub(crate) proof fn lemma_td_stop_grows(inp: BodyInput, r: nat)
    ensures
        td_stop(inp, r) >= r,
        r < inp.num_rows() ==> td_stop(inp, r) >= r + 1,
    decreases inp.num_rows() - r,
{
    if r < inp.num_rows() && !inp.cut_off(r + 1) {
        lemma_td_stop_grows(inp, r + 1);
    }
}

/// Drawing a data column a second time with the same inputs reuses every
/// element: the second pass makes no structural change at all (no element or
/// row created, replaced or removed), and it reports the same number of rows.
pub proof fn lemma_redraw_creates_nothing(m: CacheView, inp: BodyInput)
    requires
        !inp.th,
        inp.iterations == 1,
    ensures
        body_pass(body_pass(m, inp).cache, inp).cache.ops == body_pass(m, inp).cache.ops,
        body_pass(body_pass(m, inp).cache, inp).cache.rows.len() == body_pass(
            m,
            inp,
        ).cache.rows.len(),
        body_pass(body_pass(m, inp).cache, inp).ridx == body_pass(m, inp).ridx,
{
    let k = td_stop(inp, 0);
    let init1 = PassView {
        cache: m,
        rspan: Seq::empty(),
        cspan: Seq::empty(),
        tds: Seq::empty(),
        last: None,
        ridx: 0,
    };
    let s1 = rows_pass(init1, inp, 0, 0);
    assert(depths_pass(rows_pass(init1, inp, 0, 0), inp, 1) == s1);
    assert(depths_pass(init1, inp, 0) == s1);
    lemma_first_pass(init1, inp, 0);
    let c1 = s1.cache.trim_rows(k as int);
    assert(body_pass(m, inp).cache == c1);
    assert(td_ready(c1, inp.cidx as int, k as int)) by {
        assert forall|q: int| 0 <= q < k implies #[trigger] c1.cell(q, inp.cidx as int) is Some
            && c1.cell(q, inp.cidx as int)->0.tag == Tag::Td by {
            assert(s1.cache.cell(q, inp.cidx as int) is Some);
        }
    }
    assert(c1.rows.len() == k);
    let init2 = PassView { cache: c1, ..init1 };
    let s2 = rows_pass(init2, inp, 0, 0);
    assert(depths_pass(rows_pass(init2, inp, 0, 0), inp, 1) == s2);
    assert(depths_pass(init2, inp, 0) == s2);
    lemma_first_pass(init2, inp, 0);
    lemma_second_pass(init2, inp, 0);
    assert(s2.cache.trim_rows(k as int) == s2.cache);
}

pub(crate) proof fn lemma_td_stop_first(inp: BodyInput, r: nat)
    requires
        r < inp.num_rows(),
    ensures
        td_stop(inp, r) == inp.num_rows() || inp.cut_off(td_stop(inp, r)),
        td_stop(inp, r) <= inp.num_rows(),
        forall|j: nat| r < j < td_stop(inp, r) ==> !#[trigger] inp.cut_off(j),
    decreases inp.num_rows() - r,
{
    if !inp.cut_off(r + 1) {
        if r + 1 < inp.num_rows() {
            lemma_td_stop_first(inp, r + 1);
        } else {
            assert(td_stop(inp, r + 1) == r + 1);
        }
    }
}

/// A data column stops at the first row count whose height exceeds the
/// container: the pass draws `k` rows, where `k * row_height` is the first
/// product over `container_height` (checked after each row), or every row if
/// none is; exactly `k` rows remain, each with a data cell in the column.
pub proof fn lemma_virtualization_cutoff(m: CacheView, inp: BodyInput)
    requires
        !inp.th,
        inp.iterations == 1,
        inp.num_rows() > 0,
    ensures
        body_pass(m, inp).ridx == td_stop(inp, 0),
        body_pass(m, inp).cache.rows.len() == td_stop(inp, 0),
        td_ready(body_pass(m, inp).cache, inp.cidx as int, td_stop(inp, 0) as int),
        1 <= td_stop(inp, 0) <= inp.num_rows(),
        td_stop(inp, 0) == inp.num_rows() || inp.cut_off(td_stop(inp, 0)),
        forall|j: nat| 1 <= j < td_stop(inp, 0) ==> !#[trigger] inp.cut_off(j),
{
    let k = td_stop(inp, 0);
    lemma_td_stop_first(inp, 0);
    lemma_td_stop_grows(inp, 0);
    let init = PassView {
        cache: m,
        rspan: Seq::empty(),
        cspan: Seq::empty(),
        tds: Seq::empty(),
        last: None,
        ridx: 0,
    };
    let s1 = rows_pass(init, inp, 0, 0);
    assert(depths_pass(rows_pass(init, inp, 0, 0), inp, 1) == s1);
    assert(depths_pass(init, inp, 0) == s1);
    lemma_first_pass(init, inp, 0);
    let c1 = s1.cache.trim_rows(k as int);
    assert(td_ready(c1, inp.cidx as int, k as int)) by {
        assert forall|q: int| 0 <= q < k implies #[trigger] c1.cell(q, inp.cidx as int) is Some
            && c1.cell(q, inp.cidx as int)->0.tag == Tag::Td by {
            assert(s1.cache.cell(q, inp.cidx as int) is Some);
        }
    }
}

/// Draws the body of the table, one column per call.
pub struct RegularBodyViewModel {
    view_model: ViewModel,
}

struct Pass {
    rspan: Vec<usize>,
    cspan: Vec<usize>,
    tds: Vec<CellRef>,
    last: Option<CellRef>,
    ridx: usize,
}

impl Pass {
    closed spec fn view_with(&self, cache: CacheView) -> PassView {
        PassView {
            cache,
            rspan: self.rspan@,
            cspan: self.cspan@,
            tds: self.tds@,
            last: self.last,
            ridx: self.ridx as nat,
        }
    }
}

fn grow_at(s: &mut Vec<usize>, j: usize, fill: usize)
    ensures
        final(s)@ == grown_at(old(s)@, j as int, fill),
{
    let ghost s0 = s@;
    while s.len() < j
        invariant
            s@ == s0 + Seq::new((s@.len() - s0.len()) as nat, |_i: int| fill),
            s0.len() <= s@.len(),
            s0.len() < j ==> s@.len() <= j,
            s0.len() >= j ==> s@.len() == s0.len(),
        decreases j - s.len(),
    {
        s.push(fill);
    }
    proof {
        if s0.len() < j {
            assert(s@.len() == j);
            assert(s@ =~= pad_to(s0, j as int, fill));
        } else {
            assert(s@ =~= s0);
        }
    }
    if j < s.len() {
        let x = s[j];
        s.set(j, if x < usize::MAX { x + 1 } else { x });
    } else {
        s.push(2);
    }
}

fn restart_at(s: &mut Vec<usize>, j: usize)
    ensures
        final(s)@ == reset_at(old(s)@, j as int),
{
    if j < s.len() {
        s.set(j, 1);
    } else {
        s.push(1);
    }
}

fn put_or_push(s: &mut Vec<CellRef>, j: usize, x: CellRef)
    ensures
        final(s)@ == set_or_push(old(s)@, j as int, x),
{
    if j < s.len() {
        s.set(j, x);
    } else {
        s.push(x);
    }
}

/// The inputs of a body pass, read from its arguments.
pub open spec fn input_of(
    container_height: usize,
    column_state: ColumnState,
    view_state: ViewState,
    th: bool,
    x: Option<u32>,
    x0: Option<u32>,
    size_key: u64,
    virtual_x: usize,
    sizes: SizesView,
) -> BodyInput {
    BodyInput {
        th,
        container_height,
        cidx: column_state.cidx,
        column_name: column_state.column_name,
        values: column_state.column_data@,
        paths: match column_state.row_headers {
            Some(p) => Some(p@.map_values(|q: Vec<CellValue>| q@)),
            None => None,
        },
        row_height: view_state.row_height,
        iterations: if th {
            view_state.row_headers_length as nat
        } else {
            1
        },
        ridx_offset: view_state.ridx_offset,
        x1: view_state.x1,
        y1: view_state.y1,
        x,
        x0,
        size_key,
        virtual_x,
        sizes,
    }
}

fn cut_off_exec(ridx: usize, row_height: Option<usize>, container_height: usize) -> (r: bool)
    ensures
        r == (match row_height {
            Some(h) => ridx * h > container_height,
            None => true,
        }),
{
    match row_height {
        None => true,
        Some(h) => match ridx.checked_mul(h) {
            None => true,
            Some(p) => p > container_height,
        },
    }
}

fn header_finish(cell: Cell, r: usize, i: usize, x0: Option<u32>, view_state: &ViewState) -> (res:
    Cell)
    ensures
        res == (Cell {
            rowspan: None,
            colspan: None,
            meta: MetaData {
                row_header: Some(r),
                row_header_x: Some(i as u64),
                x0: x0,
                y0: Some(view_state.ridx_offset),
                y1: Some(view_state.y1),
                virtual_x: Some(i),
                ..cell.meta
            },
            ..cell
        }),
{
    let mut res = cell;
    res.rowspan = None;
    res.colspan = None;
    res.meta.row_header = Some(r);
    res.meta.row_header_x = Some(i as u64);
    res.meta.x0 = x0;
    res.meta.y0 = Some(view_state.ridx_offset);
    res.meta.y1 = Some(view_state.y1);
    res.meta.virtual_x = Some(i);
    res
}

fn data_finish(
    cell: Cell,
    r: usize,
    column_state: &ColumnState,
    view_state: &ViewState,
    x: Option<u32>,
    x0: Option<u32>,
    virtual_x: usize,
) -> (res: Cell)
    ensures
        res == (Cell {
            meta: MetaData {
                x: x,
                x0: x0,
                x1: Some(view_state.x1),
                row_header: match column_state.row_headers {
                    Some(p) => if r < p@.len() {
                        Some(r)
                    } else {
                        None
                    },
                    None => None,
                },
                y0: Some(view_state.ridx_offset),
                y1: Some(view_state.y1),
                dx: delta(x, x0),
                dy: Some(r),
                virtual_x: Some(virtual_x),
                ..cell.meta
            },
            ..cell
        }),
{
    let mut res = cell;
    res.meta.x = x;
    res.meta.x0 = x0;
    res.meta.x1 = Some(view_state.x1);
    res.meta.row_header = match &column_state.row_headers {
        Some(p) => if r < p.len() {
            Some(r)
        } else {
            None
        },
        None => None,
    };
    res.meta.y0 = Some(view_state.ridx_offset);
    res.meta.y1 = Some(view_state.y1);
    res.meta.dx = match (x, x0) {
        (Some(a), Some(b)) => Some(a as i64 - b as i64),
        _ => None,
    };
    res.meta.dy = Some(r);
    res.meta.virtual_x = Some(virtual_x);
    res
}

impl RegularBodyViewModel {
    pub fn new() -> (r: RegularBodyViewModel)
        ensures
            r.cache().rows.len() == 0,
            r.cache().ops.len() == 0,
    {
        RegularBodyViewModel { view_model: ViewModel::new() }
    }

    pub fn view_model(&self) -> (r: &ViewModel)
        ensures
            r@ == self.cache(),
    {
        &self.view_model
    }

    /// The log of structural changes, handed over and cleared.
    pub fn take_ops(&mut self) -> (r: Vec<DomOp>)
        ensures
            r@ == old(self).cache().ops,
            final(self).cache().rows == old(self).cache().rows,
            final(self).cache().ops.len() == 0,
    {
        self.view_model.take_ops()
    }

    pub closed spec fn cache(&self) -> CacheView {
        self.view_model@
    }

    /// Draws `val` into slot `(r, c)` as a `tag` cell: kind, value, content,
    /// row position and column sizing.
    pub fn draw_td(
        &mut self,
        tag: Tag,
        r: usize,
        val: CellValue,
        c: usize,
        column_name: CellValue,
        ridx_offset: usize,
        size_key: u64,
        sizes: &ColumnSizes,
    )
        requires
            r + ridx_offset <= usize::MAX,
        ensures
            final(self).cache() == drawn_td(
                old(self).cache(),
                tag,
                r as int,
                val,
                c as int,
                column_name,
                ridx_offset,
                size_key,
                sizes@,
            ),
    {
        self.view_model.get_cell(tag, r, c);
        let cell = self.view_model.fetch_cell(r, c).unwrap();
        let mut meta = cell.meta;
        meta.y = Some(r + ridx_offset);
        meta.size_key = Some(size_key);
        if tag == Tag::Td {
            meta.column_header = column_name;
        }
        meta.value = val;
        let mut cell2 = cell;
        cell2.meta = meta;
        cell2.content = render_value(val);
        let cell3 = apply_sizing(cell2, sizes.get_override(size_key), sizes.get_auto(size_key));
        self.view_model.put_cell(r, c, cell3);
    }

    fn header_row(
        &mut self,
        pass: &mut Pass,
        column_state: &ColumnState,
        view_state: &ViewState,
        x0: Option<u32>,
        sizes: &ColumnSizes,
        i: usize,
        r: usize,
        inp: Ghost<BodyInput>,
    )
        requires
            inp@.th,
            inp@.cidx == column_state.cidx,
            inp@.column_name == column_state.column_name,
            inp@.paths == (match column_state.row_headers {
                Some(p) => Some(p@.map_values(|q: Vec<CellValue>| q@)),
                None => None::<Seq<Seq<CellValue>>>,
            }),
            inp@.ridx_offset == view_state.ridx_offset,
            inp@.y1 == view_state.y1,
            inp@.x0 == x0,
            inp@.sizes == sizes@,
            column_state.row_headers is Some,
            r < column_state.row_headers->0@.len(),
            column_state.cidx + i <= usize::MAX,
            r + 1 + view_state.ridx_offset <= usize::MAX,
        ensures
            final(pass).view_with(final(self).cache()) == header_step(
                old(pass).view_with(old(self).cache()),
                inp@,
                i as int,
                r as int,
            ),
    {
        let ghost st = pass.view_with(self.cache());
        let paths = match &column_state.row_headers {
            Some(p) => p,
            None => {
                return ;
            },
        };
        let c = column_state.cidx + i;
        let path = &paths[r];
        assert(path@ == inp@.paths->0[r as int]);
        let v = if i < path.len() {
            path[i]
        } else {
            CellValue::Undefined
        };
        let roff: usize = if i < pass.rspan.len() {
            pass.rspan[i]
        } else {
            1
        };
        let prev_row = if r >= roff {
            self.view_model.fetch_cell(r - roff, c)
        } else {
            None
        };
        let coff: usize = if r < pass.cspan.len() {
            pass.cspan[r]
        } else {
            1
        };
        let prev_col = if c >= coff {
            self.view_model.fetch_cell(r, c - coff)
        } else {
            None
        };
        let col_merge = match prev_col {
            Some(pc) => (pc.meta.value == v || v == CellValue::Undefined) && pc.rowspan.is_none(),
            None => false,
        };
        let row_merge = match prev_row {
            Some(pr) => pr.meta.value == v && pr.colspan.is_none(),
            None => false,
        };
        if col_merge {
            let mut cell = prev_col.unwrap();
            grow_at(&mut pass.cspan, r, 1);
            cell.colspan = Some(pass.cspan[r]);
            self.view_model.put_cell(r, c - coff, cell);
            self.view_model.replace_cell(r, c);
        } else if row_merge {
            let mut cell = prev_row.unwrap();
            grow_at(&mut pass.rspan, i, 2);
            cell.rowspan = Some(pass.rspan[i]);
            self.view_model.put_cell(r - roff, c, cell);
            self.view_model.replace_cell(r, c);
        } else {
            self.draw_td(
                Tag::Th,
                r,
                v,
                c,
                column_state.column_name,
                view_state.ridx_offset,
                i as u64,
                sizes,
            );
            let cell = self.view_model.fetch_cell(r, c).unwrap();
            let done = header_finish(cell, r, i, x0, view_state);
            self.view_model.put_cell(r, c, done);
            restart_at(&mut pass.rspan, i);
            restart_at(&mut pass.cspan, r);
            let at = CellRef { row: r, col: c };
            put_or_push(&mut pass.tds, i, at);
            pass.last = Some(at);
        }
        pass.ridx = r + 1;
    }

    fn data_row(
        &mut self,
        pass: &mut Pass,
        column_state: &ColumnState,
        view_state: &ViewState,
        x: Option<u32>,
        x0: Option<u32>,
        size_key: u64,
        virtual_x: usize,
        sizes: &ColumnSizes,
        r: usize,
        inp: Ghost<BodyInput>,
    )
        requires
            !inp@.th,
            inp@.cidx == column_state.cidx,
            inp@.column_name == column_state.column_name,
            inp@.values == column_state.column_data@,
            inp@.paths == (match column_state.row_headers {
                Some(p) => Some(p@.map_values(|q: Vec<CellValue>| q@)),
                None => None::<Seq<Seq<CellValue>>>,
            }),
            inp@.ridx_offset == view_state.ridx_offset,
            inp@.x1 == view_state.x1,
            inp@.y1 == view_state.y1,
            inp@.x == x,
            inp@.x0 == x0,
            inp@.size_key == size_key,
            inp@.virtual_x == virtual_x,
            inp@.sizes == sizes@,
            r < column_state.column_data@.len(),
            r + 1 + view_state.ridx_offset <= usize::MAX,
        ensures
            final(pass).view_with(final(self).cache()) == data_step(
                old(pass).view_with(old(self).cache()),
                inp@,
                r as int,
            ),
    {
        let c = column_state.cidx;
        self.draw_td(
            Tag::Td,
            r,
            column_state.column_data[r],
            c,
            column_state.column_name,
            view_state.ridx_offset,
            size_key,
            sizes,
        );
        let cell = self.view_model.fetch_cell(r, c).unwrap();
        let done = data_finish(cell, r, column_state, view_state, x, x0, virtual_x);
        self.view_model.put_cell(r, c, done);
        let at = CellRef { row: r, col: c };
        put_or_push(&mut pass.tds, 0, at);
        pass.last = Some(at);
        pass.ridx = r + 1;
    }

    /// Draws one column of the body from row 0 down, until the rows drawn
    /// overflow `container_height`, then trims the rows below the last one drawn.
    ///
    /// In row-header mode (`th`) the column holds the row-header paths, one slot
    /// per depth: a value equal to the one on its left (or missing) extends that
    /// cell's colspan, else one equal to the value above extends that cell's
    /// rowspan, else a new header cell is drawn. In data mode each row gets a
    /// new data cell. With no known row height each depth stops after one row.
    pub fn draw(
        &mut self,
        container_height: usize,
        column_state: &ColumnState,
        view_state: &ViewState,
        th: bool,
        x: Option<u32>,
        x0: Option<u32>,
        size_key: u64,
        virtual_x: usize,
        sizes: &ColumnSizes,
    ) -> (res: BodyDraw)
        requires
            th ==> column_state.cidx + view_state.row_headers_length <= usize::MAX,
            view_state.ridx_offset + column_state.column_data@.len() <= usize::MAX,
            th && column_state.row_headers is Some ==> view_state.ridx_offset
                + column_state.row_headers->0@.len() <= usize::MAX,
        ensures
            ({
                let p = body_pass(
                    old(self).cache(),
                    input_of(
                        container_height,
                        *column_state,
                        *view_state,
                        th,
                        x,
                        x0,
                        size_key,
                        virtual_x,
                        sizes@,
                    ),
                );
                &&& final(self).cache() == p.cache
                &&& res.tds@ == p.tds
                &&& res.ridx == p.ridx
                &&& res.metadata == p.last
                &&& res.row_height == view_state.row_height
            }),
    {
        let ghost inp = input_of(
            container_height,
            *column_state,
            *view_state,
            th,
            x,
            x0,
            size_key,
            virtual_x,
            sizes@,
        );
        let iterations: usize = if th {
            view_state.row_headers_length
        } else {
            1
        };
        let n: usize = if th {
            match &column_state.row_headers {
                Some(p) => p.len(),
                None => 0,
            }
        } else {
            column_state.column_data.len()
        };
        assert(n == inp.num_rows());
        let mut pass = Pass {
            rspan: Vec::new(),
            cspan: Vec::new(),
            tds: Vec::new(),
            last: None,
            ridx: 0,
        };
        let ghost init = pass.view_with(self.cache());
        let mut i: usize = 0;
        while i < iterations
            invariant
                i <= iterations,
                iterations == inp.iterations,
                n == inp.num_rows(),
                inp == input_of(
                    container_height,
                    *column_state,
                    *view_state,
                    th,
                    x,
                    x0,
                    size_key,
                    virtual_x,
                    sizes@,
                ),
                th ==> column_state.cidx + view_state.row_headers_length <= usize::MAX,
                view_state.ridx_offset + column_state.column_data@.len() <= usize::MAX,
                th && column_state.row_headers is Some ==> view_state.ridx_offset
                    + column_state.row_headers->0@.len() <= usize::MAX,
                pass.ridx <= n,
                depths_pass(pass.view_with(self.cache()), inp, i as nat) == depths_pass(
                    init,
                    inp,
                    0,
                ),
            decreases iterations - i,
        {
            pass.ridx = 0;
            let ghost start = pass.view_with(self.cache());
            let mut r: usize = 0;
            let mut stop = false;
            while r < n && !stop
                invariant
                    r <= n,
                    i < iterations,
                    iterations == inp.iterations,
                    n == inp.num_rows(),
                    inp == input_of(
                        container_height,
                        *column_state,
                        *view_state,
                        th,
                        x,
                        x0,
                        size_key,
                        virtual_x,
                        sizes@,
                    ),
                    th ==> column_state.cidx + view_state.row_headers_length <= usize::MAX,
                    view_state.ridx_offset + column_state.column_data@.len() <= usize::MAX,
                    th && column_state.row_headers is Some ==> view_state.ridx_offset
                        + column_state.row_headers->0@.len() <= usize::MAX,
                    pass.ridx <= n,
                    stop ==> pass.view_with(self.cache()) == rows_pass(start, inp, i as int, 0),
                    !stop ==> rows_pass(pass.view_with(self.cache()), inp, i as int, r as nat)
                        == rows_pass(start, inp, i as int, 0),
                decreases n - r,
            {
                if th {
                    self.header_row(
                        &mut pass,
                        column_state,
                        view_state,
                        x0,
                        sizes,
                        i,
                        r,
                        Ghost(inp),
                    );
                } else {
                    self.data_row(
                        &mut pass,
                        column_state,
                        view_state,
                        x,
                        x0,
                        size_key,
                        virtual_x,
                        sizes,
                        r,
                        Ghost(inp),
                    );
                }
                if cut_off_exec(pass.ridx, view_state.row_height, container_height) {
                    stop = true;
                }
                r += 1;
            }
            i += 1;
        }
        self.view_model.clean_rows(pass.ridx);
        BodyDraw {
            tds: pass.tds,
            ridx: pass.ridx,
            metadata: pass.last,
            row_height: view_state.row_height,
        }
    }

    pub fn fetch_cell(&self, r: usize, c: usize) -> (res: Option<Cell>)
        ensures
            res == self.cache().cell(r as int, c as int),
    {
        self.view_model.fetch_cell(r, c)
    }

    /// Overwrites the record of an occupied body slot.
    pub fn update_cell(&mut self, r: usize, c: usize, cell: Cell)
        requires
            old(self).cache().cell(r as int, c as int) is Some,
        ensures
            final(self).cache() == old(self).cache().put(r as int, c as int, cell),
    {
        self.view_model.put_cell(r, c, cell);
    }

    /// Trims the body to `ridx` rows and `cidx` columns.
    pub fn clean(&mut self, ridx: usize, cidx: usize)
        ensures
            final(self).cache() == old(self).cache().trim_rows(ridx as int).trim_columns(
                cidx as int,
            ),
    {
        self.view_model.clean_rows(ridx);
        self.view_model.clean_columns(cidx);
    }
}

} // verus!
