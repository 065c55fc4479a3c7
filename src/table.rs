use vstd::prelude::*;

use crate::model::{sized_cell, Cell, CellRef, CellValue};
use crate::sizes::{lookup, ColumnSizes, SizesView};
use crate::tbody::{body_pass, input_of, BodyDraw, BodyInput, ColumnState, RegularBodyViewModel, ViewState};
use crate::thead::{
    head_input_of, header_level, header_levels, header_pass, update_if, HeadInput, HeadView,
    HeaderDraw, RegularHeaderViewModel,
};
use crate::view_model::CacheView;

verus! {

/// The bottom cell of a column drawn in a pass, for autosizing: the cell to
/// measure and the cell whose metadata gives its size key.
#[derive(Clone, Copy, Debug, PartialEq, Eq, Structural)]
pub struct LastCell {
    pub in_header: bool,
    pub cell: CellRef,
    pub metadata: CellRef,
}

/// A last cell with the box it was rendered with: its content width and its
/// height, in pixels.
#[derive(Clone, Copy, Debug, PartialEq, Eq, Structural)]
pub struct Measured {
    pub last: LastCell,
    pub width: usize,
    pub height: usize,
}

/// What one row-header pass hands on to the next columns.
pub struct DrawState {
    pub cont_body: Option<BodyDraw>,
    pub first_col: bool,
    pub virtual_x: usize,
}

/// The abstract state of a table: both sections and the column sizes.
pub struct TableView {
    pub head: HeadView,
    pub body: CacheView,
    pub sizes: SizesView,
}

/// A cell whose inline `min-width` was left at `0px`, pinned to its measured width.
pub open spec fn pinned(c: Cell, w: usize) -> Cell {
    if c.min_width == Some(0usize) {
        Cell { min_width: Some(w), ..c }
    } else {
        c
    }
}

/// The sizes after one measured width of the size key `key` (if any) and one
/// measured height.
pub open spec fn sizes_measured(s: SizesView, key: Option<u64>, w: usize, h: usize) -> SizesView {
    let s1 = SizesView {
        row_height: if s.row_height is None {
            Some(h)
        } else {
            s.row_height
        },
        ..s
    };
    match key {
        Some(k) => SizesView {
            indices: s1.indices.insert(k, w),
            auto: if w != 0 && !s1.overrides.contains_key(k) {
                s1.auto.insert(k, w)
            } else {
                s1.auto
            },
            ..s1
        },
        None => s1,
    }
}

/// One measured cell taken into account.
pub open spec fn autosize_one(t: TableView, m: Measured) -> TableView {
    let l = m.last;
    let cache = if l.in_header {
        t.head.cache
    } else {
        t.body
    };
    let key = match cache.cell(l.metadata.row as int, l.metadata.col as int) {
        Some(c) => c.meta.size_key,
        None => None,
    };
    let f = |c: Cell| pinned(c, m.width);
    TableView {
        head: if l.in_header {
            HeadView {
                cache: update_if(t.head.cache, l.cell.row as int, l.cell.col as int, f),
                ..t.head
            }
        } else {
            t.head
        },
        body: if l.in_header {
            t.body
        } else {
            update_if(t.body, l.cell.row as int, l.cell.col as int, f)
        },
        sizes: sizes_measured(t.sizes, key, m.width, m.height),
    }
}

/// Every measured cell taken into account, the last one first.
pub open spec fn autosize_all(t: TableView, ms: Seq<Measured>) -> TableView
    decreases ms.len(),
{
    if ms.len() == 0 {
        t
    } else {
        autosize_all(autosize_one(t, ms.last()), ms.drop_last())
    }
}

/// The section a last cell belongs to.
pub open spec fn section(t: TableView, in_header: bool) -> CacheView {
    if in_header {
        t.head.cache
    } else {
        t.body
    }
}

/// An override width wins over an automatic one: a cell drawn under an
/// override gets it as both minimum and maximum width whatever the automatic
/// width, and a later autosizing of that cell, whatever width it measures,
/// keeps both and leaves the automatic width of the size key alone.
pub proof fn lemma_override_precedes_auto(t: TableView, m: Measured, k: u64)
    requires
        t.sizes.overrides.contains_key(k),
        t.sizes.overrides[k] != 0,
        section(t, m.last.in_header).cell(m.last.metadata.row as int, m.last.metadata.col as int)
            is Some,
        section(t, m.last.in_header).cell(
            m.last.metadata.row as int,
            m.last.metadata.col as int,
        )->0.meta.size_key == Some(k),
        section(t, m.last.in_header).cell(m.last.cell.row as int, m.last.cell.col as int) is Some,
        section(t, m.last.in_header).cell(
            m.last.cell.row as int,
            m.last.cell.col as int,
        )->0.min_width == Some(t.sizes.overrides[k]),
        section(t, m.last.in_header).cell(
            m.last.cell.row as int,
            m.last.cell.col as int,
        )->0.max_width == Some(t.sizes.overrides[k]),
    ensures
        forall|c: Cell, a: Option<usize>|
            #![trigger sized_cell(c, Some(t.sizes.overrides[k]), a)]
            sized_cell(c, Some(t.sizes.overrides[k]), a).min_width == Some(t.sizes.overrides[k])
                && sized_cell(c, Some(t.sizes.overrides[k]), a).max_width == Some(
                t.sizes.overrides[k],
            ),
        autosize_one(t, m).sizes.auto == t.sizes.auto,
        autosize_one(t, m).sizes.overrides == t.sizes.overrides,
        section(autosize_one(t, m), m.last.in_header).cell(
            m.last.cell.row as int,
            m.last.cell.col as int,
        ) == section(t, m.last.in_header).cell(m.last.cell.row as int, m.last.cell.col as int),
{
    let r = m.last.cell.row as int;
    let c = m.last.cell.col as int;
    section(t, m.last.in_header).lemma_put_same(r, c);
}

/// The header input of the `i`-th row-header label column.
pub open spec fn label_input(base: HeadInput, i: nat) -> HeadInput {
    HeadInput { size_key: seq![i as u64], virtual_x: Some(i as usize), ..base }
}

pub open spec fn stripped(h: HeadView) -> HeadView {
    HeadView { th: None, meta: None, ..h }
}

/// The header after the first `k` row-header label columns.
pub open spec fn label_heads(st: HeadView, base: HeadInput, k: nat) -> HeadView
    decreases k,
{
    if k == 0 {
        st
    } else {
        stripped(header_pass(label_heads(st, base, (k - 1) as nat), label_input(base, (k - 1) as nat)))
    }
}

/// What the `i`-th row-header label column reports.
pub open spec fn label_head(st: HeadView, base: HeadInput, i: nat) -> HeaderDraw {
    let h = header_pass(label_heads(st, base, i), label_input(base, i));
    HeaderDraw { th: h.th, metadata: h.meta }
}

/// A header pass over a non-empty path reports a cell touched and a cell drawn.
pub proof fn lemma_header_reports(st: HeadView, inp: HeadInput, d: nat)
    requires
        d < inp.parts.len(),
    ensures
        header_levels(st, inp, d).th is Some,
        header_levels(st, inp, d).meta is Some,
    decreases inp.parts.len() - d,
{
    if d + 1 < inp.parts.len() {
        lemma_header_reports(header_level(st, inp, d as int), inp, d + 1);
    } else {
        assert(header_levels(header_level(st, inp, d as int), inp, d + 1) == header_level(
            st,
            inp,
            d as int,
        ));
    }
}

/// The sum of the widths of the first `n` row-header label columns: the
/// measured width where `indices` has no entry.
pub open spec fn label_width(indices: Map<u64, usize>, measured: Seq<usize>, n: nat) -> int
    decreases n,
{
    if n == 0 {
        0
    } else {
        let i = (n - 1) as nat;
        label_width(indices, measured, i) + match lookup(indices, i as u64) {
            Some(w) => w as int,
            None => measured[i as int] as int,
        }
    }
}

/// The longest of the row-header paths.
pub open spec fn max_len(paths: Seq<Seq<CellValue>>, n: nat) -> nat
    decreases n,
{
    if n == 0 {
        0
    } else {
        let m = max_len(paths, (n - 1) as nat);
        let l = paths[n - 1].len();
        if l > m {
            l
        } else {
            m
        }
    }
}

/// Pads every row-header path with undefined values to the length of the
/// longest, and returns that length.
pub fn normalize_row_headers(row_headers: &mut Vec<Vec<CellValue>>) -> (r: usize)
    ensures
        r == max_len(old(row_headers)@.map_values(|p: Vec<CellValue>| p@), old(row_headers)@.len()),
        final(row_headers)@.len() == old(row_headers)@.len(),
        forall|i: int|
            0 <= i < old(row_headers)@.len() ==> #[trigger] final(row_headers)@[i]@ == old(
                row_headers,
            )@[i]@ + Seq::new(
                (r - old(row_headers)@[i]@.len()) as nat,
                |_j: int| CellValue::Undefined,
            ),
{
    let ghost paths = row_headers@.map_values(|p: Vec<CellValue>| p@);
    let n = row_headers.len();
    let mut m: usize = 0;
    let mut i: usize = 0;
    while i < n
        invariant
            i <= n,
            n == row_headers@.len(),
            paths == row_headers@.map_values(|p: Vec<CellValue>| p@),
            m == max_len(paths, i as nat),
            forall|j: int| 0 <= j < i ==> #[trigger] paths[j].len() <= m,
        decreases n - i,
    {
        let l = row_headers[i].len();
        if l > m {
            m = l;
        }
        i += 1;
    }
    let mut i: usize = 0;
    while i < n
        invariant
            i <= n,
            n == row_headers@.len(),
            paths.len() == n,
            m == max_len(paths, n as nat),
            forall|j: int| 0 <= j < n ==> #[trigger] paths[j].len() <= m,
            paths == old(row_headers)@.map_values(|p: Vec<CellValue>| p@),
            forall|j: int|
                0 <= j < i ==> #[trigger] row_headers@[j]@ == paths[j] + Seq::new(
                    (m - paths[j].len()) as nat,
                    |_k: int| CellValue::Undefined,
                ),
            forall|j: int| i <= j < n ==> #[trigger] row_headers@[j]@ == paths[j],
        decreases n - i,
    {
        let ghost before = row_headers@;
        let mut k = row_headers[i].len();
        while k < m
            invariant
                i < n,
                n == row_headers@.len(),
                paths[i as int].len() <= k <= m,
                row_headers@[i as int]@ == paths[i as int] + Seq::new(
                    (k - paths[i as int].len()) as nat,
                    |_k: int| CellValue::Undefined,
                ),
                forall|j: int| 0 <= j < n && j != i ==> #[trigger] row_headers@[j] == before[j],
            decreases m - k,
        {
            let ghost prev = row_headers@[i as int]@;
            row_headers[i].push(CellValue::Undefined);
            assert(row_headers@[i as int]@ =~= paths[i as int] + Seq::new(
                (k + 1 - paths[i as int].len()) as nat,
                |_k: int| CellValue::Undefined,
            ));
            k += 1;
        }
        i += 1;
    }
    m
}


/// What a row-header pass reports: the state for the next columns, and the
/// header cells of the row-header label columns.
pub struct RowHeaderDraw {
    pub state: DrawState,
    pub heads: Vec<HeaderDraw>,
}

/// The body input of the row-header column.
pub open spec fn row_header_input(
    container_height: usize,
    row_headers: Seq<Seq<CellValue>>,
    column_name: CellValue,
    view_state: ViewState,
    size_key: u64,
    virtual_x: usize,
    sizes: SizesView,
) -> BodyInput {
    BodyInput {
        th: true,
        container_height,
        cidx: 0,
        column_name,
        values: Seq::empty(),
        paths: Some(row_headers),
        row_height: view_state.row_height,
        iterations: view_state.row_headers_length as nat,
        ridx_offset: view_state.ridx_offset,
        x1: view_state.x1,
        y1: view_state.y1,
        x: None,
        x0: None,
        size_key,
        virtual_x,
        sizes,
    }
}

/// The header input shared by the row-header label columns: every depth of the
/// column pivots plus one, all blank.
pub open spec fn label_base(
    column_name: CellValue,
    column_pivots: usize,
    blank: u64,
    x0: u32,
    sizes: SizesView,
) -> HeadInput {
    head_input_of(
        column_name,
        Seq::new((column_pivots + 1) as nat, |_i: int| blank),
        true,
        None,
        Seq::empty(),
        Some(x0),
        None,
        sizes,
    )
}

/// The table: a header section, a body section, and the column sizes they share.
pub struct RegularTableViewModel {
    pub header: RegularHeaderViewModel,
    pub body: RegularBodyViewModel,
    pub column_sizes: ColumnSizes,
}

impl RegularTableViewModel {
    pub open spec fn table_view(&self) -> TableView {
        TableView { head: self.header.state(), body: self.body.cache(), sizes: self.column_sizes@ }
    }

    pub fn new() -> (r: RegularTableViewModel)
        ensures
            r.header.cache().rows.len() == 0,
            r.body.cache().rows.len() == 0,
            r.header.state().offsets.len() == 0,
            r.header.state().groups.len() == 0,
            r.column_sizes@.row_height is None,
            r.column_sizes@.overrides.is_empty(),
            r.column_sizes@.auto.is_empty(),
            r.column_sizes@.indices.is_empty(),
    {
        RegularTableViewModel {
            header: RegularHeaderViewModel::new(),
            body: RegularBodyViewModel::new(),
            column_sizes: ColumnSizes::new(),
        }
    }

    pub fn get_header(&self) -> (r: &RegularHeaderViewModel)
        ensures
            *r == self.header,
    {
        &self.header
    }

    pub fn get_body(&self) -> (r: &RegularBodyViewModel)
        ensures
            *r == self.body,
    {
        &self.body
    }

    pub fn get_column_sizes(&self) -> (r: &ColumnSizes)
        ensures
            *r == self.column_sizes,
    {
        &self.column_sizes
    }

    /// The number of column slots of the first header row.
    pub fn num_columns(&self) -> (r: usize)
        ensures
            r == (if self.header.cache().rows.len() == 0 {
                0
            } else {
                self.header.cache().rows[0].len()
            }),
    {
        self.header.num_columns()
    }

    fn autosize_one_exec(&mut self, m: Measured)
        ensures
            final(self).table_view() == autosize_one(old(self).table_view(), m),
    {
        let l = m.last;
        let meta_cell = if l.in_header {
            self.header.fetch_cell(l.metadata.row, l.metadata.col)
        } else {
            self.body.fetch_cell(l.metadata.row, l.metadata.col)
        };
        let key = match meta_cell {
            Some(c) => c.meta.size_key,
            None => None,
        };
        if self.column_sizes.row_height().is_none() {
            self.column_sizes.set_row_height(Some(m.height));
        }
        match key {
            Some(k) => {
                self.column_sizes.set_index(k, m.width);
                if m.width != 0 && !self.column_sizes.has_override(k) {
                    self.column_sizes.set_auto(k, m.width);
                }
            },
            None => {},
        }
        let cell = if l.in_header {
            self.header.fetch_cell(l.cell.row, l.cell.col)
        } else {
            self.body.fetch_cell(l.cell.row, l.cell.col)
        };
        match cell {
            Some(c) => {
                if c.min_width == Some(0usize) {
                    let mut c2 = c;
                    c2.min_width = Some(m.width);
                    if l.in_header {
                        self.header.update_cell(l.cell.row, l.cell.col, c2);
                    } else {
                        self.body.update_cell(l.cell.row, l.cell.col, c2);
                    }
                } else {
                    proof {
                        if l.in_header {
                            self.header.cache().lemma_put_same(l.cell.row as int, l.cell.col as int);
                        } else {
                            self.body.cache().lemma_put_same(l.cell.row as int, l.cell.col as int);
                        }
                    }
                }
            },
            None => {},
        }
        assert(self.table_view().sizes == autosize_one(old(self).table_view(), m).sizes);
    }

    /// Takes in the measured last cells of a pass, the most recent first: each
    /// records its width under its size key, sets the automatic width of a key
    /// that has no override when the width is not zero, sets the row height if
    /// still unknown, and pins a `0px` minimum width to the measured width.
    pub fn autosize_cells(&mut self, last_cells: &mut Vec<Measured>)
        ensures
            final(self).table_view() == autosize_all(old(self).table_view(), old(last_cells)@),
            final(last_cells)@.len() == 0,
    {
        while last_cells.len() > 0
            invariant
                autosize_all(self.table_view(), last_cells@) == autosize_all(
                    old(self).table_view(),
                    old(last_cells)@,
                ),
            decreases last_cells@.len(),
        {
            let ghost before = last_cells@;
            let m = last_cells.pop().unwrap();
            assert(last_cells@ == before.drop_last());
            self.autosize_one_exec(m);
        }
    }

    /// The width of the first `measured.len()` row-header label columns: for
    /// each, its recorded width, else the width measured on the page; the sum
    /// saturates at the largest `u64`.
    pub fn viewport_width(&self, measured: &Vec<usize>) -> (r: u64)
        ensures
            r == (if label_width(self.column_sizes@.indices, measured@, measured@.len())
                <= u64::MAX {
                label_width(self.column_sizes@.indices, measured@, measured@.len())
            } else {
                u64::MAX as int
            }),
    {
        let n = measured.len();
        let mut acc: u64 = 0;
        let mut i: usize = 0;
        while i < n
            invariant
                i <= n,
                n == measured@.len(),
                acc == (if label_width(self.column_sizes@.indices, measured@, i as nat)
                    <= u64::MAX {
                    label_width(self.column_sizes@.indices, measured@, i as nat)
                } else {
                    u64::MAX as int
                }),
                label_width(self.column_sizes@.indices, measured@, i as nat) >= 0,
            decreases n - i,
        {
            let w = match self.column_sizes.get_index(i as u64) {
                Some(w) => w,
                None => measured[i],
            };
            acc = acc.saturating_add(w as u64);
            i += 1;
        }
        acc
    }

    /// Draws the row-header column of the body (spans merged) and, for each
    /// row pivot, a blank header cell labelled by `column_name` above it.
    /// Unless `preserve_width`, the header cells are queued for autosizing.
    /// Nothing happens when there are no row headers.
    pub fn draw_row_headers(
        &mut self,
        draw_state: DrawState,
        last_cells: &mut Vec<LastCell>,
        row_headers: Vec<Vec<CellValue>>,
        column_name: CellValue,
        row_pivots: usize,
        column_pivots: usize,
        blank: u64,
        view_state: &ViewState,
        x0: u32,
        container_height: usize,
        preserve_width: bool,
    ) -> (res: RowHeaderDraw)
        requires
            view_state.ridx_offset + row_headers@.len() <= usize::MAX,
            column_pivots < usize::MAX,
            draw_state.virtual_x + x0 <= u64::MAX,
        ensures
            row_headers@.len() == 0 ==> {
                &&& final(self).table_view() == old(self).table_view()
                &&& res.state == draw_state
                &&& res.heads@.len() == 0
                &&& final(last_cells)@ == old(last_cells)@
            },
            row_headers@.len() > 0 ==> {
                let sizes = old(self).column_sizes@;
                let size_key = (draw_state.virtual_x + x0) as u64;
                let p = body_pass(
                    old(self).body.cache(),
                    row_header_input(
                        container_height,
                        row_headers@.map_values(|q: Vec<CellValue>| q@),
                        column_name,
                        *view_state,
                        size_key,
                        draw_state.virtual_x,
                        sizes,
                    ),
                );
                let base = label_base(column_name, column_pivots, blank, x0, sizes);
                let h0 = old(self).header.state();
                &&& final(self).body.cache() == p.cache
                &&& final(self).header.state() == label_heads(h0, base, row_pivots as nat)
                &&& final(self).column_sizes@ == sizes
                &&& res.heads@ == Seq::new(
                    row_pivots as nat,
                    |i: int| label_head(h0, base, i as nat),
                )
                &&& res.state.cont_body is Some
                &&& res.state.cont_body->0.tds@ == p.tds
                &&& res.state.cont_body->0.ridx == p.ridx
                &&& res.state.cont_body->0.metadata == p.last
                &&& res.state.cont_body->0.row_height == view_state.row_height
                &&& !res.state.first_col
                &&& res.state.virtual_x == row_headers@[0]@.len()
                &&& final(last_cells)@ == old(last_cells)@ + (if preserve_width {
                    Seq::empty()
                } else {
                    Seq::new(
                        row_pivots as nat,
                        |i: int|
                            LastCell {
                                in_header: true,
                                cell: label_head(h0, base, i as nat).th->0,
                                metadata: label_head(h0, base, i as nat).metadata->0,
                            },
                    )
                })
            },
    {
        if row_headers.len() == 0 {
            return RowHeaderDraw { state: draw_state, heads: Vec::new() };
        }
        let ghost sizes = self.column_sizes@;
        let ghost h0 = self.header.state();
        let size_key = draw_state.virtual_x as u64 + x0 as u64;
        let column_state = ColumnState {
            cidx: 0,
            column_name,
            column_data: Vec::new(),
            row_headers: Some(row_headers),
        };
        let cont_body = self.body.draw(
            container_height,
            &column_state,
            view_state,
            true,
            None,
            None,
            size_key,
            draw_state.virtual_x,
            &self.column_sizes,
        );
        let ghost body_inp = row_header_input(
            container_height,
            row_headers@.map_values(|q: Vec<CellValue>| q@),
            column_name,
            *view_state,
            size_key,
            draw_state.virtual_x,
            sizes,
        );
        assert(column_state.column_data@ =~= Seq::<CellValue>::empty());
        assert(input_of(
            container_height,
            column_state,
            *view_state,
            true,
            None,
            None,
            size_key,
            draw_state.virtual_x,
            sizes,
        ) == body_inp);
        let ghost body_after = self.body.cache();
        let mut labels: Vec<u64> = Vec::new();
        let mut k: usize = 0;
        while k <= column_pivots
            invariant
                k <= column_pivots + 1,
                column_pivots < usize::MAX,
                labels@ == Seq::new(k as nat, |_i: int| blank),
            decreases column_pivots + 1 - k,
        {
            labels.push(blank);
            assert(labels@ =~= Seq::new((k + 1) as nat, |_i: int| blank));
            k += 1;
        }
        let parts = Some(labels);
        let ghost base = label_base(column_name, column_pivots, blank, x0, sizes);
        let mut heads: Vec<HeaderDraw> = Vec::new();
        let mut i: usize = 0;
        while i < row_pivots
            invariant
                i <= row_pivots,
                parts is Some,
                parts->0@ == base.parts,
                base == label_base(column_name, column_pivots, blank, x0, sizes),
                self.column_sizes@ == sizes,
                self.body.cache() == body_after,
                self.header.state() == label_heads(h0, base, i as nat),
                heads@ == Seq::new(i as nat, |j: int| label_head(h0, base, j as nat)),
            decreases row_pivots - i,
        {
            let key: Vec<u64> = vec![i as u64];
            assert(key@ =~= seq![i as u64]);
            let h = self.header.draw(
                column_name,
                &parts,
                true,
                None,
                &key,
                Some(x0),
                Some(i),
                &self.column_sizes,
            );
            proof {
                assert(head_input_of(column_name, parts->0@, true, None, key@, Some(x0), Some(i as usize), sizes)
                    == label_input(base, i as nat));
            }
            heads.push(h);
            assert(heads@ =~= Seq::new((i + 1) as nat, |j: int| label_head(h0, base, j as nat)));
            i += 1;
        }
        let virtual_x = match &column_state.row_headers {
            Some(p) => p[0].len(),
            None => 0,
        };
        if !preserve_width {
            let ghost lc0 = last_cells@;
            let mut j: usize = 0;
            while j < row_pivots
                invariant
                    j <= row_pivots,
                    heads@ == Seq::new(row_pivots as nat, |q: int| label_head(h0, base, q as nat)),
                    base.parts.len() > 0,
                    last_cells@ == lc0 + Seq::new(
                        j as nat,
                        |q: int|
                            LastCell {
                                in_header: true,
                                cell: label_head(h0, base, q as nat).th->0,
                                metadata: label_head(h0, base, q as nat).metadata->0,
                            },
                    ),
                decreases row_pivots - j,
            {
                let h = heads[j];
                proof {
                    let st = stripped(label_heads(h0, base, j as nat));
                    lemma_header_reports(st, label_input(base, j as nat), 0);
                }
                match (h.th, h.metadata) {
                    (Some(t), Some(m)) => {
                        last_cells.push(LastCell { in_header: true, cell: t, metadata: m });
                    },
                    _ => {},
                }
                assert(last_cells@ =~= lc0 + Seq::new(
                    (j + 1) as nat,
                    |q: int|
                        LastCell {
                            in_header: true,
                            cell: label_head(h0, base, q as nat).th->0,
                            metadata: label_head(h0, base, q as nat).metadata->0,
                        },
                ));
                j += 1;
            }
        }
        assert(self.body.cache() == body_after);
        assert(self.header.state() == label_heads(h0, base, row_pivots as nat));
        RowHeaderDraw {
            state: DrawState { cont_body: Some(cont_body), first_col: false, virtual_x },
            heads,
        }
    }
}

} // verus!
