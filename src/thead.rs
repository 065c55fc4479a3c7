use vstd::prelude::*;

use crate::model::{bump, sized_cell, Cell, CellRef, CellValue, Content, DomOp, MetaData, Tag};
use crate::sizes::{lookup, ColumnSizes, SizesView};
use crate::view_model::{CacheView, ViewModel};

verus! {

/// The group header open at one depth: its cell, its label and how many
/// columns it spans.
#[derive(Clone, Copy, Debug, PartialEq, Eq, Structural)]
pub struct GroupHeader {
    pub row: usize,
    pub col: usize,
    pub label: u64,
    pub span: usize,
}

/// What a header pass reports: the last header cell touched and the last one
/// drawn afresh.
#[derive(Clone, Copy, Debug, PartialEq, Eq, Structural)]
pub struct HeaderDraw {
    pub th: Option<CellRef>,
    pub metadata: Option<CellRef>,
}

/// The inputs of a header pass, as plain values.
pub struct HeadInput {
    pub alias: CellValue,
    /// The column's path of labels, one per depth (interned strings).
    pub parts: Seq<u64>,
    pub colspan: bool,
    pub x: Option<u32>,
    /// The size key path; sizing applies only when it has at most one entry.
    pub size_key: Seq<u64>,
    pub x0: Option<u32>,
    pub virtual_x: Option<usize>,
    pub sizes: SizesView,
}

/// The state a header pass carries from depth to depth.
pub struct HeadView {
    pub cache: CacheView,
    pub offsets: Seq<usize>,
    pub groups: Seq<GroupHeader>,
    pub th: Option<CellRef>,
    pub meta: Option<CellRef>,
}

/// `s` with `g` at `j`, or `g` pushed when `j` is past the end.
pub open spec fn set_or_push_group(s: Seq<GroupHeader>, j: int, g: GroupHeader) -> Seq<GroupHeader> {
    if j < s.len() {
        s.update(j, g)
    } else {
        s.push(g)
    }
}

/// The key of a size key path: its first entry.
pub open spec fn key_of(sk: Seq<u64>) -> Option<u64> {
    if sk.len() > 0 {
        Some(sk[0])
    } else {
        None
    }
}

pub open spec fn lookup_key(m: Map<u64, usize>, k: Option<u64>) -> Option<usize> {
    match k {
        Some(k) => lookup(m, k),
        None => None,
    }
}

/// The slot `(r, c)` transformed by `f` when it holds an element.
pub open spec fn update_if(m: CacheView, r: int, c: int, f: spec_fn(Cell) -> Cell) -> CacheView {
    match m.cell(r, c) {
        Some(cell) => m.put(r, c, f(cell)),
        None => m,
    }
}

/// A header cell reset for a new label at its depth.
pub open spec fn label_reset(cell: Cell, label: u64) -> Cell {
    Cell { clip: false, colspan: None, min_width: Some(0), content: Content::Label(label), ..cell }
}

/// A header cell given its label, column and size key, and sized.
pub open spec fn th_drawn(cell: Cell, label: u64, inp: HeadInput) -> Cell {
    let c = Cell {
        meta: MetaData {
            column_header: inp.alias,
            value: CellValue::Text(label),
            size_key: key_of(inp.size_key),
            ..cell.meta
        },
        ..cell
    };
    if inp.size_key.len() <= 1 {
        sized_cell(
            c,
            lookup_key(inp.sizes.overrides, key_of(inp.size_key)),
            lookup_key(inp.sizes.auto, key_of(inp.size_key)),
        )
    } else {
        c
    }
}

/// A new header cell at depth `d`, in the next column of that depth.
pub open spec fn new_header(st: HeadView, inp: HeadInput, d: int) -> HeadView {
    let label = inp.parts[d];
    let col = st.offsets[d] as int;
    let m = st.cache.get_cell(Tag::Th, d, col);
    let m2 = m.put(d, col, th_drawn(label_reset(m.rows[d][col]->0, label), label, inp));
    let at = CellRef { row: d as usize, col: col as usize };
    HeadView {
        cache: m2,
        offsets: st.offsets.update(d, bump(col as usize)),
        th: Some(at),
        meta: Some(at),
        ..st
    }
}

/// Every open group's metadata given the size key `k`, in order from `j`.
pub open spec fn forward_key(m: CacheView, groups: Seq<GroupHeader>, j: nat, k: Option<u64>) -> CacheView
    decreases groups.len() - j,
{
    if j >= groups.len() {
        m
    } else {
        let g = groups[j as int];
        let m2 = update_if(
            m,
            g.row as int,
            g.col as int,
            |c: Cell| Cell { meta: MetaData { size_key: k, ..c.meta }, ..c },
        );
        forward_key(m2, groups, j + 1, k)
    }
}

/// One depth of a header pass: at the leaf depth always a new cell; above it
/// the open group is extended when its label is the same, else a new group opens.
pub open spec fn header_level(st0: HeadView, inp: HeadInput, d: int) -> HeadView {
    let label = inp.parts[d];
    let st = if d >= st0.offsets.len() {
        HeadView { offsets: st0.offsets.push(0), ..st0 }
    } else {
        st0
    };
    let st2 = if d < inp.parts.len() - 1 {
        if d < st.groups.len() && st.groups[d].label == label {
            let g = st.groups[d];
            let span = bump(g.span);
            let m = update_if(
                st.cache,
                g.row as int,
                g.col as int,
                |c: Cell|
                    Cell {
                        colspan: Some(span),
                        meta: if inp.colspan {
                            MetaData { row_header_x: key_of(inp.size_key), ..c.meta }
                        } else {
                            c.meta
                        },
                        ..c
                    },
            );
            HeadView {
                cache: m,
                groups: st.groups.update(d, GroupHeader { span, ..g }),
                th: Some(CellRef { row: g.row, col: g.col }),
                ..st
            }
        } else {
            let n = new_header(st, inp, d);
            let g = GroupHeader { row: d as usize, col: st.offsets[d], label, span: 1 };
            HeadView { groups: set_or_push_group(st.groups, d, g), ..n }
        }
    } else {
        let n = new_header(st, inp, d);
        HeadView { cache: forward_key(n.cache, n.groups, 0, key_of(inp.size_key)), ..n }
    };
    match st2.meta {
        Some(at) => HeadView {
            cache: update_if(
                st2.cache,
                at.row as int,
                at.col as int,
                |c: Cell|
                    Cell {
                        meta: MetaData {
                            x: inp.x,
                            column_header_y: Some(d as usize),
                            x0: inp.x0,
                            virtual_x: inp.virtual_x,
                            row_header_x: if inp.colspan {
                                key_of(inp.size_key)
                            } else {
                                c.meta.row_header_x
                            },
                            ..c.meta
                        },
                        ..c
                    },
            ),
            ..st2
        },
        None => st2,
    }
}

/// Depths `d..` of a header pass.
pub open spec fn header_levels(st: HeadView, inp: HeadInput, d: nat) -> HeadView
    decreases inp.parts.len() - d,
{
    if d >= inp.parts.len() {
        st
    } else {
        header_levels(header_level(st, inp, d as int), inp, d + 1)
    }
}

/// A whole header pass: every depth, then header rows past the deepest depth
/// ever used trimmed.
pub open spec fn header_pass(st: HeadView, inp: HeadInput) -> HeadView {
    let e = header_levels(HeadView { th: None, meta: None, ..st }, inp, 0);
    HeadView { cache: e.cache.trim_rows(e.offsets.len() as int), ..e }
}


/// The inputs of a header pass, read from its arguments.
pub open spec fn head_input_of(
    alias: CellValue,
    parts: Seq<u64>,
    colspan: bool,
    x: Option<u32>,
    size_key: Seq<u64>,
    x0: Option<u32>,
    virtual_x: Option<usize>,
    sizes: SizesView,
) -> HeadInput {
    HeadInput { alias, parts, colspan, x, size_key, x0, virtual_x, sizes }
}

fn key_of_exec(sk: &Vec<u64>) -> (r: Option<u64>)
    ensures
        r == key_of(sk@),
{
    if sk.len() > 0 {
        Some(sk[0])
    } else {
        None
    }
}

fn th_drawn_exec(
    cell: Cell,
    label: u64,
    alias: CellValue,
    size_key: &Vec<u64>,
    sizes: &ColumnSizes,
    inp: Ghost<HeadInput>,
) -> (r: Cell)
    requires
        inp@.alias == alias,
        inp@.size_key == size_key@,
        inp@.sizes == sizes@,
    ensures
        r == th_drawn(cell, label, inp@),
{
    let key = key_of_exec(size_key);
    let mut c = cell;
    c.meta.column_header = alias;
    c.meta.value = CellValue::Text(label);
    c.meta.size_key = key;
    if size_key.len() <= 1 {
        let (over, auto) = match key {
            Some(k) => (sizes.get_override(k), sizes.get_auto(k)),
            None => (None, None),
        };
        crate::model::apply_sizing(c, over, auto)
    } else {
        c
    }
}

/// Draws the column headers, one column path per call, merging equal
/// consecutive group labels into spanning cells.
pub struct RegularHeaderViewModel {
    view_model: ViewModel,
    offset_cache: Vec<usize>,
    group_header_cache: Vec<GroupHeader>,
}

impl RegularHeaderViewModel {
    pub closed spec fn state(&self) -> HeadView {
        HeadView {
            cache: self.view_model@,
            offsets: self.offset_cache@,
            groups: self.group_header_cache@,
            th: None,
            meta: None,
        }
    }

    pub open spec fn cache(&self) -> CacheView {
        self.state().cache
    }

    pub fn new() -> (r: RegularHeaderViewModel)
        ensures
            r.cache().rows.len() == 0,
            r.cache().ops.len() == 0,
            r.state().offsets.len() == 0,
            r.state().groups.len() == 0,
    {
        RegularHeaderViewModel {
            view_model: ViewModel::new(),
            offset_cache: Vec::new(),
            group_header_cache: Vec::new(),
        }
    }

    pub fn view_model(&self) -> (r: &ViewModel)
        ensures
            r@ == self.cache(),
    {
        &self.view_model
    }

    /// The log of structural changes, handed over and cleared.
    pub fn take_ops(&mut self) -> (r: Vec<DomOp>)
        ensures
            r@ == old(self).cache().ops,
            final(self).cache().rows == old(self).cache().rows,
            final(self).cache().ops.len() == 0,
            final(self).state().offsets == old(self).state().offsets,
            final(self).state().groups == old(self).state().groups,
    {
        self.view_model.take_ops()
    }

    pub fn num_rows(&self) -> (r: usize)
        ensures
            r == self.cache().rows.len(),
    {
        self.view_model.num_rows()
    }

    pub fn num_columns(&self) -> (r: usize)
        ensures
            r == (if self.cache().rows.len() == 0 {
                0
            } else {
                self.cache().rows[0].len()
            }),
    {
        self.view_model.num_columns()
    }

    pub fn fetch_cell(&self, r: usize, c: usize) -> (res: Option<Cell>)
        ensures
            res == self.cache().cell(r as int, c as int),
    {
        self.view_model.fetch_cell(r, c)
    }

    /// The header cell of column `cidx` in the last header row, created if absent.
    pub fn get_column_header(&mut self, cidx: usize) -> (res: CellRef)
        requires
            old(self).cache().rows.len() > 0,
        ensures
            res == (CellRef { row: (old(self).cache().rows.len() - 1) as usize, col: cidx }),
            final(self).cache() == old(self).cache().get_cell(
                Tag::Th,
                res.row as int,
                cidx as int,
            ),
            final(self).state().offsets == old(self).state().offsets,
            final(self).state().groups == old(self).state().groups,
    {
        let nrows = self.view_model.num_rows() - 1;
        self.view_model.get_cell(Tag::Th, nrows, cidx);
        CellRef { row: nrows, col: cidx }
    }

    /// Trims each header row to the columns written in this pass, and forgets
    /// the pass's column offsets and open groups.
    pub fn clean(&mut self)
        ensures
            final(self).cache() == old(self).cache().trim_columns_each(old(self).state().offsets),
            final(self).state().offsets.len() == 0,
            final(self).state().groups.len() == 0,
    {
        self.view_model.clean_columns_cache(&self.offset_cache);
        self.offset_cache = Vec::new();
        self.group_header_cache = Vec::new();
    }

    closed spec fn current(&self, th: Option<CellRef>, meta: Option<CellRef>) -> HeadView {
        HeadView {
            cache: self.view_model@,
            offsets: self.offset_cache@,
            groups: self.group_header_cache@,
            th,
            meta,
        }
    }

    fn new_header_exec(
        &mut self,
        d: usize,
        label: u64,
        alias: CellValue,
        size_key: &Vec<u64>,
        sizes: &ColumnSizes,
        inp: Ghost<HeadInput>,
    ) -> (at: CellRef)
        requires
            d < old(self).offset_cache@.len(),
            inp@.parts.len() > d,
            inp@.parts[d as int] == label,
            inp@.alias == alias,
            inp@.size_key == size_key@,
            inp@.sizes == sizes@,
        ensures
            final(self).current(Some(at), Some(at)) == new_header(
                old(self).current(None, None),
                inp@,
                d as int,
            ),
            at.col == old(self).offset_cache@[d as int],
            final(self).offset_cache@.len() == old(self).offset_cache@.len(),
    {
        let col = self.offset_cache[d];
        self.offset_cache.set(
            d,
            if col < usize::MAX {
                col + 1
            } else {
                col
            },
        );
        self.view_model.get_cell(Tag::Th, d, col);
        let cell = self.view_model.fetch_cell(d, col).unwrap();
        let mut reset = cell;
        reset.clip = false;
        reset.colspan = None;
        reset.min_width = Some(0);
        reset.content = Content::Label(label);
        let drawn = th_drawn_exec(reset, label, alias, size_key, sizes, inp);
        self.view_model.put_cell(d, col, drawn);
        CellRef { row: d, col }
    }

    fn forward_key_exec(&mut self, k: Option<u64>)
        ensures
            final(self).view_model@ == forward_key(
                old(self).view_model@,
                old(self).group_header_cache@,
                0,
                k,
            ),
            final(self).offset_cache == old(self).offset_cache,
            final(self).group_header_cache == old(self).group_header_cache,
    {
        let n = self.group_header_cache.len();
        let mut j: usize = 0;
        while j < n
            invariant
                j <= n,
                n == self.group_header_cache@.len(),
                self.offset_cache == old(self).offset_cache,
                self.group_header_cache == old(self).group_header_cache,
                forward_key(self.view_model@, self.group_header_cache@, j as nat, k) == forward_key(
                    old(self).view_model@,
                    old(self).group_header_cache@,
                    0,
                    k,
                ),
            decreases n - j,
        {
            let g = self.group_header_cache[j];
            match self.view_model.fetch_cell(g.row, g.col) {
                Some(cell) => {
                    let mut c = cell;
                    c.meta.size_key = k;
                    self.view_model.put_cell(g.row, g.col, c);
                },
                None => {},
            }
            j += 1;
        }
    }

    fn level(
        &mut self,
        d: usize,
        alias: CellValue,
        parts: &Vec<u64>,
        colspan: bool,
        x: Option<u32>,
        size_key: &Vec<u64>,
        x0: Option<u32>,
        virtual_x: Option<usize>,
        sizes: &ColumnSizes,
        th: &mut Option<CellRef>,
        meta: &mut Option<CellRef>,
        inp: Ghost<HeadInput>,
    )
        requires
            d < parts@.len(),
            d <= old(self).offset_cache@.len(),
            inp@ == head_input_of(alias, parts@, colspan, x, size_key@, x0, virtual_x, sizes@),
        ensures
            final(self).current(*final(th), *final(meta)) == header_level(
                old(self).current(*old(th), *old(meta)),
                inp@,
                d as int,
            ),
            final(self).offset_cache@.len() >= d + 1,
    {
        let ghost st0 = self.current(*th, *meta);
        let label = parts[d];
        if d >= self.offset_cache.len() {
            self.offset_cache.push(0);
        }
        let ghost st = self.current(*th, *meta);
        assert(st == (if d >= st0.offsets.len() {
            HeadView { offsets: st0.offsets.push(0), ..st0 }
        } else {
            st0
        }));
        if d < parts.len() - 1 {
            let same = d < self.group_header_cache.len() && self.group_header_cache[d].label
                == label;
            if same {
                let g = self.group_header_cache[d];
                let span = if g.span < usize::MAX {
                    g.span + 1
                } else {
                    g.span
                };
                match self.view_model.fetch_cell(g.row, g.col) {
                    Some(cell) => {
                        let mut c = cell;
                        c.colspan = Some(span);
                        if colspan {
                            c.meta.row_header_x = key_of_exec(size_key);
                        }
                        self.view_model.put_cell(g.row, g.col, c);
                    },
                    None => {},
                }
                self.group_header_cache.set(d, GroupHeader { span, ..g });
                *th = Some(CellRef { row: g.row, col: g.col });
            } else {
                let col = self.offset_cache[d];
                let at = self.new_header_exec(d, label, alias, size_key, sizes, inp);
                let g = GroupHeader { row: d, col, label, span: 1 };
                if d < self.group_header_cache.len() {
                    self.group_header_cache.set(d, g);
                } else {
                    self.group_header_cache.push(g);
                }
                *th = Some(at);
                *meta = Some(at);
            }
        } else {
            let at = self.new_header_exec(d, label, alias, size_key, sizes, inp);
            *th = Some(at);
            *meta = Some(at);
            let k = key_of_exec(size_key);
            self.forward_key_exec(k);
        }
        match *meta {
            Some(at) => {
                match self.view_model.fetch_cell(at.row, at.col) {
                    Some(cell) => {
                        let mut c = cell;
                        c.meta.x = x;
                        c.meta.column_header_y = Some(d);
                        c.meta.x0 = x0;
                        c.meta.virtual_x = virtual_x;
                        if colspan {
                            c.meta.row_header_x = key_of_exec(size_key);
                        }
                        self.view_model.put_cell(at.row, at.col, c);
                    },
                    None => {},
                }
            },
            None => {},
        }
    }

    /// Draws the header cells of one column from its path of labels `parts`
    /// (`None`: nothing to draw), then trims header rows beyond the deepest
    /// depth used. Returns the last header cell touched and the last one drawn
    /// afresh.
    pub fn draw(
        &mut self,
        alias: CellValue,
        parts: &Option<Vec<u64>>,
        colspan: bool,
        x: Option<u32>,
        size_key: &Vec<u64>,
        x0: Option<u32>,
        virtual_x: Option<usize>,
        sizes: &ColumnSizes,
    ) -> (res: HeaderDraw)
        ensures
            match parts {
                None => final(self).state() == old(self).state() && res == (HeaderDraw {
                    th: None,
                    metadata: None,
                }),
                Some(p) => {
                    let h = header_pass(
                        old(self).state(),
                        head_input_of(alias, p@, colspan, x, size_key@, x0, virtual_x, sizes@),
                    );
                    &&& final(self).state() == (HeadView { th: None, meta: None, ..h })
                    &&& res.th == h.th
                    &&& res.metadata == h.meta
                },
            },
    {
        let parts = match parts {
            Some(p) => p,
            None => {
                return HeaderDraw { th: None, metadata: None };
            },
        };
        let ghost inp = head_input_of(alias, parts@, colspan, x, size_key@, x0, virtual_x, sizes@);
        let mut th: Option<CellRef> = None;
        let mut meta: Option<CellRef> = None;
        let ghost init = self.current(None, None);
        let levels = parts.len();
        let mut d: usize = 0;
        while d < levels
            invariant
                d <= levels,
                levels == parts@.len(),
                d <= self.offset_cache@.len(),
                inp == head_input_of(alias, parts@, colspan, x, size_key@, x0, virtual_x, sizes@),
                header_levels(self.current(th, meta), inp, d as nat) == header_levels(
                    init,
                    inp,
                    0,
                ),
            decreases levels - d,
        {
            self.level(
                d,
                alias,
                parts,
                colspan,
                x,
                size_key,
                x0,
                virtual_x,
                sizes,
                &mut th,
                &mut meta,
                Ghost(inp),
            );
            d += 1;
        }
        let keep = self.offset_cache.len();
        self.view_model.clean_rows(keep);
        HeaderDraw { th, metadata: meta }
    }

    /// Overwrites the record of an occupied header slot.
    pub fn update_cell(&mut self, r: usize, c: usize, cell: Cell)
        requires
            old(self).cache().cell(r as int, c as int) is Some,
        ensures
            final(self).state() == (HeadView {
                cache: old(self).cache().put(r as int, c as int, cell),
                ..old(self).state()
            }),
    {
        self.view_model.put_cell(r, c, cell);
    }

    /// Labels the header cell at `at` as a group: its column and label
    /// recorded, its classes cleared. A hole or an untracked slot is left alone.
    pub fn draw_group(&mut self, column: CellValue, column_name: u64, at: CellRef)
        ensures
            final(self).state() == (HeadView {
                cache: update_if(
                    old(self).cache(),
                    at.row as int,
                    at.col as int,
                    |c: Cell|
                        Cell {
                            clip: false,
                            meta: MetaData {
                                column_header: column,
                                value: CellValue::Text(column_name),
                                ..c.meta
                            },
                            ..c
                        },
                ),
                ..old(self).state()
            }),
    {
        match self.view_model.fetch_cell(at.row, at.col) {
            Some(cell) => {
                let mut c = cell;
                c.meta.column_header = column;
                c.meta.value = CellValue::Text(column_name);
                c.clip = false;
                self.view_model.put_cell(at.row, at.col, c);
            },
            None => {},
        }
    }
}

} // verus!
