//! Why drawing the same thing twice creates nothing the second time: the
//! second pass of the row-header column and the second round of label headers
//! make the same decisions as the first, on cells that are already there.
use vstd::prelude::*;

use crate::model::{bump, Cell, CellValue, Tag};
use crate::sizes::SizesView;
use crate::table::{label_base, label_heads, label_input, row_header_input};
use crate::tbody::ViewState;
use crate::tbody::{
    body_step, col_merges, col_off, depths_pass, grown_at, header_step, lemma_td_stop_first,
    lemma_td_stop_grows, pad_to, prev_col_of, prev_row_of, reset_at, row_merges, row_off,
    rows_pass, td_stop, body_pass, BodyInput, PassView,
};
use crate::thead::{
    forward_key, header_level, header_levels, header_pass, label_reset, new_header, th_drawn, update_if,
    GroupHeader, HeadInput, HeadView,
};
use crate::view_model::{lemma_clear_slot_slots, lemma_get_cell_slots, lemma_put_slots, CacheView};

verus! {

/// What the span decisions read of a slot: its value and which spans it has.
pub open spec fn proj(o: Option<Cell>) -> Option<(CellValue, bool, bool)> {
    match o {
        Some(c) => Some((c.meta.value, c.rowspan is None, c.colspan is None)),
        None => None,
    }
}

/// Whether a slot holds an element, and of which kind.
pub open spec fn kind_of(o: Option<Cell>) -> Option<Tag> {
    match o {
        Some(c) => Some(c.tag),
        None => None,
    }
}

pub open spec fn counters_positive(st: PassView) -> bool {
    &&& forall|j: int| 0 <= j < st.rspan.len() ==> #[trigger] st.rspan[j] >= 1
    &&& forall|j: int| 0 <= j < st.cspan.len() ==> #[trigger] st.cspan[j] >= 1
}

proof fn lemma_grown_positive(s: Seq<usize>, j: int, fill: usize)
    requires
        fill >= 1,
        0 <= j,
        forall|q: int| 0 <= q < s.len() ==> #[trigger] s[q] >= 1,
    ensures
        forall|q: int| 0 <= q < grown_at(s, j, fill).len() ==> #[trigger] grown_at(s, j, fill)[q] >= 1,
        j < grown_at(s, j, fill).len(),
{
    let p = pad_to(s, j, fill);
    assert forall|q: int| 0 <= q < p.len() implies #[trigger] p[q] >= 1 by {
        if q >= s.len() {
            assert(p[q] == fill);
        }
    }
}

proof fn lemma_reset_positive(s: Seq<usize>, j: int)
    requires
        0 <= j,
        forall|q: int| 0 <= q < s.len() ==> #[trigger] s[q] >= 1,
    ensures
        forall|q: int| 0 <= q < reset_at(s, j).len() ==> #[trigger] reset_at(s, j)[q] >= 1,
{
    assert forall|q: int| 0 <= q < reset_at(s, j).len() implies #[trigger] reset_at(s, j)[q] >= 1 by {
        if j < s.len() {
            if q != j {
                assert(reset_at(s, j)[q] == s[q]);
            }
        } else {
            if q < s.len() {
                assert(reset_at(s, j)[q] == s[q]);
            }
        }
    }
}

/// One row-header step, slot by slot: the step's own slot gets a new header
/// cell or becomes a hole, the cell whose run it extends gets that span, and
/// nothing else changes; when the slot already is what the step leaves there,
/// nothing is logged.
proof fn lemma_header_step(st: PassView, inp: BodyInput, i: int, r: int)
    requires
        inp.cidx == 0,
        0 <= i,
        0 <= r,
        counters_positive(st),
    ensures
        ({
            let s = header_step(st, inp, i, r);
            let cm = col_merges(st, inp, i, r);
            let rm = !cm && row_merges(st, inp, i, r);
            &&& s.ridx == r + 1
            &&& counters_positive(s)
            &&& s.cache.rows.len() == (if r < st.cache.rows.len() {
                st.cache.rows.len() as int
            } else {
                r + 1
            })
            &&& forall|a: int, b: int|
                (a != r || b != i) ==> #[trigger] kind_of(s.cache.cell(a, b)) == kind_of(
                    st.cache.cell(a, b),
                )
            &&& (cm || rm) ==> s.cache.cell(r, i) is None
            &&& !(cm || rm) ==> kind_of(s.cache.cell(r, i)) == Some(Tag::Th)
            &&& !(cm || rm) ==> proj(s.cache.cell(r, i)) == Some(
                (inp.header_value(r, i), true, true),
            )
            &&& forall|a: int, b: int|
                (a != r || b != i) && !(cm && a == r && b == i - col_off(st, r)) && !(rm && a == r
                    - row_off(st, i) && b == i) ==> #[trigger] proj(s.cache.cell(a, b)) == proj(
                    st.cache.cell(a, b),
                )
            &&& cm ==> proj(s.cache.cell(r, i - col_off(st, r))) == Some(
                (
                    prev_col_of(st, inp, i, r)->0.meta.value,
                    prev_col_of(st, inp, i, r)->0.rowspan is None,
                    false,
                ),
            )
            &&& rm ==> proj(s.cache.cell(r - row_off(st, i), i)) == Some(
                (
                    prev_row_of(st, inp, i, r)->0.meta.value,
                    false,
                    prev_row_of(st, inp, i, r)->0.colspan is None,
                ),
            )
            &&& (r < st.cache.rows.len() && ((cm || rm) ==> st.cache.cell(r, i) is None) && (!(cm
                || rm) ==> kind_of(st.cache.cell(r, i)) == Some(Tag::Th))) ==> s.cache.ops
                == st.cache.ops
        }),
{
    let cm = col_merges(st, inp, i, r);
    let rm = !cm && row_merges(st, inp, i, r);
    if cm {
        let coff = col_off(st, r);
        let cspan = grown_at(st.cspan, r, 1);
        lemma_grown_positive(st.cspan, r, 1);
        let x = Cell { colspan: Some(cspan[r]), ..prev_col_of(st, inp, i, r)->0 };
        lemma_put_slots(st.cache, r, i - coff, x);
        lemma_clear_slot_slots(st.cache.put(r, i - coff, x), r, i);
    } else if rm {
        let roff = row_off(st, i);
        let rspan = grown_at(st.rspan, i, 2);
        lemma_grown_positive(st.rspan, i, 2);
        let x = Cell { rowspan: Some(rspan[i]), ..prev_row_of(st, inp, i, r)->0 };
        lemma_put_slots(st.cache, r - roff, i, x);
        lemma_clear_slot_slots(st.cache.put(r - roff, i, x), r, i);
    } else {
        lemma_reset_positive(st.rspan, i);
        lemma_reset_positive(st.cspan, r);
        lemma_get_cell_slots(st.cache, Tag::Th, r, i);
        let m = st.cache.get_cell(Tag::Th, r, i);
        let d = crate::tbody::drawn_td(
            st.cache,
            Tag::Th,
            r,
            inp.header_value(r, i),
            i,
            inp.column_name,
            inp.ridx_offset,
            i as u64,
            inp.sizes,
        );
        let cell = m.rows[r][i]->0;
        let meta = crate::model::MetaData {
            y: Some((r + inp.ridx_offset) as usize),
            size_key: Some(i as u64),
            column_header: cell.meta.column_header,
            value: inp.header_value(r, i),
            ..cell.meta
        };
        let cell2 = crate::model::sized_cell(
            Cell { meta, content: crate::model::content_of(inp.header_value(r, i)), ..cell },
            crate::sizes::lookup(inp.sizes.overrides, i as u64),
            crate::sizes::lookup(inp.sizes.auto, i as u64),
        );
        lemma_put_slots(m, r, i, cell2);
        assert(d == m.put(r, i, cell2));
        let f = |x: Cell| crate::tbody::header_finished(x, r, i, inp);
        lemma_put_slots(d, r, i, f(cell2));
    }
}


/// A depth of the row-header column runs over rows `r..k`, `k` the cut-off.
proof fn lemma_rows_unfold(st: PassView, inp: BodyInput, i: int, r: nat)
    requires
        inp.th,
        r < td_stop(inp, 0),
    ensures
        rows_pass(st, inp, i, r) == (if r + 1 < td_stop(inp, 0) {
            rows_pass(body_step(st, inp, i, r as int), inp, i, r + 1)
        } else {
            body_step(st, inp, i, r as int)
        }),
{
    lemma_td_stop_grows(inp, 0);
    if inp.num_rows() > 0 {
        lemma_td_stop_first(inp, 0);
    }
    let k = td_stop(inp, 0);
    assert(r < inp.num_rows());
    let st1 = body_step(st, inp, i, r as int);
    assert(st1.ridx == r + 1);
    if r + 1 < k {
        assert(!inp.cut_off(r + 1));
    } else if !inp.cut_off(r + 1) {
        assert(k == inp.num_rows());
    }
}

/// In the pass from row `r` of depth `i`, only the slots of that depth from
/// row `r` down change kind; the depth ends at the cut-off with its rows present.
proof fn lemma_persist_rows(st: PassView, inp: BodyInput, i: int, r: nat)
    requires
        inp.th,
        inp.cidx == 0,
        0 <= i,
        r < td_stop(inp, 0),
        counters_positive(st),
    ensures
        rows_pass(st, inp, i, r).ridx == td_stop(inp, 0),
        rows_pass(st, inp, i, r).cache.rows.len() >= td_stop(inp, 0),
        rows_pass(st, inp, i, r).cache.rows.len() >= st.cache.rows.len(),
        counters_positive(rows_pass(st, inp, i, r)),
        forall|a: int, b: int|
            !(b == i && r <= a < td_stop(inp, 0)) ==> #[trigger] kind_of(
                rows_pass(st, inp, i, r).cache.cell(a, b),
            ) == kind_of(st.cache.cell(a, b)),
    decreases td_stop(inp, 0) - r,
{
    lemma_rows_unfold(st, inp, i, r);
    lemma_header_step(st, inp, i, r as int);
    let st1 = body_step(st, inp, i, r as int);
    if r + 1 < td_stop(inp, 0) {
        lemma_persist_rows(st1, inp, i, r + 1);
    }
}

/// In the pass from depth `i` on, only the slots of depths `i..` above the
/// cut-off change kind.
proof fn lemma_persist_depths(st: PassView, inp: BodyInput, i: nat)
    requires
        inp.th,
        inp.cidx == 0,
        td_stop(inp, 0) > 0,
        counters_positive(st),
    ensures
        i < inp.iterations ==> depths_pass(st, inp, i).ridx == td_stop(inp, 0),
        i < inp.iterations ==> depths_pass(st, inp, i).cache.rows.len() >= td_stop(inp, 0),
        i >= inp.iterations ==> depths_pass(st, inp, i) == st,
        depths_pass(st, inp, i).cache.rows.len() >= st.cache.rows.len(),
        counters_positive(depths_pass(st, inp, i)),
        forall|a: int, b: int|
            !(i <= b < inp.iterations && 0 <= a < td_stop(inp, 0)) ==> #[trigger] kind_of(
                depths_pass(st, inp, i).cache.cell(a, b),
            ) == kind_of(st.cache.cell(a, b)),
    decreases inp.iterations - i,
{
    if i < inp.iterations {
        let t = PassView { ridx: 0, ..st };
        lemma_persist_rows(t, inp, i as int, 0);
        let e1 = rows_pass(t, inp, i as int, 0);
        lemma_persist_depths(e1, inp, i + 1);
    }
}


proof fn lemma_trim_cells(m: CacheView, k: int)
    requires
        0 <= k,
    ensures
        m.trim_rows(k).rows.len() == (if k < m.rows.len() {
            k
        } else {
            m.rows.len() as int
        }),
        forall|a: int, b: int| a < k ==> #[trigger] m.trim_rows(k).cell(a, b) == m.cell(a, b),
{
}

/// The slots a pass has written once it reaches row `r` of depth `i`.
pub open spec fn visited(k: int, i: int, r: int, a: int, b: int) -> bool {
    0 <= a < k && 0 <= b && (b < i || (b == i && a < r))
}

/// A second pass at row `r` of depth `i`, next to the first pass at the same
/// point: same counters, the same decisions readable from the slots written so
/// far, and every slot not yet written as the first pass left it, with no
/// change logged.
pub open spec fn in_step(s1: PassView, s2: PassView, f: CacheView, inp: BodyInput, i: int, r: int) -> bool {
    let k = td_stop(inp, 0) as int;
    &&& s1.rspan == s2.rspan
    &&& s1.cspan == s2.cspan
    &&& s1.tds == s2.tds
    &&& s1.last == s2.last
    &&& counters_positive(s1)
    &&& s2.cache.ops == f.ops
    &&& s2.cache.rows.len() == k
    &&& forall|a: int, b: int|
        visited(k, i, r, a, b) ==> #[trigger] proj(s1.cache.cell(a, b)) == proj(s2.cache.cell(a, b))
    &&& forall|a: int, b: int|
        0 <= a < k && 0 <= b && !visited(k, i, r, a, b) ==> #[trigger] kind_of(s2.cache.cell(a, b))
            == kind_of(f.cell(a, b))
}

proof fn lemma_sim_rows(s1: PassView, s2: PassView, f: CacheView, inp: BodyInput, i: int, r: nat)
    requires
        inp.th,
        inp.cidx == 0,
        0 <= i < inp.iterations,
        r < td_stop(inp, 0),
        in_step(s1, s2, f, inp, i, r as int),
        f == depths_pass(rows_pass(s1, inp, i, r), inp, (i + 1) as nat).cache.trim_rows(
            td_stop(inp, 0) as int,
        ),
    ensures
        in_step(
            rows_pass(s1, inp, i, r),
            rows_pass(s2, inp, i, r),
            f,
            inp,
            i + 1,
            0,
        ),
        rows_pass(s1, inp, i, r).ridx == rows_pass(s2, inp, i, r).ridx,
    decreases td_stop(inp, 0) - r,
{
    let k = td_stop(inp, 0) as int;
    lemma_rows_unfold(s1, inp, i, r);
    lemma_rows_unfold(s2, inp, i, r);
    lemma_header_step(s1, inp, i, r as int);
    lemma_header_step(s2, inp, i, r as int);
    let t1 = body_step(s1, inp, i, r as int);
    let t2 = body_step(s2, inp, i, r as int);
    let ri = r as int;
    // the decisions read the same things in both passes
    let coff = col_off(s1, ri);
    let roff = row_off(s1, i);
    assert(coff >= 1 && roff >= 1);
    if i >= coff {
        assert(visited(k, i, ri, ri, i - coff));
        assert(proj(s1.cache.cell(ri, i - coff)) == proj(s2.cache.cell(ri, i - coff)));
    }
    if ri >= roff {
        assert(visited(k, i, ri, ri - roff, i));
        assert(proj(s1.cache.cell(ri - roff, i)) == proj(s2.cache.cell(ri - roff, i)));
    }
    assert(col_merges(s1, inp, i, ri) == col_merges(s2, inp, i, ri));
    assert(row_merges(s1, inp, i, ri) == row_merges(s2, inp, i, ri));
    // what the first pass leaves in this slot
    let e1 = rows_pass(s1, inp, i, r);
    if r + 1 < k {
        lemma_persist_rows(t1, inp, i, r + 1);
    }
    lemma_persist_depths(e1, inp, (i + 1) as nat);
    lemma_trim_cells(depths_pass(e1, inp, (i + 1) as nat).cache, k);
    assert(kind_of(f.cell(ri, i)) == kind_of(t1.cache.cell(ri, i)));
    assert(!visited(k, i, ri, ri, i));
    assert(kind_of(s2.cache.cell(ri, i)) == kind_of(f.cell(ri, i)));
    assert(t2.cache.ops == s2.cache.ops);
    assert forall|a: int, b: int| visited(k, i, ri + 1, a, b) implies #[trigger] proj(
        t1.cache.cell(a, b),
    ) == proj(t2.cache.cell(a, b)) by {
        if a != ri || b != i {
            assert(visited(k, i, ri, a, b));
        }
    }
    assert forall|a: int, b: int|
        0 <= a < k && 0 <= b && !visited(k, i, ri + 1, a, b) implies #[trigger] kind_of(
        t2.cache.cell(a, b),
    ) == kind_of(f.cell(a, b)) by {
        assert(!visited(k, i, ri, a, b));
    }
    if r + 1 < k {
        lemma_sim_rows(t1, t2, f, inp, i, r + 1);
    } else {
        assert forall|a: int, b: int| visited(k, i + 1, 0, a, b) implies #[trigger] proj(
            t1.cache.cell(a, b),
        ) == proj(t2.cache.cell(a, b)) by {
            assert(visited(k, i, ri + 1, a, b));
        }
        assert forall|a: int, b: int|
            0 <= a < k && 0 <= b && !visited(k, i + 1, 0, a, b) implies #[trigger] kind_of(
            t2.cache.cell(a, b),
        ) == kind_of(f.cell(a, b)) by {
            assert(!visited(k, i, ri + 1, a, b));
        }
    }
}


proof fn lemma_sim_depths(s1: PassView, s2: PassView, f: CacheView, inp: BodyInput, i: nat)
    requires
        inp.th,
        inp.cidx == 0,
        td_stop(inp, 0) > 0,
        in_step(s1, s2, f, inp, i as int, 0),
        s1.ridx == s2.ridx,
        f == depths_pass(s1, inp, i).cache.trim_rows(td_stop(inp, 0) as int),
    ensures
        depths_pass(s2, inp, i).cache.ops == f.ops,
        depths_pass(s2, inp, i).cache.rows.len() == td_stop(inp, 0),
        depths_pass(s2, inp, i).ridx == depths_pass(s1, inp, i).ridx,
    decreases inp.iterations - i,
{
    if i < inp.iterations {
        let t1 = PassView { ridx: 0, ..s1 };
        let t2 = PassView { ridx: 0, ..s2 };
        assert(in_step(t1, t2, f, inp, i as int, 0));
        lemma_sim_rows(t1, t2, f, inp, i as int, 0);
        let e1 = rows_pass(t1, inp, i as int, 0);
        let e2 = rows_pass(t2, inp, i as int, 0);
        lemma_sim_depths(e1, e2, f, inp, i + 1);
    }
}

proof fn lemma_no_rows(st: PassView, inp: BodyInput, i: nat)
    requires
        inp.num_rows() == 0,
    ensures
        depths_pass(st, inp, i) == (if i < inp.iterations {
            PassView { ridx: 0, ..st }
        } else {
            st
        }),
    decreases inp.iterations - i,
{
    if i < inp.iterations {
        lemma_no_rows(PassView { ridx: 0, ..st }, inp, i + 1);
    }
}

/// Drawing the row-header column a second time with the same inputs reuses
/// every element: whatever spans the first pass merged, the second pass makes
/// no structural change (no row or cell created, replaced or removed), keeps
/// the same rows, and reports the same number of rows.
pub proof fn lemma_redraw_row_headers_creates_nothing(m: CacheView, inp: BodyInput)
    requires
        inp.th,
        inp.cidx == 0,
    ensures
        body_pass(body_pass(m, inp).cache, inp).cache.ops == body_pass(m, inp).cache.ops,
        body_pass(body_pass(m, inp).cache, inp).cache.rows.len() == body_pass(
            m,
            inp,
        ).cache.rows.len(),
        body_pass(body_pass(m, inp).cache, inp).ridx == body_pass(m, inp).ridx,
{
    let init1 = PassView {
        cache: m,
        rspan: Seq::empty(),
        cspan: Seq::empty(),
        tds: Seq::empty(),
        last: None,
        ridx: 0,
    };
    let f = body_pass(m, inp).cache;
    let init2 = PassView { cache: f, ..init1 };
    lemma_td_stop_grows(inp, 0);
    let k = td_stop(inp, 0);
    if inp.iterations == 0 || inp.num_rows() == 0 {
        if inp.num_rows() == 0 {
            lemma_no_rows(init1, inp, 0);
            lemma_no_rows(init2, inp, 0);
        }
        lemma_trim_cells(m, 0);
        lemma_trim_cells(f, 0);
        assert(f.trim_rows(0) == f);
    } else {
        let e = depths_pass(init1, inp, 0);
        lemma_persist_depths(init1, inp, 0);
        lemma_trim_cells(e.cache, k as int);
        assert(f == e.cache.trim_rows(k as int));
        assert(f.rows.len() == k);
        assert(in_step(init1, init2, f, inp, 0, 0));
        lemma_sim_depths(init1, init2, f, inp, 0);
        let e2 = depths_pass(init2, inp, 0);
        assert(e2.cache.trim_rows(k as int) == e2.cache);
    }
}


/// The column offset of depth `d`, zero before the depth has one.
pub open spec fn offs_at(offs: Seq<usize>, d: int) -> int {
    if 0 <= d < offs.len() {
        offs[d] as int
    } else {
        0
    }
}

/// Whether depth `d` of a header pass opens a new cell (rather than extending
/// the open group).
pub open spec fn opens(st: HeadView, inp: HeadInput, d: int) -> bool {
    !(d < inp.parts.len() - 1 && d < st.groups.len() && st.groups[d].label == inp.parts[d])
}

proof fn lemma_update_if_slots(m: CacheView, r: int, c: int, f: spec_fn(Cell) -> Cell)
    requires
        forall|x: Cell| #[trigger] f(x).tag == x.tag,
    ensures
        update_if(m, r, c, f).rows.len() == m.rows.len(),
        update_if(m, r, c, f).ops == m.ops,
        forall|a: int, b: int| #[trigger] kind_of(update_if(m, r, c, f).cell(a, b)) == kind_of(m.cell(a, b)),
{
    match m.cell(r, c) {
        Some(x) => {
            lemma_put_slots(m, r, c, f(x));
        },
        None => {},
    }
}

proof fn lemma_forward_key_slots(m: CacheView, groups: Seq<GroupHeader>, j: nat, k: Option<u64>)
    ensures
        forward_key(m, groups, j, k).rows.len() == m.rows.len(),
        forward_key(m, groups, j, k).ops == m.ops,
        forall|a: int, b: int| #[trigger] kind_of(forward_key(m, groups, j, k).cell(a, b)) == kind_of(m.cell(a, b)),
    decreases groups.len() - j,
{
    if j < groups.len() {
        let g = groups[j as int];
        let f = |c: Cell| Cell { meta: crate::model::MetaData { size_key: k, ..c.meta }, ..c };
        lemma_update_if_slots(m, g.row as int, g.col as int, f);
        lemma_forward_key_slots(update_if(m, g.row as int, g.col as int, f), groups, j + 1, k);
    }
}

/// One depth of a header pass, slot by slot and offset by offset.
proof fn lemma_header_level(st: HeadView, inp: HeadInput, d: int)
    requires
        0 <= d < inp.parts.len(),
        d <= st.offsets.len(),
    ensures
        ({
            let s = header_level(st, inp, d);
            let o = offs_at(st.offsets, d);
            let fresh = opens(st, inp, d);
            &&& s.offsets.len() == (if d < st.offsets.len() {
                st.offsets.len() as int
            } else {
                d + 1
            })
            &&& forall|j: int| 0 <= j < s.offsets.len() && j != d ==> #[trigger] s.offsets[j] == st.offsets[j]
            &&& s.offsets[d] == (if fresh {
                bump(o as usize) as int
            } else {
                o
            })
            &&& s.cache.rows.len() == (if fresh && d >= st.cache.rows.len() {
                d + 1
            } else {
                st.cache.rows.len() as int
            })
            &&& forall|a: int, b: int|
                !(fresh && a == d && b == o) ==> #[trigger] kind_of(s.cache.cell(a, b)) == kind_of(
                    st.cache.cell(a, b),
                )
            &&& fresh ==> kind_of(s.cache.cell(d, o)) == Some(Tag::Th)
            &&& ((fresh ==> d < st.cache.rows.len() && kind_of(st.cache.cell(d, o)) == Some(
                Tag::Th,
            )) ==> s.cache.ops == st.cache.ops)
            &&& st.groups.len() <= st.offsets.len() ==> s.groups.len() <= s.offsets.len()
        }),
{
    let label = inp.parts[d];
    let st1 = if d >= st.offsets.len() {
        HeadView { offsets: st.offsets.push(0), ..st }
    } else {
        st
    };
    let o = offs_at(st.offsets, d);
    assert(st1.offsets[d] == o);
    let fresh = opens(st, inp, d);
    if fresh {
        lemma_get_cell_slots(st1.cache, Tag::Th, d, o);
        let m = st1.cache.get_cell(Tag::Th, d, o);
        let x = th_drawn(label_reset(m.rows[d][o]->0, label), label, inp);
        lemma_put_slots(m, d, o, x);
        let n = new_header(st1, inp, d);
        if d >= inp.parts.len() - 1 {
            lemma_forward_key_slots(n.cache, n.groups, 0, crate::thead::key_of(inp.size_key));
        }
    }
    let s = header_level(st, inp, d);
    let mid = if d < inp.parts.len() - 1 {
        if !fresh {
            let g = st1.groups[d];
            let span = bump(g.span);
            update_if(
                st1.cache,
                g.row as int,
                g.col as int,
                |c: Cell|
                    Cell {
                        colspan: Some(span),
                        meta: if inp.colspan {
                            crate::model::MetaData { row_header_x: crate::thead::key_of(inp.size_key), ..c.meta }
                        } else {
                            c.meta
                        },
                        ..c
                    },
            )
        } else {
            new_header(st1, inp, d).cache
        }
    } else {
        forward_key(
            new_header(st1, inp, d).cache,
            new_header(st1, inp, d).groups,
            0,
            crate::thead::key_of(inp.size_key),
        )
    };
    let meta_at = if d < inp.parts.len() - 1 && !fresh {
        st1.meta
    } else {
        Some(crate::model::CellRef { row: d as usize, col: o as usize })
    };
    match meta_at {
        Some(at) => {
            let f = |c: Cell|
                Cell {
                    meta: crate::model::MetaData {
                        x: inp.x,
                        column_header_y: Some(d as usize),
                        x0: inp.x0,
                        virtual_x: inp.virtual_x,
                        row_header_x: if inp.colspan {
                            crate::thead::key_of(inp.size_key)
                        } else {
                            c.meta.row_header_x
                        },
                        ..c.meta
                    },
                    ..c
                };
            lemma_update_if_slots(mid, at.row as int, at.col as int, f);
            assert(s.cache == update_if(mid, at.row as int, at.col as int, f));
        },
        None => {
            assert(s.cache == mid);
        },
    }
}


/// Every slot left of the column offset of its depth holds a header cell.
pub open spec fn kinds_ok(cache: CacheView, offs: Seq<usize>) -> bool {
    &&& cache.rows.len() >= offs.len()
    &&& forall|d: int, c: int|
        0 <= d < offs.len() && 0 <= c < offs[d] ==> #[trigger] kind_of(cache.cell(d, c)) == Some(
            Tag::Th,
        )
}

/// Depths `d0..` of a header pass: the offsets reach every depth of the path,
/// those of lower depths stay, the others grow by at most one, and slots left
/// of the offsets keep holding header cells.
proof fn lemma_levels_shape(st: HeadView, inp: HeadInput, d0: nat)
    requires
        d0 <= st.offsets.len(),
    ensures
        header_levels(st, inp, d0).offsets.len() == (if st.offsets.len() >= inp.parts.len() {
            st.offsets.len() as int
        } else {
            inp.parts.len() as int
        }),
        forall|j: int|
            0 <= j < d0 && j < st.offsets.len() ==> #[trigger] header_levels(st, inp, d0).offsets[j]
                == st.offsets[j],
        forall|j: int|
            d0 <= j < header_levels(st, inp, d0).offsets.len() ==> offs_at(st.offsets, j)
                <= #[trigger] header_levels(st, inp, d0).offsets[j] <= offs_at(st.offsets, j) + 1,
        st.groups.len() <= st.offsets.len() ==> header_levels(st, inp, d0).groups.len()
            <= header_levels(st, inp, d0).offsets.len(),
        (kinds_ok(st.cache, st.offsets) && st.groups.len() <= st.offsets.len()) ==> kinds_ok(
            header_levels(st, inp, d0).cache,
            header_levels(st, inp, d0).offsets,
        ),
    decreases inp.parts.len() - d0,
{
    if d0 < inp.parts.len() {
        let d = d0 as int;
        let s1 = header_level(st, inp, d);
        lemma_header_level(st, inp, d);
        if kinds_ok(st.cache, st.offsets) && st.groups.len() <= st.offsets.len() {
            let o = offs_at(st.offsets, d);
            assert forall|j: int, c: int|
                0 <= j < s1.offsets.len() && 0 <= c < s1.offsets[j] implies #[trigger] kind_of(
                s1.cache.cell(j, c),
            ) == Some(Tag::Th) by {
                if !(opens(st, inp, d) && j == d && c == o) {
                    if j != d {
                        assert(c < st.offsets[j]);
                    } else {
                        assert(c < o);
                    }
                }
            }
        }
        lemma_levels_shape(s1, inp, d0 + 1);
        let e = header_levels(s1, inp, d0 + 1);
        assert(header_levels(st, inp, d0) == e);
        assert forall|j: int| d0 <= j < e.offsets.len() implies offs_at(st.offsets, j)
            <= #[trigger] e.offsets[j] <= offs_at(st.offsets, j) + 1 by {
            if j == d {
                assert(e.offsets[j] == s1.offsets[j]);
            } else {
                assert(offs_at(s1.offsets, j) == offs_at(st.offsets, j));
            }
        }
    }
}

/// A whole header pass: the same, and the rows trimmed to the depths used.
proof fn lemma_pass_shape(st: HeadView, inp: HeadInput)
    ensures
        ({
            let e = header_pass(st, inp);
            &&& e.offsets.len() == (if st.offsets.len() >= inp.parts.len() {
                st.offsets.len() as int
            } else {
                inp.parts.len() as int
            })
            &&& forall|j: int|
                0 <= j < e.offsets.len() ==> offs_at(st.offsets, j) <= #[trigger] e.offsets[j]
                    <= offs_at(st.offsets, j) + 1
            &&& st.groups.len() <= st.offsets.len() ==> e.groups.len() <= e.offsets.len()
            &&& (kinds_ok(st.cache, st.offsets) && st.groups.len() <= st.offsets.len()) ==> kinds_ok(
                e.cache,
                e.offsets,
            ) && e.cache.rows.len() == e.offsets.len()
        }),
{
    let s0 = HeadView { th: None, meta: None, ..st };
    lemma_levels_shape(s0, inp, 0);
    let e = header_levels(s0, inp, 0);
    lemma_trim_cells(e.cache, e.offsets.len() as int);
}

/// The label headers drawn one after the other from no open offsets: every
/// depth of the path has an offset, none past the number of columns drawn, and
/// every slot left of them holds a header cell.
proof fn lemma_labels_shape(st: HeadView, base: HeadInput, k: nat)
    requires
        st.offsets.len() == 0,
        st.groups.len() == 0,
        base.parts.len() > 0,
    ensures
        ({
            let e = label_heads(st, base, k);
            &&& e.groups.len() <= e.offsets.len()
            &&& e.offsets.len() == (if k == 0 {
                0
            } else {
                base.parts.len() as int
            })
            &&& forall|j: int| 0 <= j < e.offsets.len() ==> #[trigger] e.offsets[j] <= k
            &&& k > 0 ==> kinds_ok(e.cache, e.offsets) && e.cache.rows.len() == e.offsets.len()
        }),
    decreases k,
{
    if k > 0 {
        let k1 = (k - 1) as nat;
        lemma_labels_shape(st, base, k1);
        let prev = label_heads(st, base, k1);
        lemma_pass_shape(prev, label_input(base, k1));
        let e = header_pass(prev, label_input(base, k1));
        assert forall|j: int| 0 <= j < e.offsets.len() implies #[trigger] e.offsets[j] <= k by {
            assert(offs_at(prev.offsets, j) <= k1);
        }
    }
}


proof fn lemma_clean_kinds(m: CacheView, offs: Seq<usize>)
    requires
        kinds_ok(m, offs),
    ensures
        kinds_ok(m.trim_columns_each(offs), offs),
        m.trim_columns_each(offs).rows.len() == m.rows.len(),
{
    let t = m.trim_columns_each(offs);
    assert forall|d: int, c: int| 0 <= d < offs.len() && 0 <= c < offs[d] implies #[trigger] kind_of(
        t.cell(d, c),
    ) == Some(Tag::Th) by {
        assert(kind_of(m.cell(d, c)) == Some(Tag::Th));
        assert(t.rows[d] == crate::view_model::truncated(m.rows[d], offs[d] as int));
    }
}

proof fn lemma_levels_indep(a: HeadView, b: HeadView, inp: HeadInput, d0: nat)
    requires
        a.offsets == b.offsets,
        a.groups == b.groups,
        a.meta == b.meta,
    ensures
        header_levels(a, inp, d0).offsets == header_levels(b, inp, d0).offsets,
        header_levels(a, inp, d0).groups == header_levels(b, inp, d0).groups,
        header_levels(a, inp, d0).meta == header_levels(b, inp, d0).meta,
    decreases inp.parts.len() - d0,
{
    if d0 < inp.parts.len() {
        let a1 = header_level(a, inp, d0 as int);
        let b1 = header_level(b, inp, d0 as int);
        assert(a1.offsets == b1.offsets);
        assert(a1.groups == b1.groups);
        assert(a1.meta == b1.meta);
        lemma_levels_indep(a1, b1, inp, d0 + 1);
    }
}

/// How the offsets and open groups of the label headers evolve does not
/// depend on what the section holds.
proof fn lemma_labels_indep(a: HeadView, b: HeadView, base: HeadInput, k: nat)
    requires
        a.offsets == b.offsets,
        a.groups == b.groups,
    ensures
        label_heads(a, base, k).offsets == label_heads(b, base, k).offsets,
        label_heads(a, base, k).groups == label_heads(b, base, k).groups,
    decreases k,
{
    if k > 0 {
        let k1 = (k - 1) as nat;
        lemma_labels_indep(a, b, base, k1);
        let pa = label_heads(a, base, k1);
        let pb = label_heads(b, base, k1);
        lemma_levels_indep(
            HeadView { th: None, meta: None, ..pa },
            HeadView { th: None, meta: None, ..pb },
            label_input(base, k1),
            0,
        );
    }
}

proof fn lemma_labels_grow(st: HeadView, base: HeadInput, k: nat, n: nat)
    requires
        st.offsets.len() == 0,
        st.groups.len() == 0,
        base.parts.len() > 0,
        0 < k <= n,
    ensures
        label_heads(st, base, n).offsets.len() == label_heads(st, base, k).offsets.len(),
        forall|j: int|
            0 <= j < label_heads(st, base, k).offsets.len() ==> #[trigger] label_heads(
                st,
                base,
                k,
            ).offsets[j] <= label_heads(st, base, n).offsets[j],
    decreases n - k,
{
    lemma_labels_shape(st, base, k);
    lemma_labels_shape(st, base, n);
    if k < n {
        lemma_labels_grow(st, base, k + 1, n);
        let p = label_heads(st, base, k);
        lemma_pass_shape(p, label_input(base, k));
        let e = label_heads(st, base, k + 1);
        assert forall|j: int| 0 <= j < p.offsets.len() implies #[trigger] p.offsets[j]
            <= label_heads(st, base, n).offsets[j] by {
            assert(offs_at(p.offsets, j) <= e.offsets[j]);
        }
    }
}

proof fn lemma_levels_again(st: HeadView, inp: HeadInput, d0: nat, off: Seq<usize>)
    requires
        d0 <= st.offsets.len(),
        st.groups.len() <= st.offsets.len(),
        kinds_ok(st.cache, off),
        st.cache.rows.len() == off.len(),
        header_levels(st, inp, d0).offsets.len() <= off.len(),
        forall|j: int|
            0 <= j < header_levels(st, inp, d0).offsets.len() ==> #[trigger] header_levels(
                st,
                inp,
                d0,
            ).offsets[j] <= off[j],
        forall|j: int| d0 <= j ==> #[trigger] offs_at(st.offsets, j) < usize::MAX,
    ensures
        header_levels(st, inp, d0).cache.ops == st.cache.ops,
        header_levels(st, inp, d0).cache.rows.len() == st.cache.rows.len(),
        kinds_ok(header_levels(st, inp, d0).cache, off),
    decreases inp.parts.len() - d0,
{
    if d0 < inp.parts.len() {
        let d = d0 as int;
        let s1 = header_level(st, inp, d);
        lemma_header_level(st, inp, d);
        let o = offs_at(st.offsets, d);
        assert(o < usize::MAX);
        lemma_levels_shape(s1, inp, d0 + 1);
        let e = header_levels(s1, inp, d0 + 1);
        assert(header_levels(st, inp, d0) == e);
        if opens(st, inp, d) {
            assert(e.offsets[d] == s1.offsets[d]);
            assert(o < off[d]);
            assert(kind_of(st.cache.cell(d, o)) == Some(Tag::Th));
        }
        assert(kinds_ok(s1.cache, off)) by {
            assert forall|j: int, c: int| 0 <= j < off.len() && 0 <= c < off[j] implies #[trigger] kind_of(
                s1.cache.cell(j, c),
            ) == Some(Tag::Th) by {
                assert(kind_of(st.cache.cell(j, c)) == Some(Tag::Th));
            }
        }
        assert forall|j: int| d0 + 1 <= j implies #[trigger] offs_at(s1.offsets, j) < usize::MAX by {
            assert(offs_at(st.offsets, j) < usize::MAX);
        }
        lemma_levels_again(s1, inp, d0 + 1, off);
    }
}

proof fn lemma_labels_again(c: HeadView, base: HeadInput, k: nat, n: nat, off: Seq<usize>)
    requires
        c.offsets.len() == 0,
        c.groups.len() == 0,
        base.parts.len() > 0,
        k <= n <= usize::MAX,
        off == label_heads(c, base, n).offsets,
        kinds_ok(c.cache, off),
        c.cache.rows.len() == off.len(),
    ensures
        label_heads(c, base, k).cache.ops == c.cache.ops,
        label_heads(c, base, k).cache.rows.len() == off.len(),
        kinds_ok(label_heads(c, base, k).cache, off),
    decreases k,
{
    if k > 0 {
        let k1 = (k - 1) as nat;
        lemma_labels_again(c, base, k1, n, off);
        let p = label_heads(c, base, k1);
        let inp = label_input(base, k1);
        lemma_labels_shape(c, base, k1);
        lemma_labels_shape(c, base, k);
        lemma_labels_shape(c, base, n);
        lemma_labels_grow(c, base, k, n);
        let s0 = HeadView { th: None, meta: None, ..p };
        lemma_levels_shape(s0, inp, 0);
        let e = header_levels(s0, inp, 0);
        assert(label_heads(c, base, k).offsets == e.offsets);
        assert forall|j: int| 0 <= j implies #[trigger] offs_at(s0.offsets, j) < usize::MAX by {
            if 0 <= j < p.offsets.len() {
                assert(p.offsets[j] <= k1);
            }
        }
        lemma_levels_again(s0, inp, 0, off);
        lemma_trim_cells(e.cache, e.offsets.len() as int);
    }
}

/// The header state after `clean`: each row cut to the columns written, and
/// no offsets or open groups.
pub open spec fn cleaned(h: HeadView) -> HeadView {
    HeadView {
        cache: h.cache.trim_columns_each(h.offsets),
        offsets: Seq::empty(),
        groups: Seq::empty(),
        th: None,
        meta: None,
    }
}

/// Drawing the row-header label headers again after `clean`, with the same
/// inputs, reuses every header cell: the second round makes no structural
/// change (no row or cell created, replaced or removed).
pub proof fn lemma_redraw_label_heads_creates_nothing(h0: HeadView, base: HeadInput, n: nat)
    requires
        h0.offsets.len() == 0,
        h0.groups.len() == 0,
        base.parts.len() > 0,
        n <= usize::MAX,
    ensures
        label_heads(cleaned(label_heads(h0, base, n)), base, n).cache.ops == cleaned(
            label_heads(h0, base, n),
        ).cache.ops,
{
    let h1 = label_heads(h0, base, n);
    let c = cleaned(h1);
    if n > 0 {
        lemma_labels_shape(h0, base, n);
        lemma_clean_kinds(h1.cache, h1.offsets);
        assert(h0.offsets =~= c.offsets);
        assert(h0.groups =~= c.groups);
        lemma_labels_indep(h0, c, base, n);
        lemma_labels_again(c, base, n, n, h1.offsets);
    }
}


/// Drawing the row headers of the same provider response twice, with the
/// header cleaned in between as each new pass does, creates nothing the second
/// time: neither the row-header column of the body nor the label headers
/// change structure.
pub proof fn lemma_redraw_table_row_headers(
    body: CacheView,
    head: HeadView,
    container_height: usize,
    row_headers: Seq<Seq<CellValue>>,
    column_name: CellValue,
    view_state: ViewState,
    size_key: u64,
    virtual_x: usize,
    sizes: SizesView,
    row_pivots: usize,
    column_pivots: usize,
    blank: u64,
    x0: u32,
)
    requires
        head.offsets.len() == 0,
        head.groups.len() == 0,
        column_pivots < usize::MAX,
    ensures
        ({
            let inp = row_header_input(
                container_height,
                row_headers,
                column_name,
                view_state,
                size_key,
                virtual_x,
                sizes,
            );
            body_pass(body_pass(body, inp).cache, inp).cache.ops == body_pass(body, inp).cache.ops
        }),
        ({
            let base = label_base(column_name, column_pivots, blank, x0, sizes);
            let again = cleaned(label_heads(head, base, row_pivots as nat));
            label_heads(again, base, row_pivots as nat).cache.ops == again.cache.ops
        }),
{
    let inp = row_header_input(
        container_height,
        row_headers,
        column_name,
        view_state,
        size_key,
        virtual_x,
        sizes,
    );
    lemma_redraw_row_headers_creates_nothing(body, inp);
    let base = label_base(column_name, column_pivots, blank, x0, sizes);
    lemma_redraw_label_heads_creates_nothing(head, base, row_pivots as nat);
}

} // verus!
