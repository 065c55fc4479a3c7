use vstd::prelude::*;

verus! {

/// Where the scroll container should scroll to.
#[derive(Clone, Copy, Debug, PartialEq, Eq, Structural)]
pub struct ScrollTo {
    pub top: i64,
    pub left: i64,
}

/// Geometry of the scroll container and of the virtual panel inside it.
#[derive(Clone, Copy, Debug, PartialEq, Eq, Structural)]
pub struct ScrollGeometry {
    pub client_width: i32,
    pub client_height: i32,
    pub scroll_top: i32,
    pub scroll_left: i32,
    pub scroll_height: i32,
    pub panel_height: i32,
    pub panel_width: i32,
}

/// An element on the way from an event's target up to the root.
#[derive(Clone, Copy, Debug, PartialEq, Eq, Structural)]
pub struct Ancestor {
    /// A `TD` or `TH` element.
    pub is_cell: bool,
    /// Inside the table's container.
    pub inside: bool,
}

pub open spec fn max_i(a: int, b: int) -> int {
    if a > b {
        a
    } else {
        b
    }
}

pub open spec fn min_i(a: int, b: int) -> int {
    if a < b {
        a
    } else {
        b
    }
}

/// How far the container can scroll down: at least 1.
pub open spec fn scroll_range(panel: int, client: int) -> int {
    max_i(1, panel - client)
}

fn scroll_range_exec(panel: i32, client: i32) -> (r: i64)
    ensures
        r == scroll_range(panel as int, client as int),
{
    let d = panel as i64 - client as i64;
    if d > 1 {
        d
    } else {
        1
    }
}

fn min_exec(a: i64, b: i64) -> (r: i64)
    ensures
        r == min_i(a as int, b as int),
{
    if a < b {
        a
    } else {
        b
    }
}

/// Whether a wheel event with vertical direction `sign` scrolls the container
/// (rather than the page): it moves down and the bottom is not reached, moves
/// up and the top is not reached, or it is not vertical.
pub open spec fn wheel_scrolls(sign: i32, g: ScrollGeometry) -> bool {
    (sign > 0 && g.scroll_top + g.client_height < g.scroll_height) || (sign < 0 && g.scroll_top
        > 0) || sign == 0
}

/// The scrolling state of the table's event handlers.
pub struct RegularViewEventModel {
    pub memo_touch_start_y: i32,
    pub memo_touch_start_x: i32,
}

impl RegularViewEventModel {
    pub fn new() -> (r: RegularViewEventModel)
        ensures
            r.memo_touch_start_x == 0,
            r.memo_touch_start_y == 0,
    {
        RegularViewEventModel { memo_touch_start_x: 0, memo_touch_start_y: 0 }
    }

    /// Remembers where a touch started.
    pub fn on_touchstart(&mut self, screen_x: i32, screen_y: i32)
        ensures
            final(self).memo_touch_start_x == screen_x,
            final(self).memo_touch_start_y == screen_y,
    {
        self.memo_touch_start_x = screen_x;
        self.memo_touch_start_y = screen_y;
    }

    /// The scroll position after a touch moved to `(screen_x, screen_y)`: the
    /// drag since the touch started, capped at the scroll range.
    pub fn on_touchmove(&self, g: ScrollGeometry, screen_x: i32, screen_y: i32) -> (r: ScrollTo)
        ensures
            r.top == min_i(
                scroll_range(g.panel_height as int, g.client_height as int),
                g.scroll_top + (self.memo_touch_start_y - screen_y),
            ),
            r.left == min_i(
                scroll_range(g.panel_width as int, g.client_width as int),
                g.scroll_left + (self.memo_touch_start_x - screen_x),
            ),
    {
        let total_h = scroll_range_exec(g.panel_height, g.client_height);
        let total_w = scroll_range_exec(g.panel_width, g.client_width);
        let top = g.scroll_top as i64 + (self.memo_touch_start_y as i64 - screen_y as i64);
        let left = g.scroll_left as i64 + (self.memo_touch_start_x as i64 - screen_x as i64);
        ScrollTo { top: min_exec(total_h, top), left: min_exec(total_w, left) }
    }

    /// The scroll position after a wheel event with deltas `(delta_x,
    /// delta_y)` and vertical direction `sign`, or `None` when the event is
    /// left to the page.
    pub fn on_mousewheel(&self, delta_x: i32, delta_y: i32, sign: i32, g: ScrollGeometry) -> (r:
        Option<ScrollTo>)
        ensures
            wheel_scrolls(sign, g) <==> r is Some,
            r is Some ==> r->0.top == min_i(
                scroll_range(g.panel_height as int, g.client_height as int),
                g.scroll_top + delta_y,
            ),
            r is Some ==> r->0.left == min_i(
                scroll_range(g.panel_width as int, g.client_width as int),
                g.scroll_left + delta_x,
            ),
    {
        let below = (g.scroll_top as i64 + g.client_height as i64) < g.scroll_height as i64;
        if (sign > 0 && below) || (sign < 0 && g.scroll_top > 0) || sign == 0 {
            let total_h = scroll_range_exec(g.panel_height, g.client_height);
            let total_w = scroll_range_exec(g.panel_width, g.client_width);
            let top = min_exec(total_h, g.scroll_top as i64 + delta_y as i64);
            let left = min_exec(total_w, g.scroll_left as i64 + delta_x as i64);
            Some(ScrollTo { top, left })
        } else {
            None
        }
    }
}

/// The first cell on the chain from the target up, such that every element
/// above the target up to it lies inside the table.
pub open spec fn nearest_cell_from(chain: Seq<Ancestor>, k: int) -> Option<usize>
    decreases chain.len() - k,
{
    if k < 0 || k >= chain.len() {
        None
    } else if chain[k].is_cell {
        Some(k as usize)
    } else if k + 1 < chain.len() && chain[k + 1].inside {
        nearest_cell_from(chain, k + 1)
    } else {
        None
    }
}

/// The index in `chain` (the event target, then its ancestors) of the table
/// cell an event lands on; `None` when the walk leaves the table or the
/// document first.
pub fn nearest_cell(chain: &Vec<Ancestor>) -> (r: Option<usize>)
    ensures
        r == nearest_cell_from(chain@, 0),
{
    let n = chain.len();
    let mut k: usize = 0;
    while k < n
        invariant
            k <= n,
            n == chain@.len(),
            nearest_cell_from(chain@, k as int) == nearest_cell_from(chain@, 0),
        decreases n - k,
    {
        if chain[k].is_cell {
            return Some(k);
        }
        if k + 1 < n && chain[k + 1].inside {
            k += 1;
        } else {
            return None;
        }
    }
    None
}

/// The cell a click lands on: only the main button counts.
pub fn on_click(button: i16, chain: &Vec<Ancestor>) -> (r: Option<usize>)
    ensures
        r == (if button == 0 {
            nearest_cell_from(chain@, 0)
        } else {
            None
        }),
{
    if button == 0 {
        nearest_cell(chain)
    } else {
        None
    }
}

} // verus!
