use vstd::prelude::*;

verus! {

/// Extra cells kept on each side of the visible index range.
pub const MARGIN: i64 = 3;

/// Number of cells from which the per-cell pass is skipped for a frame.
pub const CELL_BUDGET: i64 = 20_000;

/// Grid indices that one frame visits: a half-open range of rows and one of columns.
#[derive(Debug)]
pub struct VisibleArea {
    pub rows: std::ops::Range<usize>,
    pub cols: std::ops::Range<usize>,
}

/// Number of indices in a half-open range; zero when it is reversed.
pub open spec fn range_len(r: std::ops::Range<usize>) -> int {
    if r.start <= r.end {
        r.end - r.start
    } else {
        0
    }
}

/// `x` held to the interval `[lo, hi]` (with `lo <= hi`).
pub open spec fn clamp(x: int, lo: int, hi: int) -> int {
    if x < lo {
        lo
    } else if x > hi {
        hi
    } else {
        x
    }
}

/// End of the visible range on an axis of `extent` cells whose truncated upper logical bound is `hi`.
pub open spec fn range_end(extent: int, hi: int) -> int {
    clamp(hi + MARGIN, 0, extent)
}

/// Start of the visible range on an axis of `extent` cells with truncated bounds `lo` and `hi`.
pub open spec fn range_start(extent: int, lo: int, hi: int) -> int {
    clamp(lo - MARGIN, 0, range_end(extent, hi))
}

/// The grid indices of one axis that lie within the margin of the truncated bounds.
pub open spec fn in_margin(extent: int, lo: int, hi: int, i: int) -> bool {
    0 <= i < extent && lo - MARGIN <= i < hi + MARGIN
}

/// True when `r` is the range drawn on an axis of `extent` cells between truncated bounds `lo` and `hi`.
pub open spec fn is_visible_range(r: std::ops::Range<usize>, extent: int, lo: int, hi: int) -> bool {
    &&& r.start == range_start(extent, lo, hi)
    &&& r.end == range_end(extent, hi)
}

/// Index range of one axis that must be drawn: the cells between the truncated logical
/// bounds `lo` and `hi`, widened by the margin and held to `[0, extent)`.
/// The range is never reversed; it is empty where nothing of the axis is on screen.
pub fn visible_range(extent: usize, lo: i64, hi: i64) -> (r: std::ops::Range<usize>)
    ensures
        is_visible_range(r, extent as int, lo as int, hi as int),
        r.start <= r.end <= extent,
        forall|i: int| in_margin(extent as int, lo as int, hi as int, i) <==> r.start <= i < r.end,
{
    let hi_m: i128 = hi as i128 + MARGIN as i128;
    let end: usize = if hi_m < 0 {
        0
    } else if hi_m > extent as i128 {
        extent
    } else {
        hi_m as usize
    };
    let lo_m: i128 = lo as i128 - MARGIN as i128;
    let start: usize = if lo_m < 0 {
        0
    } else if lo_m > end as i128 {
        end
    } else {
        lo_m as usize
    };
    start..end
}

impl VisibleArea {
    /// Number of cells in the area.
    pub open spec fn cell_count(&self) -> int {
        range_len(self.rows) * range_len(self.cols)
    }

    /// Both ranges lie in a grid of `rows` by `cols` cells and are not reversed.
    pub open spec fn fits(&self, rows: int, cols: int) -> bool {
        &&& self.rows.start <= self.rows.end <= rows
        &&& self.cols.start <= self.cols.end <= cols
    }

    /// True when the area holds at least the cell budget, so the per-cell pass is skipped.
    pub fn is_too_big(&self) -> (r: bool)
        ensures
            r == (self.cell_count() >= CELL_BUDGET),
    {
        let dr: usize = if self.rows.start <= self.rows.end {
            self.rows.end - self.rows.start
        } else {
            0
        };
        let dc: usize = if self.cols.start <= self.cols.end {
            self.cols.end - self.cols.start
        } else {
            0
        };
        let ghost bound: int = 0x1_0000_0000_0000_0000;
        assert((dr as int) * (dc as int) < bound * bound) by (nonlinear_arith)
            requires
                0 <= dr < bound,
                0 <= dc < bound,
        ;
        (dr as u128) * (dc as u128) >= CELL_BUDGET as u128
    }
}

/// The area of a `rows` by `cols` grid to draw for a viewport whose corners, in logical
/// coordinates truncated toward zero, are `(min_x, min_y)` and `(max_x, max_y)`.
pub fn calc_visible_area(
    rows: usize,
    cols: usize,
    min_x: i64,
    min_y: i64,
    max_x: i64,
    max_y: i64,
) -> (r: VisibleArea)
    ensures
        is_visible_range(r.rows, rows as int, min_y as int, max_y as int),
        is_visible_range(r.cols, cols as int, min_x as int, max_x as int),
        r.fits(rows as int, cols as int),
{
    VisibleArea { rows: visible_range(rows, min_y, max_y), cols: visible_range(cols, min_x, max_x) }
}

/// The area drawn for a viewport holds exactly the grid cells within the margin of its
/// truncated logical corners: no index outside the grid, no cell of the viewport left out.
pub proof fn lemma_visible_area_exact(
    rows: int,
    cols: int,
    min_x: int,
    min_y: int,
    max_x: int,
    max_y: int,
    area: VisibleArea,
    r: int,
    c: int,
)
    requires
        0 <= rows,
        0 <= cols,
        is_visible_range(area.rows, rows, min_y, max_y),
        is_visible_range(area.cols, cols, min_x, max_x),
    ensures
        area.fits(rows, cols),
        (in_margin(rows, min_y, max_y, r) && in_margin(cols, min_x, max_x, c)) <==> (
        area.rows.start <= r < area.rows.end && area.cols.start <= c < area.cols.end),
{
}

} // verus!
