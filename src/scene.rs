use vstd::prelude::*;

use crate::field::{cost_at, cost_color, field_color, field_min_max, is_cost_range, Cell, Rgb};
use crate::image::{field_image, image_pixel, pix, PIXELS_PER_CELL};
use crate::input::{
    field_text_fails, is_field_text, move_count, moves_of, read_field, read_snake, read_usize,
    snake_text_fails, start_of,
};
use crate::number::usize_of;
use crate::scanner::{tokens_of, Scanner};
use crate::snake::{
    area_segments, is_parts_table, is_trace, paths_in_grid, snake_parts, visible_segments,
};
use crate::visible::{calc_visible_area, is_visible_range, VisibleArea};

verus! {

/// A loaded grid of costs with the paths traced over it.
pub struct Scene {
    pub rows: usize,
    pub cols: usize,
    /// Cost of each cell, row by row; `None` where the cell has none.
    pub a: Vec<Vec<Option<i64>>>,
    /// The paths, each as its cells in order.
    pub snakes: Vec<Vec<Cell>>,
    /// Least of zero and all costs.
    pub min_cost: i64,
    /// Greatest of zero and all costs.
    pub max_cost: i64,
    /// For each cell, the cells that follow it along the paths over an adjacent step.
    pub snake_parts: Vec<Vec<Vec<Cell>>>,
}

/// The path lengths that the input's header gives, the first `n` of them.
pub open spec fn lens_of(toks: Seq<Seq<char>>, n: int) -> Seq<usize> {
    Seq::new(n as nat, |k: int| usize_of(toks[3 + k])->0)
}

/// Where path `k` starts among the tokens of the path text.
pub open spec fn snake_offset(lens: Seq<usize>, k: int) -> int
    decreases k,
{
    if k <= 0 {
        0
    } else {
        snake_offset(lens, k - 1) + 2 + move_count(lens[k - 1] as int)
    }
}

/// The input's header: three numbers, then one length for each path.
pub open spec fn header_ok(toks: Seq<Seq<char>>) -> bool {
    &&& toks.len() >= 3
    &&& usize_of(toks[0]) is Some
    &&& usize_of(toks[1]) is Some
    &&& usize_of(toks[2]) is Some
    &&& toks.len() >= 3 + usize_of(toks[2])->0
    &&& forall|k: int| 0 <= k < usize_of(toks[2])->0 ==> (#[trigger] usize_of(toks[3 + k])) is Some
}

/// True when the tokens of the two texts write a scene.
pub open spec fn load_ok(toks: Seq<Seq<char>>, outs: Seq<Seq<char>>) -> bool {
    let cols = usize_of(toks[0])->0;
    let rows = usize_of(toks[1])->0;
    let n = usize_of(toks[2])->0;
    let lens = lens_of(toks, n as int);
    &&& header_ok(toks)
    &&& !field_text_fails(toks.skip(3 + n), rows * cols)
    &&& forall|k: int| 0 <= k < n ==> !snake_text_fails(
        #[trigger] outs.skip(snake_offset(lens, k)),
        lens[k] as int,
        rows as int,
        cols as int,
    )
}

/// True when `path` is path `k` as the path text writes it.
pub open spec fn is_snake_of(path: Seq<Cell>, outs: Seq<Seq<char>>, lens: Seq<usize>, k: int, rows: int, cols: int) -> bool {
    let t = outs.skip(snake_offset(lens, k));
    is_trace(path, start_of(t), moves_of(t.subrange(2, 2 + move_count(lens[k] as int))), rows, cols)
}

/// True when the scene's size, field and paths are the ones the tokens write.
pub open spec fn is_loaded(s: Scene, toks: Seq<Seq<char>>, outs: Seq<Seq<char>>) -> bool {
    let n = usize_of(toks[2])->0;
    let lens = lens_of(toks, n as int);
    &&& usize_of(toks[0]) == Some(s.cols)
    &&& usize_of(toks[1]) == Some(s.rows)
    &&& is_field_text(toks.skip(3 + n), s.rows as int, s.cols as int, s.a@)
    &&& s.snakes@.len() == n
    &&& forall|k: int| 0 <= k < n ==> is_snake_of(#[trigger] s.snakes@[k]@, outs, lens, k, s.rows as int, s.cols as int)
}

impl Scene {
    /// The field is `rows` by `cols`, the cost range and the segment table agree with it,
    /// and every path lies in the grid.
    pub open spec fn wf(&self) -> bool {
        &&& self.a@.len() == self.rows
        &&& forall|i: int| 0 <= i < self.rows ==> (#[trigger] self.a@[i])@.len() == self.cols
        &&& is_cost_range(self.a@, self.min_cost as int, self.max_cost as int)
        &&& paths_in_grid(self.snakes@, self.rows as int, self.cols as int)
        &&& is_parts_table(self.snake_parts@, self.snakes@, self.rows as int, self.cols as int)
    }

    /// A scene read from two texts. `input` holds the number of columns, of rows and of
    /// paths, then the length of each path, then the costs row by row (`*` for none).
    /// `output` holds each path as the column and row of its start and one move letter
    /// (`R`, `D`, `L`, `U`) for each further cell; the grid's edges wrap.
    /// `None` exactly where a text ends early, a token does not parse, or a path starts outside the grid.
    pub fn load(input: &str, output: &str) -> (r: Option<Scene>)
        ensures
            r is Some <==> load_ok(tokens_of(input@), tokens_of(output@)),
            r matches Some(s) ==> s.wf() && is_loaded(s, tokens_of(input@), tokens_of(output@)),
    {
        let mut sc = Scanner::new(input);
        let ghost toks = sc@;
        let ghost outs = tokens_of(output@);
        let cols = match read_usize(&mut sc) {
            Some(v) => v,
            None => return None,
        };
        let rows = match read_usize(&mut sc) {
            Some(v) => v,
            None => return None,
        };
        let n = match read_usize(&mut sc) {
            Some(v) => v,
            None => return None,
        };
        assert(sc@ =~= toks.skip(3));
        let mut lens: Vec<usize> = Vec::new();
        let mut i: usize = 0;
        while i < n
            invariant
                toks == tokens_of(input@),
                toks.len() >= 3,
                usize_of(toks[0]) == Some(cols),
                usize_of(toks[1]) == Some(rows),
                usize_of(toks[2]) == Some(n),
                0 <= i <= n,
                3 + i <= toks.len(),
                sc@ == toks.skip(3 + i),
                lens@ == lens_of(toks, i as int),
                forall|k: int| 0 <= k < i ==> (#[trigger] usize_of(toks[3 + k])) is Some,
            decreases n - i,
        {
            match read_usize(&mut sc) {
                Some(v) => lens.push(v),
                None => {
                    proof {
                        if toks.len() >= 3 + n {
                            assert(usize_of(toks[3 + i]) is None);
                        }
                    }
                    return None;
                },
            }
            assert(sc@ =~= toks.skip(3 + i + 1));
            assert(lens@ =~= lens_of(toks, i + 1));
            i += 1;
        }
        assert(header_ok(toks));
        let a = match read_field(&mut sc, rows, cols) {
            Some(a) => a,
            None => return None,
        };
        let mut out = Scanner::new(output);
        let mut snakes: Vec<Vec<Cell>> = Vec::new();
        let mut k: usize = 0;
        while k < n
            invariant
                toks == tokens_of(input@),
                outs == tokens_of(output@),
                header_ok(toks),
                usize_of(toks[0]) == Some(cols),
                usize_of(toks[1]) == Some(rows),
                usize_of(toks[2]) == Some(n),
                lens@ == lens_of(toks, n as int),
                !field_text_fails(toks.skip(3 + n), rows * cols),
                is_field_text(toks.skip(3 + n), rows as int, cols as int, a@),
                0 <= k <= n,
                0 <= snake_offset(lens@, k as int) <= outs.len(),
                out@ == outs.skip(snake_offset(lens@, k as int)),
                snakes@.len() == k,
                paths_in_grid(snakes@, rows as int, cols as int),
                forall|k2: int| 0 <= k2 < k ==> !snake_text_fails(
                    #[trigger] outs.skip(snake_offset(lens@, k2)),
                    lens@[k2] as int,
                    rows as int,
                    cols as int,
                ),
                forall|k2: int| 0 <= k2 < k ==> is_snake_of(#[trigger] snakes@[k2]@, outs, lens@, k2, rows as int, cols as int),
            decreases n - k,
        {
            let ghost at = out@;
            let snake = match read_snake(&mut out, lens[k], rows, cols) {
                Some(p) => p,
                None => return None,
            };
            let ghost before = snakes@;
            snakes.push(snake);
            proof {
                let off = snake_offset(lens@, k as int);
                let mc = move_count(lens@[k as int] as int);
                assert(snake_offset(lens@, k + 1) == off + 2 + mc);
                assert(at == outs.skip(off));
                assert(!snake_text_fails(at, lens@[k as int] as int, rows as int, cols as int));
                assert(at.len() >= 2 + mc);
                assert(out@ =~= outs.skip(snake_offset(lens@, k + 1)));
                assert forall|k2: int, j: int|
                    0 <= k2 < snakes@.len() && 0 <= j < snakes@[k2]@.len() implies crate::snake::in_grid(
                    #[trigger] snakes@[k2]@[j],
                    rows as int,
                    cols as int,
                ) by {
                    if k2 < k {
                        assert(snakes@[k2] == before[k2]);
                    }
                }
                assert forall|k2: int| 0 <= k2 < k + 1 implies is_snake_of(#[trigger] snakes@[k2]@, outs, lens@, k2, rows as int, cols as int) by {
                    if k2 < k {
                        assert(snakes@[k2] == before[k2]);
                    }
                }
            }
            k += 1;
        }
        let (min_cost, max_cost) = field_min_max(a.as_slice());
        let parts = snake_parts(snakes.as_slice(), rows, cols);
        Some(Scene { rows, cols, a, snakes, min_cost, max_cost, snake_parts: parts })
    }

    /// The area to draw for a viewport whose corners, in logical coordinates truncated
    /// toward zero, are `(min_x, min_y)` and `(max_x, max_y)`.
    pub fn calc_visible_area(&self, min_x: i64, min_y: i64, max_x: i64, max_y: i64) -> (r: VisibleArea)
        ensures
            is_visible_range(r.rows, self.rows as int, min_y as int, max_y as int),
            is_visible_range(r.cols, self.cols as int, min_x as int, max_x as int),
            r.fits(self.rows as int, self.cols as int),
    {
        calc_visible_area(self.rows, self.cols, min_x, min_y, max_x, max_y)
    }

    /// Color of the cell at `row`, `col`.
    pub fn field_color(&self, row: usize, col: usize) -> (r: Rgb)
        requires
            self.wf(),
            row < self.rows,
            col < self.cols,
        ensures
            r == cost_color(cost_at(self.a@, row as int, col as int), self.min_cost as int, self.max_cost as int),
    {
        field_color(self.a.as_slice(), self.min_cost, self.max_cost, row, col)
    }

    /// The field as an image of `PIXELS_PER_CELL` pixels a side for each cell, row-major,
    /// with the paths drawn over it.
    pub fn field_image(&self) -> (img: Vec<Rgb>)
        requires
            self.wf(),
            self.cols * PIXELS_PER_CELL <= usize::MAX,
            self.rows * PIXELS_PER_CELL <= usize::MAX,
            (self.cols * PIXELS_PER_CELL) * (self.rows * PIXELS_PER_CELL) <= usize::MAX,
        ensures
            img@.len() == (self.cols * PIXELS_PER_CELL) * (self.rows * PIXELS_PER_CELL),
            forall|x: int, y: int|
                0 <= x < self.cols * PIXELS_PER_CELL && 0 <= y < self.rows * PIXELS_PER_CELL
                    ==> #[trigger] img@[pix((self.cols * PIXELS_PER_CELL) as int, x, y)] == image_pixel(
                    self.a@,
                    self.min_cost as int,
                    self.max_cost as int,
                    self.snakes@,
                    x,
                    y,
                ),
    {
        field_image(self.a.as_slice(), self.min_cost, self.max_cost, self.snakes.as_slice(), self.rows, self.cols)
    }

    /// The path segments that start in the visible area, each as the pair of its cells.
    pub fn visible_segments(&self, vis: &VisibleArea) -> (r: Vec<(Cell, Cell)>)
        requires
            self.wf(),
            vis.fits(self.rows as int, self.cols as int),
        ensures
            r@ == area_segments(
                self.snake_parts@,
                vis.rows.start as int,
                vis.rows.end as int,
                vis.cols.start as int,
                vis.cols.end as int,
            ),
    {
        visible_segments(self.snake_parts.as_slice(), vis)
    }
}

} // verus!
