use vstd::prelude::*;

use crate::field::{cost_at, cost_color, field_color, is_cost_range, Cell, Rgb};
use crate::snake::{adjacent, in_grid, is_adjacent, paths_in_grid};

verus! {

/// Side of the square of pixels that stands for one cell in the field image.
pub const PIXELS_PER_CELL: usize = 5;

/// Color of the path lines in the field image: blue.
pub open spec fn path_color() -> Rgb {
    Rgb { r: 0, g: 0, b: 255 }
}

/// Position of pixel `(x, y)` in a row-major image `w` pixels wide.
pub open spec fn pix(w: int, x: int, y: int) -> int {
    y * w + x
}

/// Pixel coordinate of the center of cell index `i` along one axis.
pub open spec fn center(i: int) -> int {
    i * PIXELS_PER_CELL + PIXELS_PER_CELL / 2
}

/// Least of two integers.
pub open spec fn min2(a: int, b: int) -> int {
    if a <= b { a } else { b }
}

/// Greatest of two integers.
pub open spec fn max2(a: int, b: int) -> int {
    if a <= b { b } else { a }
}

/// True when pixel `(x, y)` lies on the line between the centers of cells `a` and `b`.
pub open spec fn covers(a: Cell, b: Cell, x: int, y: int) -> bool {
    &&& min2(center(a.col as int), center(b.col as int)) <= x <= max2(center(a.col as int), center(b.col as int))
    &&& min2(center(a.row as int), center(b.row as int)) <= y <= max2(center(a.row as int), center(b.row as int))
}

/// True when a step of path `k` out of its cell `i` is drawn: to an adjacent cell.
pub open spec fn drawn_step(paths: Seq<Vec<Cell>>, k: int, i: int) -> bool {
    &&& 0 <= k < paths.len()
    &&& 0 <= i
    &&& i + 1 < paths[k]@.len()
    &&& adjacent(paths[k]@[i], paths[k]@[i + 1])
}

/// True when a drawn step among the first `k` paths, or among the first `i` steps of path `k`,
/// passes over pixel `(x, y)`.
pub open spec fn covered_upto(paths: Seq<Vec<Cell>>, k: int, i: int, x: int, y: int) -> bool {
    exists|k2: int, i2: int|
        (k2 < k || (k2 == k && i2 < i)) && #[trigger] drawn_step(paths, k2, i2) && covers(
            paths[k2]@[i2],
            paths[k2]@[i2 + 1],
            x,
            y,
        )
}

/// Color of pixel `(x, y)` of the field image: the path color where a drawn step passes over
/// it, else the color of the cell it lies in.
pub open spec fn image_pixel(
    a: Seq<Vec<Option<i64>>>,
    lo: int,
    hi: int,
    paths: Seq<Vec<Cell>>,
    x: int,
    y: int,
) -> Rgb {
    if covered_upto(paths, paths.len() as int, 0, x, y) {
        path_color()
    } else {
        cost_color(cost_at(a, y / PIXELS_PER_CELL as int, x / PIXELS_PER_CELL as int), lo, hi)
    }
}

proof fn lemma_pix_unique(w: int, x1: int, y1: int, x2: int, y2: int)
    requires
        0 <= x1 < w,
        0 <= x2 < w,
        0 <= y1,
        0 <= y2,
        pix(w, x1, y1) == pix(w, x2, y2),
    ensures
        x1 == x2 && y1 == y2,
{
    assert(y1 == y2) by (nonlinear_arith)
        requires
            0 <= x1 < w,
            0 <= x2 < w,
            0 <= y1,
            0 <= y2,
            y1 * w + x1 == y2 * w + x2,
    ;
}

proof fn lemma_pix_bound(w: int, h: int, x: int, y: int)
    requires
        0 <= x < w,
        0 <= y < h,
    ensures
        0 <= pix(w, x, y) < w * h,
        0 <= y * w <= pix(w, x, y),
        pix(w, x, y) + 1 <= (y + 1) * w,
{
    assert(0 <= y * w + x < w * h && y * w + x + 1 <= (y + 1) * w) by (nonlinear_arith)
        requires
            0 <= x < w,
            0 <= y < h,
    ;
}

/// Paints with the path color the pixels of the line between the centers of adjacent cells
/// `a` and `b`; leaves every other pixel as it was.
fn paint_step(img: &mut Vec<Rgb>, w: usize, h: usize, a: Cell, b: Cell)
    requires
        old(img)@.len() == w * h,
        w * h <= usize::MAX,
        center(a.col as int) < w,
        center(b.col as int) < w,
        center(a.row as int) < h,
        center(b.row as int) < h,
    ensures
        final(img)@.len() == w * h,
        forall|x: int, y: int|
            0 <= x < w && 0 <= y < h ==> #[trigger] final(img)@[pix(w as int, x, y)] == if covers(a, b, x, y) {
                path_color()
            } else {
                old(img)@[pix(w as int, x, y)]
            },
{
    let ac: usize = a.col * PIXELS_PER_CELL + PIXELS_PER_CELL / 2;
    let bc: usize = b.col * PIXELS_PER_CELL + PIXELS_PER_CELL / 2;
    let ar: usize = a.row * PIXELS_PER_CELL + PIXELS_PER_CELL / 2;
    let br: usize = b.row * PIXELS_PER_CELL + PIXELS_PER_CELL / 2;
    let x0: usize = if ac <= bc { ac } else { bc };
    let x1: usize = if ac <= bc { bc } else { ac };
    let y0: usize = if ar <= br { ar } else { br };
    let y1: usize = if ar <= br { br } else { ar };
    let ghost start = img@;
    let mut y: usize = y0;
    while y <= y1
        invariant
            y0 <= y <= y1 + 1,
            y1 < h,
            x0 <= x1 < w,
            x0 == min2(center(a.col as int), center(b.col as int)),
            x1 == max2(center(a.col as int), center(b.col as int)),
            y0 == min2(center(a.row as int), center(b.row as int)),
            y1 == max2(center(a.row as int), center(b.row as int)),
            img@.len() == w * h,
            w * h <= usize::MAX,
            start.len() == w * h,
            forall|px: int, py: int|
                0 <= px < w && 0 <= py < h ==> #[trigger] img@[pix(w as int, px, py)] == if covers(a, b, px, py) && py < y {
                    path_color()
                } else {
                    start[pix(w as int, px, py)]
                },
        decreases y1 + 1 - y,
    {
        let mut x: usize = x0;
        while x <= x1
            invariant
                y0 <= y <= y1 < h,
                x0 <= x <= x1 + 1,
                x1 < w,
                x0 == min2(center(a.col as int), center(b.col as int)),
                x1 == max2(center(a.col as int), center(b.col as int)),
                y0 == min2(center(a.row as int), center(b.row as int)),
                y1 == max2(center(a.row as int), center(b.row as int)),
                img@.len() == w * h,
                w * h <= usize::MAX,
                start.len() == w * h,
                forall|px: int, py: int|
                    0 <= px < w && 0 <= py < h ==> #[trigger] img@[pix(w as int, px, py)] == if covers(a, b, px, py) && (py < y || (py == y && px < x)) {
                        path_color()
                    } else {
                        start[pix(w as int, px, py)]
                    },
            decreases x1 + 1 - x,
        {
            proof {
                lemma_pix_bound(w as int, h as int, x as int, y as int);
            }
            let ghost before = img@;
            let k: usize = y * w + x;
            img.set(k, Rgb { r: 0, g: 0, b: 255 });
            assert forall|px: int, py: int| 0 <= px < w && 0 <= py < h implies #[trigger] img@[pix(w as int, px, py)] == if covers(a, b, px, py) && (py < y || (py == y && px < x + 1)) {
                path_color()
            } else {
                start[pix(w as int, px, py)]
            } by {
                lemma_pix_bound(w as int, h as int, px, py);
                if pix(w as int, px, py) == k {
                    lemma_pix_unique(w as int, px, py, x as int, y as int);
                } else {
                    assert(before[pix(w as int, px, py)] == img@[pix(w as int, px, py)]);
                }
            }
            x += 1;
        }
        y += 1;
    }
}

proof fn lemma_covered_next(paths: Seq<Vec<Cell>>, k: int, j: int, x: int, y: int)
    requires
        0 <= k < paths.len(),
        0 <= j,
    ensures
        covered_upto(paths, k, j + 1, x, y) == (covered_upto(paths, k, j, x, y) || (drawn_step(
            paths,
            k,
            j,
        ) && covers(paths[k]@[j], paths[k]@[j + 1], x, y))),
{
    if covered_upto(paths, k, j + 1, x, y) {
        let (k2, i2) = choose|k2: int, i2: int|
            (k2 < k || (k2 == k && i2 < j + 1)) && #[trigger] drawn_step(paths, k2, i2) && covers(
                paths[k2]@[i2],
                paths[k2]@[i2 + 1],
                x,
                y,
            );
        if k2 < k || (k2 == k && i2 < j) {
            assert(covered_upto(paths, k, j, x, y));
        }
    }
    if drawn_step(paths, k, j) && covers(paths[k]@[j], paths[k]@[j + 1], x, y) {
        assert(covered_upto(paths, k, j + 1, x, y));
    }
    if covered_upto(paths, k, j, x, y) {
        let (k2, i2) = choose|k2: int, i2: int|
            (k2 < k || (k2 == k && i2 < j)) && #[trigger] drawn_step(paths, k2, i2) && covers(
                paths[k2]@[i2],
                paths[k2]@[i2 + 1],
                x,
                y,
            );
        assert(drawn_step(paths, k2, i2));
    }
}

proof fn lemma_covered_path_end(paths: Seq<Vec<Cell>>, k: int, j: int, x: int, y: int)
    requires
        0 <= k < paths.len(),
        0 <= j,
        j + 1 >= paths[k]@.len(),
    ensures
        covered_upto(paths, k, j, x, y) == covered_upto(paths, k + 1, 0, x, y),
{
    if covered_upto(paths, k + 1, 0, x, y) {
        let (k2, i2) = choose|k2: int, i2: int|
            (k2 < k + 1 || (k2 == k + 1 && i2 < 0)) && #[trigger] drawn_step(paths, k2, i2) && covers(
                paths[k2]@[i2],
                paths[k2]@[i2 + 1],
                x,
                y,
            );
        assert(drawn_step(paths, k2, i2));
    }
    if covered_upto(paths, k, j, x, y) {
        let (k2, i2) = choose|k2: int, i2: int|
            (k2 < k || (k2 == k && i2 < j)) && #[trigger] drawn_step(paths, k2, i2) && covers(
                paths[k2]@[i2],
                paths[k2]@[i2 + 1],
                x,
                y,
            );
        assert(drawn_step(paths, k2, i2));
    }
}

/// The field as an image of `PIXELS_PER_CELL` pixels a side for each cell, row-major:
/// each cell's square in its color, with the paths drawn over it in the path color as
/// lines between the centers of the cells of each adjacent step.
pub fn field_image(
    a: &[Vec<Option<i64>>],
    min_cost: i64,
    max_cost: i64,
    snakes: &[Vec<Cell>],
    rows: usize,
    cols: usize,
) -> (img: Vec<Rgb>)
    requires
        a@.len() == rows,
        forall|i: int| 0 <= i < rows ==> (#[trigger] a@[i])@.len() == cols,
        is_cost_range(a@, min_cost as int, max_cost as int),
        paths_in_grid(snakes@, rows as int, cols as int),
        cols * PIXELS_PER_CELL <= usize::MAX,
        rows * PIXELS_PER_CELL <= usize::MAX,
        (cols * PIXELS_PER_CELL) * (rows * PIXELS_PER_CELL) <= usize::MAX,
    ensures
        img@.len() == (cols * PIXELS_PER_CELL) * (rows * PIXELS_PER_CELL),
        forall|x: int, y: int|
            0 <= x < cols * PIXELS_PER_CELL && 0 <= y < rows * PIXELS_PER_CELL ==> #[trigger] img@[pix(
                (cols * PIXELS_PER_CELL) as int,
                x,
                y,
            )] == image_pixel(a@, min_cost as int, max_cost as int, snakes@, x, y),
{
    let w: usize = cols * PIXELS_PER_CELL;
    let h: usize = rows * PIXELS_PER_CELL;
    proof {
        assert(w * h <= usize::MAX);
    }
    let mut img: Vec<Rgb> = Vec::new();
    let mut y: usize = 0;
    while y < h
        invariant
            w == cols * PIXELS_PER_CELL,
            h == rows * PIXELS_PER_CELL,
            w * h <= usize::MAX,
            0 <= y <= h,
            a@.len() == rows,
            forall|i: int| 0 <= i < rows ==> (#[trigger] a@[i])@.len() == cols,
            is_cost_range(a@, min_cost as int, max_cost as int),
            img@.len() == y * w,
            forall|px: int, py: int|
                0 <= px < w && 0 <= py < y ==> #[trigger] img@[pix(w as int, px, py)] == cost_color(
                    cost_at(a@, py / PIXELS_PER_CELL as int, px / PIXELS_PER_CELL as int),
                    min_cost as int,
                    max_cost as int,
                ),
        decreases h - y,
    {
        let mut x: usize = 0;
        while x < w
            invariant
                w == cols * PIXELS_PER_CELL,
                h == rows * PIXELS_PER_CELL,
                w * h <= usize::MAX,
                0 <= y < h,
                0 <= x <= w,
                a@.len() == rows,
                forall|i: int| 0 <= i < rows ==> (#[trigger] a@[i])@.len() == cols,
                is_cost_range(a@, min_cost as int, max_cost as int),
                img@.len() == y * w + x,
                forall|px: int, py: int|
                    0 <= px < w && 0 <= py < h && (py < y || (py == y && px < x)) ==> #[trigger] img@[pix(
                        w as int,
                        px,
                        py,
                    )] == cost_color(
                        cost_at(a@, py / PIXELS_PER_CELL as int, px / PIXELS_PER_CELL as int),
                        min_cost as int,
                        max_cost as int,
                    ),
            decreases w - x,
        {
            let ghost before = img@;
            let r: usize = y / PIXELS_PER_CELL;
            let c: usize = x / PIXELS_PER_CELL;
            let color = field_color(a, min_cost, max_cost, r, c);
            img.push(color);
            assert forall|px: int, py: int|
                0 <= px < w && 0 <= py < h && (py < y || (py == y && px < x + 1)) implies #[trigger] img@[pix(
                w as int,
                px,
                py,
            )] == cost_color(
                cost_at(a@, py / PIXELS_PER_CELL as int, px / PIXELS_PER_CELL as int),
                min_cost as int,
                max_cost as int,
            ) by {
                lemma_pix_bound(w as int, y as int + 1, x as int, y as int);
                if py < y {
                    lemma_pix_bound(w as int, y as int, px, py);
                } else if px < x {
                    assert(pix(w as int, px, py) < pix(w as int, x as int, y as int));
                } else {
                    assert(px == x && py == y);
                }
            }
            x += 1;
        }
        assert(img@.len() == (y + 1) * w) by (nonlinear_arith)
            requires
                img@.len() == y * w + w,
        ;
        y += 1;
    }
    assert(img@.len() == w * h) by (nonlinear_arith)
        requires
            img@.len() == h * w,
    ;
    let mut k: usize = 0;
    while k < snakes.len()
        invariant
            w == cols * PIXELS_PER_CELL,
            h == rows * PIXELS_PER_CELL,
            w * h <= usize::MAX,
            0 <= k <= snakes@.len(),
            paths_in_grid(snakes@, rows as int, cols as int),
            img@.len() == w * h,
            forall|px: int, py: int|
                0 <= px < w && 0 <= py < h ==> #[trigger] img@[pix(w as int, px, py)] == if covered_upto(
                    snakes@,
                    k as int,
                    0,
                    px,
                    py,
                ) {
                    path_color()
                } else {
                    cost_color(
                        cost_at(a@, py / PIXELS_PER_CELL as int, px / PIXELS_PER_CELL as int),
                        min_cost as int,
                        max_cost as int,
                    )
                },
        decreases snakes@.len() - k,
    {
        let snake = &snakes[k];
        let n: usize = snake.len();
        let mut j: usize = 0;
        while j + 1 < n
            invariant
                w == cols * PIXELS_PER_CELL,
                h == rows * PIXELS_PER_CELL,
                w * h <= usize::MAX,
                0 <= k < snakes@.len(),
                snake == snakes@[k as int],
                n == snake@.len(),
                0 <= j,
                j < snake@.len() || j == 0,
                paths_in_grid(snakes@, rows as int, cols as int),
                img@.len() == w * h,
                forall|px: int, py: int|
                    0 <= px < w && 0 <= py < h ==> #[trigger] img@[pix(w as int, px, py)] == if covered_upto(
                        snakes@,
                        k as int,
                        j as int,
                        px,
                        py,
                    ) {
                        path_color()
                    } else {
                        cost_color(
                            cost_at(a@, py / PIXELS_PER_CELL as int, px / PIXELS_PER_CELL as int),
                            min_cost as int,
                            max_cost as int,
                        )
                    },
            decreases snake@.len() - j,
        {
            let p = snake[j];
            let q = snake[j + 1];
            assert(in_grid(snakes@[k as int]@[j as int], rows as int, cols as int));
            assert(in_grid(snakes@[k as int]@[j + 1], rows as int, cols as int));
            let ghost before = img@;
            let step = is_adjacent(p, q, rows, cols);
            if step {
                paint_step(&mut img, w, h, p, q);
            }
            assert forall|px: int, py: int| 0 <= px < w && 0 <= py < h implies #[trigger] img@[pix(
                w as int,
                px,
                py,
            )] == if covered_upto(snakes@, k as int, j + 1, px, py) {
                path_color()
            } else {
                cost_color(
                    cost_at(a@, py / PIXELS_PER_CELL as int, px / PIXELS_PER_CELL as int),
                    min_cost as int,
                    max_cost as int,
                )
            } by {
                lemma_covered_next(snakes@, k as int, j as int, px, py);
                assert(before[pix(w as int, px, py)] == if covered_upto(snakes@, k as int, j as int, px, py) {
                    path_color()
                } else {
                    cost_color(
                        cost_at(a@, py / PIXELS_PER_CELL as int, px / PIXELS_PER_CELL as int),
                        min_cost as int,
                        max_cost as int,
                    )
                });
            }
            j += 1;
        }
        assert forall|px: int, py: int| 0 <= px < w && 0 <= py < h implies #[trigger] img@[pix(
            w as int,
            px,
            py,
        )] == if covered_upto(snakes@, k + 1, 0, px, py) {
            path_color()
        } else {
            cost_color(
                cost_at(a@, py / PIXELS_PER_CELL as int, px / PIXELS_PER_CELL as int),
                min_cost as int,
                max_cost as int,
            )
        } by {
            lemma_covered_path_end(snakes@, k as int, j as int, px, py);
        }
        k += 1;
    }
    img
}

} // verus!
