use vstd::prelude::*;
use vstd::arithmetic::div_mod::{lemma_mod_add_multiples_vanish, lemma_mod_self_0, lemma_small_mod};

use crate::field::Cell;
use crate::visible::VisibleArea;

verus! {

/// One step of a path: to the next column or row, or back to the previous one.
#[derive(Clone, Copy, Debug, PartialEq, Eq, Structural)]
pub enum Move {
    Right,
    Down,
    Left,
    Up,
}

/// The cell at row `r`, column `c`.
pub open spec fn cell_of(r: int, c: int) -> Cell {
    Cell { col: c as usize, row: r as usize }
}

/// True when the cell lies in a grid of `rows` by `cols` cells.
pub open spec fn in_grid(p: Cell, rows: int, cols: int) -> bool {
    p.row < rows && p.col < cols
}

/// Distance between two cells counted in steps along the axes.
pub open spec fn step_dist(a: Cell, b: Cell) -> int {
    let dr = a.row - b.row;
    let dc = a.col - b.col;
    (if dr < 0 { -dr } else { dr }) + (if dc < 0 { -dc } else { dc })
}

/// Two cells that differ by one in exactly one axis.
pub open spec fn adjacent(a: Cell, b: Cell) -> bool {
    step_dist(a, b) == 1
}

/// The cell reached from `p` by move `m` on a grid of `rows` by `cols` cells whose edges wrap.
pub open spec fn step_to(p: Cell, m: Move, rows: int, cols: int) -> Cell {
    match m {
        Move::Right => Cell { col: ((p.col + 1) % cols) as usize, row: p.row },
        Move::Down => Cell { col: p.col, row: ((p.row + 1) % rows) as usize },
        Move::Left => Cell { col: ((p.col + cols - 1) % cols) as usize, row: p.row },
        Move::Up => Cell { col: p.col, row: ((p.row + rows - 1) % rows) as usize },
    }
}

/// True when `path` starts at `start` and follows `moves` one step each.
pub open spec fn is_trace(path: Seq<Cell>, start: Cell, moves: Seq<Move>, rows: int, cols: int) -> bool {
    &&& path.len() == moves.len() + 1
    &&& path[0] == start
    &&& forall|i: int| 0 <= i < moves.len() ==> path[i + 1] == step_to(path[i], moves[i], rows, cols)
}

proof fn lemma_wrap(x: int, n: int)
    requires
        0 <= x <= n,
        0 < n,
    ensures
        x % n == (if x == n { 0 } else { x }),
{
    if x == n {
        lemma_mod_self_0(n);
    } else {
        lemma_small_mod(x as nat, n as nat);
    }
}

proof fn lemma_back(x: int, n: int)
    requires
        0 <= x < n,
    ensures
        (x + n - 1) % n == (if x == 0 { n - 1 } else { x - 1 }),
{
    if x == 0 {
        lemma_small_mod((n - 1) as nat, n as nat);
    } else {
        lemma_mod_add_multiples_vanish(x - 1, n);
        lemma_small_mod((x - 1) as nat, n as nat);
    }
}

/// The cell reached from `p` by one move; leaving the grid on one side enters it on the other.
pub fn step(p: Cell, m: Move, rows: usize, cols: usize) -> (r: Cell)
    requires
        in_grid(p, rows as int, cols as int),
    ensures
        r == step_to(p, m, rows as int, cols as int),
        in_grid(r, rows as int, cols as int),
{
    match m {
        Move::Right => {
            proof {
                lemma_wrap(p.col + 1, cols as int);
            }
            Cell { col: if p.col + 1 == cols { 0 } else { p.col + 1 }, row: p.row }
        },
        Move::Down => {
            proof {
                lemma_wrap(p.row + 1, rows as int);
            }
            Cell { col: p.col, row: if p.row + 1 == rows { 0 } else { p.row + 1 } }
        },
        Move::Left => {
            proof {
                lemma_back(p.col as int, cols as int);
            }
            Cell { col: if p.col == 0 { cols - 1 } else { p.col - 1 }, row: p.row }
        },
        Move::Up => {
            proof {
                lemma_back(p.row as int, rows as int);
            }
            Cell { col: p.col, row: if p.row == 0 { rows - 1 } else { p.row - 1 } }
        },
    }
}

/// The cells of a path that starts at `start` and takes `moves` in turn.
pub fn trace_snake(start: Cell, moves: &[Move], rows: usize, cols: usize) -> (path: Vec<Cell>)
    requires
        in_grid(start, rows as int, cols as int),
    ensures
        is_trace(path@, start, moves@, rows as int, cols as int),
        forall|i: int| 0 <= i < path@.len() ==> in_grid(#[trigger] path@[i], rows as int, cols as int),
{
    let mut path: Vec<Cell> = Vec::new();
    path.push(start);
    let mut p = start;
    let mut i: usize = 0;
    while i < moves.len()
        invariant
            0 <= i <= moves@.len(),
            path@.len() == i + 1,
            path@[0] == start,
            p == path@[i as int],
            forall|k: int| 0 <= k < i ==> path@[k + 1] == step_to(path@[k], moves@[k], rows as int, cols as int),
            forall|k: int| 0 <= k < path@.len() ==> in_grid(#[trigger] path@[k], rows as int, cols as int),
        decreases moves@.len() - i,
    {
        p = step(p, moves[i], rows, cols);
        path.push(p);
        i += 1;
    }
    path
}

/// The cells that follow `at` along the first `n` cells of `path`, one for each
/// adjacent step out of `at`, in path order.
pub open spec fn successors_upto(path: Seq<Cell>, n: int, at: Cell) -> Seq<Cell>
    decreases n,
{
    if n <= 1 {
        seq![]
    } else {
        successors_upto(path, n - 1, at) + if path[n - 2] == at && adjacent(path[n - 2], path[n - 1]) {
            seq![path[n - 1]]
        } else {
            seq![]
        }
    }
}

/// The cells that follow `at` along the first `k` paths, paths in order.
pub open spec fn parts_upto(paths: Seq<Vec<Cell>>, k: int, at: Cell) -> Seq<Cell>
    decreases k,
{
    if k <= 0 {
        seq![]
    } else {
        parts_upto(paths, k - 1, at) + successors_upto(paths[k - 1]@, paths[k - 1]@.len() as int, at)
    }
}

/// The cells that follow `at` along all paths: the far ends of the path segments drawn from `at`.
pub open spec fn parts_of(paths: Seq<Vec<Cell>>, at: Cell) -> Seq<Cell> {
    parts_upto(paths, paths.len() as int, at)
}

/// True when every cell of every path lies in the grid.
pub open spec fn paths_in_grid(paths: Seq<Vec<Cell>>, rows: int, cols: int) -> bool {
    forall|k: int, i: int|
        0 <= k < paths.len() && 0 <= i < paths[k]@.len() ==> in_grid(
            #[trigger] paths[k]@[i],
            rows,
            cols,
        )
}

/// True when `parts` holds, for each cell of a `rows` by `cols` grid, the cells that follow it along `paths`.
pub open spec fn is_parts_table(parts: Seq<Vec<Vec<Cell>>>, paths: Seq<Vec<Cell>>, rows: int, cols: int) -> bool {
    &&& parts.len() == rows
    &&& forall|r: int| 0 <= r < rows ==> (#[trigger] parts[r])@.len() == cols
    &&& forall|r: int, c: int|
        0 <= r < rows && 0 <= c < cols ==> (#[trigger] parts[r]@[c])@ == parts_of(paths, cell_of(r, c))
}

/// True when the two cells differ by one in exactly one axis; both lie in a grid of `rows` by `cols` cells.
pub fn is_adjacent(a: Cell, b: Cell, rows: usize, cols: usize) -> (r: bool)
    requires
        in_grid(a, rows as int, cols as int),
        in_grid(b, rows as int, cols as int),
    ensures
        r == adjacent(a, b),
{
    if a.row == b.row {
        a.col + 1 == b.col || b.col + 1 == a.col
    } else if a.col == b.col {
        a.row + 1 == b.row || b.row + 1 == a.row
    } else {
        false
    }
}

/// For each cell of a `rows` by `cols` grid, the cells that follow it along the paths over
/// an adjacent step. Steps between cells that are not adjacent are left out.
pub fn snake_parts(snakes: &[Vec<Cell>], rows: usize, cols: usize) -> (parts: Vec<Vec<Vec<Cell>>>)
    requires
        paths_in_grid(snakes@, rows as int, cols as int),
    ensures
        is_parts_table(parts@, snakes@, rows as int, cols as int),
{
    let mut parts: Vec<Vec<Vec<Cell>>> = Vec::new();
    let mut r: usize = 0;
    while r < rows
        invariant
            0 <= r <= rows,
            parts@.len() == r,
            forall|r2: int| 0 <= r2 < r ==> (#[trigger] parts@[r2])@.len() == cols,
            forall|r2: int, c: int|
                0 <= r2 < r && 0 <= c < cols ==> (#[trigger] parts@[r2]@[c])@ == Seq::<Cell>::empty(),
        decreases rows - r,
    {
        let mut line: Vec<Vec<Cell>> = Vec::new();
        let mut c: usize = 0;
        while c < cols
            invariant
                0 <= c <= cols,
                line@.len() == c,
                forall|c2: int| 0 <= c2 < c ==> (#[trigger] line@[c2])@ == Seq::<Cell>::empty(),
            decreases cols - c,
        {
            line.push(Vec::new());
            c += 1;
        }
        parts.push(line);
        r += 1;
    }
    let mut k: usize = 0;
    while k < snakes.len()
        invariant
            0 <= k <= snakes@.len(),
            paths_in_grid(snakes@, rows as int, cols as int),
            is_parts_table(
                parts@,
                snakes@.subrange(0, k as int),
                rows as int,
                cols as int,
            ),
        decreases snakes@.len() - k,
    {
        let snake = &snakes[k];
        let ghost done = snakes@.subrange(0, k as int);
        let ghost next = snakes@.subrange(0, k + 1);
        assert forall|at: Cell| parts_upto(next, k as int, at) == parts_of(done, at) by {
            lemma_parts_prefix(snakes@, k as int, k + 1, at);
            lemma_parts_prefix(snakes@, k as int, k as int, at);
        }
        let mut i: usize = 1;
        while i < snake.len()
            invariant
                0 < k + 1 <= snakes@.len(),
                snake == snakes@[k as int],
                next == snakes@.subrange(0, k + 1),
                1 <= i,
                i <= snake@.len() || i == 1,
                paths_in_grid(snakes@, rows as int, cols as int),
                parts@.len() == rows,
                forall|r: int| 0 <= r < rows ==> (#[trigger] parts@[r])@.len() == cols,
                forall|r: int, c: int|
                    0 <= r < rows && 0 <= c < cols ==> (#[trigger] parts@[r]@[c])@ == parts_upto(
                        next,
                        k as int,
                        cell_of(r, c),
                    ) + successors_upto(snake@, i as int, cell_of(r, c)),
            decreases snake@.len() - i,
        {
            let a = snake[i - 1];
            let b = snake[i];
            assert(in_grid(snakes@[k as int]@[i - 1], rows as int, cols as int));
            assert(in_grid(snakes@[k as int]@[i as int], rows as int, cols as int));
            let ghost before = parts@;
            if is_adjacent(a, b, rows, cols) {
                parts[a.row][a.col].push(b);
            }
            assert forall|r: int, c: int| 0 <= r < rows && 0 <= c < cols implies (#[trigger] parts@[r]@[
                c])@ == parts_upto(next, k as int, cell_of(r, c)) + successors_upto(
                snake@,
                i + 1,
                cell_of(r, c),
            ) by {
                assert(before[r]@[c]@ == parts_upto(next, k as int, cell_of(r, c)) + successors_upto(
                    snake@,
                    i as int,
                    cell_of(r, c),
                ));
                if cell_of(r, c) == a {
                    assert(r == a.row && c == a.col);
                } else {
                    assert(r != a.row || c != a.col);
                }
            }
            i += 1;
        }
        assert forall|r: int, c: int| 0 <= r < rows && 0 <= c < cols implies (#[trigger] parts@[r]@[
            c])@ == parts_of(next, cell_of(r, c)) by {
            if snake@.len() == 0 {
                assert(successors_upto(snake@, i as int, cell_of(r, c)) == Seq::<Cell>::empty());
            }
            assert(next[k as int] == snake);
            assert(parts_upto(next, k as int, cell_of(r, c)) + Seq::<Cell>::empty() == parts_upto(next, k as int, cell_of(r, c)));
        }
        k += 1;
    }
    assert(snakes@.subrange(0, snakes@.len() as int) =~= snakes@);
    parts
}

proof fn lemma_parts_prefix(paths: Seq<Vec<Cell>>, k: int, n: int, at: Cell)
    requires
        0 <= k <= n <= paths.len(),
    ensures
        parts_upto(paths.subrange(0, n), k, at) == parts_upto(paths, k, at),
    decreases k,
{
    if k > 0 {
        lemma_parts_prefix(paths, k - 1, n, at);
    }
}

/// The segments drawn from the cell at row `r`, column `c`: one to each cell in its list.
pub open spec fn cell_segments(parts: Seq<Vec<Vec<Cell>>>, r: int, c: int) -> Seq<(Cell, Cell)> {
    parts[r]@[c]@.map_values(|to: Cell| (cell_of(r, c), to))
}

/// The segments drawn from the cells of row `r` in columns `c_lo..c_hi`, by column.
pub open spec fn row_segments(parts: Seq<Vec<Vec<Cell>>>, r: int, c_lo: int, c_hi: int) -> Seq<(Cell, Cell)>
    decreases c_hi - c_lo,
{
    if c_hi <= c_lo {
        seq![]
    } else {
        row_segments(parts, r, c_lo, c_hi - 1) + cell_segments(parts, r, c_hi - 1)
    }
}

/// The segments drawn from the cells of rows `r_lo..r_hi` and columns `c_lo..c_hi`, row by row.
pub open spec fn area_segments(
    parts: Seq<Vec<Vec<Cell>>>,
    r_lo: int,
    r_hi: int,
    c_lo: int,
    c_hi: int,
) -> Seq<(Cell, Cell)>
    decreases r_hi - r_lo,
{
    if r_hi <= r_lo {
        seq![]
    } else {
        area_segments(parts, r_lo, r_hi - 1, c_lo, c_hi) + row_segments(parts, r_hi - 1, c_lo, c_hi)
    }
}

/// The path segments that start in a cell of the visible area, row by row and column by
/// column, each as the pair of its cells.
pub fn visible_segments(parts: &[Vec<Vec<Cell>>], vis: &VisibleArea) -> (segs: Vec<(Cell, Cell)>)
    requires
        vis.rows.start <= vis.rows.end <= parts@.len(),
        vis.cols.start <= vis.cols.end,
        forall|r: int| vis.rows.start <= r < vis.rows.end ==> vis.cols.end <= (#[trigger] parts@[r])@.len(),
    ensures
        segs@ == area_segments(
            parts@,
            vis.rows.start as int,
            vis.rows.end as int,
            vis.cols.start as int,
            vis.cols.end as int,
        ),
{
    let ghost rl = vis.rows.start as int;
    let ghost cl = vis.cols.start as int;
    let ghost ch = vis.cols.end as int;
    let mut segs: Vec<(Cell, Cell)> = Vec::new();
    let mut r: usize = vis.rows.start;
    while r < vis.rows.end
        invariant
            vis.rows.start <= r <= vis.rows.end <= parts@.len(),
            vis.cols.start <= vis.cols.end,
            forall|r2: int| vis.rows.start <= r2 < vis.rows.end ==> vis.cols.end <= (#[trigger] parts@[r2])@.len(),
            rl == vis.rows.start,
            cl == vis.cols.start,
            ch == vis.cols.end,
            segs@ == area_segments(parts@, rl, r as int, cl, ch),
        decreases vis.rows.end - r,
    {
        let line = &parts[r];
        assert(vis.cols.end <= line@.len());
        let mut c: usize = vis.cols.start;
        while c < vis.cols.end
            invariant
                vis.rows.start <= r < vis.rows.end <= parts@.len(),
                vis.cols.start <= c <= vis.cols.end <= line@.len(),
                line == parts@[r as int],
                rl == vis.rows.start,
                cl == vis.cols.start,
                ch == vis.cols.end,
                segs@ == area_segments(parts@, rl, r as int, cl, ch) + row_segments(parts@, r as int, cl, c as int),
            decreases vis.cols.end - c,
        {
            let tos = &line[c];
            let here = Cell { col: c, row: r };
            let ghost base = segs@;
            let mut j: usize = 0;
            while j < tos.len()
                invariant
                    0 <= j <= tos@.len(),
                    tos == parts@[r as int]@[c as int],
                    here == cell_of(r as int, c as int),
                    segs@ == base + cell_segments(parts@, r as int, c as int).take(j as int),
                decreases tos@.len() - j,
            {
                segs.push((here, tos[j]));
                proof {
                    assert(cell_segments(parts@, r as int, c as int).take(j + 1) =~= cell_segments(parts@, r as int, c as int).take(j as int).push((here, tos@[j as int])));
                }
                j += 1;
            }
            proof {
                assert(cell_segments(parts@, r as int, c as int).take(j as int) =~= cell_segments(parts@, r as int, c as int));
                assert(row_segments(parts@, r as int, cl, c + 1) == row_segments(parts@, r as int, cl, c as int) + cell_segments(parts@, r as int, c as int));
                assert(segs@ =~= area_segments(parts@, rl, r as int, cl, ch) + row_segments(parts@, r as int, cl, c + 1));
            }
            c += 1;
        }
        proof {
            assert(area_segments(parts@, rl, r + 1, cl, ch) == area_segments(parts@, rl, r as int, cl, ch) + row_segments(parts@, r as int, cl, ch));
        }
        r += 1;
    }
    segs
}

/// The adjacent steps among the first `n` cells of `path`, in order, each as the pair of its cells.
pub open spec fn steps_upto(path: Seq<Cell>, n: int) -> Seq<(Cell, Cell)>
    decreases n,
{
    if n <= 1 {
        seq![]
    } else {
        steps_upto(path, n - 1) + if adjacent(path[n - 2], path[n - 1]) {
            seq![(path[n - 2], path[n - 1])]
        } else {
            seq![]
        }
    }
}

/// The segments drawn for a whole path: its steps between adjacent cells, in order.
/// A step that wraps across the grid's edge is left out.
pub fn adjacent_steps(path: &[Cell], rows: usize, cols: usize) -> (r: Vec<(Cell, Cell)>)
    requires
        forall|i: int| 0 <= i < path@.len() ==> in_grid(#[trigger] path@[i], rows as int, cols as int),
    ensures
        r@ == steps_upto(path@, path@.len() as int),
{
    let mut r: Vec<(Cell, Cell)> = Vec::new();
    let mut i: usize = 1;
    while i < path.len()
        invariant
            1 <= i,
            i <= path@.len() || i == 1,
            forall|k: int| 0 <= k < path@.len() ==> in_grid(#[trigger] path@[k], rows as int, cols as int),
            r@ == steps_upto(path@, i as int),
        decreases path@.len() - i,
    {
        let a = path[i - 1];
        let b = path[i];
        if is_adjacent(a, b, rows, cols) {
            r.push((a, b));
        }
        proof {
            assert(steps_upto(path@, i + 1) == steps_upto(path@, i as int) + if adjacent(a, b) {
                seq![(a, b)]
            } else {
                seq![]
            });
            if !adjacent(a, b) {
                assert(steps_upto(path@, i as int) + Seq::<(Cell, Cell)>::empty() =~= steps_upto(path@, i as int));
            }
        }
        i += 1;
    }
    proof {
        if path@.len() == 0 {
            assert(steps_upto(path@, 0) =~= steps_upto(path@, 1));
        }
    }
    r
}

} // verus!
