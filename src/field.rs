use vstd::prelude::*;
use vstd::arithmetic::div_mod::{lemma_div_by_multiple, lemma_div_is_ordered, lemma_div_pos_is_pos};

verus! {

/// A cell of the grid, by column and row.
#[derive(Clone, Copy, Debug, PartialEq, Eq, Structural)]
pub struct Cell {
    pub col: usize,
    pub row: usize,
}

/// A color by its red, green and blue channels.
#[derive(Clone, Copy, Debug, PartialEq, Eq, Structural)]
pub struct Rgb {
    pub r: u8,
    pub g: u8,
    pub b: u8,
}

/// Color of a cell without a cost: white.
pub open spec fn empty_color() -> Rgb {
    Rgb { r: 255, g: 255, b: 255 }
}

/// Color of a cell whose cost is zero: gray.
pub open spec fn zero_color() -> Rgb {
    Rgb { r: 160, g: 160, b: 160 }
}

/// The cost held at row `i`, column `j`, or `None` where the cell has none or lies outside.
pub open spec fn cost_at(a: Seq<Vec<Option<i64>>>, i: int, j: int) -> Option<i64> {
    if 0 <= i < a.len() && 0 <= j < a[i]@.len() {
        a[i]@[j]
    } else {
        None
    }
}

/// True when `lo` and `hi` are the least and greatest of zero and all costs of the grid.
pub open spec fn is_cost_range(a: Seq<Vec<Option<i64>>>, lo: int, hi: int) -> bool {
    &&& lo <= 0 <= hi
    &&& forall|i: int, j: int| #[trigger] cost_at(a, i, j) is Some
        ==> lo <= cost_at(a, i, j)->0 <= hi
    &&& (lo == 0 || exists|i: int, j: int| #[trigger] cost_at(a, i, j) == Some(lo as i64))
    &&& (hi == 0 || exists|i: int, j: int| #[trigger] cost_at(a, i, j) == Some(hi as i64))
}

/// Channel intensity `255 * part / whole` rounded down, for `0 <= part <= whole`.
pub open spec fn intensity(part: int, whole: int) -> int {
    (255 * part) / whole
}

/// Color of a cell of cost `v` in a grid whose costs span `[lo, hi]`: white without a cost,
/// gray at zero, red by the share of `lo` below zero, green by the share of `hi` above.
pub open spec fn cost_color(v: Option<i64>, lo: int, hi: int) -> Rgb {
    match v {
        None => empty_color(),
        Some(x) => if x < 0 {
            Rgb { r: intensity(-x, -lo) as u8, g: 0, b: 0 }
        } else if x > 0 {
            Rgb { r: 0, g: intensity(x as int, hi) as u8, b: 0 }
        } else {
            zero_color()
        },
    }
}

/// Least and greatest of zero and every cost in the grid.
pub fn field_min_max(a: &[Vec<Option<i64>>]) -> (r: (i64, i64))
    ensures
        is_cost_range(a@, r.0 as int, r.1 as int),
{
    let mut min_cost: i64 = 0;
    let mut max_cost: i64 = 0;
    let mut i: usize = 0;
    while i < a.len()
        invariant
            0 <= i <= a@.len(),
            min_cost <= 0 <= max_cost,
            forall|i2: int, j: int| 0 <= i2 < i && #[trigger] cost_at(a@, i2, j) is Some
                ==> min_cost <= cost_at(a@, i2, j)->0 <= max_cost,
            min_cost == 0 || exists|i2: int, j: int| #[trigger] cost_at(a@, i2, j) == Some(min_cost),
            max_cost == 0 || exists|i2: int, j: int| #[trigger] cost_at(a@, i2, j) == Some(max_cost),
        decreases a@.len() - i,
    {
        let row = &a[i];
        let mut j: usize = 0;
        while j < row.len()
            invariant
                0 <= i < a@.len(),
                row == a@[i as int],
                0 <= j <= row@.len(),
                min_cost <= 0 <= max_cost,
                forall|i2: int, j2: int| #[trigger] cost_at(a@, i2, j2) is Some && (0 <= i2 < i || (
                i2 == i && j2 < j)) ==> min_cost <= cost_at(a@, i2, j2)->0 <= max_cost,
                min_cost == 0 || exists|i2: int, j2: int| #[trigger] cost_at(a@, i2, j2) == Some(
                    min_cost,
                ),
                max_cost == 0 || exists|i2: int, j2: int| #[trigger] cost_at(a@, i2, j2) == Some(
                    max_cost,
                ),
            decreases row@.len() - j,
        {
            if let Some(value) = row[j] {
                assert(cost_at(a@, i as int, j as int) == Some(value));
                if value < min_cost {
                    min_cost = value;
                }
                if value > max_cost {
                    max_cost = value;
                }
            }
            j += 1;
        }
        i += 1;
    }
    (min_cost, max_cost)
}

proof fn lemma_intensity_bounds(part: int, whole: int)
    requires
        0 <= part <= whole,
        0 < whole,
    ensures
        0 <= intensity(part, whole) <= 255,
{
    lemma_div_pos_is_pos(255 * part, whole);
    lemma_div_is_ordered(255 * part, 255 * whole, whole);
    lemma_div_by_multiple(255, whole);
    assert(255 * whole == 255 * whole);
}

/// Color of the cell at `row`, `col`, where `min_cost` and `max_cost` bound its cost.
pub fn field_color(a: &[Vec<Option<i64>>], min_cost: i64, max_cost: i64, row: usize, col: usize) -> (r:
    Rgb)
    requires
        row < a@.len(),
        col < a@[row as int]@.len(),
        cost_at(a@, row as int, col as int) is Some ==> min_cost <= cost_at(
            a@,
            row as int,
            col as int,
        )->0 <= max_cost,
    ensures
        r == cost_color(cost_at(a@, row as int, col as int), min_cost as int, max_cost as int),
{
    match a[row][col] {
        None => Rgb { r: 255, g: 255, b: 255 },
        Some(value) => {
            if value < 0 {
                let part: i128 = -(value as i128);
                let whole: i128 = -(min_cost as i128);
                proof {
                    lemma_intensity_bounds(part as int, whole as int);
                }
                Rgb { r: ((255 * part) / whole) as u8, g: 0, b: 0 }
            } else if value > 0 {
                let part: i128 = value as i128;
                let whole: i128 = max_cost as i128;
                proof {
                    lemma_intensity_bounds(part as int, whole as int);
                }
                Rgb { r: 0, g: ((255 * part) / whole) as u8, b: 0 }
            } else {
                Rgb { r: 160, g: 160, b: 160 }
            }
        },
    }
}

} // verus!
