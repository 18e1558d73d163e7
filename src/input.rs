use vstd::prelude::*;
use vstd::string::*;

use crate::field::Cell;
use crate::number::{i64_of, parse_i64, parse_usize, usize_of};
use crate::scanner::Scanner;
use crate::snake::{in_grid, is_trace, trace_snake, Move};

verus! {

/// The cost a token writes: `*` for a cell without one, else a decimal `i64`.
pub open spec fn cost_text(t: Seq<char>) -> Option<Option<i64>> {
    if t == seq!['*'] {
        Some(None)
    } else {
        match i64_of(t) {
            Some(v) => Some(Some(v)),
            None => None,
        }
    }
}

/// The move a token writes: `R`, `D`, `L` or `U`.
pub open spec fn move_text(t: Seq<char>) -> Option<Move> {
    if t == seq!['R'] {
        Some(Move::Right)
    } else if t == seq!['D'] {
        Some(Move::Down)
    } else if t == seq!['L'] {
        Some(Move::Left)
    } else if t == seq!['U'] {
        Some(Move::Up)
    } else {
        None
    }
}

/// True when the text is the single character `c`.
fn is_char(t: &str, c: char) -> (r: bool)
    ensures
        r == (t@ == seq![c]),
{
    if t.unicode_len() == 1 {
        let d = t.get_char(0);
        assert(d == c ==> t@ =~= seq![c]);
        d == c
    } else {
        false
    }
}

/// The cost written by one token of the field.
pub fn parse_cost(t: &str) -> (r: Option<Option<i64>>)
    ensures
        r == cost_text(t@),
{
    if is_char(t, '*') {
        Some(None)
    } else {
        match parse_i64(t) {
            Some(v) => Some(Some(v)),
            None => None,
        }
    }
}

/// The move written by one token of a path.
pub fn parse_move(t: &str) -> (r: Option<Move>)
    ensures
        r == move_text(t@),
{
    if is_char(t, 'R') {
        Some(Move::Right)
    } else if is_char(t, 'D') {
        Some(Move::Down)
    } else if is_char(t, 'L') {
        Some(Move::Left)
    } else if is_char(t, 'U') {
        Some(Move::Up)
    } else {
        None
    }
}

/// The next token read as a `usize`; `None` where none is left or it is no such number.
pub fn read_usize(input: &mut Scanner) -> (r: Option<usize>)
    ensures
        old(input)@.len() > 0 ==> r == usize_of(old(input)@[0]) && final(input)@ == old(
            input,
        )@.drop_first(),
        old(input)@.len() == 0 ==> r is None && final(input)@ == old(input)@,
{
    match input.next() {
        Some(t) => parse_usize(t.as_str()),
        None => None,
    }
}

/// True when the first `rows * cols` tokens write the field `a`, row by row.
pub open spec fn is_field_text(toks: Seq<Seq<char>>, rows: int, cols: int, a: Seq<Vec<Option<i64>>>) -> bool {
    &&& a.len() == rows
    &&& forall|i: int| 0 <= i < rows ==> (#[trigger] a[i])@.len() == cols
    &&& toks.len() >= rows * cols
    &&& forall|i: int, j: int|
        0 <= i < rows && 0 <= j < cols ==> cost_text(toks[i * cols + j]) == Some(
            #[trigger] a[i]@[j],
        )
}

/// True when one of the first `n` tokens is missing or writes no cost.
pub open spec fn field_text_fails(toks: Seq<Seq<char>>, n: int) -> bool {
    toks.len() < n || exists|k: int| 0 <= k < n && #[trigger] cost_text(toks[k]) is None
}

/// A field of `rows` by `cols` costs read row by row from the next tokens.
/// `None` where a token is missing or writes no cost.
pub fn read_field(input: &mut Scanner, rows: usize, cols: usize) -> (r: Option<Vec<Vec<Option<i64>>>>)
    ensures
        match r {
            Some(a) => is_field_text(old(input)@, rows as int, cols as int, a@) && final(input)@
                == old(input)@.skip(rows * cols) && !field_text_fails(old(input)@, rows * cols),
            None => field_text_fails(old(input)@, rows * cols),
        },
{
    let ghost toks = input@;
    let mut a: Vec<Vec<Option<i64>>> = Vec::new();
    let mut i: usize = 0;
    let ghost mut k: int = 0;
    while i < rows
        invariant
            0 <= i <= rows,
            toks == old(input)@,
            k == i * cols,
            k <= toks.len(),
            input@ == toks.skip(k),
            a@.len() == i,
            forall|i2: int| 0 <= i2 < i ==> (#[trigger] a@[i2])@.len() == cols,
            forall|k2: int| 0 <= k2 < k ==> #[trigger] cost_text(toks[k2]) is Some,
            forall|i2: int, j: int|
                0 <= i2 < i && 0 <= j < cols ==> cost_text(toks[i2 * cols + j]) == Some(
                    #[trigger] a@[i2]@[j],
                ),
        decreases rows - i,
    {
        let mut line: Vec<Option<i64>> = Vec::new();
        let mut j: usize = 0;
        while j < cols
            invariant
                0 <= i < rows,
                0 <= j <= cols,
                toks == old(input)@,
                k == i * cols + j,
                k <= toks.len(),
                input@ == toks.skip(k),
                line@.len() == j,
                forall|k2: int| 0 <= k2 < k ==> #[trigger] cost_text(toks[k2]) is Some,
                forall|j2: int| 0 <= j2 < j ==> cost_text(toks[i * cols + j2]) == Some(#[trigger] line@[j2]),
            decreases cols - j,
        {
            let ghost before = input@;
            match input.next() {
                None => {
                    proof {
                        assert(toks.len() < rows * cols) by (nonlinear_arith)
                            requires
                                k == i * cols + j,
                                j < cols,
                                i < rows,
                                toks.len() == k,
                        ;
                    }
                    return None;
                },
                Some(t) => {
                    assert(t@ == toks[k]);
                    match parse_cost(t.as_str()) {
                        None => {
                            proof {
                                assert(k < rows * cols) by (nonlinear_arith)
                                    requires
                                        k == i * cols + j,
                                        j < cols,
                                        i < rows,
                                ;
                                assert(cost_text(toks[k]) is None);
                            }
                            return None;
                        },
                        Some(v) => {
                            line.push(v);
                        },
                    }
                },
            }
            proof {
                assert(input@ =~= toks.skip(k + 1));
                k = k + 1;
            }
            j += 1;
        }
        a.push(line);
        proof {
            assert(k == (i + 1) * cols) by (nonlinear_arith)
                requires
                    k == i * cols + cols,
            ;
        }
        i += 1;
    }
    proof {
        assert(k == rows * cols);
    }
    Some(a)
}

/// The moves the tokens write, one each.
pub open spec fn moves_of(toks: Seq<Seq<char>>) -> Seq<Move> {
    toks.map_values(|t: Seq<char>| move_text(t)->0)
}

/// Number of moves of a path of `len` cells (a path has at least its start).
pub open spec fn move_count(len: int) -> int {
    if len == 0 {
        0
    } else {
        len - 1
    }
}

/// The start cell the first two tokens write, column first.
pub open spec fn start_of(toks: Seq<Seq<char>>) -> Cell {
    Cell { col: usize_of(toks[0])->0, row: usize_of(toks[1])->0 }
}

/// True when the tokens do not write a path of `len` cells that starts in a grid of `rows` by `cols` cells:
/// a token is missing, a coordinate or move does not parse, or the start lies outside.
pub open spec fn snake_text_fails(toks: Seq<Seq<char>>, len: int, rows: int, cols: int) -> bool {
    ||| toks.len() < 2 + move_count(len)
    ||| usize_of(toks[0]) is None
    ||| usize_of(toks[1]) is None
    ||| !in_grid(start_of(toks), rows, cols)
    ||| exists|i: int| 0 <= i < move_count(len) && #[trigger] move_text(toks[2 + i]) is None
}

/// A path of `len` cells read from the next tokens: the column and row of its start, then
/// one move letter for each further cell. `None` where the tokens do not write one.
pub fn read_snake(out: &mut Scanner, len: usize, rows: usize, cols: usize) -> (r: Option<Vec<Cell>>)
    ensures
        match r {
            Some(path) => {
                &&& !snake_text_fails(old(out)@, len as int, rows as int, cols as int)
                &&& is_trace(
                    path@,
                    start_of(old(out)@),
                    moves_of(old(out)@.subrange(2, 2 + move_count(len as int))),
                    rows as int,
                    cols as int,
                )
                &&& forall|i: int| 0 <= i < path@.len() ==> in_grid(#[trigger] path@[i], rows as int, cols as int)
                &&& final(out)@ == old(out)@.skip(2 + move_count(len as int))
            },
            None => snake_text_fails(old(out)@, len as int, rows as int, cols as int),
        },
{
    let ghost toks = out@;
    let col = match read_usize(out) {
        Some(x) => x,
        None => return None,
    };
    let row = match read_usize(out) {
        Some(y) => y,
        None => return None,
    };
    assert(out@ =~= toks.skip(2));
    let start = Cell { col, row };
    if row >= rows || col >= cols {
        return None;
    }
    let n: usize = if len == 0 {
        0
    } else {
        len - 1
    };
    let mut moves: Vec<Move> = Vec::new();
    let mut i: usize = 0;
    while i < n
        invariant
            toks == old(out)@,
            toks.len() >= 2,
            n == move_count(len as int),
            0 <= i <= n,
            2 + i <= toks.len(),
            out@ == toks.skip(2 + i),
            moves@.len() == i,
            forall|k: int| 0 <= k < i ==> #[trigger] move_text(toks[2 + k]) == Some(moves@[k]),
        decreases n - i,
    {
        let t = match out.next() {
            Some(t) => t,
            None => return None,
        };
        assert(t@ == toks[2 + i]);
        let m = match parse_move(t.as_str()) {
            Some(m) => m,
            None => return None,
        };
        moves.push(m);
        assert(out@ =~= toks.skip(2 + i + 1));
        i += 1;
    }
    assert(moves@ =~= moves_of(toks.subrange(2, 2 + n as int))) by {
        assert forall|k: int| 0 <= k < n implies moves@[k] == moves_of(toks.subrange(2, 2 + n as int))[k] by {
            assert(move_text(toks[2 + k]) == Some(moves@[k]));
        }
    }
    Some(trace_snake(start, moves.as_slice(), rows, cols))
}

} // verus!
