//! The Tetris stack as a mathematical object: a grid of `rows` rows of `cols`
//! cells (row 0 at the bottom), footprints placed on it, and the heuristics the
//! self-playing Tetris uses to judge a placement.

use vstd::prelude::*;
use crate::shapes::{height_of, width_of};

verus! {

/// `b` has `rows` rows of `cols` cells each.
pub open spec fn grid_ok(b: Seq<Seq<Option<u8>>>, cols: int, rows: int) -> bool {
    &&& b.len() == rows
    &&& forall|r: int| 0 <= r < rows ==> #[trigger] b[r].len() == cols
}

/// The rows of a nested vector, each by its view.
pub open spec fn grid_of(b: &Vec<Vec<Option<u8>>>) -> Seq<Seq<Option<u8>>> {
    Seq::new(b@.len(), |r: int| b@[r]@)
}

/// Every offset of `c` lies in 0..=3 on both axes.
pub open spec fn small_cells(c: Seq<(i8, i8)>) -> bool {
    forall|i: int| 0 <= i < c.len() ==> 0 <= (#[trigger] c[i]).0 <= 3 && 0 <= c[i].1 <= 3
}

/// Footprint `c` anchored at (x, y) covers the cell at (`row`, `col`).
pub open spec fn covers(c: Seq<(i8, i8)>, x: int, y: int, row: int, col: int) -> bool {
    exists|i: int| 0 <= i < c.len() && x + (#[trigger] c[i]).0 == col && y + c[i].1 == row
}

/// Footprint `c` anchored at (x, y) lies on the board and on empty cells only.
pub open spec fn placeable(
    b: Seq<Seq<Option<u8>>>,
    cols: int,
    rows: int,
    c: Seq<(i8, i8)>,
    x: int,
    y: int,
) -> bool {
    forall|i: int|
        0 <= i < c.len() ==> {
            let px = x + (#[trigger] c[i]).0;
            let py = y + c[i].1;
            &&& 0 <= px < cols
            &&& 0 <= py < rows
            &&& b[py][px] is None
        }
}

/// Row `r` is full once `c` rests at (x, y).
pub open spec fn full_with(
    b: Seq<Seq<Option<u8>>>,
    cols: int,
    c: Seq<(i8, i8)>,
    x: int,
    y: int,
    r: int,
) -> bool {
    forall|col: int| 0 <= col < cols ==> covers(c, x, y, r, col) || (#[trigger] b[r][col]) is Some
}

/// The rows below `n` that are full once `c` rests at (x, y), bottom first.
pub open spec fn completed_upto(
    b: Seq<Seq<Option<u8>>>,
    cols: int,
    c: Seq<(i8, i8)>,
    x: int,
    y: int,
    n: nat,
) -> Seq<usize>
    decreases n,
{
    if n == 0 {
        Seq::empty()
    } else {
        let prev = completed_upto(b, cols, c, x, y, (n - 1) as nat);
        if full_with(b, cols, c, x, y, n - 1) {
            prev.push((n - 1) as usize)
        } else {
            prev
        }
    }
}

/// How far `c` falls in column `x` from height `y`: it keeps dropping while
/// the row below is free.
pub open spec fn descend(
    b: Seq<Seq<Option<u8>>>,
    cols: int,
    rows: int,
    c: Seq<(i8, i8)>,
    x: int,
    y: int,
) -> int
    decreases y,
{
    if y > 0 && placeable(b, cols, rows, c, x, y - 1) {
        descend(b, cols, rows, c, x, y - 1)
    } else {
        y
    }
}

/// The row where `c` comes to rest when dropped from the top in column `x`,
/// or -1 when it does not fit there at all.
pub open spec fn drop_row(b: Seq<Seq<Option<u8>>>, cols: int, rows: int, c: Seq<(i8, i8)>, x: int) -> int {
    let top = rows - height_of(c);
    if top < 0 {
        -1
    } else {
        let y = descend(b, cols, rows, c, x, top);
        if placeable(b, cols, rows, c, x, y) {
            y
        } else {
            -1
        }
    }
}

/// The board with `c` written into it at (x, y) in `color`.
pub open spec fn locked(
    b: Seq<Seq<Option<u8>>>,
    cols: int,
    rows: int,
    c: Seq<(i8, i8)>,
    color: u8,
    x: int,
    y: int,
) -> Seq<Seq<Option<u8>>> {
    Seq::new(
        rows as nat,
        |r: int|
            Seq::new(
                cols as nat,
                |col: int|
                    if covers(c, x, y, r, col) {
                        Some(color)
                    } else {
                        b[r][col]
                    },
            ),
    )
}

/// Every cell of row `row` is filled.
pub open spec fn row_filled(row: Seq<Option<u8>>) -> bool {
    forall|i: int| 0 <= i < row.len() ==> (#[trigger] row[i]) is Some
}

/// Row `r` is removed by a clear of `marked`: it is marked and full.
pub open spec fn removed(b: Seq<Seq<Option<u8>>>, marked: Seq<usize>, r: int) -> bool {
    marked.contains(r as usize) && row_filled(b[r])
}

/// The rows below `n` that survive a clear of `marked`, bottom first.
pub open spec fn surviving_upto(b: Seq<Seq<Option<u8>>>, marked: Seq<usize>, n: nat) -> Seq<
    Seq<Option<u8>>,
>
    decreases n,
{
    if n == 0 {
        Seq::empty()
    } else {
        let prev = surviving_upto(b, marked, (n - 1) as nat);
        if removed(b, marked, n - 1) {
            prev
        } else {
            prev.push(b[n - 1])
        }
    }
}

/// A row of `cols` empty cells.
pub open spec fn empty_row(cols: int) -> Seq<Option<u8>> {
    Seq::new(cols as nat, |i: int| None::<u8>)
}

/// An empty board.
pub open spec fn empty_grid(cols: int, rows: int) -> Seq<Seq<Option<u8>>> {
    Seq::new(rows as nat, |r: int| empty_row(cols))
}

/// The board after removing the full marked rows: the rows above drop down and
/// empty rows come in at the top.
pub open spec fn cleared(b: Seq<Seq<Option<u8>>>, cols: int, rows: int, marked: Seq<usize>) -> Seq<
    Seq<Option<u8>>,
> {
    let kept = surviving_upto(b, marked, rows as nat);
    kept + Seq::new((rows - kept.len()) as nat, |i: int| empty_row(cols))
}


/// Extending a prefix of a footprint by one cell.
pub proof fn lemma_covers_step(c: Seq<(i8, i8)>, i: int, x: int, y: int, row: int, col: int)
    requires
        0 <= i < c.len(),
    ensures
        covers(c.subrange(0, i + 1), x, y, row, col) == (covers(c.subrange(0, i), x, y, row, col)
            || (x + c[i].0 == col && y + c[i].1 == row)),
{
    let a = c.subrange(0, i);
    let b = c.subrange(0, i + 1);
    if covers(b, x, y, row, col) {
        let k = choose|k: int| 0 <= k < b.len() && x + (#[trigger] b[k]).0 == col && y + b[k].1 == row;
        if k < i {
            assert(a[k] == b[k]);
        }
    }
    if covers(a, x, y, row, col) {
        let k = choose|k: int| 0 <= k < a.len() && x + (#[trigger] a[k]).0 == col && y + a[k].1 == row;
        assert(a[k] == b[k]);
    }
    if x + c[i].0 == col && y + c[i].1 == row {
        assert(b[i] == c[i]);
    }
}

} // verus!
