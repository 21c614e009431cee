//! How the self-playing Tetris judges a placement: the classic heuristic that
//! rewards completed lines and penalises height, buried holes and a jagged
//! surface. Weights are in hundredths (0.90, 0.51, 0.36, 0.18, 0.40).

use vstd::prelude::*;
use crate::stack::{covers, grid_of, grid_ok, lemma_covers_step};

verus! {

/// Occupancy once `c` rests at (x, y): a settled cell or a piece cell.
pub open spec fn filled_grid(
    b: Seq<Seq<Option<u8>>>,
    cols: int,
    rows: int,
    c: Seq<(i8, i8)>,
    x: int,
    y: int,
) -> Seq<Seq<bool>> {
    Seq::new(
        rows as nat,
        |r: int| Seq::new(cols as nat, |col: int| b[r][col] is Some || covers(c, x, y, r, col)),
    )
}

/// Every cell of the row is occupied.
pub open spec fn all_set(row: Seq<bool>) -> bool {
    forall|i: int| 0 <= i < row.len() ==> #[trigger] row[i]
}

/// The rows below `n` that are not full, bottom first.
pub open spec fn kept_upto(g: Seq<Seq<bool>>, n: nat) -> Seq<Seq<bool>>
    decreases n,
{
    if n == 0 {
        Seq::empty()
    } else {
        let prev = kept_upto(g, (n - 1) as nat);
        if all_set(g[n - 1]) {
            prev
        } else {
            prev.push(g[n - 1])
        }
    }
}

/// How many rows below `n` are full.
pub open spec fn full_count(g: Seq<Seq<bool>>, n: nat) -> nat
    decreases n,
{
    if n == 0 {
        0
    } else {
        full_count(g, (n - 1) as nat) + if all_set(g[n - 1]) {
            1nat
        } else {
            0nat
        }
    }
}

/// The occupancy after the full rows are removed and the rest drop down.
pub open spec fn settled(g: Seq<Seq<bool>>, cols: int, rows: int) -> Seq<Seq<bool>> {
    let k = kept_upto(g, rows as nat);
    k + Seq::new((rows - k.len()) as nat, |i: int| Seq::new(cols as nat, |j: int| false))
}

/// Height of column `col` among the rows below `n`: one more than its highest
/// occupied row, 0 when it has none.
pub open spec fn col_height(s: Seq<Seq<bool>>, col: int, n: nat) -> nat
    decreases n,
{
    if n == 0 {
        0
    } else if s[n - 1][col] {
        n
    } else {
        col_height(s, col, (n - 1) as nat)
    }
}

/// Empty cells of column `col` below row `n`.
pub open spec fn col_gaps(s: Seq<Seq<bool>>, col: int, n: nat) -> nat
    decreases n,
{
    if n == 0 {
        0
    } else {
        col_gaps(s, col, (n - 1) as nat) + if s[n - 1][col] {
            0nat
        } else {
            1nat
        }
    }
}

/// Height of column `col` of `s`, whose `rows` rows are all searched.
pub open spec fn height(s: Seq<Seq<bool>>, rows: int, col: int) -> int {
    col_height(s, col, rows as nat) as int
}

/// Buried holes of column `col`: empty cells under its highest occupied one.
pub open spec fn holes(s: Seq<Seq<bool>>, rows: int, col: int) -> int {
    col_gaps(s, col, col_height(s, col, rows as nat)) as int
}

/// Sum of the heights of the first `n` columns.
pub open spec fn sum_heights(s: Seq<Seq<bool>>, rows: int, n: nat) -> int
    decreases n,
{
    if n == 0 {
        0
    } else {
        sum_heights(s, rows, (n - 1) as nat) + height(s, rows, n - 1)
    }
}

/// Sum of the holes of the first `n` columns.
pub open spec fn sum_holes(s: Seq<Seq<bool>>, rows: int, n: nat) -> int
    decreases n,
{
    if n == 0 {
        0
    } else {
        sum_holes(s, rows, (n - 1) as nat) + holes(s, rows, n - 1)
    }
}

/// Absolute value.
pub open spec fn abs(v: int) -> int {
    if v < 0 {
        -v
    } else {
        v
    }
}

/// Sum of the height differences of neighbouring columns among the first `n`.
pub open spec fn bumpiness(s: Seq<Seq<bool>>, rows: int, n: nat) -> int
    decreases n,
{
    if n <= 1 {
        0
    } else {
        bumpiness(s, rows, (n - 1) as nat) + abs(height(s, rows, n - 2) - height(s, rows, n - 1))
    }
}

/// The tallest of the first `n` columns (0 when there are none).
pub open spec fn max_height(s: Seq<Seq<bool>>, rows: int, n: nat) -> int
    decreases n,
{
    if n == 0 {
        0
    } else {
        let m = max_height(s, rows, (n - 1) as nat);
        let h = height(s, rows, n - 1);
        if h > m {
            h
        } else {
            m
        }
    }
}

/// The score of `c` resting at (x, y), in hundredths:
/// 0.90 per cleared line, less 0.51 per unit of total height, 0.36 per hole,
/// 0.18 per unit of bumpiness and 0.40 per unit of the tallest column.
pub open spec fn score(
    b: Seq<Seq<Option<u8>>>,
    cols: int,
    rows: int,
    c: Seq<(i8, i8)>,
    x: int,
    y: int,
) -> int {
    let g = filled_grid(b, cols, rows, c, x, y);
    let s = settled(g, cols, rows);
    90 * full_count(g, rows as nat) - 51 * sum_heights(s, rows, cols as nat) - 36 * sum_holes(
        s,
        rows,
        cols as nat,
    ) - 18 * bumpiness(s, rows, cols as nat) - 40 * max_height(s, rows, cols as nat)
}


/// What the score of a placement weighs, in order: the lines it clears, and
/// of the stack left after the clear, the total column height, the buried
/// holes, the bumpiness and the tallest column.
pub open spec fn features(
    b: Seq<Seq<Option<u8>>>,
    cols: int,
    rows: int,
    c: Seq<(i8, i8)>,
    x: int,
    y: int,
) -> (int, int, int, int, int) {
    let g = filled_grid(b, cols, rows, c, x, y);
    let s = settled(g, cols, rows);
    (
        full_count(g, rows as nat) as int,
        sum_heights(s, rows, cols as nat),
        sum_holes(s, rows, cols as nat),
        bumpiness(s, rows, cols as nat),
        max_height(s, rows, cols as nat),
    )
}

/// Of two placements that differ in one feature only, the score prefers the
/// one with more cleared lines, and the one with less total height, fewer
/// holes, a flatter surface or a lower tallest column. Each step costs the
/// same whatever the board: a cleared line is worth 90, a unit of height 51,
/// a hole 36, a unit of bumpiness 18 and a unit of the tallest column 40.
pub proof fn lemma_score_rewards_lines_and_penalises_height(
    b1: Seq<Seq<Option<u8>>>,
    c1: Seq<(i8, i8)>,
    x1: int,
    y1: int,
    b2: Seq<Seq<Option<u8>>>,
    c2: Seq<(i8, i8)>,
    x2: int,
    y2: int,
    cols: int,
    rows: int,
)
    ensures
        ({
            let f1 = features(b1, cols, rows, c1, x1, y1);
            let f2 = features(b2, cols, rows, c2, x2, y2);
            let s1 = score(b1, cols, rows, c1, x1, y1);
            let s2 = score(b2, cols, rows, c2, x2, y2);
            &&& (f1.1 == f2.1 && f1.2 == f2.2 && f1.3 == f2.3 && f1.4 == f2.4) ==> s1 - s2 == 90 * (
            f1.0 - f2.0)
            &&& (f1.0 == f2.0 && f1.2 == f2.2 && f1.3 == f2.3 && f1.4 == f2.4) ==> s1 - s2 == -51 * (
            f1.1 - f2.1)
            &&& (f1.0 == f2.0 && f1.1 == f2.1 && f1.3 == f2.3 && f1.4 == f2.4) ==> s1 - s2 == -36 * (
            f1.2 - f2.2)
            &&& (f1.0 == f2.0 && f1.1 == f2.1 && f1.2 == f2.2 && f1.4 == f2.4) ==> s1 - s2 == -18 * (
            f1.3 - f2.3)
            &&& (f1.0 == f2.0 && f1.1 == f2.1 && f1.2 == f2.2 && f1.3 == f2.3) ==> s1 - s2 == -40 * (
            f1.4 - f2.4)
        }),
{
}

/// The rows of a nested vector of flags, each by its view.
pub open spec fn flags_of(v: &Vec<Vec<bool>>) -> Seq<Seq<bool>> {
    Seq::new(v@.len(), |r: int| v@[r]@)
}

/// Kept rows and full rows together account for every row.
proof fn lemma_kept_len(g: Seq<Seq<bool>>, n: nat)
    ensures
        kept_upto(g, n).len() + full_count(g, n) == n,
    decreases n,
{
    if n > 0 {
        lemma_kept_len(g, (n - 1) as nat);
    }
}

/// Column heights and gaps never exceed the rows searched.
proof fn lemma_col_bounds(s: Seq<Seq<bool>>, col: int, n: nat)
    ensures
        col_height(s, col, n) <= n,
        col_gaps(s, col, n) <= n,
    decreases n,
{
    if n > 0 {
        lemma_col_bounds(s, col, (n - 1) as nat);
    }
}

/// Whether every flag of the row is set.
fn all_true(row: &Vec<bool>) -> (r: bool)
    ensures
        r == all_set(row@),
{
    let mut i: usize = 0;
    while i < row.len()
        invariant
            i <= row@.len(),
            forall|k: int| 0 <= k < i ==> row@[k],
        decreases row@.len() - i,
    {
        if !row[i] {
            return false;
        }
        i = i + 1;
    }
    true
}

/// Height of column `col` of the first `rows` rows of `s`.
fn column_height(s: &Vec<Vec<bool>>, col: usize, rows: usize) -> (h: usize)
    requires
        rows <= s@.len(),
        forall|r: int| 0 <= r < rows ==> col < (#[trigger] s@[r]).len(),
    ensures
        h == col_height(flags_of(s), col as int, rows as nat),
        h <= rows,
{
    let ghost g = flags_of(s);
    let mut h: usize = 0;
    let mut r: usize = 0;
    while r < rows
        invariant
            g == flags_of(s),
            rows <= s@.len(),
            forall|k: int| 0 <= k < rows ==> col < (#[trigger] s@[k]).len(),
            r <= rows,
            h == col_height(g, col as int, r as nat),
            h <= r,
        decreases rows - r,
    {
        assert(g[r as int] == s@[r as int]@);
        if s[r][col] {
            h = r + 1;
        }
        r = r + 1;
    }
    h
}

/// Empty cells of column `col` below row `n` of `s`.
fn column_gaps(s: &Vec<Vec<bool>>, col: usize, n: usize) -> (k: usize)
    requires
        n <= s@.len(),
        forall|r: int| 0 <= r < n ==> col < (#[trigger] s@[r]).len(),
    ensures
        k == col_gaps(flags_of(s), col as int, n as nat),
        k <= n,
{
    let ghost g = flags_of(s);
    let mut k: usize = 0;
    let mut r: usize = 0;
    while r < n
        invariant
            g == flags_of(s),
            n <= s@.len(),
            forall|j: int| 0 <= j < n ==> col < (#[trigger] s@[j]).len(),
            r <= n,
            k == col_gaps(g, col as int, r as nat),
            k <= r,
        decreases n - r,
    {
        assert(g[r as int] == s@[r as int]@);
        if !s[r][col] {
            k = k + 1;
        }
        r = r + 1;
    }
    k
}

/// Occupancy of the board, without any piece.
fn occupancy(board: &Vec<Vec<Option<u8>>>, cols: usize, rows: usize) -> (g: Vec<Vec<bool>>)
    requires
        grid_ok(grid_of(board), cols as int, rows as int),
    ensures
        g@.len() == rows,
        forall|r: int| 0 <= r < rows ==> (#[trigger] g@[r])@ == Seq::new(
            cols as nat,
            |col: int| grid_of(board)[r][col] is Some,
        ),
{
    let ghost b = grid_of(board);
    let mut g: Vec<Vec<bool>> = Vec::new();
    let mut r: usize = 0;
    while r < rows
        invariant
            b == grid_of(board),
            grid_ok(b, cols as int, rows as int),
            r <= rows,
            g@.len() == r,
            forall|k: int| 0 <= k < r ==> (#[trigger] g@[k])@ == Seq::new(
                cols as nat,
                |col: int| b[k][col] is Some,
            ),
        decreases rows - r,
    {
        assert(b[r as int] == board@[r as int]@);
        let mut row: Vec<bool> = Vec::new();
        let mut c: usize = 0;
        while c < cols
            invariant
                b == grid_of(board),
                grid_ok(b, cols as int, rows as int),
                r < rows,
                b[r as int] == board@[r as int]@,
                c <= cols,
                row@ == Seq::new(c as nat, |col: int| b[r as int][col] is Some),
            decreases cols - c,
        {
            row.push(board[r][c].is_some());
            c = c + 1;
            assert(row@ =~= Seq::new(c as nat, |col: int| b[r as int][col] is Some));
        }
        g.push(row);
        r = r + 1;
    }
    g
}


/// Rows kept from a grid of `cols`-wide rows are `cols` wide.
proof fn lemma_kept_rows(g: Seq<Seq<bool>>, n: nat, cols: int)
    requires
        n <= g.len(),
        forall|j: int| 0 <= j < n ==> (#[trigger] g[j]).len() == cols,
    ensures
        forall|k: int| 0 <= k < kept_upto(g, n).len() ==> (#[trigger] kept_upto(g, n)[k]).len() == cols,
    decreases n,
{
    if n > 0 {
        lemma_kept_rows(g, (n - 1) as nat, cols);
        let prev = kept_upto(g, (n - 1) as nat);
        let cur = kept_upto(g, n);
        assert forall|k: int| 0 <= k < cur.len() implies (#[trigger] cur[k]).len() == cols by {
            if k < prev.len() {
                assert(cur[k] == prev[k]);
            }
        }
    }
}

/// Score `cells` resting at (x, y) on `board`; see [`score`].
pub fn evaluate(
    board: &Vec<Vec<Option<u8>>>,
    cols: usize,
    rows: usize,
    cells: &[(i8, i8)],
    x: i8,
    y: i8,
) -> (v: i64)
    requires
        grid_ok(grid_of(board), cols as int, rows as int),
        cols <= 127,
        rows <= 127,
        0 <= x <= 127,
        0 <= y <= 127,
    ensures
        v == score(grid_of(board), cols as int, rows as int, cells@, x as int, y as int),
{
    let ghost b = grid_of(board);
    let ghost c = cells@;
    let mut g = occupancy(board, cols, rows);
    let mut i: usize = 0;
    while i < cells.len()
        invariant
            c == cells@,
            0 <= x <= 127,
            0 <= y <= 127,
            i <= c.len(),
            g@.len() == rows,
            forall|r: int|
                0 <= r < rows ==> (#[trigger] g@[r])@ == Seq::new(
                    cols as nat,
                    |col: int| b[r][col] is Some || covers(c.subrange(0, i as int), x as int, y as int, r, col),
                ),
        decreases c.len() - i,
    {
        let (cx, cy) = cells[i];
        assert(c[i as int] == (cx, cy));
        let px: i16 = x as i16 + cx as i16;
        let py: i16 = y as i16 + cy as i16;
        let ghost before = g@;
        if 0 <= py && 0 <= px && (py as usize) < rows && (px as usize) < cols {
            g[py as usize][px as usize] = true;
        }
        proof {
            assert forall|r: int| 0 <= r < rows implies (#[trigger] g@[r])@ == Seq::new(
                cols as nat,
                |col: int| b[r][col] is Some || covers(c.subrange(0, i + 1), x as int, y as int, r, col),
            ) by {
                assert forall|col: int| 0 <= col < cols implies g@[r]@[col] == (b[r][col] is Some
                    || covers(c.subrange(0, i + 1), x as int, y as int, r, col)) by {
                    lemma_covers_step(c, i as int, x as int, y as int, r, col);
                    assert(before[r]@[col] == (b[r][col] is Some || covers(
                        c.subrange(0, i as int),
                        x as int,
                        y as int,
                        r,
                        col,
                    )));
                }
                assert(g@[r]@ =~= Seq::new(
                    cols as nat,
                    |col: int| b[r][col] is Some || covers(c.subrange(0, i + 1), x as int, y as int, r, col),
                ));
            }
        }
        i = i + 1;
    }
    let ghost gg = filled_grid(b, cols as int, rows as int, c, x as int, y as int);
    proof {
        assert(c.subrange(0, c.len() as int) =~= c);
        assert forall|r: int| 0 <= r < rows implies (#[trigger] flags_of(&g)[r]) == gg[r] by {
            assert(flags_of(&g)[r] =~= gg[r]);
        }
        assert(flags_of(&g) =~= gg);
    }
    let mut kept: Vec<Vec<bool>> = Vec::new();
    let mut cleared: i64 = 0;
    let mut r: usize = 0;
    while r < rows
        invariant
            gg == flags_of(&g),
            gg.len() == rows,
            rows <= 127,
            forall|j: int| 0 <= j < rows ==> (#[trigger] gg[j]).len() == cols,
            r <= rows,
            flags_of(&kept) == kept_upto(gg, r as nat),
            cleared == full_count(gg, r as nat),
            kept@.len() + cleared == r,
        decreases rows - r,
    {
        proof {
            lemma_kept_len(gg, (r + 1) as nat);
        }
        assert(gg[r as int] == g@[r as int]@);
        if all_true(&g[r]) {
            cleared = cleared + 1;
        } else {
            let row = g[r].clone();
            assert(row@ =~= g@[r as int]@);
            let ghost prev = flags_of(&kept);
            kept.push(row);
            assert(flags_of(&kept) =~= prev.push(gg[r as int]));
        }
        r = r + 1;
    }
    let ghost k0 = flags_of(&kept);
    proof {
        lemma_kept_rows(gg, rows as nat, cols as int);
    }
    while kept.len() < rows
        invariant
            k0 == kept_upto(gg, rows as nat),
            k0.len() <= kept@.len() <= rows,
            flags_of(&kept) == k0 + Seq::new(
                (kept@.len() - k0.len()) as nat,
                |i: int| Seq::new(cols as nat, |j: int| false),
            ),
        decreases rows - kept@.len(),
    {
        let ghost prev = flags_of(&kept);
        let fresh: Vec<bool> = vec![false; cols];
        assert(fresh@ =~= Seq::new(cols as nat, |j: int| false));
        kept.push(fresh);
        assert(flags_of(&kept) =~= prev.push(Seq::new(cols as nat, |j: int| false)));
        assert(flags_of(&kept) =~= k0 + Seq::new(
            (kept@.len() - k0.len()) as nat,
            |i: int| Seq::new(cols as nat, |j: int| false),
        ));
    }
    let ghost s = settled(gg, cols as int, rows as int);
    assert(flags_of(&kept) == s);
    assert forall|j: int| 0 <= j < rows implies (#[trigger] kept@[j])@.len() == cols by {
        assert(kept@[j]@ == s[j]);
        if j >= k0.len() {
            assert(s[j] == Seq::new(cols as nat, |jj: int| false));
        }
    }
    let mut agg: i64 = 0;
    let mut holes_sum: i64 = 0;
    let mut bump: i64 = 0;
    let mut maxh: i64 = 0;
    let mut prev: i64 = 0;
    let mut col: usize = 0;
    while col < cols
        invariant
            s == flags_of(&kept),
            kept@.len() == rows,
            rows <= 127,
            cols <= 127,
            forall|j: int| 0 <= j < rows ==> (#[trigger] kept@[j])@.len() == cols,
            col <= cols,
            agg == sum_heights(s, rows as int, col as nat),
            holes_sum == sum_holes(s, rows as int, col as nat),
            bump == bumpiness(s, rows as int, col as nat),
            maxh == max_height(s, rows as int, col as nat),
            col > 0 ==> prev == height(s, rows as int, col - 1),
            0 <= agg <= 127 * col,
            0 <= holes_sum <= 127 * col,
            0 <= bump <= 127 * col,
            0 <= maxh <= 127,
            0 <= prev <= 127,
        decreases cols - col,
    {
        let h = column_height(&kept, col, rows);
        proof {
            lemma_col_bounds(s, col as int, h as nat);
        }
        let k = column_gaps(&kept, col, h);
        let hi = h as i64;
        agg = agg + hi;
        holes_sum = holes_sum + k as i64;
        if col > 0 {
            let d = if prev > hi {
                prev - hi
            } else {
                hi - prev
            };
            bump = bump + d;
        }
        if hi > maxh {
            maxh = hi;
        }
        prev = hi;
        col = col + 1;
    }
    90 * cleared - 51 * agg - 36 * holes_sum - 18 * bump - 40 * maxh
}

} // verus!
