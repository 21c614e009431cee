//! Counting the open cells a snake head can still reach.

use vstd::prelude::*;
use std::collections::VecDeque;

verus! {

/// Row-major index of cell (x, y) on a board `cols` wide.
pub open spec fn cell_index(x: int, y: int, cols: int) -> int {
    y * cols + x
}

/// Whether (x, y) lies on a `cols` x `rows` board.
pub open spec fn in_board(x: int, y: int, cols: int, rows: int) -> bool {
    0 <= x < cols && 0 <= y < rows
}

/// Whether (x, y) is a board cell the fill may enter: not occupied by the
/// body, except for `from` itself.
pub open spec fn is_open(
    body: Seq<(usize, usize)>,
    from: (usize, usize),
    cols: int,
    rows: int,
    x: int,
    y: int,
) -> bool {
    &&& in_board(x, y, cols, rows)
    &&& ((x == from.0 && y == from.1) || !body.contains((x as usize, y as usize)))
}

/// Whether (x, y) can be reached from `from` in at most `n` steps between
/// side-adjacent open cells.
pub open spec fn reach_within(
    body: Seq<(usize, usize)>,
    from: (usize, usize),
    cols: int,
    rows: int,
    n: nat,
    x: int,
    y: int,
) -> bool
    decreases n,
{
    if n == 0 {
        x == from.0 && y == from.1
    } else {
        let m = (n - 1) as nat;
        ||| reach_within(body, from, cols, rows, m, x, y)
        ||| is_open(body, from, cols, rows, x, y) && {
            ||| reach_within(body, from, cols, rows, m, x + 1, y)
            ||| reach_within(body, from, cols, rows, m, x - 1, y)
            ||| reach_within(body, from, cols, rows, m, x, y + 1)
            ||| reach_within(body, from, cols, rows, m, x, y - 1)
        }
    }
}

/// Whether (x, y) can be reached from `from` through open cells.
pub open spec fn reachable(
    body: Seq<(usize, usize)>,
    from: (usize, usize),
    cols: int,
    rows: int,
    x: int,
    y: int,
) -> bool {
    exists|n: nat| #[trigger] reach_within(body, from, cols, rows, n, x, y)
}

/// Number of `true` entries.
pub open spec fn count_true(s: Seq<bool>) -> nat
    decreases s.len(),
{
    if s.len() == 0 {
        0
    } else {
        count_true(s.drop_last()) + if s.last() {
            1nat
        } else {
            0nat
        }
    }
}

/// Number of board cells reachable from `from`, the body being walls.
pub open spec fn free_cells(
    body: Seq<(usize, usize)>,
    from: (usize, usize),
    cols: int,
    rows: int,
) -> nat {
    count_true(
        Seq::new((cols * rows) as nat, |i: int| reachable(body, from, cols, rows, i % cols, i / cols)),
    )
}

/// A count of `true` entries never exceeds the length of the sequence.
pub proof fn lemma_count_true_bound(s: Seq<bool>)
    ensures
        count_true(s) <= s.len(),
    decreases s.len(),
{
    if s.len() > 0 {
        lemma_count_true_bound(s.drop_last());
    }
}

proof fn lemma_count_true_set(s: Seq<bool>, j: int)
    requires
        0 <= j < s.len(),
        !s[j],
    ensures
        count_true(s.update(j, true)) == count_true(s) + 1,
    decreases s.len(),
{
    let t = s.update(j, true);
    if j == s.len() - 1 {
        assert(t.drop_last() =~= s.drop_last());
    } else {
        lemma_count_true_set(s.drop_last(), j);
        assert(t.drop_last() =~= s.drop_last().update(j, true));
    }
}

proof fn lemma_count_true_all_false(n: nat)
    ensures
        count_true(Seq::new(n, |i: int| false)) == 0,
    decreases n,
{
    if n > 0 {
        lemma_count_true_all_false((n - 1) as nat);
        assert(Seq::new(n, |i: int| false).drop_last() =~= Seq::new((n - 1) as nat, |i: int| false));
    }
}

/// Index arithmetic of a board cell.
pub proof fn lemma_index(x: int, y: int, cols: int, rows: int)
    requires
        in_board(x, y, cols, rows),
    ensures
        0 <= y * cols <= cell_index(x, y, cols) < cols * rows,
        cell_index(x, y, cols) % cols == x,
        cell_index(x, y, cols) / cols == y,
{
    assert(0 <= y * cols <= y * cols + x < cols * rows) by (nonlinear_arith)
        requires
            0 <= x < cols,
            0 <= y < rows,
    ;
    vstd::arithmetic::div_mod::lemma_fundamental_div_mod_converse(y * cols + x, cols, y, x);
}

/// The cell at an index.
pub proof fn lemma_index_inverse(j: int, cols: int, rows: int)
    requires
        0 <= j < cols * rows,
        cols > 0,
    ensures
        in_board(j % cols, j / cols, cols, rows),
        cell_index(j % cols, j / cols, cols) == j,
{
    vstd::arithmetic::div_mod::lemma_fundamental_div_mod(j, cols);
    assert(j / cols < rows) by (nonlinear_arith)
        requires
            0 <= j < cols * rows,
            cols > 0,
            j == cols * (j / cols) + j % cols,
            0 <= j % cols < cols,
    ;
    assert(j / cols >= 0) by (nonlinear_arith)
        requires
            0 <= j,
            cols > 0,
    ;
    assert((j / cols) * cols == cols * (j / cols)) by (nonlinear_arith);
}

/// No neighbour of (x, y) that the fill may enter is left unmarked.
pub open spec fn closed_at(
    vis: Seq<bool>,
    body: Seq<(usize, usize)>,
    from: (usize, usize),
    cols: int,
    rows: int,
    x: int,
    y: int,
) -> bool {
    &&& is_open(body, from, cols, rows, x + 1, y) ==> vis[cell_index(x + 1, y, cols)]
    &&& is_open(body, from, cols, rows, x - 1, y) ==> vis[cell_index(x - 1, y, cols)]
    &&& is_open(body, from, cols, rows, x, y + 1) ==> vis[cell_index(x, y + 1, cols)]
    &&& is_open(body, from, cols, rows, x, y - 1) ==> vis[cell_index(x, y - 1, cols)]
}

/// A marking that contains `from` and is closed at every marked cell
/// contains every reachable cell.
proof fn lemma_closed_covers(
    vis: Seq<bool>,
    body: Seq<(usize, usize)>,
    from: (usize, usize),
    cols: int,
    rows: int,
    n: nat,
    x: int,
    y: int,
)
    requires
        cols > 0,
        vis.len() == cols * rows,
        in_board(from.0 as int, from.1 as int, cols, rows),
        vis[cell_index(from.0 as int, from.1 as int, cols)],
        forall|j: int|
            0 <= j < vis.len() && #[trigger] vis[j] ==> closed_at(
                vis,
                body,
                from,
                cols,
                rows,
                j % cols,
                j / cols,
            ),
        reach_within(body, from, cols, rows, n, x, y),
    ensures
        in_board(x, y, cols, rows),
        vis[cell_index(x, y, cols)],
    decreases n,
{
    if n > 0 {
        let m = (n - 1) as nat;
        if reach_within(body, from, cols, rows, m, x, y) {
            lemma_closed_covers(vis, body, from, cols, rows, m, x, y);
        } else {
            let (a, b) = if reach_within(body, from, cols, rows, m, x + 1, y) {
                (x + 1, y)
            } else if reach_within(body, from, cols, rows, m, x - 1, y) {
                (x - 1, y)
            } else if reach_within(body, from, cols, rows, m, x, y + 1) {
                (x, y + 1)
            } else {
                (x, y - 1)
            };
            lemma_closed_covers(vis, body, from, cols, rows, m, a, b);
            lemma_index(a, b, cols, rows);
            assert(closed_at(vis, body, from, cols, rows, a, b));
        }
    }
}

/// The cell at index `j` of a board `c` wide.
pub open spec fn cell_at(j: int, c: int) -> (usize, usize) {
    ((j % c) as usize, (j / c) as usize)
}

/// State of the flood fill: `wall` marks the body cells other than `from`,
/// `vis` the cells the fill has reached, `blocked` their union; the stack
/// holds distinct marked cells still to expand; every marked cell is
/// reachable; every marked cell that is neither on the stack nor `pending`
/// has all its open neighbours marked; and `count` plus the stack size is the
/// number of marked cells.
pub open spec fn fill_inv(
    b: Seq<(usize, usize)>,
    from: (usize, usize),
    c: int,
    r: int,
    wall: Seq<bool>,
    blocked: Seq<bool>,
    vis: Seq<bool>,
    stack: Seq<(usize, usize)>,
    count: int,
    pending: Option<(usize, usize)>,
) -> bool {
    &&& c > 0 && r > 0
    &&& wall.len() == c * r && blocked.len() == c * r && vis.len() == c * r
    &&& in_board(from.0 as int, from.1 as int, c, r)
    &&& vis[cell_index(from.0 as int, from.1 as int, c)]
    &&& forall|j: int|
        0 <= j < c * r ==> #[trigger] wall[j] == !is_open(b, from, c, r, j % c, j / c)
    &&& forall|j: int| 0 <= j < c * r ==> #[trigger] blocked[j] == (vis[j] || wall[j])
    &&& forall|j: int| 0 <= j < c * r && #[trigger] vis[j] ==> reachable(b, from, c, r, j % c, j / c)
    &&& forall|k: int|
        0 <= k < stack.len() ==> in_board((#[trigger] stack[k]).0 as int, stack[k].1 as int, c, r)
            && vis[cell_index(stack[k].0 as int, stack[k].1 as int, c)]
    &&& forall|k1: int, k2: int|
        0 <= k1 < k2 < stack.len() ==> #[trigger] stack[k1] != #[trigger] stack[k2]
    &&& count + stack.len() == count_true(vis)
    &&& 0 <= count
    &&& forall|j: int|
        0 <= j < c * r && #[trigger] vis[j] && !stack.contains(cell_at(j, c)) && pending != Some(
            cell_at(j, c),
        ) ==> closed_at(vis, b, from, c, r, j % c, j / c)
    &&& pending matches Some(p) ==> {
        &&& in_board(p.0 as int, p.1 as int, c, r)
        &&& vis[cell_index(p.0 as int, p.1 as int, c)]
        &&& !stack.contains(p)
        &&& count <= count_true(vis)
    }
}

/// Marking the unmarked open neighbour (nx, ny) of the pending cell and
/// pushing it keeps the fill state.
proof fn lemma_mark(
    b: Seq<(usize, usize)>,
    from: (usize, usize),
    c: int,
    r: int,
    wall: Seq<bool>,
    blocked: Seq<bool>,
    vis: Seq<bool>,
    stack: Seq<(usize, usize)>,
    count: int,
    x: usize,
    y: usize,
    nx: usize,
    ny: usize,
)
    requires
        fill_inv(b, from, c, r, wall, blocked, vis, stack, count, Some((x, y))),
        in_board(x as int, y as int, c, r),
        vis[cell_index(x as int, y as int, c)],
        in_board(nx as int, ny as int, c, r),
        (nx == x + 1 && ny == y) || (nx == x - 1 && ny == y) || (nx == x && ny == y + 1) || (nx
            == x && ny == y - 1),
        !blocked[cell_index(nx as int, ny as int, c)],
    ensures
        fill_inv(
            b,
            from,
            c,
            r,
            wall,
            blocked.update(cell_index(nx as int, ny as int, c), true),
            vis.update(cell_index(nx as int, ny as int, c), true),
            stack.push((nx, ny)),
            count,
            Some((x, y)),
        ),
{
    let i = cell_index(nx as int, ny as int, c);
    let pi = cell_index(x as int, y as int, c);
    lemma_index(nx as int, ny as int, c, r);
    lemma_index(x as int, y as int, c, r);
    let vis2 = vis.update(i, true);
    let blocked2 = blocked.update(i, true);
    let stack2 = stack.push((nx, ny));
    assert(!vis[i] && !wall[i]);
    assert(is_open(b, from, c, r, nx as int, ny as int));
    // The new cell is reachable one step past its neighbour.
    assert(reachable(b, from, c, r, x as int, y as int));
    let k = choose|k: nat| #[trigger] reach_within(b, from, c, r, k, x as int, y as int);
    assert(reach_within(b, from, c, r, k + 1, nx as int, ny as int));
    lemma_count_true_set(vis, i);
    assert forall|j: int| 0 <= j < c * r && #[trigger] vis2[j] implies reachable(
        b,
        from,
        c,
        r,
        j % c,
        j / c,
    ) by {
        if j == i {
            assert(reach_within(b, from, c, r, k + 1, j % c, j / c));
        }
    }
    assert forall|kk: int|
        0 <= kk < stack2.len() implies in_board(
        (#[trigger] stack2[kk]).0 as int,
        stack2[kk].1 as int,
        c,
        r,
    ) && vis2[cell_index(stack2[kk].0 as int, stack2[kk].1 as int, c)] by {
        if kk < stack.len() {
            assert(stack2[kk] == stack[kk]);
            let q = cell_index(stack[kk].0 as int, stack[kk].1 as int, c);
            lemma_index(stack[kk].0 as int, stack[kk].1 as int, c, r);
            assert(vis[q]);
            assert(vis2[q]);
        } else {
            assert(stack2[kk] == (nx, ny));
            assert(vis2[i]);
        }
    }
    assert forall|k1: int, k2: int|
        0 <= k1 < k2 < stack2.len() implies #[trigger] stack2[k1] != #[trigger] stack2[k2] by {
        if k2 == stack.len() {
            assert(stack2[k1] == stack[k1]);
            if stack[k1] == (nx, ny) {
                assert(vis[cell_index(stack[k1].0 as int, stack[k1].1 as int, c)]);
            }
        } else {
            assert(stack2[k1] == stack[k1]);
            assert(stack2[k2] == stack[k2]);
        }
    }
    assert forall|j: int|
        0 <= j < c * r && #[trigger] vis2[j] && !stack2.contains(cell_at(j, c)) && Some((x, y))
            != Some(cell_at(j, c)) implies closed_at(vis2, b, from, c, r, j % c, j / c) by {
        lemma_index_inverse(j, c, r);
        if j == i {
            assert(cell_at(j, c) == (nx, ny));
            assert(stack2[stack.len() as int] == (nx, ny));
        } else {
            if stack.contains(cell_at(j, c)) {
                let kk = choose|kk: int| 0 <= kk < stack.len() && stack[kk] == cell_at(j, c);
                assert(stack2[kk] == cell_at(j, c));
            }
            assert(!stack.contains(cell_at(j, c)));
            assert(vis[j]);
            assert(closed_at(vis, b, from, c, r, j % c, j / c));
            let (a, bb) = (j % c, j / c);
            if is_open(b, from, c, r, a + 1, bb) {
                lemma_index(a + 1, bb, c, r);
                assert(vis2[cell_index(a + 1, bb, c)]);
            }
            if is_open(b, from, c, r, a - 1, bb) {
                lemma_index(a - 1, bb, c, r);
                assert(vis2[cell_index(a - 1, bb, c)]);
            }
            if is_open(b, from, c, r, a, bb + 1) {
                lemma_index(a, bb + 1, c, r);
                assert(vis2[cell_index(a, bb + 1, c)]);
            }
            if is_open(b, from, c, r, a, bb - 1) {
                lemma_index(a, bb - 1, c, r);
                assert(vis2[cell_index(a, bb - 1, c)]);
            }
        }
    }
    lemma_index(from.0 as int, from.1 as int, c, r);
    assert(vis2[cell_index(from.0 as int, from.1 as int, c)]);
    assert(vis2[pi]);
    assert(!stack2.contains((x, y))) by {
        if stack2.contains((x, y)) {
            let kk = choose|kk: int| 0 <= kk < stack2.len() && stack2[kk] == (x, y);
            if kk < stack.len() {
                assert(stack[kk] == (x, y));
            }
        }
    }
    lemma_count_true_bound(vis2);
    assert forall|j: int| 0 <= j < c * r implies #[trigger] blocked2[j] == (vis2[j] || wall[j]) by {}
    assert(count + stack2.len() == count_true(vis2));
    assert(wall.len() == c * r && blocked2.len() == c * r && vis2.len() == c * r);
}

/// Pushing nothing when the neighbour (nx, ny) is blocked keeps the state, and
/// the neighbour is marked unless it is not open.
proof fn lemma_skip(
    b: Seq<(usize, usize)>,
    from: (usize, usize),
    c: int,
    r: int,
    wall: Seq<bool>,
    blocked: Seq<bool>,
    vis: Seq<bool>,
    nx: usize,
    ny: usize,
)
    requires
        c > 0,
        wall.len() == c * r && blocked.len() == c * r && vis.len() == c * r,
        forall|j: int|
            0 <= j < c * r ==> #[trigger] wall[j] == !is_open(b, from, c, r, j % c, j / c),
        forall|j: int| 0 <= j < c * r ==> #[trigger] blocked[j] == (vis[j] || wall[j]),
        in_board(nx as int, ny as int, c, r),
        blocked[cell_index(nx as int, ny as int, c)],
    ensures
        is_open(b, from, c, r, nx as int, ny as int) ==> vis[cell_index(nx as int, ny as int, c)],
{
    lemma_index(nx as int, ny as int, c, r);
}

fn falses(n: usize) -> (v: Vec<bool>)
    ensures
        v@ == Seq::new(n as nat, |i: int| false),
{
    let mut v: Vec<bool> = Vec::new();
    while v.len() < n
        invariant
            v.len() <= n,
            forall|i: int| 0 <= i < v.len() ==> !v@[i],
        decreases n - v.len(),
    {
        v.push(false);
    }
    assert(v@ =~= Seq::new(n as nat, |i: int| false));
    v
}

/// Mark a neighbour if it is on the board and not yet blocked.
fn try_mark(
    blocked: &mut Vec<bool>,
    stack: &mut Vec<(usize, usize)>,
    nx: usize,
    ny: usize,
    cols: usize,
    rows: usize,
) -> (pushed: bool)
    requires
        old(blocked)@.len() == cols * rows,
        cols * rows <= usize::MAX,
        nx < cols,
        ny < rows,
    ensures
        pushed == !old(blocked)@[cell_index(nx as int, ny as int, cols as int)],
        final(blocked)@ == old(blocked)@.update(cell_index(nx as int, ny as int, cols as int), true),
        pushed ==> final(stack)@ == old(stack)@.push((nx, ny)),
        !pushed ==> final(stack)@ == old(stack)@,
        !pushed ==> final(blocked)@ == old(blocked)@,
        0 <= cell_index(nx as int, ny as int, cols as int) < cols * rows,
{
    proof {
        lemma_index(nx as int, ny as int, cols as int, rows as int);
    }
    let i = ny * cols + nx;
    if !blocked[i] {
        blocked.set(i, true);
        stack.push((nx, ny));
        true
    } else {
        assert(blocked@.update(i as int, true) =~= blocked@);
        false
    }
}

/// Popping the last stack entry makes it the pending cell.
proof fn lemma_pop(
    b: Seq<(usize, usize)>,
    from: (usize, usize),
    c: int,
    r: int,
    wall: Seq<bool>,
    blocked: Seq<bool>,
    vis: Seq<bool>,
    stack: Seq<(usize, usize)>,
    count: int,
)
    requires
        fill_inv(b, from, c, r, wall, blocked, vis, stack, count, None),
        stack.len() > 0,
    ensures
        fill_inv(b, from, c, r, wall, blocked, vis, stack.drop_last(), count + 1, Some(stack.last())),
        count + 1 <= c * r,
{
    lemma_count_true_bound(vis);
    let last = stack.len() - 1;
    let p = stack[last];
    let s2 = stack.drop_last();
    assert(in_board(p.0 as int, p.1 as int, c, r));
    assert forall|kk: int| 0 <= kk < s2.len() implies s2[kk] != p by {
        assert(stack[kk] == s2[kk]);
    }
    assert(!s2.contains(p));
    assert forall|j: int|
        0 <= j < c * r && #[trigger] vis[j] && !s2.contains(cell_at(j, c)) && Some(p) != Some(
            cell_at(j, c),
        ) implies closed_at(vis, b, from, c, r, j % c, j / c) by {
        if stack.contains(cell_at(j, c)) {
            let kk = choose|kk: int| 0 <= kk < stack.len() && stack[kk] == cell_at(j, c);
            if kk < last {
                assert(s2[kk] == cell_at(j, c));
            }
        }
    }
    assert forall|kk: int|
        0 <= kk < s2.len() implies in_board(
        (#[trigger] s2[kk]).0 as int,
        s2[kk].1 as int,
        c,
        r,
    ) && vis[cell_index(s2[kk].0 as int, s2[kk].1 as int, c)] by {
        assert(s2[kk] == stack[kk]);
    }
    assert forall|k1: int, k2: int|
        0 <= k1 < k2 < s2.len() implies #[trigger] s2[k1] != #[trigger] s2[k2] by {
        assert(s2[k1] == stack[k1]);
        assert(s2[k2] == stack[k2]);
    }
}

/// Once every open neighbour of the pending cell is marked, the pending cell
/// is closed and the fill state needs no pending cell.
proof fn lemma_finish(
    b: Seq<(usize, usize)>,
    from: (usize, usize),
    c: int,
    r: int,
    wall: Seq<bool>,
    blocked: Seq<bool>,
    vis: Seq<bool>,
    stack: Seq<(usize, usize)>,
    count: int,
    x: usize,
    y: usize,
    v1: Seq<bool>,
    v2: Seq<bool>,
    v3: Seq<bool>,
)
    requires
        c <= usize::MAX,
        r <= usize::MAX,
        fill_inv(b, from, c, r, wall, blocked, vis, stack, count, Some((x, y))),
        v1.len() == c * r && v2.len() == c * r && v3.len() == c * r,
        forall|q: int| 0 <= q < c * r && #[trigger] v1[q] ==> v2[q],
        forall|q: int| 0 <= q < c * r && #[trigger] v2[q] ==> v3[q],
        forall|q: int| 0 <= q < c * r && #[trigger] v3[q] ==> vis[q],
        is_open(b, from, c, r, x as int, y + 1) ==> v1[cell_index(x as int, y + 1, c)],
        is_open(b, from, c, r, x + 1, y as int) ==> v2[cell_index(x + 1, y as int, c)],
        is_open(b, from, c, r, x as int, y - 1) ==> v3[cell_index(x as int, y - 1, c)],
        is_open(b, from, c, r, x - 1, y as int) ==> vis[cell_index(x - 1, y as int, c)],
    ensures
        fill_inv(b, from, c, r, wall, blocked, vis, stack, count, None),
{
    let (xi, yi) = (x as int, y as int);
    if is_open(b, from, c, r, xi, yi + 1) {
        lemma_index(xi, yi + 1, c, r);
    }
    if is_open(b, from, c, r, xi + 1, yi) {
        lemma_index(xi + 1, yi, c, r);
    }
    if is_open(b, from, c, r, xi, yi - 1) {
        lemma_index(xi, yi - 1, c, r);
    }
    assert(closed_at(vis, b, from, c, r, xi, yi));
    lemma_index(xi, yi, c, r);
    assert forall|j: int|
        0 <= j < c * r && #[trigger] vis[j] && !stack.contains(cell_at(j, c)) && None::<
            (usize, usize),
        > != Some(cell_at(j, c)) implies closed_at(vis, b, from, c, r, j % c, j / c) by {
        lemma_index_inverse(j, c, r);
        if cell_at(j, c) == (x, y) {
            assert(0 <= j % c < c);
            assert(0 <= j / c);
            assert((j / c) < r);
            assert(((j % c) as usize) as int == j % c);
            assert(((j / c) as usize) as int == j / c);
            assert(j % c == xi);
            assert(j / c == yi);
            assert(j == cell_index(xi, yi, c));
        }
    }
}

/// Visit the neighbour (nx, ny) of the pending cell (x, y): mark and push it
/// if it is not yet blocked. Returns the new marking.
fn visit(
    blocked: &mut Vec<bool>,
    stack: &mut Vec<(usize, usize)>,
    nx: usize,
    ny: usize,
    cols: usize,
    rows: usize,
    Ghost(b): Ghost<Seq<(usize, usize)>>,
    Ghost(from): Ghost<(usize, usize)>,
    Ghost(wall): Ghost<Seq<bool>>,
    Ghost(vis): Ghost<Seq<bool>>,
    Ghost(count): Ghost<int>,
    Ghost(x): Ghost<usize>,
    Ghost(y): Ghost<usize>,
) -> (res: Ghost<Seq<bool>>)
    requires
        cols * rows <= usize::MAX,
        fill_inv(b, from, cols as int, rows as int, wall, old(blocked)@, vis, old(stack)@, count, Some((x, y))),
        nx < cols,
        ny < rows,
        (nx == x + 1 && ny == y) || (nx == x - 1 && ny == y) || (nx == x && ny == y + 1) || (nx
            == x && ny == y - 1),
    ensures
        fill_inv(b, from, cols as int, rows as int, wall, final(blocked)@, res@, final(stack)@, count, Some((x, y))),
        res@.len() == vis.len(),
        forall|q: int| 0 <= q < vis.len() && #[trigger] vis[q] ==> res@[q],
        is_open(b, from, cols as int, rows as int, nx as int, ny as int) ==> res@[cell_index(nx as int, ny as int, cols as int)],
{
    let ghost c = cols as int;
    let ghost r = rows as int;
    let ghost pb = blocked@;
    let ghost ps = stack@;
    if try_mark(blocked, stack, nx, ny, cols, rows) {
        proof {
            lemma_mark(b, from, c, r, wall, pb, vis, ps, count, x, y, nx, ny);
        }
        Ghost(vis.update(cell_index(nx as int, ny as int, c), true))
    } else {
        proof {
            lemma_skip(b, from, c, r, wall, pb, vis, nx, ny);
        }
        Ghost(vis)
    }
}

/// Flood fill the open cells reachable from `from`, treating the body as
/// walls except `from` itself, and count them.
pub fn count_free(body: &VecDeque<(usize, usize)>, cols: usize, rows: usize, from: (usize, usize)) -> (n: usize)
    requires
        cols * rows <= usize::MAX,
        cols > 0 && rows > 0 ==> in_board(from.0 as int, from.1 as int, cols as int, rows as int),
        forall|k: int|
            0 <= k < body@.len() ==> in_board(
                (#[trigger] body@[k]).0 as int,
                body@[k].1 as int,
                cols as int,
                rows as int,
            ),
    ensures
        n == free_cells(body@, from, cols as int, rows as int),
{
    if cols == 0 || rows == 0 {
        proof {
            assert(cols * rows == 0) by (nonlinear_arith)
                requires
                    cols == 0 || rows == 0,
            ;
            let s = Seq::new(
                (cols * rows) as nat,
                |i: int| reachable(body@, from, cols as int, rows as int, i % cols as int, i / cols as int),
            );
            assert(s.len() == 0);
        }
        return 0;
    }
    let ghost b = body@;
    let ghost c = cols as int;
    let ghost r = rows as int;
    let total = cols * rows;
    let mut blocked = falses(total);

    // Walls: every body cell except `from`.
    let mut k: usize = 0;
    while k < body.len()
        invariant
            b == body@,
            c == cols,
            r == rows,
            c > 0,
            total == c * r,
            k <= b.len(),
            blocked@.len() == total,
            forall|i: int|
                0 <= i < b.len() ==> in_board((#[trigger] b[i]).0 as int, b[i].1 as int, c, r),
            forall|j: int|
                0 <= j < total ==> #[trigger] blocked@[j] == exists|i: int|
                    0 <= i < k && #[trigger] b[i] == ((j % c) as usize, (j / c) as usize) && b[i]
                        != from,
        decreases b.len() - k,
    {
        let (x, y) = body[k];
        proof {
            lemma_index(x as int, y as int, c, r);
        }
        let ghost old_blocked = blocked@;
        if x != from.0 || y != from.1 {
            let i = y * cols + x;
            blocked.set(i, true);
        }
        proof {
            assert forall|j: int| 0 <= j < total implies #[trigger] blocked@[j] == exists|i: int|
                0 <= i < k + 1 && #[trigger] b[i] == ((j % c) as usize, (j / c) as usize) && b[i]
                    != from by {
                lemma_index_inverse(j, c, r);
                let cell = ((j % c) as usize, (j / c) as usize);
                if b[k as int] == cell && b[k as int] != from {
                    assert(j == cell_index(x as int, y as int, c));
                } else {
                    if x != from.0 || y != from.1 {
                        assert(j != cell_index(x as int, y as int, c));
                    }
                    assert(blocked@[j] == old_blocked[j]);
                    if blocked@[j] {
                        let i0 = choose|i: int|
                            0 <= i < k && #[trigger] b[i] == cell && b[i] != from;
                        assert(0 <= i0 < k + 1 && b[i0] == cell && b[i0] != from);
                    }
                }
            }
        }
        k = k + 1;
    }
    let ghost wall = blocked@;
    proof {
        assert forall|j: int| 0 <= j < c * r implies #[trigger] wall[j] == !is_open(
            b,
            from,
            c,
            r,
            j % c,
            j / c,
        ) by {
            lemma_index_inverse(j, c, r);
            let cell = cell_at(j, c);
            if wall[j] {
                let i0 = choose|i: int| 0 <= i < b.len() && #[trigger] b[i] == cell && b[i] != from;
                assert(b.contains(cell));
            } else {
                if b.contains(cell) && cell != from {
                    let i0 = choose|i: int| 0 <= i < b.len() && b[i] == cell;
                    assert(b[i0] == cell && b[i0] != from);
                }
            }
        }
    }

    proof {
        lemma_index(from.0 as int, from.1 as int, c, r);
    }
    let fi = from.1 * cols + from.0;
    blocked.set(fi, true);
    let ghost mut vis: Seq<bool> = Seq::new(total as nat, |i: int| false).update(fi as int, true);
    let mut stack: Vec<(usize, usize)> = Vec::new();
    stack.push(from);
    let mut count: usize = 0;
    proof {
        lemma_count_true_all_false(total as nat);
        lemma_count_true_set(Seq::new(total as nat, |i: int| false), fi as int);
        assert(reach_within(b, from, c, r, 0, from.0 as int, from.1 as int));
        assert forall|j: int| 0 <= j < c * r && #[trigger] vis[j] implies reachable(
            b,
            from,
            c,
            r,
            j % c,
            j / c,
        ) by {
            assert(j == fi);
            assert(reach_within(b, from, c, r, 0, j % c, j / c));
        }
        assert forall|j: int| 0 <= j < c * r implies #[trigger] blocked@[j] == (vis[j] || wall[j]) by {}
        assert forall|j: int|
            0 <= j < c * r && #[trigger] vis[j] && !stack@.contains(cell_at(j, c)) && None::<
                (usize, usize),
            > != Some(cell_at(j, c)) implies closed_at(vis, b, from, c, r, j % c, j / c) by {
            assert(j == fi);
            assert(stack@[0] == cell_at(j, c));
        }
        assert(fill_inv(b, from, c, r, wall, blocked@, vis, stack@, count as int, None));
    }

    while stack.len() > 0
        invariant
            b == body@,
            c == cols,
            r == rows,
            total == c * r,
            total <= usize::MAX,
            fill_inv(b, from, c, r, wall, blocked@, vis, stack@, count as int, None),
        decreases c * r - count,
    {
        let ghost old_stack = stack@;
        let (x, y) = stack.pop().unwrap();
        proof {
            lemma_pop(b, from, c, r, wall, blocked@, vis, old_stack, count as int);
        }
        count = count + 1;
        let ghost v0 = vis;
        let v1 = if y + 1 < rows {
            visit(&mut blocked, &mut stack, x, y + 1, cols, rows, Ghost(b), Ghost(from), Ghost(wall), Ghost(vis), Ghost(count as int), Ghost(x), Ghost(y))
        } else {
            Ghost(vis)
        };
        proof {
            vis = v1@;
        }
        let v2 = if x + 1 < cols {
            visit(&mut blocked, &mut stack, x + 1, y, cols, rows, Ghost(b), Ghost(from), Ghost(wall), Ghost(vis), Ghost(count as int), Ghost(x), Ghost(y))
        } else {
            Ghost(vis)
        };
        proof {
            vis = v2@;
        }
        let v3 = if y > 0 {
            visit(&mut blocked, &mut stack, x, y - 1, cols, rows, Ghost(b), Ghost(from), Ghost(wall), Ghost(vis), Ghost(count as int), Ghost(x), Ghost(y))
        } else {
            Ghost(vis)
        };
        proof {
            vis = v3@;
        }
        let v4 = if x > 0 {
            visit(&mut blocked, &mut stack, x - 1, y, cols, rows, Ghost(b), Ghost(from), Ghost(wall), Ghost(vis), Ghost(count as int), Ghost(x), Ghost(y))
        } else {
            Ghost(vis)
        };
        proof {
            vis = v4@;
            lemma_finish(b, from, c, r, wall, blocked@, vis, stack@, count as int, x, y, v1@, v2@, v3@);
        }
    }
    proof {
        let want = Seq::new(
            (c * r) as nat,
            |i: int| reachable(b, from, c, r, i % c, i / c),
        );
        assert forall|j: int| 0 <= j < c * r implies vis[j] == want[j] by {
            lemma_index_inverse(j, c, r);
            if want[j] {
                let n = choose|n: nat| #[trigger] reach_within(b, from, c, r, n, j % c, j / c);
                lemma_closed_covers(vis, b, from, c, r, n, j % c, j / c);
            }
        }
        assert(vis =~= want);
    }
    count
}


/// There are never more free cells than board cells.
pub proof fn lemma_free_cells_bound(
    body: Seq<(usize, usize)>,
    from: (usize, usize),
    cols: int,
    rows: int,
)
    requires
        cols >= 0,
        rows >= 0,
    ensures
        free_cells(body, from, cols, rows) <= cols * rows,
{
    assert(cols * rows >= 0) by (nonlinear_arith)
        requires
            cols >= 0,
            rows >= 0,
    ;
    lemma_count_true_bound(
        Seq::new((cols * rows) as nat, |i: int| reachable(body, from, cols, rows, i % cols, i / cols)),
    );
}

} // verus!
