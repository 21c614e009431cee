//! Self-playing Snake for the LED panel.
//!
//! The board is `cols` lanes wide and `rows` LEDs tall; (x, y) is (lane, row)
//! with row 0 at the bottom. The snake steers greedily toward the food but
//! refuses a move that would leave it less open space than its own length.
//! Timing is the caller's business: `advance` makes exactly one move.

use vstd::prelude::*;
use std::collections::VecDeque;
use crate::rng::{Rng, xorshift};
use crate::floodfill::{
    count_free,
    free_cells,
    cell_at,
    in_board,
    lemma_index,
    lemma_index_inverse,
    lemma_free_cells_bound,
};

verus! {

/// Palette index of the snake body.
pub const PAL_BODY: u8 = 0;
/// Palette index of the snake head.
pub const PAL_HEAD: u8 = 1;
/// Palette index of the food.
pub const PAL_FOOD: u8 = 2;

/// Abstract state of a snake game.
pub struct SnakeModel {
    pub cols: usize,
    pub rows: usize,
    /// Front is the tail, back is the head.
    pub body: Seq<(usize, usize)>,
    pub dir: (isize, isize),
    pub food: (usize, usize),
    pub rng: u32,
}

/// The four moves in the order they are tried: up, right, down, left.
pub open spec fn dir_at(k: int) -> (isize, isize) {
    if k == 0 {
        (0isize, 1isize)
    } else if k == 1 {
        (1isize, 0isize)
    } else if k == 2 {
        (0isize, -1isize)
    } else {
        (-1isize, 0isize)
    }
}

/// Whether `d` is one of the four moves.
pub open spec fn is_dir(d: (isize, isize)) -> bool {
    d == dir_at(0) || d == dir_at(1) || d == dir_at(2) || d == dir_at(3)
}

/// The cell one step from `p` in direction `d`, if it is on the board.
pub open spec fn step_to(p: (usize, usize), d: (isize, isize), cols: int, rows: int) -> Option<
    (usize, usize),
> {
    let nx = p.0 + d.0;
    let ny = p.1 + d.1;
    if in_board(nx, ny, cols, rows) {
        Some((nx as usize, ny as usize))
    } else {
        None
    }
}

/// The body after moving to `n`: the tail vacates unless `n` is the food.
pub open spec fn moved_body(m: SnakeModel, n: (usize, usize)) -> Seq<(usize, usize)> {
    if n != m.food {
        m.body.drop_first()
    } else {
        m.body
    }
}

/// Move `k` is legal: not a reversal, stays on the board, and does not run
/// into the body that remains after the tail moves.
pub open spec fn legal_move(m: SnakeModel, k: int) -> bool {
    let d = dir_at(k);
    &&& !(d.0 == -m.dir.0 && d.1 == -m.dir.1)
    &&& step_to(m.body.last(), d, m.cols as int, m.rows as int) is Some
    &&& !moved_body(m, step_to(m.body.last(), d, m.cols as int, m.rows as int)->0).contains(
        step_to(m.body.last(), d, m.cols as int, m.rows as int)->0,
    )
}

/// The cell move `k` leads to.
pub open spec fn move_target(m: SnakeModel, k: int) -> (usize, usize) {
    step_to(m.body.last(), dir_at(k), m.cols as int, m.rows as int)->0
}

/// Open cells reachable from the new head after move `k`.
pub open spec fn room_after(m: SnakeModel, k: int) -> nat {
    let n = move_target(m, k);
    free_cells(moved_body(m, n).push(n), n, m.cols as int, m.rows as int)
}

/// Move `k` is legal and leaves at least as much room as the snake is long.
pub open spec fn safe_move(m: SnakeModel, k: int) -> bool {
    &&& legal_move(m, k)
    &&& room_after(m, k) >= moved_body(m, move_target(m, k)).len() + 1
}

/// Manhattan distance from the target of move `k` to the food.
pub open spec fn food_distance(m: SnakeModel, k: int) -> int {
    let n = move_target(m, k);
    let dx = n.0 - m.food.0;
    let dy = n.1 - m.food.1;
    (if dx < 0 {
        -dx
    } else {
        dx
    }) + (if dy < 0 {
        -dy
    } else {
        dy
    })
}

/// Move `a` is preferred to move `b`: closer to the food, or as close with
/// more room.
pub open spec fn preferred(m: SnakeModel, a: int, b: int) -> bool {
    food_distance(m, a) < food_distance(m, b) || (food_distance(m, a) == food_distance(m, b)
        && room_after(m, a) > room_after(m, b))
}

/// The move the snake makes: the best safe move (earliest on ties); failing
/// that the first legal move; failing that none.
pub open spec fn chosen(m: SnakeModel, r: Option<(isize, isize)>) -> bool {
    if exists|k: int| 0 <= k < 4 && #[trigger] safe_move(m, k) {
        exists|k: int|
            0 <= k < 4 && #[trigger] safe_move(m, k) && r == Some(dir_at(k)) && (forall|j: int|
                0 <= j < 4 && #[trigger] safe_move(m, j) ==> !preferred(m, j, k)) && (forall|j: int|
                0 <= j < k && #[trigger] safe_move(m, j) ==> preferred(m, k, j))
    } else if exists|k: int| 0 <= k < 4 && #[trigger] legal_move(m, k) {
        exists|k: int|
            0 <= k < 4 && #[trigger] legal_move(m, k) && r == Some(dir_at(k)) && (forall|j: int|
                0 <= j < k ==> !#[trigger] legal_move(m, j))
    } else {
        r is None
    }
}

/// The free cells among the first `i` cells in row-major order.
pub open spec fn free_upto(body: Seq<(usize, usize)>, cols: int, i: nat) -> Seq<(usize, usize)>
    decreases i,
{
    if i == 0 {
        Seq::empty()
    } else {
        let prev = free_upto(body, cols, (i - 1) as nat);
        let c = cell_at(i - 1, cols);
        if body.contains(c) {
            prev
        } else {
            prev.push(c)
        }
    }
}

/// The cells not covered by `body`, in row-major order.
pub open spec fn free_list(body: Seq<(usize, usize)>, cols: int, rows: int) -> Seq<(usize, usize)> {
    free_upto(body, cols, (cols * rows) as nat)
}

/// The snake a fresh game starts with: up to three cells rising from the
/// bottom of the middle lane, head on top.
pub open spec fn start_body(cols: usize, rows: usize) -> Seq<(usize, usize)> {
    Seq::new(
        if rows < 3 {
            rows as nat
        } else {
            3nat
        },
        |y: int| ((cols / 2) as usize, y as usize),
    )
}

/// The state after placing food for `m.body`: a free cell chosen with the
/// generator, or a fresh start when the board is full.
pub open spec fn with_food(m: SnakeModel) -> SnakeModel {
    let free = free_list(m.body, m.cols as int, m.rows as int);
    if free.len() == 0 {
        restarted(m)
    } else {
        SnakeModel {
            food: free[((xorshift(m.rng) as usize) % (free.len() as usize)) as int],
            rng: xorshift(m.rng),
            ..m
        }
    }
}

/// The state after a restart: the start body heading up, with food placed.
pub open spec fn restarted(m: SnakeModel) -> SnakeModel {
    let body = start_body(m.cols, m.rows);
    let free = free_list(body, m.cols as int, m.rows as int);
    SnakeModel {
        body,
        dir: (0isize, 1isize),
        food: free[((xorshift(m.rng) as usize) % (free.len() as usize)) as int],
        rng: xorshift(m.rng),
        ..m
    }
}

/// The state after making the move `r` chose: no move restarts the game;
/// otherwise the head advances, the tail follows unless the food is eaten,
/// and eaten food is replaced.
pub open spec fn after_move(m: SnakeModel, r: Option<(isize, isize)>) -> SnakeModel {
    match r {
        None => restarted(m),
        Some(d) => {
            let n = step_to(m.body.last(), d, m.cols as int, m.rows as int)->0;
            let grown = SnakeModel { body: moved_body(m, n).push(n), dir: d, ..m };
            if n == m.food {
                with_food(grown)
            } else {
                grown
            }
        },
    }
}

/// Making the move `r` chose starts the game over: there is no move, or the
/// snake eats and fills the whole board.
pub open spec fn started_over(m: SnakeModel, r: Option<(isize, isize)>) -> bool {
    match r {
        None => true,
        Some(d) => {
            let n = step_to(m.body.last(), d, m.cols as int, m.rows as int)->0;
            n == m.food && free_list(moved_body(m, n).push(n), m.cols as int, m.rows as int).len() == 0
        },
    }
}

/// The board and body of a well-formed game: a board of at least one lane
/// and row holding at most `i32::MAX` cells with room beside the start body;
/// a non-empty body of distinct board cells; a unit heading.
pub open spec fn body_ok(m: SnakeModel) -> bool {
    &&& 0 < m.cols && 0 < m.rows
    &&& m.cols * m.rows <= i32::MAX
    &&& !(m.cols == 1 && m.rows <= 3)
    &&& m.body.len() >= 1
    &&& forall|i: int|
        0 <= i < m.body.len() ==> in_board(
            (#[trigger] m.body[i]).0 as int,
            m.body[i].1 as int,
            m.cols as int,
            m.rows as int,
        )
    &&& forall|i: int, j: int|
        0 <= i < j < m.body.len() ==> #[trigger] m.body[i] != #[trigger] m.body[j]
    &&& is_dir(m.dir)
}

/// A well-formed game: `body_ok`, with the food on a free board cell and the
/// snake at least as long as its start body (three cells on a board three
/// rows or taller).
pub open spec fn model_wf(m: SnakeModel) -> bool {
    &&& body_ok(m)
    &&& m.body.len() >= start_body(m.cols, m.rows).len()
    &&& in_board(m.food.0 as int, m.food.1 as int, m.cols as int, m.rows as int)
    &&& !m.body.contains(m.food)
}

/// Palette index shown at panel (row, col): food, head, body or unlit.
pub open spec fn snake_cell(m: SnakeModel, row: int, col: int) -> Option<u8> {
    if row >= m.rows || col >= m.cols {
        None
    } else if (col as usize, row as usize) == m.food {
        Some(PAL_FOOD)
    } else if m.body.len() > 0 && m.body.last() == (col as usize, row as usize) {
        Some(PAL_HEAD)
    } else if m.body.contains((col as usize, row as usize)) {
        Some(PAL_BODY)
    } else {
        None
    }
}


/// The free list holds exactly the free board cells before index `i`.
pub proof fn lemma_free_upto(body: Seq<(usize, usize)>, cols: int, rows: int, i: nat)
    requires
        cols > 0,
        rows > 0,
        cols <= usize::MAX,
        rows <= usize::MAX,
        i <= cols * rows,
    ensures
        forall|k: int|
            0 <= k < free_upto(body, cols, i).len() ==> {
                let q = #[trigger] free_upto(body, cols, i)[k];
                &&& in_board(q.0 as int, q.1 as int, cols, rows)
                &&& !body.contains(q)
            },
        forall|j: int|
            0 <= j < i && !body.contains(#[trigger] cell_at(j, cols)) ==> free_upto(
                body,
                cols,
                i,
            ).contains(cell_at(j, cols)),
        free_upto(body, cols, i).len() <= i,
    decreases i,
{
    if i > 0 {
        lemma_free_upto(body, cols, rows, (i - 1) as nat);
        let prev = free_upto(body, cols, (i - 1) as nat);
        let c = cell_at(i - 1, cols);
        lemma_index_inverse(i - 1, cols, rows);
        assert(in_board(c.0 as int, c.1 as int, cols, rows));
        let cur = free_upto(body, cols, i);
        assert forall|j: int|
            0 <= j < i && !body.contains(#[trigger] cell_at(j, cols)) implies cur.contains(
            cell_at(j, cols),
        ) by {
            if j < i - 1 {
                let k = choose|k: int| 0 <= k < prev.len() && prev[k] == cell_at(j, cols);
                assert(cur[k] == prev[k]);
            } else {
                assert(cur[prev.len() as int] == c);
            }
        }
        assert forall|k: int| 0 <= k < cur.len() implies {
            let q = #[trigger] cur[k];
            &&& in_board(q.0 as int, q.1 as int, cols, rows)
            &&& !body.contains(q)
        } by {
            if k < prev.len() {
                assert(cur[k] == prev[k]);
            }
        }
    }
}

/// A fresh start leaves at least one free cell for the food.
pub proof fn lemma_start_has_room(cols: usize, rows: usize)
    requires
        0 < cols,
        0 < rows,
        cols * rows <= i32::MAX,
        !(cols == 1 && rows <= 3),
    ensures
        free_list(start_body(cols, rows), cols as int, rows as int).len() > 0,
        forall|i: int|
            0 <= i < start_body(cols, rows).len() ==> in_board(
                (#[trigger] start_body(cols, rows)[i]).0 as int,
                start_body(cols, rows)[i].1 as int,
                cols as int,
                rows as int,
            ),
        forall|i: int, j: int|
            0 <= i < j < start_body(cols, rows).len() ==> #[trigger] start_body(cols, rows)[i]
                != #[trigger] start_body(cols, rows)[j],
        start_body(cols, rows).len() >= 1,
{
    let b = start_body(cols, rows);
    let (c, r) = (cols as int, rows as int);
    assert(c * r <= usize::MAX);
    assert(c * r >= c && c * r >= r) by (nonlinear_arith)
        requires
            c > 0,
            r > 0,
    ;
    lemma_free_upto(b, c, r, (c * r) as nat);
    let (x, y): (int, int) = if cols >= 2 {
        (0, 0)
    } else {
        (0, 3)
    };
    assert(in_board(x, y, c, r)) by {
        if cols < 2 {
            assert(r >= 4);
        }
    }
    lemma_index(x, y, c, r);
    let j = y * c + x;
    assert(cell_at(j, c) == (x as usize, y as usize));
    assert(!b.contains(cell_at(j, c))) by {
        if b.contains(cell_at(j, c)) {
            let k = choose|k: int| 0 <= k < b.len() && b[k] == cell_at(j, c);
            assert(b[k] == ((cols / 2) as usize, k as usize));
        }
    }
}

/// Whether `b` holds `p`.
fn deque_contains(b: &VecDeque<(usize, usize)>, p: (usize, usize)) -> (r: bool)
    ensures
        r == b@.contains(p),
{
    let mut i: usize = 0;
    while i < b.len()
        invariant
            i <= b@.len(),
            forall|k: int| 0 <= k < i ==> b@[k] != p,
        decreases b@.len() - i,
    {
        let q = b[i];
        if q.0 == p.0 && q.1 == p.1 {
            assert(b@[i as int] == p);
            return true;
        }
        i = i + 1;
    }
    false
}

/// A copy of `b` without its first `skip` entries.
fn copy_from(b: &VecDeque<(usize, usize)>, skip: usize) -> (out: VecDeque<(usize, usize)>)
    requires
        skip <= b@.len(),
    ensures
        out@ == b@.subrange(skip as int, b@.len() as int),
{
    let mut out: VecDeque<(usize, usize)> = VecDeque::new();
    let mut i: usize = skip;
    while i < b.len()
        invariant
            skip <= i <= b@.len(),
            out@ == b@.subrange(skip as int, i as int),
        decreases b@.len() - i,
    {
        out.push_back(b[i]);
        i = i + 1;
        assert(b@.subrange(skip as int, i as int) =~= b@.subrange(skip as int, i - 1).push(
            b@[i - 1],
        ));
    }
    out
}

/// The cell one step from `p` toward `d`, if it is on the board.
fn step_cell(p: (usize, usize), d: (isize, isize), cols: usize, rows: usize) -> (r: Option<
    (usize, usize),
>)
    requires
        is_dir(d),
        p.0 < cols,
        p.1 < rows,
    ensures
        r == step_to(p, d, cols as int, rows as int),
{
    if d.0 == 0 && d.1 == 1 {
        if p.1 + 1 < rows {
            Some((p.0, p.1 + 1))
        } else {
            None
        }
    } else if d.0 == 1 && d.1 == 0 {
        if p.0 + 1 < cols {
            Some((p.0 + 1, p.1))
        } else {
            None
        }
    } else if d.0 == 0 && d.1 == -1 {
        if p.1 > 0 {
            Some((p.0, p.1 - 1))
        } else {
            None
        }
    } else {
        if p.0 > 0 {
            Some((p.0 - 1, p.1))
        } else {
            None
        }
    }
}

/// Self-playing snake.
pub struct SnakeGame {
    cols: usize,
    rows: usize,
    /// Front is the tail, back is the head.
    body: VecDeque<(usize, usize)>,
    dir: (isize, isize),
    food: (usize, usize),
    rng: Rng,
}

impl View for SnakeGame {
    type V = SnakeModel;

    closed spec fn view(&self) -> SnakeModel {
        SnakeModel {
            cols: self.cols,
            rows: self.rows,
            body: self.body@,
            dir: self.dir,
            food: self.food,
            rng: self.rng.0,
        }
    }
}

/// Seed of the snake's generator.
pub const SNAKE_SEED: u32 = 0x9E37_79B9;

/// The state a new game starts from, before its snake is laid out.
pub open spec fn fresh_snake(cols: usize, rows: usize) -> SnakeModel {
    SnakeModel {
        cols,
        rows,
        body: Seq::empty(),
        dir: (0isize, 1isize),
        food: (0usize, 0usize),
        rng: SNAKE_SEED | 1,
    }
}

impl SnakeGame {
    /// Well-formedness, kept by every operation.
    pub open spec fn wf(&self) -> bool {
        model_wf(self@)
    }

    /// A new game on a board `cols` lanes wide and `rows` LEDs tall. The board
    /// must have a lane and a row, hold at most `i32::MAX` cells, and have
    /// room beside the three-cell start body (a 1 x 3 board or smaller has
    /// none, and restarting it could never place food).
    pub fn new(cols: usize, rows: usize) -> (g: SnakeGame)
        requires
            0 < cols,
            0 < rows,
            cols * rows <= i32::MAX,
            !(cols == 1 && rows <= 3),
        ensures
            g.wf(),
            g@ == restarted(fresh_snake(cols, rows)),
    {
        let mut g = SnakeGame {
            cols,
            rows,
            body: VecDeque::new(),
            dir: (0, 1),
            food: (0, 0),
            rng: Rng::new(SNAKE_SEED),
        };
        g.reset();
        g
    }

    /// Board shape as (lanes, rows).
    pub fn dims(&self) -> (d: (usize, usize))
        ensures
            d == (self@.cols, self@.rows),
    {
        (self.cols, self.rows)
    }

    /// The cells not covered by the body, in row-major order.
    fn free_cells_list(&self) -> (free: Vec<(usize, usize)>)
        requires
            0 < self.cols,
            0 < self.rows,
            self.cols * self.rows <= i32::MAX,
        ensures
            free@ == free_list(self.body@, self.cols as int, self.rows as int),
    {
        let total = self.cols * self.rows;
        let mut free: Vec<(usize, usize)> = Vec::new();
        let mut i: usize = 0;
        while i < total
            invariant
                0 < self.cols,
                0 < self.rows,
                total == self.cols * self.rows,
                total <= i32::MAX,
                i <= total,
                free@ == free_upto(self.body@, self.cols as int, i as nat),
            decreases total - i,
        {
            let x = i % self.cols;
            let y = i / self.cols;
            if !deque_contains(&self.body, (x, y)) {
                free.push((x, y));
            }
            i = i + 1;
        }
        free
    }

    /// Put the start body on the board, heading up.
    fn start_over(&mut self)
        requires
            0 < old(self).cols,
            0 < old(self).rows,
        ensures
            final(self)@ == (SnakeModel { body: start_body(old(self).cols, old(self).rows), dir: (0isize, 1isize), ..old(self)@ }),
    {
        self.body.clear();
        let mid = self.cols / 2;
        let n: usize = if self.rows < 3 {
            self.rows
        } else {
            3
        };
        let mut y: usize = 0;
        while y < n
            invariant
                n <= self.rows,
                n == (if self.rows < 3 { self.rows as nat } else { 3nat }),
                mid == self.cols / 2,
                y <= n,
                self.body@ =~= start_body(self.cols, self.rows).subrange(0, y as int),
                self.cols == old(self).cols,
                self.rows == old(self).rows,
                self.food == old(self).food,
                self.rng == old(self).rng,
                self.dir == old(self).dir,
            decreases n - y,
        {
            self.body.push_back((mid, y));
            y = y + 1;
        }
        self.dir = (0, 1);
        assert(self.body@ =~= start_body(self.cols, self.rows));
    }

    /// Choose the food among the free cells, which must exist.
    fn pick_food(&mut self, free: &Vec<(usize, usize)>)
        requires
            free@.len() > 0,
        ensures
            final(self)@ == (SnakeModel {
                food: free@[((xorshift(old(self)@.rng) as usize) % (free@.len() as usize)) as int],
                rng: xorshift(old(self)@.rng),
                ..old(self)@
            }),
    {
        let i = self.rng.below(free.len());
        self.food = free[i];
    }

    /// Start the game over: start body, heading up, food placed.
    fn reset(&mut self)
        requires
            0 < old(self).cols,
            0 < old(self).rows,
            old(self).cols * old(self).rows <= i32::MAX,
            !(old(self).cols == 1 && old(self).rows <= 3),
        ensures
            final(self)@ == restarted(old(self)@),
            final(self).wf(),
    {
        self.start_over();
        proof {
            lemma_start_has_room(self.cols, self.rows);
        }
        let free = self.free_cells_list();
        self.pick_food(&free);
        proof {
            let c = self.cols as int;
            let r = self.rows as int;
            assert(c * r >= c && c * r >= r) by (nonlinear_arith)
                requires
                    c > 0,
                    r > 0,
            ;
            lemma_free_upto(self.body@, c, r, (c * r) as nat);
            let k = ((xorshift(old(self)@.rng) as usize) % (free@.len() as usize)) as int;
            assert(free@[k] == self.food);
        }
    }

    /// Place new food on a free cell; start over when the board is full.
    fn place_food(&mut self) -> (full: bool)
        requires
            body_ok(old(self)@),
            old(self)@.body.len() >= start_body(old(self)@.cols, old(self)@.rows).len(),
        ensures
            final(self)@ == with_food(old(self)@),
            final(self).wf(),
            full == (free_list(old(self)@.body, old(self)@.cols as int, old(self)@.rows as int).len() == 0),
    {
        let free = self.free_cells_list();
        if free.len() == 0 {
            self.reset();
            return true;
        }
        self.pick_food(&free);
        proof {
            let c = self.cols as int;
            let r = self.rows as int;
            assert(c * r >= c && c * r >= r) by (nonlinear_arith)
                requires
                    c > 0,
                    r > 0,
            ;
            lemma_free_upto(self.body@, c, r, (c * r) as nat);
            let k = ((xorshift(old(self)@.rng) as usize) % (free@.len() as usize)) as int;
            assert(free@[k] == self.food);
        }
        false
    }

    /// Palette index for a panel cell. `row` is vertical, `col` is the lane.
    pub fn cell(&self, row: usize, col: usize) -> (c: Option<u8>)
        ensures
            c == snake_cell(self@, row as int, col as int),
    {
        if row >= self.rows || col >= self.cols {
            return None;
        }
        if col == self.food.0 && row == self.food.1 {
            return Some(PAL_FOOD);
        }
        if self.body.len() > 0 {
            let head = self.body[self.body.len() - 1];
            if head.0 == col && head.1 == row {
                return Some(PAL_HEAD);
            }
        }
        if deque_contains(&self.body, (col, row)) {
            return Some(PAL_BODY);
        }
        None
    }

    /// The body cells, tail first.
    pub fn body(&self) -> (b: Vec<(usize, usize)>)
        ensures
            b@ == self@.body,
    {
        let mut b: Vec<(usize, usize)> = Vec::new();
        let mut i: usize = 0;
        while i < self.body.len()
            invariant
                i <= self.body@.len(),
                b@ == self.body@.subrange(0, i as int),
            decreases self.body@.len() - i,
        {
            b.push(self.body[i]);
            i = i + 1;
        }
        assert(self.body@.subrange(0, self.body@.len() as int) =~= self.body@);
        b
    }

    /// The food cell.
    pub fn food(&self) -> (f: (usize, usize))
        ensures
            f == self@.food,
    {
        self.food
    }
}


/// The direction of move `k`.
fn dir_of(k: usize) -> (d: (isize, isize))
    requires
        k < 4,
    ensures
        d == dir_at(k as int),
        is_dir(d),
{
    if k == 0 {
        (0, 1)
    } else if k == 1 {
        (1, 0)
    } else if k == 2 {
        (0, -1)
    } else {
        (-1, 0)
    }
}

/// A chosen move is a legal one.
pub proof fn lemma_chosen_legal(m: SnakeModel, d: (isize, isize))
    requires
        chosen(m, Some(d)),
    ensures
        exists|k: int| 0 <= k < 4 && #[trigger] legal_move(m, k) && d == dir_at(k),
{
    if exists|k: int| 0 <= k < 4 && #[trigger] safe_move(m, k) {
        let k = choose|k: int|
            0 <= k < 4 && #[trigger] safe_move(m, k) && Some(d) == Some(dir_at(k)) && (forall|j: int|
                0 <= j < 4 && #[trigger] safe_move(m, j) ==> !preferred(m, j, k)) && (forall|j: int|
                0 <= j < k && #[trigger] safe_move(m, j) ==> preferred(m, k, j));
        assert(legal_move(m, k));
    }
}

/// When some legal move leaves the snake room, the move it makes does too:
/// the cells reachable from the new head (the head included) are at least as
/// many as the snake is long after the move. No other move that leaves room
/// is closer to the food.
pub proof fn lemma_chosen_leaves_room(m: SnakeModel, d: (isize, isize))
    requires
        chosen(m, Some(d)),
        exists|k: int|
            0 <= k < 4 && #[trigger] legal_move(m, k) && room_after(m, k) >= moved_body(
                m,
                move_target(m, k),
            ).len() + 1,
    ensures
        exists|k: int|
            0 <= k < 4 && d == dir_at(k) && #[trigger] legal_move(m, k) && room_after(m, k)
                >= moved_body(m, move_target(m, k)).len() + 1 && (forall|j: int|
                0 <= j < 4 && legal_move(m, j) && room_after(m, j) >= moved_body(
                    m,
                    move_target(m, j),
                ).len() + 1 ==> food_distance(m, k) <= food_distance(m, j)),
{
    let k0 = choose|k: int|
        0 <= k < 4 && #[trigger] legal_move(m, k) && room_after(m, k) >= moved_body(
            m,
            move_target(m, k),
        ).len() + 1;
    assert(safe_move(m, k0));
    let k = choose|k: int|
        0 <= k < 4 && #[trigger] safe_move(m, k) && Some(d) == Some(dir_at(k)) && (forall|j: int|
            0 <= j < 4 && #[trigger] safe_move(m, j) ==> !preferred(m, j, k)) && (forall|j: int|
            0 <= j < k && #[trigger] safe_move(m, j) ==> preferred(m, k, j));
    assert forall|j: int|
        0 <= j < 4 && legal_move(m, j) && room_after(m, j) >= moved_body(m, move_target(m, j)).len()
            + 1 implies food_distance(m, k) <= food_distance(m, j) by {
        assert(safe_move(m, j));
    }
    assert(legal_move(m, k));
}

/// The move a game makes is determined by its state.
pub proof fn lemma_chosen_unique(m: SnakeModel, r1: Option<(isize, isize)>, r2: Option<(isize, isize)>)
    requires
        chosen(m, r1),
        chosen(m, r2),
    ensures
        r1 == r2,
{
    if exists|k: int| 0 <= k < 4 && #[trigger] safe_move(m, k) {
        let k1 = choose|k: int|
            0 <= k < 4 && #[trigger] safe_move(m, k) && r1 == Some(dir_at(k)) && (forall|j: int|
                0 <= j < 4 && #[trigger] safe_move(m, j) ==> !preferred(m, j, k)) && (forall|j: int|
                0 <= j < k && #[trigger] safe_move(m, j) ==> preferred(m, k, j));
        let k2 = choose|k: int|
            0 <= k < 4 && #[trigger] safe_move(m, k) && r2 == Some(dir_at(k)) && (forall|j: int|
                0 <= j < 4 && #[trigger] safe_move(m, j) ==> !preferred(m, j, k)) && (forall|j: int|
                0 <= j < k && #[trigger] safe_move(m, j) ==> preferred(m, k, j));
        if k1 < k2 {
            assert(preferred(m, k2, k1));
        } else if k2 < k1 {
            assert(preferred(m, k1, k2));
        }
    } else if exists|k: int| 0 <= k < 4 && #[trigger] legal_move(m, k) {
        let k1 = choose|k: int|
            0 <= k < 4 && #[trigger] legal_move(m, k) && r1 == Some(dir_at(k)) && (forall|j: int|
                0 <= j < k ==> !#[trigger] legal_move(m, j));
        let k2 = choose|k: int|
            0 <= k < 4 && #[trigger] legal_move(m, k) && r2 == Some(dir_at(k)) && (forall|j: int|
                0 <= j < k ==> !#[trigger] legal_move(m, j));
        if k1 < k2 {
            assert(!legal_move(m, k1));
        } else if k2 < k1 {
            assert(!legal_move(m, k2));
        }
    }
}

/// The snake never gets shorter: a move keeps its length, or grows it by one
/// when it eats, and starting over lays out the start body again (three cells
/// on a board at least three rows tall). So from its start the snake always
/// shows at least its start length.
pub proof fn lemma_snake_never_shrinks(m: SnakeModel, r: Option<(isize, isize)>)
    requires
        model_wf(m),
    ensures
        started_over(m, r) ==> after_move(m, r).body == start_body(m.cols, m.rows),
        !started_over(m, r) ==> after_move(m, r).body.len() >= m.body.len(),
        start_body(m.cols, m.rows).len() == if m.rows < 3 { m.rows as nat } else { 3nat },
{
}

/// A well-formed snake on a board at least three rows tall always shows its
/// food, its head and a body cell, at three different cells.
pub proof fn lemma_head_body_and_food_shown(m: SnakeModel)
    requires
        model_wf(m),
        m.rows >= 3,
    ensures
        ({
            let head = m.body.last();
            let tail = m.body[0];
            &&& snake_cell(m, m.food.1 as int, m.food.0 as int) == Some(PAL_FOOD)
            &&& snake_cell(m, head.1 as int, head.0 as int) == Some(PAL_HEAD)
            &&& snake_cell(m, tail.1 as int, tail.0 as int) == Some(PAL_BODY)
            &&& head != tail
            &&& head != m.food
            &&& tail != m.food
        }),
{
    let n = m.body.len();
    assert(m.body[n - 1] == m.body.last());
    assert(m.body.contains(m.body[0]));
    assert(m.body.contains(m.body.last()));
    assert(m.body[0] != m.body[n - 1]);
}

impl SnakeGame {
    /// Evaluate move `k`: its distance to the food and the room it leaves,
    /// when it is safe.
    fn evaluate_move(&self, k: usize) -> (r: Option<(usize, usize)>)
        requires
            self.wf(),
            k < 4,
        ensures
            r is Some <==> safe_move(self@, k as int),
            r matches Some(v) ==> v.0 == food_distance(self@, k as int) && v.1 == room_after(
                self@,
                k as int,
            ),
    {
        let ghost m = self@;
        let cols = self.cols;
        let rows = self.rows;
        let head = self.body[self.body.len() - 1];
        assert(in_board(m.body[m.body.len() - 1].0 as int, m.body[m.body.len() - 1].1 as int, cols as int, rows as int));
        let d = dir_of(k);
        if d.0 == -self.dir.0 && d.1 == -self.dir.1 {
            return None;
        }
        let n = match step_cell(head, d, cols, rows) {
            Some(n) => n,
            None => {
                return None;
            },
        };
        let eating = n.0 == self.food.0 && n.1 == self.food.1;
        let skip: usize = if eating {
            0
        } else {
            1
        };
        let mut sim = copy_from(&self.body, skip);
        assert(n == move_target(m, k as int));
        assert(sim@ =~= moved_body(m, n));
        if deque_contains(&sim, n) {
            return None;
        }
        let ghost moved = sim@;
        sim.push_back(n);
        proof {
            assert forall|i: int| 0 <= i < sim@.len() implies in_board(
                (#[trigger] sim@[i]).0 as int,
                sim@[i].1 as int,
                cols as int,
                rows as int,
            ) by {
                if i < moved.len() {
                    assert(sim@[i] == m.body[i + skip]);
                }
            }
            assert(cols * rows <= usize::MAX);
            lemma_free_cells_bound(sim@, n, cols as int, rows as int);
            assert(cols <= cols * rows && rows <= cols * rows) by (nonlinear_arith)
                requires
                    cols > 0,
                    rows > 0,
            ;
        }
        let free = count_free(&sim, cols, rows, n);
        if free < sim.len() {
            return None;
        }
        let dx = if n.0 >= self.food.0 {
            n.0 - self.food.0
        } else {
            self.food.0 - n.0
        };
        let dy = if n.1 >= self.food.1 {
            n.1 - self.food.1
        } else {
            self.food.1 - n.1
        };
        Some((dx + dy, free))
    }

    /// Whether move `k` is legal.
    fn move_is_legal(&self, k: usize) -> (r: bool)
        requires
            self.wf(),
            k < 4,
        ensures
            r == legal_move(self@, k as int),
    {
        let ghost m = self@;
        let head = self.body[self.body.len() - 1];
        assert(in_board(m.body[m.body.len() - 1].0 as int, m.body[m.body.len() - 1].1 as int, self.cols as int, self.rows as int));
        let d = dir_of(k);
        if d.0 == -self.dir.0 && d.1 == -self.dir.1 {
            return false;
        }
        let n = match step_cell(head, d, self.cols, self.rows) {
            Some(n) => n,
            None => {
                return false;
            },
        };
        let eating = n.0 == self.food.0 && n.1 == self.food.1;
        let skip: usize = if eating {
            0
        } else {
            1
        };
        let sim = copy_from(&self.body, skip);
        assert(n == move_target(m, k as int));
        assert(sim@ =~= moved_body(m, n));
        !deque_contains(&sim, n)
    }

    /// Pick the next move: greedy toward the food among the moves that leave
    /// enough room to survive, else any legal move, else none.
    fn choose_dir(&self) -> (r: Option<(isize, isize)>)
        requires
            self.wf(),
        ensures
            chosen(self@, r),
    {
        let ghost m = self@;
        let mut best: Option<((isize, isize), usize, usize)> = None;
        let ghost mut bk: int = 0;
        let mut k: usize = 0;
        while k < 4
            invariant
                m == self@,
                self.wf(),
                k <= 4,
                best is None <==> forall|j: int| 0 <= j < k ==> !#[trigger] safe_move(m, j),
                best matches Some(b) ==> {
                    &&& 0 <= bk < k
                    &&& safe_move(m, bk)
                    &&& b.0 == dir_at(bk)
                    &&& b.1 == food_distance(m, bk)
                    &&& b.2 == room_after(m, bk)
                    &&& forall|j: int| 0 <= j < k && #[trigger] safe_move(m, j) ==> !preferred(m, j, bk)
                    &&& forall|j: int| 0 <= j < bk && #[trigger] safe_move(m, j) ==> preferred(m, bk, j)
                },
            decreases 4 - k,
        {
            if let Some((dist, free)) = self.evaluate_move(k) {
                let better = match best {
                    None => true,
                    Some((_, bd, bf)) => dist < bd || (dist == bd && free > bf),
                };
                if better {
                    best = Some((dir_of(k), dist, free));
                    proof {
                        bk = k as int;
                    }
                }
            }
            k = k + 1;
        }
        if let Some((d, _, _)) = best {
            return Some(d);
        }
        let mut k: usize = 0;
        while k < 4
            invariant
                m == self@,
                self.wf(),
                k <= 4,
                forall|j: int| 0 <= j < 4 ==> !#[trigger] safe_move(m, j),
                forall|j: int| 0 <= j < k ==> !#[trigger] legal_move(m, j),
            decreases 4 - k,
        {
            if self.move_is_legal(k) {
                return Some(dir_of(k));
            }
            k = k + 1;
        }
        None
    }
}


impl SnakeGame {
    /// Make one move: the chosen move, eating and replacing the food when the
    /// head reaches it; with no legal move the game starts over.
    pub fn advance(&mut self) -> (restart: bool)
        requires
            old(self).wf(),
        ensures
            final(self).wf(),
            exists|r: Option<(isize, isize)>|
                chosen(old(self)@, r) && final(self)@ == after_move(old(self)@, r) && restart
                    == started_over(old(self)@, r),
    {
        let ghost m = self@;
        let choice = self.choose_dir();
        let dir = match choice {
            None => {
                self.reset();
                return true;
            },
            Some(d) => d,
        };
        proof {
            lemma_chosen_legal(m, dir);
        }
        let ghost k = choose|k: int| 0 <= k < 4 && #[trigger] legal_move(m, k) && dir == dir_at(k);
        let head = self.body[self.body.len() - 1];
        assert(in_board(m.body[m.body.len() - 1].0 as int, m.body[m.body.len() - 1].1 as int, self.cols as int, self.rows as int));
        assert(is_dir(dir));
        let next = match step_cell(head, dir, self.cols, self.rows) {
            Some(n) => n,
            None => {
                self.reset();
                return true;
            },
        };
        assert(next == move_target(m, k));
        self.dir = dir;
        let eating = next.0 == self.food.0 && next.1 == self.food.1;
        if !eating {
            self.body.pop_front();
        }
        assert(self.body@ =~= moved_body(m, next));
        if deque_contains(&self.body, next) {
            self.reset();
            return true;
        }
        self.body.push_back(next);
        proof {
            let moved = moved_body(m, next);
            let skip: int = if eating { 0 } else { 1 };
            assert forall|i: int| 0 <= i < moved.len() implies #[trigger] moved[i] == m.body[i + skip] by {}
            assert forall|i: int|
                0 <= i < self.body@.len() implies in_board(
                (#[trigger] self.body@[i]).0 as int,
                self.body@[i].1 as int,
                self.cols as int,
                self.rows as int,
            ) by {
                if i < moved.len() {
                    assert(self.body@[i] == m.body[i + skip]);
                }
            }
            assert forall|i: int, j: int|
                0 <= i < j < self.body@.len() implies #[trigger] self.body@[i]
                != #[trigger] self.body@[j] by {
                if j < moved.len() {
                    assert(self.body@[i] == m.body[i + skip]);
                    assert(self.body@[j] == m.body[j + skip]);
                } else {
                    assert(self.body@[j] == next);
                    assert(self.body@[i] == moved[i]);
                }
            }
            assert(body_ok(self@));
        }
        let mut restart = false;
        if eating {
            restart = self.place_food();
        } else {
            proof {
                let moved = moved_body(m, next);
                assert(!self.body@.contains(self.food)) by {
                    if self.body@.contains(self.food) {
                        let i = choose|i: int| 0 <= i < self.body@.len() && self.body@[i] == self.food;
                        if i < moved.len() {
                            assert(self.body@[i] == m.body[i + 1]);
                        }
                    }
                }
            }
        }
        proof {
            assert(chosen(m, Some(dir)));
        }
        restart
    }
}

} // verus!
