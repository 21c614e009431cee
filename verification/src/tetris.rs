//! Self-playing Tetris for the LED panel.
//!
//! The board is `cols` lanes wide and `rows` LEDs tall, row 0 at the bottom.
//! A new piece appears at the top in its spawn orientation; the player picks
//! the best rotation and column for it, turns it one quarter at a time, slides
//! it toward that column as it falls one row per gravity step, and locks it
//! when it lands. Completed rows flash before they are removed.
//!
//! Timing is the caller's business: `tick` performs the action that is due
//! and says how long to wait before the next one.

use vstd::prelude::*;
use crate::rng::{Rng, xorshift};
use crate::shapes::{
    SHAPE_COUNT,
    copy_cells,
    footprint_ok,
    height_of,
    lemma_footprint,
    lemma_spawn_footprint,
    rotate,
    rotated,
    shape,
    shape_height,
    shape_spec,
    shape_width,
    turned,
    xs,
    ys,
    seq_max,
    rotatable,
    lemma_seq_max_is,
    width_of,
};
use crate::stack::{
    lemma_covers_step,
    surviving_upto,
    cleared,
    completed_upto,
    covers,
    descend,
    drop_row,
    empty_grid,
    full_with,
    grid_of,
    grid_ok,
    locked,
    placeable,
    removed,
    row_filled,
    small_cells,
};
use crate::score::{abs, evaluate, score};

verus! {

/// Palette index of the first tetromino colour; shape `i` uses base + `i`.
pub const PAL_PIECE_BASE: u8 = 3;
/// The bright colour of a flashing completed row.
pub const PAL_CLEAR_A: u8 = 10;
/// The hot colour of a flashing completed row.
pub const PAL_CLEAR_B: u8 = 11;
/// Seed of the Tetris generator.
pub const TETRIS_SEED: u32 = 0x1234_5677;

/// What the active piece is doing.
#[derive(Clone, Copy, PartialEq, Eq, Structural, Debug)]
pub enum Phase {
    /// Turning toward the chosen orientation one quarter turn at a time.
    Rotating,
    /// Falling one row per gravity step.
    Falling,
    /// A completed row is flashing before it disappears.
    Clearing,
}

/// How long to wait before the next `tick`.
#[derive(Clone, Copy, PartialEq, Eq, Structural, Debug)]
pub enum Delay {
    /// A fresh piece sits at the top for a moment.
    SpawnHold,
    /// The pause between quarter turns.
    RotateStep,
    /// One gravity step.
    Gravity,
    /// The flash of a completed row.
    ClearFlash,
}

/// Abstract state of a Tetris game.
pub struct TetrisModel {
    pub cols: usize,
    pub rows: usize,
    /// `board[row][col]`, row 0 at the bottom.
    pub board: Seq<Seq<Option<u8>>>,
    /// Footprint, colour, column, row and quarter turns made.
    pub active: Option<(Seq<(i8, i8)>, u8, i8, i8, usize)>,
    pub target_rot: usize,
    pub target_x: i8,
    pub phase: Phase,
    pub clearing_rows: Seq<usize>,
    pub lines_cleared: u32,
    pub rng: u32,
    /// Which of the two flash colours completed rows show.
    pub blink: bool,
}

/// `v` clamped into `lo..=hi`.
pub open spec fn clamp(v: int, lo: int, hi: int) -> int {
    if v < lo {
        lo
    } else if v > hi {
        hi
    } else {
        v
    }
}

/// The rightmost column a footprint can take on a board `cols` wide.
pub open spec fn max_col(cols: int, c: Seq<(i8, i8)>) -> int {
    if cols - width_of(c) > 0 {
        cols - width_of(c)
    } else {
        0
    }
}

/// `v` is a tetromino colour.
pub open spec fn piece_color(v: u8) -> bool {
    PAL_PIECE_BASE <= v < PAL_PIECE_BASE + 7
}

/// Dropping `shape` turned `t` quarter turns in column `x` is a legal
/// placement.
pub open spec fn candidate(
    b: Seq<Seq<Option<u8>>>,
    cols: int,
    rows: int,
    shape: Seq<(i8, i8)>,
    t: int,
    x: int,
) -> bool {
    &&& 0 <= t < 4
    &&& 0 <= x <= max_col(cols, turned(shape, t as nat))
    &&& drop_row(b, cols, rows, turned(shape, t as nat), x) >= 0
}

/// The score of that placement.
pub open spec fn cand_score(
    b: Seq<Seq<Option<u8>>>,
    cols: int,
    rows: int,
    shape: Seq<(i8, i8)>,
    t: int,
    x: int,
) -> int {
    let c = turned(shape, t as nat);
    score(b, cols, rows, c, x, drop_row(b, cols, rows, c, x))
}

/// Placement (t, x) scores highest, and strictly higher than every placement
/// tried before it (fewer turns, or as many turns and a lower column).
pub open spec fn is_best(
    b: Seq<Seq<Option<u8>>>,
    cols: int,
    rows: int,
    shape: Seq<(i8, i8)>,
    t: int,
    x: int,
) -> bool {
    &&& candidate(b, cols, rows, shape, t, x)
    &&& forall|t2: int, x2: int|
        #[trigger] candidate(b, cols, rows, shape, t2, x2) ==> cand_score(b, cols, rows, shape, t2, x2)
            <= cand_score(b, cols, rows, shape, t, x)
    &&& forall|t2: int, x2: int|
        #[trigger] candidate(b, cols, rows, shape, t2, x2) && (t2 < t || (t2 == t && x2 < x))
            ==> cand_score(b, cols, rows, shape, t2, x2) < cand_score(b, cols, rows, shape, t, x)
}

/// The placement the player aims for, as (quarter turns, column); (0, 0)
/// when the shape fits nowhere.
pub open spec fn placement(b: Seq<Seq<Option<u8>>>, cols: int, rows: int, shape: Seq<(i8, i8)>) -> (
    usize,
    i8,
) {
    if exists|t: int, x: int| is_best(b, cols, rows, shape, t, x) {
        let (t, x) = choose|t: int, x: int| is_best(b, cols, rows, shape, t, x);
        (t as usize, x as i8)
    } else {
        (0usize, 0i8)
    }
}

/// The shape the generator state `rng` draws next.
pub open spec fn drawn(rng: u32) -> int {
    ((xorshift(rng) as usize) % (SHAPE_COUNT as usize)) as int
}

/// Tetromino `idx`, at the top of the board in its spawn orientation, aimed
/// at its best placement; the generator takes one step.
pub open spec fn with_shape(m: TetrisModel, idx: int) -> TetrisModel {
    let sh = shape_spec(idx);
    let aim = placement(m.board, m.cols as int, m.rows as int, sh);
    TetrisModel {
        active: Some(
            (
                sh,
                (PAL_PIECE_BASE + idx) as u8,
                clamp(aim.1 as int, 0, max_col(m.cols as int, sh)) as i8,
                (m.rows - height_of(sh)) as i8,
                0usize,
            ),
        ),
        target_rot: aim.0,
        target_x: aim.1,
        phase: if aim.0 == 0 {
            Phase::Falling
        } else {
            Phase::Rotating
        },
        rng: xorshift(m.rng),
        ..m
    }
}

/// The next piece: the tetromino the generator draws.
pub open spec fn with_piece(m: TetrisModel) -> TetrisModel {
    with_shape(m, drawn(m.rng))
}

/// The next piece fits where it appears.
pub open spec fn spawn_fits(m: TetrisModel) -> bool {
    let p = with_piece(m).active->0;
    placeable(m.board, m.cols as int, m.rows as int, p.0, p.2 as int, p.3 as int)
}

/// An empty board with no piece; the line count and generator are kept.
pub open spec fn emptied(m: TetrisModel) -> TetrisModel {
    TetrisModel {
        board: empty_grid(m.cols as int, m.rows as int),
        active: None,
        target_rot: 0,
        target_x: 0,
        phase: Phase::Falling,
        clearing_rows: Seq::empty(),
        ..m
    }
}

/// The board after a piece that does not fit was drawn: emptied, with the
/// generator one step on.
pub open spec fn refused(m: TetrisModel) -> TetrisModel {
    emptied(TetrisModel { rng: xorshift(m.rng), ..m })
}

/// How many times a refused piece is drawn again before a piece that fits an
/// empty board is taken outright. The generator visits every nonzero state
/// before it repeats (period 2^32 - 1), so every tetromino, and with it one
/// that fits, is drawn well before this many draws.
pub const SPAWN_REDRAWS: u64 = 0x1_0000_0000;

/// The piece that fits every empty board: the upright I on a board four rows
/// tall, the O on a shorter one (which is at least two lanes wide).
pub open spec fn fallback_shape(rows: usize) -> int {
    if rows >= 4 {
        0
    } else {
        1
    }
}

/// Draw pieces until one fits, emptying the board after each that does not;
/// after `redraws` more refusals the fallback piece is taken.
#[verifier::opaque]
pub open spec fn rerolled(m: TetrisModel, redraws: nat) -> TetrisModel
    decreases redraws,
{
    if spawn_fits(m) {
        with_piece(m)
    } else if redraws == 0 {
        with_shape(refused(m), fallback_shape(m.rows))
    } else {
        rerolled(refused(m), (redraws - 1) as nat)
    }
}

/// Bring in the next piece; when it does not fit, the stack has reached the
/// ceiling (or the piece is wider than the board): empty the board and draw
/// again until a piece fits.
pub open spec fn spawned(m: TetrisModel) -> TetrisModel {
    rerolled(m, SPAWN_REDRAWS as nat)
}

/// Wall-kick column `k` for a footprint at column `x`: the column itself,
/// one to the left, one to the right, the left edge, the right edge; each
/// clamped into `0..=maxx`.
pub open spec fn kick_at(x: int, maxx: int, k: int) -> int {
    clamp(
        if k == 0 {
            x
        } else if k == 1 {
            x - 1
        } else if k == 2 {
            x + 1
        } else if k == 3 {
            0
        } else {
            maxx
        },
        0,
        maxx,
    )
}

/// The first wall-kick column from `k` on where `c` fits at row `y`.
pub open spec fn first_kick(
    b: Seq<Seq<Option<u8>>>,
    cols: int,
    rows: int,
    c: Seq<(i8, i8)>,
    x: int,
    y: int,
    k: int,
) -> Option<int>
    decreases 5 - k,
{
    if k >= 5 || k < 0 {
        None
    } else if placeable(b, cols, rows, c, kick_at(x, max_col(cols, c), k), y) {
        Some(kick_at(x, max_col(cols, c), k))
    } else {
        first_kick(b, cols, rows, c, x, y, k + 1)
    }
}

/// The row a piece at row `y` turns at: a piece that grows taller is lowered
/// by the growth (but not below the floor) so it stays under the ceiling.
pub open spec fn lowered(c: Seq<(i8, i8)>, y: int) -> int {
    let growth = height_of(rotated(c)) - height_of(c);
    if growth > 0 {
        if y - growth > 0 {
            y - growth
        } else {
            0
        }
    } else {
        y
    }
}

/// Moving the active piece to another free spot keeps the game well formed.
proof fn lemma_moved_wf(
    m: TetrisModel,
    c: Seq<(i8, i8)>,
    color: u8,
    x: i8,
    y: i8,
    rot: usize,
    nx: int,
    ny: int,
)
    requires
        tetris_wf(m),
        m.active == Some((c, color, x, y, rot)),
        0 <= nx <= 127,
        0 <= ny <= 127,
        placeable(m.board, m.cols as int, m.rows as int, c, nx, ny),
    ensures
        tetris_wf(TetrisModel { active: Some((c, color, nx as i8, ny as i8, rot)), ..m }),
{
}

/// Turning the active piece into another free footprint keeps the game well
/// formed.
proof fn lemma_turned_wf(
    m: TetrisModel,
    c: Seq<(i8, i8)>,
    color: u8,
    x: i8,
    y: i8,
    rot: usize,
    next: Seq<(i8, i8)>,
    nx: int,
    ny: int,
)
    requires
        tetris_wf(m),
        m.phase == Phase::Rotating,
        m.active == Some((c, color, x, y, rot)),
        footprint_ok(next),
        0 <= nx <= 127,
        0 <= ny <= 127,
        placeable(m.board, m.cols as int, m.rows as int, next, nx, ny),
    ensures
        tetris_wf(
            TetrisModel {
                active: Some((next, color, nx as i8, ny as i8, (rot + 1) as usize)),
                phase: if rot + 1 < m.target_rot {
                    Phase::Rotating
                } else {
                    Phase::Falling
                },
                ..m
            },
        ),
{
}

/// A piece that lands leaves a well-formed game behind: the board it is
/// locked into is a valid board, and the rows it completes are distinct full
/// rows of it, bottom first.
proof fn lemma_landed(m: TetrisModel, c: Seq<(i8, i8)>, color: u8, x: int, y: int, rot: usize)
    requires
        tetris_wf(m),
        m.phase == Phase::Falling,
        m.active == Some((c, color, x as i8, y as i8, rot)),
        0 <= x <= 127,
        0 <= y <= 127,
    ensures
        board_ok(
            TetrisModel {
                board: locked(m.board, m.cols as int, m.rows as int, c, color, x, y),
                active: None,
                ..m
            },
        ),
        completed_upto(m.board, m.cols as int, c, x, y, m.rows as nat).len() > 0 ==> tetris_wf(
            landed(m, c, color, x, y).0,
        ),
{
    lemma_completed(m.board, m.cols as int, c, x, y, m.rows as nat);
    lemma_locked(m.board, m.cols as int, m.rows as int, c, color, x, y);
}

/// One quarter turn of the active piece. A piece that grows taller is first
/// lowered by the growth so it stays under the ceiling; it then takes the
/// first wall-kick column where it fits. When none fits the turn is abandoned
/// and the piece falls as it is.
pub open spec fn after_rotate(m: TetrisModel) -> (TetrisModel, Delay) {
    match m.active {
        None => (TetrisModel { phase: Phase::Falling, ..m }, Delay::Gravity),
        Some(a) => {
            let next = rotated(a.0);
            let y = lowered(a.0, a.3 as int);
            match first_kick(m.board, m.cols as int, m.rows as int, next, a.2 as int, y, 0) {
                Some(cx) => {
                    let still = a.4 + 1 < m.target_rot;
                    (
                        TetrisModel {
                            active: Some((next, a.1, cx as i8, y as i8, (a.4 + 1) as usize)),
                            phase: if still {
                                Phase::Rotating
                            } else {
                                Phase::Falling
                            },
                            ..m
                        },
                        if still {
                            Delay::RotateStep
                        } else {
                            Delay::Gravity
                        },
                    )
                },
                None => (TetrisModel { phase: Phase::Falling, ..m }, Delay::Gravity),
            }
        },
    }
}

/// The column footprint `c` at (x, y) takes when it steps one column toward
/// the target column, if that column is free; otherwise `x`.
pub open spec fn slid_x(m: TetrisModel, c: Seq<(i8, i8)>, x: int, y: int) -> int {
    let maxx = max_col(m.cols as int, c);
    let want = clamp(m.target_x as int, 0, maxx);
    if want == x {
        x
    } else {
        let nx = clamp(
            if want > x {
                x + 1
            } else {
                x - 1
            },
            0,
            maxx,
        );
        if nx != x && placeable(m.board, m.cols as int, m.rows as int, c, nx, y) {
            nx
        } else {
            x
        }
    }
}

/// One gravity step: the piece steps toward its column, then falls a row if
/// it can. Otherwise it locks; if that completes rows they start to flash,
/// else the next piece comes in.
pub open spec fn after_gravity(m: TetrisModel) -> (TetrisModel, Delay) {
    match m.active {
        None => (spawned(m), Delay::SpawnHold),
        Some(a) => {
            let x = slid_x(m, a.0, a.2 as int, a.3 as int);
            let y = a.3 as int;
            if y > 0 && placeable(m.board, m.cols as int, m.rows as int, a.0, x, y - 1) {
                (
                    TetrisModel { active: Some((a.0, a.1, x as i8, (y - 1) as i8, a.4)), ..m },
                    Delay::Gravity,
                )
            } else {
                landed(m, a.0, a.1, x, y)
            }
        },
    }
}

/// A piece that cannot fall any further locks where it rests. If that
/// completes rows they start to flash; otherwise the next piece comes in.
pub open spec fn landed(m: TetrisModel, c: Seq<(i8, i8)>, color: u8, x: int, y: int) -> (
    TetrisModel,
    Delay,
) {
    let done = completed_upto(m.board, m.cols as int, c, x, y, m.rows as nat);
    let b = locked(m.board, m.cols as int, m.rows as int, c, color, x, y);
    if done.len() > 0 {
        (
            TetrisModel {
                board: b,
                active: None,
                clearing_rows: done,
                phase: Phase::Clearing,
                blink: true,
                ..m
            },
            Delay::ClearFlash,
        )
    } else {
        (spawned(TetrisModel { board: b, active: None, ..m }), Delay::SpawnHold)
    }
}

/// How many rows below `n` a clear of `marked` removes.
pub open spec fn removed_count(b: Seq<Seq<Option<u8>>>, marked: Seq<usize>, n: nat) -> nat
    decreases n,
{
    if n == 0 {
        0
    } else {
        removed_count(b, marked, (n - 1) as nat) + if removed(b, marked, n - 1) {
            1nat
        } else {
            0nat
        }
    }
}

/// The end of a flash: the flashed rows go, the line count grows by as many
/// (stopping at `u32::MAX`), and the next piece comes in.
pub open spec fn after_clear(m: TetrisModel) -> TetrisModel {
    let n = removed_count(m.board, m.clearing_rows, m.rows as nat);
    spawned(
        TetrisModel {
            board: cleared(m.board, m.cols as int, m.rows as int, m.clearing_rows),
            lines_cleared: if m.lines_cleared + n > u32::MAX {
                u32::MAX
            } else {
                (m.lines_cleared + n) as u32
            },
            clearing_rows: Seq::empty(),
            ..m
        },
    )
}

/// The action due in the current phase, and the wait before the next one.
pub open spec fn ticked(m: TetrisModel) -> (TetrisModel, Delay) {
    match m.phase {
        Phase::Rotating => after_rotate(m),
        Phase::Falling => after_gravity(m),
        Phase::Clearing => (after_clear(m), Delay::SpawnHold),
    }
}

/// Palette index shown at panel (row, col): a flashing colour on a flashing
/// row, else the active piece, else the settled cell.
pub open spec fn tetris_cell(m: TetrisModel, row: int, col: int) -> Option<u8> {
    if row >= m.rows || col >= m.cols || row < 0 || col < 0 {
        None
    } else if m.phase == Phase::Clearing && m.clearing_rows.contains(row as usize) {
        Some(
            if m.blink {
                PAL_CLEAR_A
            } else {
                PAL_CLEAR_B
            },
        )
    } else {
        match m.active {
            Some(a) => if covers(a.0, a.2 as int, a.3 as int, row, col) {
                Some(a.1)
            } else {
                m.board[row][col]
            },
            None => m.board[row][col],
        }
    }
}

/// The board fits `i8` arithmetic, is tall enough for an upright I piece or
/// wide enough for an O piece, and holds
/// `rows` rows of `cols` cells, each empty or a tetromino colour.
pub open spec fn board_ok(m: TetrisModel) -> bool {
    &&& 1 <= m.cols <= 127
    &&& 2 <= m.rows <= 127
    &&& (2 <= m.cols || 4 <= m.rows)
    &&& grid_ok(m.board, m.cols as int, m.rows as int)
    &&& forall|r: int, c: int|
        0 <= r < m.rows && 0 <= c < m.cols && (#[trigger] m.board[r][c]) is Some ==> piece_color(
            m.board[r][c]->0,
        )
}

/// A well-formed game. There is an active piece exactly when no row is
/// flashing; it is a panel footprint in a tetromino colour lying on free
/// cells, and it has not turned past its target. Flashing rows are distinct
/// full rows, bottom first; no rows are marked outside a flash.
pub open spec fn tetris_wf(m: TetrisModel) -> bool {
    &&& board_ok(m)
    &&& m.target_rot <= 3
    &&& 0 <= m.target_x <= 127
    &&& (m.phase == Phase::Clearing) == (m.active is None)
    &&& m.phase != Phase::Clearing ==> m.clearing_rows.len() == 0
    &&& forall|i: int|
        0 <= i < m.clearing_rows.len() ==> (#[trigger] m.clearing_rows[i]) < m.rows && row_filled(
            m.board[m.clearing_rows[i] as int],
        )
    &&& forall|i: int, j: int|
        0 <= i < j < m.clearing_rows.len() ==> #[trigger] m.clearing_rows[i]
            < #[trigger] m.clearing_rows[j]
    &&& m.active matches Some(a) ==> {
        &&& footprint_ok(a.0)
        &&& piece_color(a.1)
        &&& 0 <= a.2
        &&& 0 <= a.3
        &&& placeable(m.board, m.cols as int, m.rows as int, a.0, a.2 as int, a.3 as int)
        &&& a.4 <= m.target_rot
        &&& (m.phase == Phase::Rotating ==> a.4 < m.target_rot)
    }
}

/// Self-playing Tetris.
pub struct TetrisGame {
    cols: usize,
    rows: usize,
    /// `board[row][col]`, row 0 is the bottom of the fan.
    board: Vec<Vec<Option<u8>>>,
    /// Active piece: footprint, colour, column, row and quarter turns made.
    active: Option<(Vec<(i8, i8)>, u8, i8, i8, usize)>,
    /// Orientation the player wants, in quarter turns from spawn.
    target_rot: usize,
    /// Column the player wants the piece to land in.
    target_x: i8,
    phase: Phase,
    /// Exactly the rows that completed and are now flashing.
    clearing_rows: Vec<usize>,
    /// Rows removed so far.
    lines_cleared: u32,
    rng: Rng,
    blink: bool,
}

impl View for TetrisGame {
    type V = TetrisModel;

    closed spec fn view(&self) -> TetrisModel {
        TetrisModel {
            cols: self.cols,
            rows: self.rows,
            board: grid_of(&self.board),
            active: match self.active {
                Some(a) => Some((a.0@, a.1, a.2, a.3, a.4)),
                None => None,
            },
            target_rot: self.target_rot,
            target_x: self.target_x,
            phase: self.phase,
            clearing_rows: self.clearing_rows@,
            lines_cleared: self.lines_cleared,
            rng: self.rng.0,
            blink: self.blink,
        }
    }
}

/// A panel footprint has small offsets.
proof fn lemma_small(c: Seq<(i8, i8)>)
    requires
        footprint_ok(c),
    ensures
        small_cells(c),
        1 <= width_of(c) <= 3,
        1 <= height_of(c) <= 4,
        footprint_ok(rotated(c)),
        crate::shapes::rotatable(c),
{
    lemma_footprint(c);
}

impl TetrisGame {
    /// Well-formedness, kept by every operation.
    pub open spec fn wf(&self) -> bool {
        tetris_wf(self@)
    }

    /// Footprint `cells` at (x, y) would leave the board or overlap a settled
    /// cell.
    pub fn collides(&self, cells: &[(i8, i8)], x: i8, y: i8) -> (hit: bool)
        requires
            board_ok(self@),
        ensures
            hit == !placeable(self@.board, self@.cols as int, self@.rows as int, cells@, x as int, y as int),
    {
        let ghost b = self@.board;
        let ci = self.cols as i8;
        let ri = self.rows as i8;
        let mut i: usize = 0;
        while i < cells.len()
            invariant
                b == self@.board,
                board_ok(self@),
                ci == self.cols,
                ri == self.rows,
                i <= cells@.len(),
                forall|k: int|
                    0 <= k < i ==> {
                        let px = x + (#[trigger] cells@[k]).0;
                        let py = y + cells@[k].1;
                        &&& 0 <= px < self.cols
                        &&& 0 <= py < self.rows
                        &&& b[py][px] is None
                    },
            decreases cells@.len() - i,
        {
            let (cx, cy) = cells[i];
            assert(cells@[i as int] == (cx, cy));
            let px = x as i16 + cx as i16;
            let py = y as i16 + cy as i16;
            if px < 0 || py < 0 || px >= ci as i16 || py >= ri as i16 {
                return true;
            }
            assert(b[py as int] == self.board@[py as int]@);
            if self.board[py as usize][px as usize].is_some() {
                return true;
            }
            i = i + 1;
        }
        false
    }
}


/// Whether footprint `cells` at (x, y) covers (row, col).
fn piece_covers(cells: &[(i8, i8)], x: i8, y: i8, row: i8, col: i8) -> (r: bool)
    requires
    ensures
        r == covers(cells@, x as int, y as int, row as int, col as int),
{
    let mut i: usize = 0;
    while i < cells.len()
        invariant
            i <= cells@.len(),
            forall|k: int|
                0 <= k < i ==> !(x + (#[trigger] cells@[k]).0 == col && y + cells@[k].1 == row),
        decreases cells@.len() - i,
    {
        let (cx, cy) = cells[i];
        assert(cells@[i as int] == (cx, cy));
        if x as i16 + cx as i16 == col as i16 && y as i16 + cy as i16 == row as i16 {
            return true;
        }
        i = i + 1;
    }
    false
}

/// Two best placements are the same placement.
proof fn lemma_best_unique(
    b: Seq<Seq<Option<u8>>>,
    cols: int,
    rows: int,
    sh: Seq<(i8, i8)>,
    t1: int,
    x1: int,
    t2: int,
    x2: int,
)
    requires
        is_best(b, cols, rows, sh, t1, x1),
        is_best(b, cols, rows, sh, t2, x2),
    ensures
        t1 == t2 && x1 == x2,
{
    assert(candidate(b, cols, rows, sh, t1, x1));
    assert(candidate(b, cols, rows, sh, t2, x2));
}

impl TetrisGame {
    /// Which rows become full once `cells` rests at (x, y), bottom first.
    fn completed_rows(&self, cells: &[(i8, i8)], x: i8, y: i8) -> (done: Vec<usize>)
        requires
            board_ok(self@),
        ensures
            done@ == completed_upto(self@.board, self@.cols as int, cells@, x as int, y as int, self@.rows as nat),
    {
        let ghost b = self@.board;
        let ghost cs = cells@;
        let mut done: Vec<usize> = Vec::new();
        let mut row: usize = 0;
        while row < self.rows
            invariant
                b == self@.board,
                cs == cells@,
                board_ok(self@),
                row <= self.rows,
                done@ == completed_upto(b, self.cols as int, cs, x as int, y as int, row as nat),
            decreases self.rows - row,
        {
            assert(b[row as int] == self.board@[row as int]@);
            let ci = self.cols as i8;
            let mut full = true;
            let mut col: i8 = 0;
            while col < ci
                invariant
                    b == self@.board,
                    cs == cells@,
                    board_ok(self@),
                        row < self.rows,
                    b[row as int] == self.board@[row as int]@,
                    ci == self.cols,
                    0 <= col <= ci,
                    full == forall|k: int|
                        0 <= k < col ==> covers(cs, x as int, y as int, row as int, k) || (
                        #[trigger] b[row as int][k]) is Some,
                decreases ci - col,
            {
                let here = piece_covers(cells, x, y, row as i8, col);
                if !here && self.board[row][col as usize].is_none() {
                    full = false;
                }
                col = col + 1;
            }
            if full {
                done.push(row);
            }
            row = row + 1;
        }
        done
    }

    /// The row where `cells` rests when dropped from the top in column `x`,
    /// or -1 when it does not fit there.
    fn drop_y(&self, cells: &[(i8, i8)], x: i8) -> (y: i8)
        requires
            board_ok(self@),
            seq_max(ys(cells@)) < 127,
            self@.rows - height_of(cells@) <= 127,
        ensures
            y == drop_row(self@.board, self@.cols as int, self@.rows as int, cells@, x as int),
            y == -1 || 0 <= y <= self@.rows - height_of(cells@),
    {
        let top = self.rows as i8 - shape_height(cells);
        if top < 0 {
            return -1;
        }
        let ghost b = self@.board;
        let ghost cols = self.cols as int;
        let ghost rows = self.rows as int;
        let mut y = top;
        loop
            invariant
                board_ok(self@),
                0 <= y <= top,
                top == rows - height_of(cells@),
                b == self@.board,
                cols == self.cols,
                rows == self.rows,
                descend(b, cols, rows, cells@, x as int, y as int) == descend(
                    b,
                    cols,
                    rows,
                    cells@,
                    x as int,
                    top as int,
                ),
            ensures
                descend(b, cols, rows, cells@, x as int, top as int) == y,
                0 <= y <= top,
            decreases y,
        {
            if y == 0 {
                break;
            }
            if self.collides(cells, x, y - 1) {
                break;
            }
            y = y - 1;
        }
        if self.collides(cells, x, y) {
            return -1;
        }
        y
    }
}


/// A footprint that can be searched: each of its four quarter turns stays
/// within `i8` coordinates and is at least one column wide and not of negative
/// height.
pub open spec fn turns_fit(sh: Seq<(i8, i8)>) -> bool {
    forall|t: nat|
        t < 4 ==> {
            &&& rotatable(#[trigger] turned(sh, t))
            &&& width_of(turned(sh, t)) >= 1
            &&& height_of(turned(sh, t)) >= 0
        }
}

/// Every panel footprint, tetrominoes among them, can be searched.
proof fn lemma_footprint_turns_fit(sh: Seq<(i8, i8)>)
    requires
        footprint_ok(sh),
    ensures
        turns_fit(sh),
{
    assert forall|t: nat| t < 4 implies {
        &&& rotatable(#[trigger] turned(sh, t))
        &&& width_of(turned(sh, t)) >= 1
        &&& height_of(turned(sh, t)) >= 0
    } by {
        lemma_turned_footprint(sh, t);
        lemma_footprint(turned(sh, t));
    }
}

/// Quarter turns of a panel footprint are panel footprints.
proof fn lemma_turned_footprint(sh: Seq<(i8, i8)>, t: nat)
    requires
        footprint_ok(sh),
    ensures
        footprint_ok(turned(sh, t)),
    decreases t,
{
    if t > 0 {
        lemma_turned_footprint(sh, (t - 1) as nat);
        lemma_footprint(turned(sh, (t - 1) as nat));
    }
}

/// Placement (t2, x2) is tried before (t, x).
pub open spec fn tried_before(t2: int, x2: int, t: int, x: int) -> bool {
    t2 < t || (t2 == t && x2 < x)
}

/// `best` is the best of the placements tried before (t, x): none when none
/// of them is legal, else a legal one that scores highest and beats every
/// placement tried before it.
pub open spec fn tracks_best(
    best: Option<(i64, usize, i8)>,
    b: Seq<Seq<Option<u8>>>,
    cols: int,
    rows: int,
    sh: Seq<(i8, i8)>,
    t: int,
    x: int,
) -> bool {
    match best {
        None => forall|t2: int, x2: int|
            #[trigger] candidate(b, cols, rows, sh, t2, x2) ==> !tried_before(t2, x2, t, x),
        Some(bb) => {
            &&& candidate(b, cols, rows, sh, bb.1 as int, bb.2 as int)
            &&& 0 <= bb.2 <= 127
            &&& tried_before(bb.1 as int, bb.2 as int, t, x)
            &&& bb.0 == cand_score(b, cols, rows, sh, bb.1 as int, bb.2 as int)
            &&& forall|t2: int, x2: int|
                #[trigger] candidate(b, cols, rows, sh, t2, x2) && tried_before(t2, x2, t, x)
                    ==> cand_score(b, cols, rows, sh, t2, x2) <= bb.0
            &&& forall|t2: int, x2: int|
                #[trigger] candidate(b, cols, rows, sh, t2, x2) && tried_before(
                    t2,
                    x2,
                    bb.1 as int,
                    bb.2 as int,
                ) ==> cand_score(b, cols, rows, sh, t2, x2) < bb.0
        },
    }
}

impl TetrisGame {
    /// Choose the rotation and column to aim `sh` at, as (quarter turns from
    /// the spawn orientation, column): the best placement by [`score`].
    fn best_placement(&self, sh: &[(i8, i8)]) -> (r: (usize, i8))
        requires
            board_ok(self@),
            turns_fit(sh@),
        ensures
            r == placement(self@.board, self@.cols as int, self@.rows as int, sh@),
            (exists|t: int, x: int| candidate(self@.board, self@.cols as int, self@.rows as int, sh@, t, x))
                ==> is_best(self@.board, self@.cols as int, self@.rows as int, sh@, r.0 as int, r.1 as int),
            r.0 <= 3,
            0 <= r.1 <= 127,
    {
        let ghost b = self@.board;
        let ghost cols = self.cols as int;
        let ghost rows = self.rows as int;
        let mut best: Option<(i64, usize, i8)> = None;
        let mut rot = copy_cells(sh);
        let mut turns: usize = 0;
        while turns < 4
            invariant
                b == self@.board,
                cols == self.cols,
                rows == self.rows,
                board_ok(self@),
                turns <= 4,
                rot@ == turned(sh@, turns as nat),
                turns_fit(sh@),
                tracks_best(best, b, cols, rows, sh@, turns as int, 0),
            decreases 4 - turns,
        {
            assert(rotatable(turned(sh@, turns as nat)));
            let w = shape_width(&rot);
            let ci = self.cols as i8;
            let max_x: i8 = if ci - w > 0 {
                ci - w
            } else {
                0
            };
            assert(max_x == max_col(cols, rot@));
            let mut x: i8 = 0;
            while x <= max_x
                invariant
                    b == self@.board,
                    cols == self.cols,
                    rows == self.rows,
                    board_ok(self@),
                    turns < 4,
                    rot@ == turned(sh@, turns as nat),
                    turns_fit(sh@),
                    max_x == max_col(cols, rot@),
                    0 <= max_x <= 127,
                    0 <= x <= max_x + 1,
                    tracks_best(best, b, cols, rows, sh@, turns as int, x as int),
                decreases max_x + 1 - x,
            {
                let y = self.drop_y(&rot, x);
                let ghost was = best;
                if y >= 0 {
                    let sc = evaluate(&self.board, self.cols, self.rows, &rot, x, y);
                    let better = match best {
                        None => true,
                        Some((bs, _, _)) => sc > bs,
                    };
                    if better {
                        best = Some((sc, turns, x));
                    }
                }
                proof {
                    assert(candidate(b, cols, rows, sh@, turns as int, x as int) == (y >= 0));
                    assert forall|t2: int, x2: int|
                        #[trigger] candidate(b, cols, rows, sh@, t2, x2) && tried_before(
                            t2,
                            x2,
                            turns as int,
                            x + 1,
                        ) implies tried_before(t2, x2, turns as int, x as int) || (t2 == turns && x2
                        == x) by {}
                }
                x = x + 1;
            }
            proof {
                assert forall|t2: int, x2: int|
                    #[trigger] candidate(b, cols, rows, sh@, t2, x2) && tried_before(
                        t2,
                        x2,
                        turns + 1,
                        0,
                    ) implies tried_before(t2, x2, turns as int, max_x + 1) by {}
            }
            rot = rotate(&rot);
            turns = turns + 1;
        }
        proof {
            assert forall|t2: int, x2: int| #[trigger] candidate(b, cols, rows, sh@, t2, x2) implies tried_before(
                t2,
                x2,
                4,
                0,
            ) by {}
        }
        match best {
            Some((_, t, x)) => {
                proof {
                    assert(is_best(b, cols, rows, sh@, t as int, x as int));
                    let (t1, x1) = choose|t1: int, x1: int| is_best(b, cols, rows, sh@, t1, x1);
                    lemma_best_unique(b, cols, rows, sh@, t as int, x as int, t1, x1);
                }
                (t, x)
            },
            None => {
                proof {
                    assert(!exists|t1: int, x1: int| candidate(b, cols, rows, sh@, t1, x1));
                    if exists|t1: int, x1: int| is_best(b, cols, rows, sh@, t1, x1) {
                        let (t1, x1) = choose|t1: int, x1: int| is_best(b, cols, rows, sh@, t1, x1);
                        assert(candidate(b, cols, rows, sh@, t1, x1));
                    }
                }
                (0, 0)
            },
        }
    }
}


/// A footprint lies on an empty board when it is inside it.
proof fn lemma_fits_empty(c: Seq<(i8, i8)>, cols: int, rows: int, x: int, y: int)
    requires
        footprint_ok(c),
        0 <= x <= cols - width_of(c),
        0 <= y <= rows - height_of(c),
    ensures
        placeable(empty_grid(cols, rows), cols, rows, c, x, y),
{
    lemma_footprint(c);
    let e = empty_grid(cols, rows);
    assert forall|i: int| 0 <= i < c.len() implies {
        let px = x + (#[trigger] c[i]).0;
        let py = y + c[i].1;
        &&& 0 <= px < cols
        &&& 0 <= py < rows
        &&& e[py][px] is None
    } by {
        let py = y + c[i].1;
        let px = x + c[i].0;
        assert(e[py] == crate::stack::empty_row(cols));
    }
}

/// `v` clamped into `lo..=hi`.
fn clamp_i8(v: i8, lo: i8, hi: i8) -> (r: i8)
    requires
        lo <= hi,
    ensures
        r == clamp(v as int, lo as int, hi as int),
{
    if v < lo {
        lo
    } else if v > hi {
        hi
    } else {
        v
    }
}

/// A row of `cols` empty cells.
fn empty_row_vec(cols: usize) -> (row: Vec<Option<u8>>)
    ensures
        row@ == crate::stack::empty_row(cols as int),
{
    let mut row: Vec<Option<u8>> = Vec::new();
    let mut i: usize = 0;
    while i < cols
        invariant
            i <= cols,
            row@ == Seq::new(i as nat, |k: int| None::<u8>),
        decreases cols - i,
    {
        row.push(None);
        i = i + 1;
        assert(row@ =~= Seq::new(i as nat, |k: int| None::<u8>));
    }
    row
}

impl TetrisGame {
    /// Where tetromino `idx` appears and what it aims for: (footprint, colour,
    /// column, row, target turns, target column).
    fn place_shape(&self, idx: usize) -> (p: (Vec<(i8, i8)>, u8, i8, i8, usize, i8))
        requires
            board_ok(self@),
            idx < SHAPE_COUNT,
        ensures
            with_shape(self@, idx as int) == (TetrisModel {
                active: Some((p.0@, p.1, p.2, p.3, 0usize)),
                target_rot: p.4,
                target_x: p.5,
                phase: if p.4 == 0 {
                    Phase::Falling
                } else {
                    Phase::Rotating
                },
                rng: xorshift(self@.rng),
                ..self@
            }),
            footprint_ok(p.0@),
            piece_color(p.1),
            0 <= p.2 <= max_col(self@.cols as int, p.0@),
            p.3 == self@.rows - height_of(p.0@),
            p.0@.len() > 0,
            p.0@[0].1 == 0,
            p.4 <= 3,
            0 <= p.5 <= 127,
    {
        let sh = shape(idx);
        proof {
            lemma_spawn_footprint(idx as int);
            lemma_small(sh@);
            lemma_footprint_turns_fit(sh@);
        }
        let (tr, tx) = self.best_placement(&sh);
        let w = shape_width(&sh);
        let h = shape_height(&sh);
        let ci = self.cols as i8;
        let maxx: i8 = if ci - w > 0 {
            ci - w
        } else {
            0
        };
        let x = clamp_i8(tx, 0, maxx);
        let y = self.rows as i8 - h;
        let color = PAL_PIECE_BASE + idx as u8;
        (sh, color, x, y, tr, tx)
    }

    /// Draw the next shape and work out where it appears and what it aims
    /// for: (footprint, colour, column, row, target turns, target column).
    fn draw(&mut self) -> (p: (Vec<(i8, i8)>, u8, i8, i8, usize, i8))
        requires
            board_ok(old(self)@),
        ensures
            final(self)@ == (TetrisModel { rng: xorshift(old(self)@.rng), ..old(self)@ }),
            with_piece(old(self)@) == (TetrisModel {
                active: Some((p.0@, p.1, p.2, p.3, 0usize)),
                target_rot: p.4,
                target_x: p.5,
                phase: if p.4 == 0 {
                    Phase::Falling
                } else {
                    Phase::Rotating
                },
                ..final(self)@
            }),
            footprint_ok(p.0@),
            piece_color(p.1),
            0 <= p.2 <= max_col(old(self)@.cols as int, p.0@),
            p.3 == old(self)@.rows - height_of(p.0@),
            p.0@.len() > 0,
            p.0@[0].1 == 0,
            p.4 <= 3,
            0 <= p.5 <= 127,
    {
        let mut r = self.rng;
        let idx = r.below(SHAPE_COUNT);
        let p = self.place_shape(idx);
        self.rng = r;
        p
    }

    /// Make `p` (as returned by `draw`) the active piece.
    fn install(&mut self, p: (Vec<(i8, i8)>, u8, i8, i8, usize, i8))
        ensures
            final(self)@ == (TetrisModel {
                active: Some((p.0@, p.1, p.2, p.3, 0usize)),
                target_rot: p.4,
                target_x: p.5,
                phase: if p.4 == 0 {
                    Phase::Falling
                } else {
                    Phase::Rotating
                },
                ..old(self)@
            }),
    {
        let (cells, color, x, y, tr, tx) = p;
        self.active = Some((cells, color, x, y, 0));
        self.target_rot = tr;
        self.target_x = tx;
        self.phase = if tr == 0 {
            Phase::Falling
        } else {
            Phase::Rotating
        };
    }

    /// Empty the board and drop the piece.
    fn wipe(&mut self)
        requires
            1 <= old(self).cols <= 127,
            2 <= old(self).rows <= 127,
            2 <= old(self).cols || 4 <= old(self).rows,
        ensures
            final(self)@ == emptied(old(self)@),
            board_ok(final(self)@),
    {
        let mut board: Vec<Vec<Option<u8>>> = Vec::new();
        let mut r: usize = 0;
        while r < self.rows
            invariant
                r <= self.rows,
                grid_of(&board) == Seq::new(r as nat, |k: int| crate::stack::empty_row(self.cols as int)),
            decreases self.rows - r,
        {
            let row = empty_row_vec(self.cols);
            let ghost prev = grid_of(&board);
            board.push(row);
            r = r + 1;
            assert(grid_of(&board) =~= prev.push(crate::stack::empty_row(self.cols as int)));
            assert(grid_of(&board) =~= Seq::new(r as nat, |k: int| crate::stack::empty_row(self.cols as int)));
        }
        self.board = board;
        self.active = None;
        self.target_rot = 0;
        self.target_x = 0;
        self.phase = Phase::Falling;
        self.clearing_rows = Vec::new();
        assert(self@.clearing_rows =~= Seq::<usize>::empty());
    }

    /// One draw of `spawn`: install the drawn piece when it fits, else empty
    /// the board; with no redraws left, install the I piece instead.
    fn spawn_once(&mut self, redraws: u64) -> (done: bool)
        requires
            board_ok(old(self)@),
            old(self)@.clearing_rows.len() == 0,
        ensures
            done ==> final(self)@ == rerolled(old(self)@, redraws as nat) && final(self).wf(),
            !done ==> {
                &&& redraws > 0
                &&& final(self)@ == refused(old(self)@)
                &&& rerolled(old(self)@, redraws as nat) == rerolled(
                    final(self)@,
                    (redraws - 1) as nat,
                )
                &&& board_ok(final(self)@)
                &&& final(self)@.clearing_rows.len() == 0
            },
    {
        let ghost s = self@;
        proof {
            lemma_rerolled_unfold(s, redraws as nat);
        }
        let p = self.draw();
        proof {
            lemma_small(p.0@);
            assert(with_piece(s).active->0 == (p.0@, p.1, p.2, p.3, 0usize));
        }
        let hit = self.collides(&p.0, p.2, p.3);
        if !hit {
            self.install(p);
            return true;
        }
        self.wipe();
        assert(self@ == refused(s));
        if redraws == 0 {
            let fb: usize = if self.rows >= 4 {
                0
            } else {
                1
            };
            let q = self.place_shape(fb);
            self.rng.next();
            proof {
                lemma_fallback_fits_empty(self@, q.0@, q.2 as int, q.3 as int);
            }
            self.install(q);
            return true;
        }
        false
    }

    /// Bring in the next piece at the top in its spawn orientation, aimed at
    /// the best placement; when it does not fit, empty the board and draw
    /// again until a piece fits.
    fn spawn(&mut self)
        requires
            board_ok(old(self)@),
            old(self)@.clearing_rows.len() == 0,
        ensures
            final(self)@ == spawned(old(self)@),
            final(self).wf(),
    {
        let ghost m = self@;
        let mut redraws: u64 = SPAWN_REDRAWS;
        loop
            invariant
                m == old(self)@,
                board_ok(self@),
                self@.clearing_rows.len() == 0,
                spawned(m) == rerolled(self@, redraws as nat),
            decreases redraws,
        {
            if self.spawn_once(redraws) {
                return;
            }
            redraws = redraws - 1;
        }
    }
}

/// The fallback piece lies on an empty board wherever it appears.
proof fn lemma_fallback_fits_empty(e: TetrisModel, c: Seq<(i8, i8)>, x: int, y: int)
    requires
        board_ok(e),
        e.board == empty_grid(e.cols as int, e.rows as int),
        c == shape_spec(fallback_shape(e.rows)),
        0 <= x <= max_col(e.cols as int, c),
        y == e.rows - height_of(c),
    ensures
        placeable(e.board, e.cols as int, e.rows as int, c, x, y),
{
    lemma_spawn_footprint(fallback_shape(e.rows));
    if e.rows >= 4 {
        assert(xs(c)[0] == 0);
        assert(ys(c)[3] == 3);
        lemma_seq_max_is(xs(c), 0);
        lemma_seq_max_is(ys(c), 3);
    } else {
        assert(xs(c)[1] == 1);
        assert(ys(c)[2] == 1);
        lemma_seq_max_is(xs(c), 1);
        lemma_seq_max_is(ys(c), 1);
    }
    lemma_fits_empty(c, e.cols as int, e.rows as int, x, y);
}

/// One draw of `rerolled`.
proof fn lemma_rerolled_unfold(m: TetrisModel, n: nat)
    ensures
        rerolled(m, n) == if spawn_fits(m) {
            with_piece(m)
        } else if n == 0 {
            with_shape(refused(m), fallback_shape(m.rows))
        } else {
            rerolled(refused(m), (n - 1) as nat)
        },
{
    reveal(rerolled);
}

/// Bringing in a piece, however many draws it takes, keeps the board's shape,
/// the line count and the blink.
pub proof fn lemma_rerolled_keeps(m: TetrisModel, n: nat)
    ensures
        rerolled(m, n).cols == m.cols,
        rerolled(m, n).rows == m.rows,
        rerolled(m, n).lines_cleared == m.lines_cleared,
        rerolled(m, n).blink == m.blink,
    decreases n,
{
    reveal(rerolled);
    if !spawn_fits(m) && n > 0 {
        lemma_rerolled_keeps(refused(m), (n - 1) as nat);
    }
}


/// The state a new game starts from, before its first piece.
pub open spec fn fresh_tetris(cols: usize, rows: usize) -> TetrisModel {
    TetrisModel {
        cols,
        rows,
        board: empty_grid(cols as int, rows as int),
        active: None,
        target_rot: 0,
        target_x: 0,
        phase: Phase::Falling,
        clearing_rows: Seq::empty(),
        lines_cleared: 0,
        rng: TETRIS_SEED | 1,
        blink: true,
    }
}

/// Completed rows are rows of the board that are full with the piece in
/// place, listed bottom first without repeats.
proof fn lemma_completed(b: Seq<Seq<Option<u8>>>, cols: int, c: Seq<(i8, i8)>, x: int, y: int, n: nat)
    requires
        n <= 127,
    ensures
        forall|i: int|
            0 <= i < completed_upto(b, cols, c, x, y, n).len() ==> (#[trigger] completed_upto(
                b,
                cols,
                c,
                x,
                y,
                n,
            )[i]) < n && full_with(b, cols, c, x, y, completed_upto(b, cols, c, x, y, n)[i] as int),
        forall|i: int, j: int|
            0 <= i < j < completed_upto(b, cols, c, x, y, n).len() ==> #[trigger] completed_upto(
                b,
                cols,
                c,
                x,
                y,
                n,
            )[i] < #[trigger] completed_upto(b, cols, c, x, y, n)[j],
    decreases n,
{
    if n > 0 {
        lemma_completed(b, cols, c, x, y, (n - 1) as nat);
        let prev = completed_upto(b, cols, c, x, y, (n - 1) as nat);
        let cur = completed_upto(b, cols, c, x, y, n);
        if full_with(b, cols, c, x, y, n - 1) {
            assert(cur == prev.push((n - 1) as usize));
            assert(cur[prev.len() as int] == n - 1);
        } else {
            assert(cur == prev);
        }
        assert forall|i: int| 0 <= i < cur.len() implies (#[trigger] cur[i]) < n && full_with(
            b,
            cols,
            c,
            x,
            y,
            cur[i] as int,
        ) by {
            if i < prev.len() {
                assert(cur[i] == prev[i]);
            }
        }
        assert forall|i: int, j: int| 0 <= i < j < cur.len() implies #[trigger] cur[i] < #[trigger] cur[j] by {
            if j < prev.len() {
                assert(cur[i] == prev[i]);
                assert(cur[j] == prev[j]);
            } else {
                assert(cur[i] == prev[i]);
            }
        }
    }
}

/// Locking a piece keeps the board shape and colours, and a row that was
/// full with the piece in place is full afterwards.
proof fn lemma_locked(
    b: Seq<Seq<Option<u8>>>,
    cols: int,
    rows: int,
    c: Seq<(i8, i8)>,
    color: u8,
    x: int,
    y: int,
)
    requires
        grid_ok(b, cols, rows),
        0 <= cols,
        0 <= rows,
        piece_color(color),
        forall|r: int, k: int|
            0 <= r < rows && 0 <= k < cols && (#[trigger] b[r][k]) is Some ==> piece_color(b[r][k]->0),
    ensures
        grid_ok(locked(b, cols, rows, c, color, x, y), cols, rows),
        forall|r: int, k: int|
            0 <= r < rows && 0 <= k < cols && (#[trigger] locked(b, cols, rows, c, color, x, y)[r][k])
                is Some ==> piece_color(locked(b, cols, rows, c, color, x, y)[r][k]->0),
        forall|r: int|
            0 <= r < rows && full_with(b, cols, c, x, y, r) ==> row_filled(
                #[trigger] locked(b, cols, rows, c, color, x, y)[r],
            ),
{
    let l = locked(b, cols, rows, c, color, x, y);
    assert forall|r: int| 0 <= r < rows && full_with(b, cols, c, x, y, r) implies row_filled(
        #[trigger] l[r],
    ) by {
        assert forall|i: int| 0 <= i < l[r].len() implies (#[trigger] l[r][i]) is Some by {
            assert(covers(c, x, y, r, i) || b[r][i] is Some);
        }
    }
}

/// The surviving rows are rows of the board, and together with the removed
/// rows they account for every row.
proof fn lemma_surviving(b: Seq<Seq<Option<u8>>>, marked: Seq<usize>, n: nat)
    ensures
        surviving_upto(b, marked, n).len() + removed_count(b, marked, n) == n,
        forall|k: int|
            0 <= k < surviving_upto(b, marked, n).len() ==> exists|j: int|
                0 <= j < n && #[trigger] surviving_upto(b, marked, n)[k] == b[j],
    decreases n,
{
    if n > 0 {
        lemma_surviving(b, marked, (n - 1) as nat);
        let prev = surviving_upto(b, marked, (n - 1) as nat);
        let cur = surviving_upto(b, marked, n);
        assert forall|k: int| 0 <= k < cur.len() implies exists|j: int|
            0 <= j < n && #[trigger] cur[k] == b[j] by {
            if k < prev.len() {
                assert(cur[k] == prev[k]);
                let j = choose|j: int| 0 <= j < n - 1 && prev[k] == b[j];
                assert(cur[k] == b[j]);
            } else {
                assert(cur[k] == b[n - 1]);
            }
        }
    }
}

/// Clearing rows keeps the board shape and colours.
proof fn lemma_cleared(b: Seq<Seq<Option<u8>>>, cols: int, rows: int, marked: Seq<usize>)
    requires
        grid_ok(b, cols, rows),
        0 <= cols,
        0 <= rows,
        forall|r: int, k: int|
            0 <= r < rows && 0 <= k < cols && (#[trigger] b[r][k]) is Some ==> piece_color(b[r][k]->0),
    ensures
        grid_ok(cleared(b, cols, rows, marked), cols, rows),
        forall|r: int, k: int|
            0 <= r < rows && 0 <= k < cols && (#[trigger] cleared(b, cols, rows, marked)[r][k]) is Some
                ==> piece_color(cleared(b, cols, rows, marked)[r][k]->0),
{
    lemma_surviving(b, marked, rows as nat);
    let kept = surviving_upto(b, marked, rows as nat);
    let cl = cleared(b, cols, rows, marked);
    assert forall|r: int| 0 <= r < rows implies (#[trigger] cl[r]).len() == cols && forall|k: int|
        0 <= k < cols && (#[trigger] cl[r][k]) is Some ==> piece_color(cl[r][k]->0) by {
        if r < kept.len() {
            let j = choose|j: int| 0 <= j < rows && #[trigger] kept[r] == b[j];
            assert(cl[r] == b[j]);
        } else {
            assert(cl[r] == crate::stack::empty_row(cols));
        }
    }
}

/// Whether `v` holds `r`.
fn holds(v: &Vec<usize>, r: usize) -> (found: bool)
    ensures
        found == v@.contains(r),
{
    let mut i: usize = 0;
    while i < v.len()
        invariant
            i <= v@.len(),
            forall|k: int| 0 <= k < i ==> v@[k] != r,
        decreases v@.len() - i,
    {
        if v[i] == r {
            assert(v@[i as int] == r);
            return true;
        }
        i = i + 1;
    }
    false
}

/// Whether every cell of the row is filled.
fn row_full(row: &Vec<Option<u8>>) -> (full: bool)
    ensures
        full == row_filled(row@),
{
    let mut i: usize = 0;
    while i < row.len()
        invariant
            i <= row@.len(),
            forall|k: int| 0 <= k < i ==> (#[trigger] row@[k]) is Some,
        decreases row@.len() - i,
    {
        if row[i].is_none() {
            return false;
        }
        i = i + 1;
    }
    true
}

impl TetrisGame {
    /// A new game on a board `cols` lanes wide and `rows` LEDs tall, with its
    /// first piece at the top. The board must hold some tetromino (four rows
    /// for the upright I, or two rows and two lanes for the O) and stay within
    /// `i8` coordinates (127). Where a drawn piece does not fit, pieces are
    /// drawn until one does.
    pub fn new(cols: usize, rows: usize) -> (g: TetrisGame)
        requires
            1 <= cols <= 127,
            2 <= rows <= 127,
            2 <= cols || 4 <= rows,
        ensures
            g.wf(),
            g@ == spawned(fresh_tetris(cols, rows)),
            g@.cols == cols,
            g@.rows == rows,
            g@.lines_cleared == 0,
    {
        let mut g = TetrisGame {
            cols,
            rows,
            board: Vec::new(),
            active: None,
            target_rot: 0,
            target_x: 0,
            phase: Phase::Falling,
            clearing_rows: Vec::new(),
            lines_cleared: 0,
            rng: Rng::new(TETRIS_SEED),
            blink: true,
        };
        g.wipe();
        assert(g@ == fresh_tetris(cols, rows));
        g.spawn();
        proof {
            lemma_rerolled_keeps(fresh_tetris(cols, rows), SPAWN_REDRAWS as nat);
        }
        g
    }

    /// Board shape as (lanes, rows).
    pub fn dims(&self) -> (d: (usize, usize))
        ensures
            d == (self@.cols, self@.rows),
    {
        (self.cols, self.rows)
    }

    /// A copy of the active piece: footprint, colour, column, row and quarter
    /// turns made.
    pub fn active(&self) -> (a: Option<(Vec<(i8, i8)>, u8, i8, i8, usize)>)
        ensures
            match a {
                Some(p) => self@.active == Some((p.0@, p.1, p.2, p.3, p.4)),
                None => self@.active is None,
            },
    {
        match &self.active {
            Some(p) => Some((copy_cells(p.0.as_slice()), p.1, p.2, p.3, p.4)),
            None => None,
        }
    }

    /// Write `cells` at (x, y) into the board in `color`; the piece is no
    /// longer active.
    fn lock_piece(&mut self, cells: &[(i8, i8)], color: u8, x: i8, y: i8)
        requires
            board_ok(old(self)@),
            small_cells(cells@),
            0 <= x <= 127,
            0 <= y <= 127,
            placeable(old(self)@.board, old(self)@.cols as int, old(self)@.rows as int, cells@, x as int, y as int),
        ensures
            final(self)@ == (TetrisModel {
                board: locked(
                    old(self)@.board,
                    old(self)@.cols as int,
                    old(self)@.rows as int,
                    cells@,
                    color,
                    x as int,
                    y as int,
                ),
                active: None,
                ..old(self)@
            }),
    {
        let ghost m = self@;
        let ghost b = m.board;
        let ghost cols = m.cols as int;
        let ghost rows = m.rows as int;
        let ghost c = cells@;
        assert(locked(b, cols, rows, c.subrange(0, 0), color, x as int, y as int) =~= b) by {
            assert forall|r: int| 0 <= r < rows implies #[trigger] locked(
                b,
                cols,
                rows,
                c.subrange(0, 0),
                color,
                x as int,
                y as int,
            )[r] =~= b[r] by {}
        }
        let mut i: usize = 0;
        while i < cells.len()
            invariant
                c == cells@,
                b == m.board,
                cols == m.cols,
                rows == m.rows,
                board_ok(m),
                small_cells(c),
                0 <= x <= 127,
                0 <= y <= 127,
                placeable(b, cols, rows, c, x as int, y as int),
                i <= c.len(),
                self@ == (TetrisModel { board: self@.board, ..m }),
                self@.board == locked(b, cols, rows, c.subrange(0, i as int), color, x as int, y as int),
            decreases c.len() - i,
        {
            let (cx, cy) = cells[i];
            assert(c[i as int] == (cx, cy));
            assert(0 <= x + cx < cols && 0 <= y + cy < rows && b[y + cy][x + cx] is None);
            let px = (x + cx) as usize;
            let py = (y + cy) as usize;
            let ghost before = self@.board;
            assert(before.len() == rows);
            assert(before[py as int].len() == cols);
            assert(self.board@[py as int]@ == before[py as int]);
            let ghost before_rows = self.board@;
            self.board[py][px] = Some(color);
            proof {
                let now = self@.board;
                let prior = locked(b, cols, rows, c.subrange(0, i as int), color, x as int, y as int);
                let after = locked(b, cols, rows, c.subrange(0, i + 1), color, x as int, y as int);
                assert(self.board@ == before_rows.update(py as int, self.board@[py as int]));
                assert(self.board@[py as int]@ == before_rows[py as int]@.update(px as int, Some(color)));
                assert forall|r: int| 0 <= r < rows implies #[trigger] now[r] =~= after[r] by {
                    assert(now[r] == self.board@[r]@);
                    assert(before[r] == before_rows[r]@);
                    assert(before[r] == prior[r]);
                    assert forall|k: int| 0 <= k < cols implies now[r][k] == after[r][k] by {
                        lemma_covers_step(c, i as int, x as int, y as int, r, k);
                        assert(prior[r][k] == (if covers(c.subrange(0, i as int), x as int, y as int, r, k) {
                            Some(color)
                        } else {
                            b[r][k]
                        }));
                    }
                }
                assert(self@.board =~= after);
            }
            i = i + 1;
        }
        assert(c.subrange(0, c.len() as int) =~= c);
        self.active = None;
    }
}


impl TetrisGame {
    /// Apply one quarter turn of the rotation animation.
    fn rotate_once(&mut self) -> (d: Delay)
        requires
            old(self).wf(),
            old(self)@.phase == Phase::Rotating,
        ensures
            (final(self)@, d) == after_rotate(old(self)@),
            final(self).wf(),
    {
        let ghost m = self@;
        let (cells, color, x, y, rot) = match self.active() {
            Some(a) => a,
            None => {
                self.phase = Phase::Falling;
                return Delay::Gravity;
            },
        };
        proof {
            lemma_small(cells@);
        }
        let next = rotate(&cells);
        proof {
            lemma_small(next@);
        }
        let hn = shape_height(&next);
        let hc = shape_height(&cells);
        let growth: i8 = if hn - hc > 0 {
            hn - hc
        } else {
            0
        };
        let ny: i8 = if y - growth > 0 {
            y - growth
        } else {
            0
        };
        let w = shape_width(&next);
        let ci = self.cols as i8;
        let maxx: i8 = if ci - w > 0 {
            ci - w
        } else {
            0
        };
        let ghost b = m.board;
        let ghost cols = m.cols as int;
        let ghost rows = m.rows as int;
        assert(maxx == max_col(cols, next@));
        assert(ny == lowered(cells@, y as int));
        let mut k: usize = 0;
        let mut spot: Option<i8> = None;
        loop
            invariant_except_break
                spot is None,
            invariant
                m == self@,
                b == m.board,
                cols == m.cols,
                rows == m.rows,
                tetris_wf(m),
                m.phase == Phase::Rotating,
                m.active == Some((cells@, color, x, y, rot)),
                next@ == rotated(cells@),
                footprint_ok(next@),
                small_cells(next@),
                maxx == max_col(cols, next@),
                0 <= maxx <= 127,
                0 <= ny <= 127,
                ny == lowered(cells@, y as int),
                0 <= x <= 127,
                k <= 5,
                first_kick(b, cols, rows, next@, x as int, ny as int, 0) == first_kick(
                    b,
                    cols,
                    rows,
                    next@,
                    x as int,
                    ny as int,
                    k as int,
                ),
            ensures
                m == self@,
                match spot {
                    Some(cx) => first_kick(b, cols, rows, next@, x as int, ny as int, 0) == Some(
                        cx as int,
                    ) && 0 <= cx <= 127 && placeable(b, cols, rows, next@, cx as int, ny as int),
                    None => first_kick(b, cols, rows, next@, x as int, ny as int, 0) is None,
                },
            decreases 5 - k,
        {
            if k >= 5 {
                break;
            }
            let raw: i8 = if k == 0 {
                x
            } else if k == 1 {
                x - 1
            } else if k == 2 {
                x + 1
            } else if k == 3 {
                0
            } else {
                maxx
            };
            let cx = clamp_i8(raw, 0, maxx);
            assert(cx == kick_at(x as int, maxx as int, k as int));
            if !self.collides(&next, cx, ny) {
                spot = Some(cx);
                break;
            }
            k = k + 1;
        }
        match spot {
            Some(cx) => {
                proof {
                    lemma_turned_wf(m, cells@, color, x, y, rot, next@, cx as int, ny as int);
                }
                let still = rot + 1 < self.target_rot;
                self.active = Some((next, color, cx, ny, rot + 1));
                self.phase = if still {
                    Phase::Rotating
                } else {
                    Phase::Falling
                };
                if still {
                    Delay::RotateStep
                } else {
                    Delay::Gravity
                }
            },
            None => {
                self.phase = Phase::Falling;
                Delay::Gravity
            },
        }
    }

    /// Step one column toward the target column, if that column is free;
    /// returns the piece's column.
    fn slide_toward_target(&mut self, cells: &[(i8, i8)], color: u8, x: i8, y: i8, rot: usize) -> (nx: i8)
        requires
            board_ok(old(self)@),
            footprint_ok(cells@),
            0 <= x <= 127,
            0 <= y <= 127,
            0 <= old(self)@.target_x <= 127,
        ensures
            nx == slid_x(old(self)@, cells@, x as int, y as int),
            final(self)@ == if nx != x {
                TetrisModel { active: Some((cells@, color, nx, y, rot)), ..old(self)@ }
            } else {
                old(self)@
            },
            0 <= nx <= 127,
            nx != x ==> placeable(
                old(self)@.board,
                old(self)@.cols as int,
                old(self)@.rows as int,
                cells@,
                nx as int,
                y as int,
            ),
    {
        proof {
            lemma_small(cells@);
        }
        let w = shape_width(cells);
        let ci = self.cols as i8;
        let max_x: i8 = if ci - w > 0 {
            ci - w
        } else {
            0
        };
        let want = clamp_i8(self.target_x, 0, max_x);
        if want == x {
            return x;
        }
        let step: i8 = if want > x {
            1
        } else {
            -1
        };
        let nx = clamp_i8(x + step, 0, max_x);
        if nx != x && !self.collides(cells, nx, y) {
            self.active = Some((copy_cells(cells), color, nx, y, rot));
            return nx;
        }
        x
    }

    /// One gravity step.
    fn gravity(&mut self) -> (d: Delay)
        requires
            old(self).wf(),
            old(self)@.phase == Phase::Falling,
        ensures
            (final(self)@, d) == after_gravity(old(self)@),
            final(self).wf(),
    {
        let ghost m = self@;
        let (cells, color, x0, y, rot) = match self.active() {
            Some(a) => a,
            None => {
                self.spawn();
                return Delay::SpawnHold;
            },
        };
        proof {
            lemma_small(cells@);
        }
        let x = self.slide_toward_target(&cells, color, x0, y, rot);
        proof {
            lemma_moved_wf(m, cells@, color, x0, y, rot, x as int, y as int);
        }
        if y > 0 && !self.collides(&cells, x, y - 1) {
            proof {
                lemma_moved_wf(m, cells@, color, x0, y, rot, x as int, y - 1);
            }
            self.active = Some((cells, color, x, y - 1, rot));
            return Delay::Gravity;
        }
        let ghost m2 = self@;
        let d = self.settle(&cells, color, x, y, rot);
        proof {
            assert(landed(m2, cells@, color, x as int, y as int) == landed(
                m,
                cells@,
                color,
                x as int,
                y as int,
            ));
        }
        d
    }

    /// Lock the resting piece; flash the rows it completes, or bring in the
    /// next piece when it completes none.
    fn settle(&mut self, cells: &[(i8, i8)], color: u8, x: i8, y: i8, rot: usize) -> (d: Delay)
        requires
            old(self).wf(),
            old(self)@.phase == Phase::Falling,
            old(self)@.active == Some((cells@, color, x, y, rot)),
        ensures
            (final(self)@, d) == landed(old(self)@, cells@, color, x as int, y as int),
            final(self).wf(),
    {
        let ghost m = self@;
        proof {
            lemma_small(cells@);
        }
        let completed = self.completed_rows(cells, x, y);
        proof {
            lemma_landed(m, cells@, color, x as int, y as int, rot);
        }
        self.lock_piece(cells, color, x, y);
        if completed.len() > 0 {
            self.clearing_rows = completed;
            self.phase = Phase::Clearing;
            self.blink = true;
            return Delay::ClearFlash;
        }
        self.spawn();
        Delay::SpawnHold
    }

    /// Remove the flashed rows, then bring in the next piece.
    fn finish_clear(&mut self)
        requires
            old(self).wf(),
            old(self)@.phase == Phase::Clearing,
        ensures
            final(self)@ == after_clear(old(self)@),
            final(self).wf(),
    {
        let ghost m = self@;
        let ghost b = m.board;
        let mut nb: Vec<Vec<Option<u8>>> = Vec::new();
        let mut gone: u32 = 0;
        let mut r: usize = 0;
        while r < self.rows
            invariant
                m == self@,
                b == m.board,
                tetris_wf(m),
                r <= self.rows,
                grid_of(&nb) == surviving_upto(b, m.clearing_rows, r as nat),
                gone == removed_count(b, m.clearing_rows, r as nat),
                gone <= r,
            decreases self.rows - r,
        {
            proof {
                lemma_surviving(b, m.clearing_rows, (r + 1) as nat);
                lemma_surviving(b, m.clearing_rows, r as nat);
            }
            assert(b[r as int] == self.board@[r as int]@);
            if holds(&self.clearing_rows, r) && row_full(&self.board[r]) {
                gone = gone + 1;
            } else {
                let row = self.board[r].clone();
                assert(row@ =~= b[r as int]);
                let ghost prev = grid_of(&nb);
                nb.push(row);
                assert(grid_of(&nb) =~= prev.push(b[r as int]));
            }
            r = r + 1;
        }
        let ghost kept = grid_of(&nb);
        proof {
            lemma_surviving(b, m.clearing_rows, m.rows as nat);
        }
        while nb.len() < self.rows
            invariant
                m == self@,
                kept == surviving_upto(b, m.clearing_rows, m.rows as nat),
                kept.len() <= nb@.len() <= self.rows,
                grid_of(&nb) == kept + Seq::new(
                    (nb@.len() - kept.len()) as nat,
                    |i: int| crate::stack::empty_row(m.cols as int),
                ),
            decreases self.rows - nb@.len(),
        {
            let ghost prev = grid_of(&nb);
            nb.push(empty_row_vec(self.cols));
            assert(grid_of(&nb) =~= prev.push(crate::stack::empty_row(m.cols as int)));
            assert(grid_of(&nb) =~= kept + Seq::new(
                (nb@.len() - kept.len()) as nat,
                |i: int| crate::stack::empty_row(m.cols as int),
            ));
        }
        proof {
            lemma_cleared(b, m.cols as int, m.rows as int, m.clearing_rows);
        }
        self.board = nb;
        self.lines_cleared = self.lines_cleared.saturating_add(gone);
        self.clearing_rows = Vec::new();
        assert(self@.clearing_rows =~= Seq::<usize>::empty());
        self.spawn();
    }

    /// Perform the action due in the current phase (a quarter turn, a gravity
    /// step, or the end of a flash) and say how long to wait before the next.
    pub fn tick(&mut self) -> (d: Delay)
        requires
            old(self).wf(),
        ensures
            final(self).wf(),
            (final(self)@, d) == ticked(old(self)@),
    {
        match self.phase {
            Phase::Rotating => self.rotate_once(),
            Phase::Falling => self.gravity(),
            Phase::Clearing => {
                self.finish_clear();
                Delay::SpawnHold
            },
        }
    }
}


/// The rows below `n` that the piece `c` at row `y` occupies, bottom first.
pub open spec fn piece_rows_upto(c: Seq<(i8, i8)>, y: int, n: nat) -> Seq<usize>
    decreases n,
{
    if n == 0 {
        Seq::empty()
    } else {
        let prev = piece_rows_upto(c, y, (n - 1) as nat);
        if exists|i: int| 0 <= i < c.len() && y + (#[trigger] c[i]).1 == n - 1 {
            prev.push((n - 1) as usize)
        } else {
            prev
        }
    }
}

/// The rows the active piece occupies, bottom first; none without a piece.
pub open spec fn active_rows_of(m: TetrisModel) -> Seq<usize> {
    match m.active {
        Some(a) => piece_rows_upto(a.0, a.3 as int, m.rows as nat),
        None => Seq::empty(),
    }
}

impl TetrisGame {
    /// Palette index for a panel cell; `row` is vertical, `col` is the lane.
    /// Only the rows that completed flash; the falling piece keeps its own
    /// colour. Every index returned is a colour of the panel palette.
    pub fn cell(&self, row: usize, col: usize) -> (c: Option<u8>)
        requires
            self.wf(),
        ensures
            c == tetris_cell(self@, row as int, col as int),
            c matches Some(v) ==> v <= PAL_CLEAR_B,
    {
        if row >= self.rows || col >= self.cols {
            return None;
        }
        if self.is_flashing() && holds(&self.clearing_rows, row) {
            return Some(
                if self.blink {
                    PAL_CLEAR_A
                } else {
                    PAL_CLEAR_B
                },
            );
        }
        match &self.active {
            Some(a) => {
                proof {
                    lemma_small(a.0@);
                }
                if piece_covers(a.0.as_slice(), a.2, a.3, row as i8, col as i8) {
                    return Some(a.1);
                }
            },
            None => {},
        }
        assert(self@.board[row as int] == self.board@[row as int]@);
        self.board[row][col]
    }

    /// True while completed rows are flashing.
    pub fn is_flashing(&self) -> (f: bool)
        ensures
            f == (self@.phase == Phase::Clearing),
    {
        self.phase == Phase::Clearing
    }

    /// Choose which of the two flash colours completed rows show.
    pub fn set_blink(&mut self, on: bool)
        requires
            old(self).wf(),
        ensures
            final(self)@ == (TetrisModel { blink: on, ..old(self)@ }),
            final(self).wf(),
    {
        self.blink = on;
    }

    /// What the active piece is doing.
    pub fn phase(&self) -> (p: Phase)
        ensures
            p == self@.phase,
    {
        self.phase
    }

    /// The orientation the piece is turning toward, in quarter turns.
    pub fn target_rot(&self) -> (t: usize)
        ensures
            t == self@.target_rot,
    {
        self.target_rot
    }

    /// The column the piece is steering toward.
    pub fn target_x(&self) -> (t: i8)
        ensures
            t == self@.target_x,
    {
        self.target_x
    }

    /// Rows removed so far.
    pub fn lines_cleared(&self) -> (n: u32)
        ensures
            n == self@.lines_cleared,
    {
        self.lines_cleared
    }

    /// The rows flashing now, bottom first.
    pub fn clearing_rows(&self) -> (r: Vec<usize>)
        ensures
            r@ == self@.clearing_rows,
    {
        let mut r: Vec<usize> = Vec::new();
        let mut i: usize = 0;
        while i < self.clearing_rows.len()
            invariant
                i <= self.clearing_rows@.len(),
                r@ == self.clearing_rows@.subrange(0, i as int),
            decreases self.clearing_rows@.len() - i,
        {
            r.push(self.clearing_rows[i]);
            i = i + 1;
        }
        assert(self.clearing_rows@.subrange(0, self.clearing_rows@.len() as int) =~= self.clearing_rows@);
        r
    }

    /// A copy of the settled cells, `board[row][col]` with row 0 at the bottom.
    pub fn board(&self) -> (b: Vec<Vec<Option<u8>>>)
        ensures
            grid_of(&b) == self@.board,
    {
        let mut b: Vec<Vec<Option<u8>>> = Vec::new();
        let mut r: usize = 0;
        while r < self.board.len()
            invariant
                r <= self.board@.len(),
                grid_of(&b) == self@.board.subrange(0, r as int),
            decreases self.board@.len() - r,
        {
            let row = self.board[r].clone();
            assert(row@ =~= self.board@[r as int]@);
            let ghost prev = grid_of(&b);
            b.push(row);
            assert(grid_of(&b) =~= prev.push(self@.board[r as int]));
            r = r + 1;
            assert(grid_of(&b) =~= self@.board.subrange(0, r as int));
        }
        assert(self@.board.subrange(0, self.board@.len() as int) =~= self@.board);
        b
    }

    /// The rows the active piece occupies, bottom first.
    pub fn active_rows(&self) -> (r: Vec<usize>)
        requires
            self.wf(),
        ensures
            r@ == active_rows_of(self@),
    {
        let mut out: Vec<usize> = Vec::new();
        match &self.active {
            Some(a) => {
                let ghost c = a.0@;
                proof {
                    lemma_small(c);
                }
                let mut row: usize = 0;
                while row < self.rows
                    invariant
                        c == a.0@,
                        small_cells(c),
                        0 <= a.3 <= 127,
                        self.rows <= 127,
                        row <= self.rows,
                        out@ == piece_rows_upto(c, a.3 as int, row as nat),
                    decreases self.rows - row,
                {
                    let mut hit = false;
                    let mut i: usize = 0;
                    while i < a.0.len()
                        invariant
                            c == a.0@,
                            small_cells(c),
                            0 <= a.3 <= 127,
                    row < self.rows,
                            self.rows <= 127,
                            i <= c.len(),
                            hit == exists|k: int| 0 <= k < i && a.3 + (#[trigger] c[k]).1 == row,
                        decreases c.len() - i,
                    {
                        if a.3 as i16 + a.0[i].1 as i16 == row as i16 {
                            hit = true;
                        }
                        i = i + 1;
                    }
                    if hit {
                        out.push(row);
                    }
                    row = row + 1;
                }
            },
            None => {},
        }
        out
    }
}


/// The active piece of `m` covers (row, col).
pub open spec fn active_covers(m: TetrisModel, row: int, col: int) -> bool {
    match m.active {
        Some(a) => covers(a.0, a.2 as int, a.3 as int, row, col),
        None => false,
    }
}

impl TetrisGame {
    /// Set one settled cell. Refused (returning false, changing nothing) off
    /// the board, during a flash, for a value that is not a tetromino colour,
    /// or for a filled cell under the active piece.
    pub fn set_cell(&mut self, row: usize, col: usize, v: Option<u8>) -> (done: bool)
        requires
            old(self).wf(),
        ensures
            final(self).wf(),
            done == (row < old(self)@.rows && col < old(self)@.cols && old(self)@.phase
                != Phase::Clearing && (v matches Some(k) ==> piece_color(k) && !active_covers(
                old(self)@,
                row as int,
                col as int,
            ))),
            done ==> final(self)@ == (TetrisModel {
                board: old(self)@.board.update(row as int, old(self)@.board[row as int].update(col as int, v)),
                ..old(self)@
            }),
            !done ==> final(self)@ == old(self)@,
    {
        if row >= self.rows || col >= self.cols || self.phase == Phase::Clearing {
            return false;
        }
        match v {
            Some(k) => {
                if k < PAL_PIECE_BASE || k >= PAL_PIECE_BASE + 7 {
                    return false;
                }
                match &self.active {
                    Some(a) => {
                        proof {
                            lemma_small(a.0@);
                        }
                        if piece_covers(a.0.as_slice(), a.2, a.3, row as i8, col as i8) {
                            return false;
                        }
                    },
                    None => {},
                }
            },
            None => {},
        }
        let ghost m = self@;
        let ghost before_rows = self.board@;
        assert(m.board[row as int] == self.board@[row as int]@);
        self.board[row][col] = v;
        proof {
            let want = m.board.update(row as int, m.board[row as int].update(col as int, v));
            assert(self.board@ == before_rows.update(row as int, self.board@[row as int]));
            assert forall|r: int| 0 <= r < self.board@.len() implies #[trigger] self@.board[r] =~= want[r] by {
                assert(self@.board[r] == self.board@[r]@);
            }
            assert(self@.board =~= want);
            match m.active {
                Some(a) => {
                    assert forall|i: int| 0 <= i < a.0.len() implies {
                        let px = a.2 + (#[trigger] a.0[i]).0;
                        let py = a.3 + a.0[i].1;
                        &&& 0 <= px < m.cols
                        &&& 0 <= py < m.rows
                        &&& want[py][px] is None
                    } by {
                        if v is Some {
                            let px = a.2 + a.0[i].0;
                            let py = a.3 + a.0[i].1;
                            if px == col && py == row {
                                assert(covers(a.0, a.2 as int, a.3 as int, row as int, col as int));
                            }
                        }
                    }
                },
                None => {},
            }
        }
        true
    }

    /// Put tetromino `idx` in its spawn orientation at (x, y) as the active
    /// piece, aiming for `target_rot` quarter turns. Refused (returning
    /// false, changing nothing) for an unknown shape or turn count, during a
    /// flash, or where the piece does not fit.
    pub fn place_piece(&mut self, idx: usize, x: i8, y: i8, target_rot: usize) -> (done: bool)
        requires
            old(self).wf(),
        ensures
            final(self).wf(),
            done == (idx < SHAPE_COUNT && target_rot <= 3 && old(self)@.phase != Phase::Clearing && 0
                <= x <= 127 && 0 <= y <= 127 && placeable(
                old(self)@.board,
                old(self)@.cols as int,
                old(self)@.rows as int,
                shape_spec(idx as int),
                x as int,
                y as int,
            )),
            done ==> final(self)@ == (TetrisModel {
                active: Some((shape_spec(idx as int), (PAL_PIECE_BASE + idx) as u8, x, y, 0usize)),
                target_rot,
                phase: if target_rot == 0 {
                    Phase::Falling
                } else {
                    Phase::Rotating
                },
                ..old(self)@
            }),
            !done ==> final(self)@ == old(self)@,
    {
        if idx >= SHAPE_COUNT || target_rot > 3 || self.phase == Phase::Clearing || x < 0 || x > 127
            || y < 0 || y > 127 {
            return false;
        }
        let cells = shape(idx);
        proof {
            lemma_spawn_footprint(idx as int);
            lemma_small(cells@);
        }
        if self.collides(&cells, x, y) {
            return false;
        }
        self.active = Some((cells, PAL_PIECE_BASE + idx as u8, x, y, 0));
        self.target_rot = target_rot;
        self.phase = if target_rot == 0 {
            Phase::Falling
        } else {
            Phase::Rotating
        };
        true
    }
}


/// Removing the marked rows of a well-formed flash, row by row: the rows
/// removed below `n` are the first `j` marked rows, which are exactly the
/// marked rows below `n`.
proof fn lemma_removed_prefix(b: Seq<Seq<Option<u8>>>, marked: Seq<usize>, n: nat) -> (j: nat)
    requires
        forall|i: int| 0 <= i < marked.len() ==> row_filled(b[(#[trigger] marked[i]) as int]),
        forall|i: int, k: int| 0 <= i < k < marked.len() ==> #[trigger] marked[i] < #[trigger] marked[k],
        n <= usize::MAX,
    ensures
        j <= marked.len(),
        removed_count(b, marked, n) == j,
        forall|i: int| 0 <= i < j ==> #[trigger] marked[i] < n,
        forall|i: int| j <= i < marked.len() ==> #[trigger] marked[i] >= n,
    decreases n,
{
    if n == 0 {
        0
    } else {
        let j0 = lemma_removed_prefix(b, marked, (n - 1) as nat);
        if j0 < marked.len() && marked[j0 as int] == n - 1 {
            assert(marked.contains((n - 1) as usize));
            assert(forall|i: int| j0 < i < marked.len() ==> marked[j0 as int] < #[trigger] marked[i]);
            j0 + 1
        } else {
            assert(!marked.contains((n - 1) as usize)) by {
                if marked.contains((n - 1) as usize) {
                    let i = choose|i: int| 0 <= i < marked.len() && marked[i] == (n - 1) as usize;
                    if i >= j0 && i > j0 {
                        assert(marked[j0 as int] < marked[i]);
                    }
                }
            }
            assert forall|i: int| j0 <= i < marked.len() implies #[trigger] marked[i] >= n by {
                if i > j0 {
                    assert(marked[j0 as int] < marked[i]);
                }
            }
            j0
        }
    }
}

/// The end of a flash removes exactly the flashing rows: a row is removed
/// if and only if it was flashing, and as many rows are removed as were
/// flashing.
pub proof fn lemma_clear_removes_flashing_rows(m: TetrisModel)
    requires
        tetris_wf(m),
        m.phase == Phase::Clearing,
    ensures
        removed_count(m.board, m.clearing_rows, m.rows as nat) == m.clearing_rows.len(),
        forall|r: int|
            0 <= r < m.rows ==> (removed(m.board, m.clearing_rows, r) <==> m.clearing_rows.contains(
                r as usize,
            )),
{
    let j = lemma_removed_prefix(m.board, m.clearing_rows, m.rows as nat);
    if j < m.clearing_rows.len() {
        assert(m.clearing_rows[j as int] < m.rows);
    }
    assert forall|r: int| 0 <= r < m.rows implies (removed(m.board, m.clearing_rows, r)
        <==> m.clearing_rows.contains(r as usize)) by {
        if m.clearing_rows.contains(r as usize) {
            let i = choose|i: int| 0 <= i < m.clearing_rows.len() && m.clearing_rows[i] == r as usize;
            assert(row_filled(m.board[m.clearing_rows[i] as int]));
        }
    }
}

/// The line count never goes down: a step that ends no flash leaves it as it
/// was, and the end of a flash adds exactly as many lines as rows flashed
/// (stopping at `u32::MAX`).
pub proof fn lemma_line_count_grows_by_cleared_rows(m: TetrisModel)
    requires
        tetris_wf(m),
    ensures
        ticked(m).0.lines_cleared >= m.lines_cleared,
        m.phase != Phase::Clearing ==> ticked(m).0.lines_cleared == m.lines_cleared,
        m.phase == Phase::Clearing ==> ticked(m).0.lines_cleared == if m.lines_cleared
            + m.clearing_rows.len() > u32::MAX {
            u32::MAX as int
        } else {
            m.lines_cleared + m.clearing_rows.len()
        },
{
    assert forall|k: TetrisModel| #[trigger] spawned(k).lines_cleared == k.lines_cleared by {
        lemma_rerolled_keeps(k, SPAWN_REDRAWS as nat);
    }
    if m.phase == Phase::Clearing {
        lemma_clear_removes_flashing_rows(m);
    }
}

/// In every well-formed game, which `new` starts and `tick` keeps, the board
/// is `rows` rows of `cols` cells, and the falling piece lies inside the board
/// on empty cells only.
pub proof fn lemma_piece_on_free_cells(m: TetrisModel)
    requires
        tetris_wf(m),
    ensures
        m.board.len() == m.rows,
        forall|r: int| 0 <= r < m.rows ==> #[trigger] m.board[r].len() == m.cols,
        m.active matches Some(a) ==> forall|i: int|
            0 <= i < a.0.len() ==> {
                let px = a.2 + (#[trigger] a.0[i]).0;
                let py = a.3 + a.0[i].1;
                &&& 0 <= px < m.cols
                &&& 0 <= py < m.rows
                &&& m.board[py][px] is None
            },
{
}

/// A well-formed game shows nothing outside its board, and inside it only
/// tetromino colours and the two flash colours.
pub proof fn lemma_cells_are_palette_colours(m: TetrisModel, row: int, col: int)
    requires
        tetris_wf(m),
    ensures
        (row < 0 || row >= m.rows || col < 0 || col >= m.cols) ==> tetris_cell(m, row, col) is None,
        tetris_cell(m, row, col) matches Some(i) ==> PAL_PIECE_BASE <= i <= PAL_CLEAR_B,
{
    if 0 <= row < m.rows && 0 <= col < m.cols {
        if let Some(a) = m.active {
            if covers(a.0, a.2 as int, a.3 as int, row, col) {
                assert(piece_color(a.1));
            }
        }
    }
}

/// While rows flash, exactly those rows show the flash colours; a piece or
/// a settled cell never does.
pub proof fn lemma_only_flashing_rows_blink(m: TetrisModel, row: int, col: int)
    requires
        tetris_wf(m),
        0 <= row < m.rows,
        0 <= col < m.cols,
    ensures
        (tetris_cell(m, row, col) == Some(PAL_CLEAR_A) || tetris_cell(m, row, col) == Some(PAL_CLEAR_B))
            <==> (m.phase == Phase::Clearing && m.clearing_rows.contains(row as usize)),
{
}

/// The slide before a gravity step moves a piece lying on the board at most
/// one column, and never away from the column it aims for.
proof fn lemma_slide_toward(m: TetrisModel, c: Seq<(i8, i8)>, x: int, y: int)
    requires
        footprint_ok(c),
        0 <= x,
        placeable(m.board, m.cols as int, m.rows as int, c, x, y),
    ensures
        ({
            let want = clamp(m.target_x as int, 0, max_col(m.cols as int, c));
            let nx = slid_x(m, c, x, y);
            &&& abs(nx - want) <= abs(x - want)
            &&& abs(nx - x) <= 1
        }),
{
    lemma_footprint(c);
    crate::shapes::lemma_seq_max(crate::shapes::xs(c));
    let k = choose|i: int| 0 <= i < crate::shapes::xs(c).len() && crate::shapes::xs(c)[i] == crate::shapes::seq_max(crate::shapes::xs(c));
    assert(crate::shapes::xs(c)[k] == c[k].0);
    assert(x + c[k].0 < m.cols);
}

/// What a gravity step does with the active piece: it falls exactly one row,
/// or it lands.
proof fn lemma_gravity_outcome(m: TetrisModel, c: Seq<(i8, i8)>, color: u8, x: i8, y: i8, rot: usize)
    requires
        m.phase == Phase::Falling,
        m.active == Some((c, color, x, y, rot)),
    ensures
        ({
            let nx = slid_x(m, c, x as int, y as int);
            &&& ticked(m).1 == Delay::Gravity ==> ticked(m).0.active == Some(
                (c, color, nx as i8, (y - 1) as i8, rot),
            )
            &&& ticked(m).1 != Delay::Gravity ==> ticked(m) == landed(m, c, color, nx, y as int)
        }),
{
    let nx = slid_x(m, c, x as int, y as int);
    assert(ticked(m) == after_gravity(m));
    if !(y > 0 && placeable(m.board, m.cols as int, m.rows as int, c, nx, y - 1)) {
        assert(after_gravity(m) == landed(m, c, color, nx, y as int));
        let done = completed_upto(m.board, m.cols as int, c, nx, y as int, m.rows as nat);
        if done.len() > 0 {
            assert(landed(m, c, color, nx, y as int).1 == Delay::ClearFlash);
        } else {
            assert(landed(m, c, color, nx, y as int).1 == Delay::SpawnHold);
        }
    }
}

/// A gravity step moves the piece at most one column, never away from the
/// column it aims for, and then either exactly one row down or not at all,
/// in which case it lands.
pub proof fn lemma_gravity_step(m: TetrisModel, c: Seq<(i8, i8)>, color: u8, x: i8, y: i8, rot: usize)
    requires
        tetris_wf(m),
        m.phase == Phase::Falling,
        m.active == Some((c, color, x, y, rot)),
    ensures
        ({
            let want = clamp(m.target_x as int, 0, max_col(m.cols as int, c));
            let nx = slid_x(m, c, x as int, y as int);
            &&& abs(nx - want) <= abs(x - want)
            &&& abs(nx - x) <= 1
            &&& ticked(m).1 == Delay::Gravity ==> ticked(m).0.active == Some(
                (c, color, nx as i8, (y - 1) as i8, rot),
            )
            &&& ticked(m).1 != Delay::Gravity ==> ticked(m) == landed(m, c, color, nx, y as int)
        }),
{
    lemma_slide_toward(m, c, x as int, y as int);
    lemma_gravity_outcome(m, c, color, x, y, rot);
}

} // verus!
