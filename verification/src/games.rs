//! The two self-playing games behind one interface, the palette their cells
//! are drawn in, and the container the engine owns.
//!
//! A game's frame is exposed through the [`Board`] trait, which lets the engine
//! publish a live preview through the same palette the LEDs use.

use vstd::prelude::*;
use crate::openrgb::RgbColor;
use crate::floodfill::in_board;
use crate::snake::{
    PAL_BODY, PAL_FOOD, PAL_HEAD, SnakeGame, SnakeModel, fresh_snake, lemma_head_body_and_food_shown, model_wf,
    restarted, snake_cell,
};
use crate::tetris::{
    PAL_CLEAR_A,
    PAL_CLEAR_B,
    PAL_PIECE_BASE,
    Phase,
    TetrisGame,
    fresh_tetris,
    spawned,
    tetris_cell,
};

verus! {

/// Highest palette index a game cell can hold.
pub const PAL_MAX: u8 = PAL_CLEAR_B;

/// A channel blended three quarters of the way toward white.
pub open spec fn whiten(v: u8) -> u8 {
    ((v + 765) / 4) as u8
}

/// The colour of palette index `idx`: the snake body in the accent colour,
/// its head in the accent blended toward white, red food, one colour per
/// tetromino, and the two flash colours of a completed row.
pub open spec fn palette(idx: u8, accent: RgbColor) -> RgbColor {
    if idx == PAL_HEAD {
        RgbColor { r: whiten(accent.r), g: whiten(accent.g), b: whiten(accent.b) }
    } else if idx == PAL_FOOD {
        RgbColor { r: 255, g: 60, b: 60 }
    } else if idx == PAL_PIECE_BASE {
        RgbColor { r: 0, g: 220, b: 255 }
    } else if idx == PAL_PIECE_BASE + 1 {
        RgbColor { r: 255, g: 220, b: 0 }
    } else if idx == PAL_PIECE_BASE + 2 {
        RgbColor { r: 170, g: 0, b: 255 }
    } else if idx == PAL_PIECE_BASE + 3 {
        RgbColor { r: 0, g: 220, b: 80 }
    } else if idx == PAL_PIECE_BASE + 4 {
        RgbColor { r: 255, g: 40, b: 60 }
    } else if idx == PAL_PIECE_BASE + 5 {
        RgbColor { r: 60, g: 90, b: 255 }
    } else if idx == PAL_PIECE_BASE + 6 {
        RgbColor { r: 255, g: 140, b: 0 }
    } else if idx == PAL_CLEAR_A {
        RgbColor { r: 255, g: 255, b: 255 }
    } else if idx == PAL_CLEAR_B {
        RgbColor { r: 255, g: 60, b: 60 }
    } else {
        accent
    }
}

/// A channel blended three quarters of the way toward white.
fn whiten_channel(v: u8) -> (w: u8)
    ensures
        w == whiten(v),
{
    ((v as u16 + 765) / 4) as u8
}

/// Map a palette index to a colour, using the user's accent for the snake.
pub fn game_color(idx: u8, accent: RgbColor) -> (c: RgbColor)
    ensures
        c == palette(idx, accent),
{
    if idx == PAL_HEAD {
        RgbColor::new(whiten_channel(accent.r), whiten_channel(accent.g), whiten_channel(accent.b))
    } else if idx == PAL_FOOD {
        RgbColor::new(255, 60, 60)
    } else if idx == PAL_PIECE_BASE {
        RgbColor::new(0, 220, 255)
    } else if idx == PAL_PIECE_BASE + 1 {
        RgbColor::new(255, 220, 0)
    } else if idx == PAL_PIECE_BASE + 2 {
        RgbColor::new(170, 0, 255)
    } else if idx == PAL_PIECE_BASE + 3 {
        RgbColor::new(0, 220, 80)
    } else if idx == PAL_PIECE_BASE + 4 {
        RgbColor::new(255, 40, 60)
    } else if idx == PAL_PIECE_BASE + 5 {
        RgbColor::new(60, 90, 255)
    } else if idx == PAL_PIECE_BASE + 6 {
        RgbColor::new(255, 140, 0)
    } else if idx == PAL_CLEAR_A {
        RgbColor::new(255, 255, 255)
    } else if idx == PAL_CLEAR_B {
        RgbColor::new(255, 60, 60)
    } else {
        accent
    }
}

/// Which game a snapshot came from, so the UI can discard a frame from the
/// other game.
#[derive(Clone, Copy, PartialEq, Eq, Structural, Debug)]
pub enum GameKind {
    Snake,
    Tetris,
}

/// One frame of a game, in palette indices, for the UI preview.
///
/// Cell order is lane-major: the outer vector is the lane, the inner one the
/// row running up the fan.
pub struct GameSnapshot {
    /// Which game produced this frame.
    pub game: GameKind,
    /// `lanes` entries, each `rows` long. `None` is an unlit cell.
    pub lanes: Vec<Vec<Option<u8>>>,
    /// Completed lines so far; always 0 for snake.
    pub cleared: u32,
    /// True while a completed line is flashing.
    pub flashing: bool,
    /// Rows currently flashing; empty unless `flashing`.
    pub clearing_rows: Vec<usize>,
}

/// The lanes of a snapshot, each by its view.
pub open spec fn lanes_of(s: &GameSnapshot) -> Seq<Seq<Option<u8>>> {
    Seq::new(s.lanes@.len(), |c: int| s.lanes@[c]@)
}

/// Uniform view over the two games, so the engine can render and publish
/// either one the same way.
pub trait Board {
    /// The game is in a state its operations accept.
    spec fn ready(&self) -> bool;

    /// Palette index shown at (row, col).
    spec fn shown(&self, row: int, col: int) -> Option<u8>;

    /// Board shape as (lanes, rows).
    spec fn shape(&self) -> (usize, usize);

    /// Palette index for a panel cell: `row` is vertical, `col` is the lane.
    fn cell(&self, row: usize, col: usize) -> (c: Option<u8>)
        requires
            self.ready(),
        ensures
            c == self.shown(row as int, col as int),
    ;

    /// Board shape as (lanes, rows).
    fn dims(&self) -> (d: (usize, usize))
        ensures
            d == self.shape(),
    ;

    /// Every cell of a board, lane-major.
    fn frame(&self) -> (out: Vec<Vec<Option<u8>>>)
        requires
            self.ready(),
        ensures
            Seq::new(out@.len(), |c: int| out@[c]@) == Seq::new(
                self.shape().0 as nat,
                |c: int| Seq::new(self.shape().1 as nat, |r: int| self.shown(r, c)),
            ),
    {
        let (lanes, rows) = self.dims();
        let ghost want = Seq::new(
            lanes as nat,
            |c: int| Seq::new(rows as nat, |r: int| self.shown(r, c)),
        );
        let mut out: Vec<Vec<Option<u8>>> = Vec::new();
        let mut c: usize = 0;
        while c < lanes
            invariant
                self.ready(),
                (lanes, rows) == self.shape(),
                want == Seq::new(lanes as nat, |c: int| Seq::new(rows as nat, |r: int| self.shown(r, c))),
                c <= lanes,
                Seq::new(out@.len(), |k: int| out@[k]@) == want.subrange(0, c as int),
            decreases lanes - c,
        {
            let mut column: Vec<Option<u8>> = Vec::new();
            let mut r: usize = 0;
            while r < rows
                invariant
                    self.ready(),
                    (lanes, rows) == self.shape(),
                    c < lanes,
                    r <= rows,
                    column@ == Seq::new(r as nat, |k: int| self.shown(k, c as int)),
                decreases rows - r,
            {
                column.push(self.cell(r, c));
                r = r + 1;
                assert(column@ =~= Seq::new(r as nat, |k: int| self.shown(k, c as int)));
            }
            let ghost prev = Seq::new(out@.len(), |k: int| out@[k]@);
            out.push(column);
            c = c + 1;
            assert(Seq::new(out@.len(), |k: int| out@[k]@) =~= prev.push(want[c - 1]));
            assert(Seq::new(out@.len(), |k: int| out@[k]@) =~= want.subrange(0, c as int));
        }
        assert(want.subrange(0, lanes as int) =~= want);
        out
    }

    /// Snapshot the current frame as lane-major palette indices.
    fn snapshot(&self) -> (s: GameSnapshot)
        requires
            self.ready(),
        ensures
            lanes_of(&s) == Seq::new(
                self.shape().0 as nat,
                |c: int| Seq::new(self.shape().1 as nat, |r: int| self.shown(r, c)),
            ),
        default_ensures
            s.game == GameKind::Snake,
            s.cleared == 0,
            !s.flashing,
            s.clearing_rows@.len() == 0,
    {
        GameSnapshot {
            game: GameKind::Snake,
            lanes: self.frame(),
            cleared: 0,
            flashing: false,
            clearing_rows: Vec::new(),
        }
    }
}

impl Board for SnakeGame {
    open spec fn ready(&self) -> bool {
        self.wf()
    }

    open spec fn shown(&self, row: int, col: int) -> Option<u8> {
        snake_cell(self@, row, col)
    }

    open spec fn shape(&self) -> (usize, usize) {
        (self@.cols, self@.rows)
    }

    fn cell(&self, row: usize, col: usize) -> (c: Option<u8>) {
        SnakeGame::cell(self, row, col)
    }

    fn dims(&self) -> (d: (usize, usize)) {
        SnakeGame::dims(self)
    }
}

impl Board for TetrisGame {
    open spec fn ready(&self) -> bool {
        self.wf()
    }

    open spec fn shown(&self, row: int, col: int) -> Option<u8> {
        tetris_cell(self@, row, col)
    }

    open spec fn shape(&self) -> (usize, usize) {
        (self@.cols, self@.rows)
    }

    fn cell(&self, row: usize, col: usize) -> (c: Option<u8>) {
        TetrisGame::cell(self, row, col)
    }

    fn dims(&self) -> (d: (usize, usize)) {
        TetrisGame::dims(self)
    }

    /// The frame, tagged as Tetris, with the line count, whether a line is
    /// flashing, and exactly the rows that are.
    fn snapshot(&self) -> (s: GameSnapshot)
        ensures
            s.game == GameKind::Tetris,
            s.cleared == self@.lines_cleared,
            s.flashing == (self@.phase == Phase::Clearing),
            s.clearing_rows@ == self@.clearing_rows,
    {
        GameSnapshot {
            game: GameKind::Tetris,
            lanes: self.frame(),
            cleared: self.lines_cleared(),
            flashing: self.is_flashing(),
            clearing_rows: self.clearing_rows(),
        }
    }
}

/// The frame of a well-formed snake on a board at least three rows tall, as
/// its snapshot gives it lane by lane, lights at least three different cells:
/// the food, the head and the tail end of the body.
pub proof fn lemma_snake_frame_lights_three(m: SnakeModel)
    requires
        model_wf(m),
        m.rows >= 3,
    ensures
        ({
            let f = Seq::new(m.cols as nat, |c: int| Seq::new(m.rows as nat, |r: int| snake_cell(m, r, c)));
            let h = m.body.last();
            let t = m.body[0];
            &&& f[m.food.0 as int][m.food.1 as int] == Some(PAL_FOOD)
            &&& f[h.0 as int][h.1 as int] == Some(PAL_HEAD)
            &&& f[t.0 as int][t.1 as int] == Some(PAL_BODY)
            &&& h != t
            &&& h != m.food
            &&& t != m.food
        }),
{
    lemma_head_body_and_food_shown(m);
    let n = m.body.len();
    assert(m.body.last() == m.body[n - 1]);
    assert(in_board(m.body[n - 1].0 as int, m.body[n - 1].1 as int, m.cols as int, m.rows as int));
    assert(in_board(m.body[0].0 as int, m.body[0].1 as int, m.cols as int, m.rows as int));
}

/// Both games, so the engine owns a single piece of game state.
pub struct Games {
    pub snake: SnakeGame,
    pub tetris: TetrisGame,
}

impl Games {
    /// Both games are well formed.
    pub open spec fn wf(&self) -> bool {
        self.snake.wf() && self.tetris.wf()
    }

    /// Fresh games on a board `lanes` columns wide and `leds_per_lane` rows
    /// tall. The board must hold some tetromino (four rows for the upright I,
    /// or two rows and two lanes for the O) and stay within `i8` coordinates
    /// (127).
    pub fn new(lanes: usize, leds_per_lane: usize) -> (g: Games)
        requires
            1 <= lanes <= 127,
            2 <= leds_per_lane <= 127,
            2 <= lanes || 4 <= leds_per_lane,
        ensures
            g.wf(),
            g.snake@ == restarted(fresh_snake(lanes, leds_per_lane)),
            g.tetris@ == spawned(fresh_tetris(lanes, leds_per_lane)),
            g.snake@.cols == lanes && g.snake@.rows == leds_per_lane,
            g.tetris@.cols == lanes && g.tetris@.rows == leds_per_lane,
    {
        assert(lanes * leds_per_lane <= 127 * 127) by (nonlinear_arith)
            requires
                lanes <= 127,
                leds_per_lane <= 127,
        ;
        Games { snake: SnakeGame::new(lanes, leds_per_lane), tetris: TetrisGame::new(lanes, leds_per_lane) }
    }

    /// Rebuild a game whose board is not `lanes` x `leds_per_lane`, since a
    /// resized board would otherwise leave the snake or stack outside the
    /// visible area; a game of the right shape carries on.
    pub fn sync_shape(&mut self, lanes: usize, leds_per_lane: usize)
        requires
            old(self).wf(),
            1 <= lanes <= 127,
            2 <= leds_per_lane <= 127,
            2 <= lanes || 4 <= leds_per_lane,
        ensures
            final(self).wf(),
            final(self).snake@ == if old(self).snake@.cols == lanes && old(self).snake@.rows
                == leds_per_lane {
                old(self).snake@
            } else {
                restarted(fresh_snake(lanes, leds_per_lane))
            },
            final(self).tetris@ == if old(self).tetris@.cols == lanes && old(self).tetris@.rows
                == leds_per_lane {
                old(self).tetris@
            } else {
                spawned(fresh_tetris(lanes, leds_per_lane))
            },
            final(self).snake@.cols == lanes && final(self).snake@.rows == leds_per_lane,
            final(self).tetris@.cols == lanes && final(self).tetris@.rows == leds_per_lane,
    {
        assert(lanes * leds_per_lane <= 127 * 127) by (nonlinear_arith)
            requires
                lanes <= 127,
                leds_per_lane <= 127,
        ;
        let (sc, sr) = self.snake.dims();
        if sc != lanes || sr != leds_per_lane {
            self.snake = SnakeGame::new(lanes, leds_per_lane);
        }
        let (tc, tr) = self.tetris.dims();
        if tc != lanes || tr != leds_per_lane {
            self.tetris = TetrisGame::new(lanes, leds_per_lane);
        }
    }

    /// Start both games over from a clean board of the same shape.
    pub fn restart(&mut self)
        requires
            old(self).wf(),
        ensures
            final(self).wf(),
            final(self).snake@ == restarted(fresh_snake(old(self).snake@.cols, old(self).snake@.rows)),
            final(self).tetris@ == spawned(fresh_tetris(old(self).tetris@.cols, old(self).tetris@.rows)),
            final(self).snake@.cols == old(self).snake@.cols && final(self).snake@.rows == old(self).snake@.rows,
            final(self).tetris@.cols == old(self).tetris@.cols && final(self).tetris@.rows == old(self).tetris@.rows,
    {
        let (sc, sr) = self.snake.dims();
        let (tc, tr) = self.tetris.dims();
        self.snake = SnakeGame::new(sc, sr);
        self.tetris = TetrisGame::new(tc, tr);
    }

    /// Snapshot whichever game is showing, for the UI preview.
    pub fn snapshot(&self, game: GameKind) -> (s: GameSnapshot)
        requires
            self.wf(),
        ensures
            s.game == game,
            game == GameKind::Snake ==> s.cleared == 0 && !s.flashing && s.clearing_rows@.len() == 0,
            game == GameKind::Tetris ==> s.cleared == self.tetris@.lines_cleared && s.flashing == (
            self.tetris@.phase == Phase::Clearing) && s.clearing_rows@ == self.tetris@.clearing_rows,
            game == GameKind::Snake ==> lanes_of(&s) == Seq::new(
                self.snake@.cols as nat,
                |c: int| Seq::new(self.snake@.rows as nat, |r: int| snake_cell(self.snake@, r, c)),
            ),
            game == GameKind::Tetris ==> lanes_of(&s) == Seq::new(
                self.tetris@.cols as nat,
                |c: int| Seq::new(self.tetris@.rows as nat, |r: int| tetris_cell(self.tetris@, r, c)),
            ),
    {
        match game {
            GameKind::Tetris => {
                let s = self.tetris.snapshot();
                assert(self.tetris.shape() == (self.tetris@.cols, self.tetris@.rows));
                assert(forall|r: int, c: int| #[trigger] self.tetris.shown(r, c) == tetris_cell(self.tetris@, r, c));
                let ghost want = Seq::new(
                    self.tetris@.cols as nat,
                    |c: int| Seq::new(self.tetris@.rows as nat, |r: int| tetris_cell(self.tetris@, r, c)),
                );
                assert forall|c: int| 0 <= c < want.len() implies #[trigger] lanes_of(&s)[c] =~= want[c] by {}
                assert(lanes_of(&s) =~= want);
                s
            },
            GameKind::Snake => {
                let s = self.snake.snapshot();
                assert(self.snake.shape() == (self.snake@.cols, self.snake@.rows));
                assert(forall|r: int, c: int| #[trigger] self.snake.shown(r, c) == snake_cell(self.snake@, r, c));
                let ghost want = Seq::new(
                    self.snake@.cols as nat,
                    |c: int| Seq::new(self.snake@.rows as nat, |r: int| snake_cell(self.snake@, r, c)),
                );
                assert forall|c: int| 0 <= c < want.len() implies #[trigger] lanes_of(&s)[c] =~= want[c] by {}
                assert(lanes_of(&s) =~= want);
                s
            },
        }
    }
}

} // verus!
