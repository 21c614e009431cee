use betterrgb::games::{game_color, Board, GameKind, Games, PAL_MAX};
use betterrgb::openrgb::RgbColor;
use betterrgb::shapes::{rotate, shape, shape_height, shape_width, SHAPE_COUNT};
use betterrgb::snake::{SnakeGame, PAL_BODY, PAL_FOOD, PAL_HEAD};
use betterrgb::tetris::{Delay, Phase, TetrisGame, PAL_CLEAR_A, PAL_CLEAR_B, PAL_PIECE_BASE};

const SNAKE_STEP_SECS: f32 = 0.22;
const TETRIS_STEP_SECS: f32 = 0.28;
const TETRIS_SPAWN_HOLD_SECS: f32 = 0.16;
const TETRIS_ROTATE_STEP_SECS: f32 = 0.09;
const TETRIS_CLEAR_FLASH_SECS: f32 = 0.45;
const TETRIS_CLEAR_BLINKS_PER_SEC: f32 = 8.0;

/// Drives a snake from elapsed seconds, catching up at most 8 moves.
struct SnakeClock {
    accum: f32,
}

impl SnakeClock {
    fn new() -> Self {
        SnakeClock { accum: 0.0 }
    }

    fn step(&mut self, g: &mut SnakeGame, dt: f32) {
        self.accum += dt;
        let mut steps = 0;
        while self.accum >= SNAKE_STEP_SECS && steps < 8 {
            self.accum -= SNAKE_STEP_SECS;
            if g.advance() {
                self.accum = 0.0;
            }
            steps += 1;
        }
        if steps == 8 {
            self.accum = 0.0;
        }
    }
}

/// Drives Tetris from elapsed seconds: each action waits the delay the
/// previous one asked for, and the flash blinks from its own timer.
struct TetrisClock {
    timer: f32,
    flash: f32,
}

impl TetrisClock {
    fn new() -> Self {
        TetrisClock { timer: TETRIS_SPAWN_HOLD_SECS, flash: 0.0 }
    }

    fn step(&mut self, g: &mut TetrisGame, dt: f32) {
        self.timer -= dt;
        if g.is_flashing() {
            self.flash += dt;
        }
        if self.timer <= 0.0 {
            self.timer = match g.tick() {
                Delay::SpawnHold => {
                    self.flash = 0.0;
                    TETRIS_SPAWN_HOLD_SECS
                }
                Delay::RotateStep => TETRIS_ROTATE_STEP_SECS,
                Delay::Gravity => TETRIS_STEP_SECS,
                Delay::ClearFlash => {
                    self.flash = 0.0;
                    TETRIS_CLEAR_FLASH_SECS
                }
            };
        }
        g.set_blink(((self.flash * TETRIS_CLEAR_BLINKS_PER_SEC) as i32) % 2 == 0);
    }
}

#[test]
fn snake_starts_inside_the_board() {
    let g = SnakeGame::new(3, 13);
    for &(x, y) in &g.body() {
        assert!(x < 3 && y < 13, "snake spawned outside the panel");
    }
}

#[test]
fn snake_survives_many_steps() {
    let mut g = SnakeGame::new(3, 13);
    let mut c = SnakeClock::new();
    for _ in 0..2000 {
        c.step(&mut g, 0.22);
    }
    assert!(!g.body().is_empty(), "snake died and failed to respawn");
}

#[test]
fn snake_never_leaves_the_board() {
    let mut g = SnakeGame::new(3, 13);
    let mut c = SnakeClock::new();
    for _ in 0..4000 {
        c.step(&mut g, 0.22);
        for &(x, y) in &g.body() {
            assert!(x < 3 && y < 13, "snake moved out of bounds at ({x},{y})");
        }
    }
}

#[test]
fn snake_does_not_overlap_itself() {
    let mut g = SnakeGame::new(3, 13);
    let mut c = SnakeClock::new();
    for _ in 0..2000 {
        c.step(&mut g, 0.22);
        let mut seen: Vec<(usize, usize)> = g.body();
        let len = seen.len();
        seen.sort_unstable();
        seen.dedup();
        assert_eq!(seen.len(), len, "snake overlapped itself");
    }
}

#[test]
fn snake_uses_the_full_length_of_the_fan() {
    let mut g = SnakeGame::new(3, 13);
    let mut c = SnakeClock::new();
    let mut highest = 0;
    for _ in 0..600 {
        c.step(&mut g, SNAKE_STEP_SECS);
        for &(_, y) in &g.body() {
            highest = highest.max(y);
        }
    }
    assert!(
        highest >= 10,
        "snake only reached row {highest} of 13; the board is probably transposed"
    );
}

#[test]
fn tetris_uses_the_full_length_of_the_fan() {
    let mut g = TetrisGame::new(3, 13);
    let mut c = TetrisClock::new();
    let mut highest = 0;
    for _ in 0..2400 {
        c.step(&mut g, TETRIS_STEP_SECS / 4.0);
        for row in g.active_rows() {
            highest = highest.max(row);
        }
    }
    assert!(
        highest >= 8,
        "tetris pieces only reached row {highest} of 13; the board is probably transposed"
    );
}

#[test]
fn games_use_lanes_as_columns() {
    let g = Games::new(3, 13);
    assert_eq!(g.snake.dims(), (3, 13));
    assert_eq!(g.tetris.dims(), (3, 13));
    let (cols, rows) = g.snake.dims();
    assert!(rows > cols, "the board must be taller than it is wide");
}

#[test]
fn all_tetrominoes_fit_three_columns_after_rotation() {
    for i in 0..SHAPE_COUNT {
        let mut rot = shape(i);
        for _ in 0..4 {
            assert!(
                shape_width(&rot) <= 3,
                "a rotation is {} wide, which cannot fit 3 lanes",
                shape_width(&rot)
            );
            assert!(
                shape_height(&rot) <= 4,
                "a rotation is {} tall, which cannot fit 13 rows",
                shape_height(&rot)
            );
            rot = rotate(&rot);
        }
    }
}

#[test]
fn horizontal_i_piece_is_rejected() {
    let horizontal = [(0i8, 0i8), (1, 0), (2, 0), (3, 0)];
    let fixed = rotate(&horizontal);
    assert!(
        shape_width(&fixed) <= 3,
        "rotate produced a {}-wide shape",
        shape_width(&fixed)
    );
}

#[test]
fn rotation_preserves_cell_count_and_is_stable() {
    for i in 0..SHAPE_COUNT {
        let sh = shape(i);
        let mut rot = sh.clone();
        for _ in 0..4 {
            assert_eq!(rot.len(), sh.len(), "rotation changed the cell count");
            rot = rotate(&rot);
        }
        let mut sorted_a: Vec<(i8, i8)> = rot.clone();
        let mut sorted_b: Vec<(i8, i8)> = sh.clone();
        sorted_a.sort_unstable();
        sorted_b.sort_unstable();
        assert_eq!(sorted_a, sorted_b, "four rotations should be identity");
    }
}

#[test]
fn tetris_never_panics_and_keeps_playing() {
    let mut g = TetrisGame::new(3, 13);
    let mut c = TetrisClock::new();
    for _ in 0..4000 {
        for _ in 0..8 {
            c.step(&mut g, TETRIS_STEP_SECS / 8.0);
        }
        let board = g.board();
        assert!(!board.is_empty(), "board collapsed");
        assert_eq!(board.len(), 13, "board height drifted");
        for row in &board {
            assert_eq!(row.len(), 3, "board width drifted");
        }
    }
}

#[test]
fn tetris_cells_stay_in_bounds() {
    let mut g = TetrisGame::new(3, 13);
    let mut c = TetrisClock::new();
    for _ in 0..2000 {
        for _ in 0..8 {
            c.step(&mut g, TETRIS_STEP_SECS / 8.0);
        }
        for row in 0..13 {
            for col in 0..3 {
                if let Some(idx) = g.cell(row, col) {
                    assert!(idx <= PAL_MAX, "unknown palette index {idx}");
                }
            }
        }
    }
}

#[test]
fn rotating_pieces_never_overflow_the_ceiling() {
    for i in 0..SHAPE_COUNT {
        let mut g = TetrisGame::new(3, 13);
        let sh = shape(i);
        let top = 13 - shape_height(&sh);
        assert!(g.place_piece(i, 0, top, 1), "shape {i} could not be placed");
        assert_eq!(g.phase(), Phase::Rotating);
        let mut c = TetrisClock::new();
        c.timer = 0.0;
        c.step(&mut g, TETRIS_ROTATE_STEP_SECS);

        let Some((cells, _, x, y, rot)) = g.active() else {
            panic!("shape {i} vanished during rotation");
        };
        assert!(
            !g.collides(&cells, x, y),
            "shape {i} is in an illegal position after rotating"
        );
        for &(cx, cy) in &cells {
            assert!(
                (x + cx) >= 0 && (x + cx) < 3,
                "shape {i} left the board sideways at column {}",
                x + cx
            );
            assert!(
                (y + cy) >= 0 && (y + cy) < 13,
                "shape {i} overflowed the ceiling: row {} of 13",
                y + cy
            );
        }
        if shape_height(&sh) == 2 {
            assert_eq!(rot, 1, "shape {i} failed to rotate at all");
        }
    }
}

#[test]
fn tetris_piece_falls_one_row_at_a_time() {
    let mut g = TetrisGame::new(3, 13);
    let mut c = TetrisClock::new();
    let start_rows = g.active_rows();
    let start_top = *start_rows.iter().max().unwrap_or(&0);
    for _ in 0..8 {
        c.step(&mut g, TETRIS_STEP_SECS / 4.0);
    }
    let now_top = *g.active_rows().iter().max().unwrap_or(&0);
    assert!(
        now_top < start_top,
        "piece did not fall: started at row {start_top}, still at row {now_top}"
    );
    assert!(
        now_top + 2 >= start_top,
        "piece fell {start_top} -> {now_top} in one interval, which is a teleport"
    );
}

#[test]
fn tetris_never_overlaps_settled_cells() {
    let mut g = TetrisGame::new(3, 13);
    let mut c = TetrisClock::new();
    for _ in 0..3000 {
        for _ in 0..4 {
            c.step(&mut g, TETRIS_STEP_SECS / 4.0);
        }
        if let Some((cells, _, x, y, _)) = g.active() {
            let board = g.board();
            for &(cx, cy) in &cells {
                let (px, py) = (x + cx, y + cy);
                assert!(px >= 0 && py >= 0, "active cell out of bounds");
                assert!(
                    (px as usize) < 3 && (py as usize) < 13,
                    "active cell out of bounds"
                );
                if !g.is_flashing() {
                    assert!(
                        board[py as usize][px as usize].is_none(),
                        "active piece overlaps a settled cell at ({px},{py})"
                    );
                }
            }
        }
    }
}

#[test]
fn tetris_clears_lines_and_pauses_while_flashing() {
    let mut g = TetrisGame::new(3, 13);
    let mut c = TetrisClock::new();
    for _ in 0..6000 {
        for _ in 0..4 {
            c.step(&mut g, TETRIS_STEP_SECS / 4.0);
        }
        if g.is_flashing() {
            let before = g.active();
            c.step(&mut g, TETRIS_CLEAR_FLASH_SECS / 4.0);
            if g.is_flashing() {
                if let (Some((_, _, x1, y1, _)), Some((_, _, x2, y2, _))) = (&before, &g.active()) {
                    assert_eq!((x1, y1), (x2, y2), "piece moved during the clear flash");
                }
            }
        }
    }
    assert!(
        g.lines_cleared() > 0,
        "no line was ever cleared in 6000 steps, so the flash never triggers"
    );
}

#[test]
fn only_completed_rows_blink_not_the_whole_piece() {
    let mut g = TetrisGame::new(3, 13);
    let piece_color = PAL_PIECE_BASE;
    assert!(g.set_cell(0, 0, Some(piece_color)));
    assert!(g.set_cell(0, 2, Some(piece_color)));
    assert!(g.place_piece(0, 1, 0, 0));
    let mut c = TetrisClock::new();
    c.timer = 0.0;
    c.step(&mut g, TETRIS_STEP_SECS);

    assert!(g.is_flashing(), "row 0 completed, so a clear must be running");
    assert_eq!(
        g.clearing_rows(),
        vec![0],
        "only row 0 is complete; rows 1-3 must not be marked for clearing"
    );
    let row0 = g.cell(0, 1).unwrap();
    assert!(
        row0 == PAL_CLEAR_A || row0 == PAL_CLEAR_B,
        "row 0 should be flashing, got {row0}"
    );
    for row in 1..=3 {
        assert_eq!(
            g.cell(row, 1),
            Some(piece_color),
            "row {row} is part of the piece but is not complete - it must not blink"
        );
    }
}

#[test]
fn clearing_removes_exactly_the_completed_rows() {
    let mut g = TetrisGame::new(3, 13);
    let piece_color = PAL_PIECE_BASE;
    assert!(g.set_cell(0, 0, Some(piece_color)));
    assert!(g.set_cell(0, 2, Some(piece_color)));
    assert!(g.set_cell(1, 0, Some(piece_color)));
    assert!(g.place_piece(0, 1, 0, 0));
    let mut c = TetrisClock::new();
    c.timer = 0.0;
    c.step(&mut g, TETRIS_STEP_SECS);
    assert!(g.is_flashing());

    c.step(&mut g, TETRIS_CLEAR_FLASH_SECS + 0.01);

    assert_eq!(g.lines_cleared(), 1, "exactly one line should have been removed");
    assert!(!g.is_flashing(), "the clear should be finished");
    assert!(g.clearing_rows().is_empty(), "clearing rows should be reset");
    assert_eq!(
        g.board()[0][0],
        Some(piece_color),
        "the settled cell above the cleared row should drop down"
    );
}

#[test]
fn snake_snapshot_tracks_the_body_every_step() {
    let mut g = SnakeGame::new(3, 13);
    let mut c = SnakeClock::new();
    let mut previous: Option<Vec<Vec<Option<u8>>>> = None;
    let mut changes = 0;
    for _ in 0..60 {
        c.step(&mut g, SNAKE_STEP_SECS);
        let snap = g.snapshot();
        for (lane, column) in snap.lanes.iter().enumerate() {
            for (row, value) in column.iter().enumerate() {
                assert_eq!(
                    *value,
                    g.cell(row, lane),
                    "snapshot disagrees with cell() at lane {lane} row {row}"
                );
            }
        }
        assert_eq!(snap.lanes.len(), 3, "snapshot must have one entry per lane");
        for column in &snap.lanes {
            assert_eq!(column.len(), 13, "snapshot lane must be 13 rows long");
        }
        let lit: usize = snap.lanes.iter().flatten().filter(|c| c.is_some()).count();
        assert!(
            lit >= 3,
            "the snake should always have at least a head, body and food lit"
        );
        if let Some(prev) = &previous {
            if *prev != snap.lanes {
                changes += 1;
            }
        }
        previous = Some(snap.lanes);
    }
    assert!(
        changes >= 50,
        "the snapshot only changed {changes} times in 60 moves - the preview would look frozen"
    );
}

#[test]
fn snapshot_is_tagged_with_its_game() {
    let g = Games::new(3, 13);
    assert_eq!(g.snapshot(GameKind::Snake).game, GameKind::Snake);
    assert_eq!(g.snapshot(GameKind::Tetris).game, GameKind::Tetris);
}

#[test]
fn tetris_pieces_actually_rotate_into_play() {
    let mut g = TetrisGame::new(3, 13);
    let mut c = TetrisClock::new();
    let mut rotated_any = false;
    for _ in 0..4000 {
        c.step(&mut g, TETRIS_STEP_SECS / 4.0);
        if let Some((_, _, _, _, rot)) = g.active() {
            if rot > 0 {
                rotated_any = true;
            }
        }
    }
    assert!(rotated_any, "no piece ever rotated in 4000 steps");
}

#[test]
fn pieces_steer_toward_the_chosen_column() {
    let mut g = TetrisGame::new(3, 13);
    let mut c = TetrisClock::new();
    let mut moved = false;
    for _ in 0..200 {
        let before = g.active().map(|a| a.2);
        let target = g.target_x();
        c.step(&mut g, TETRIS_STEP_SECS);
        if let (Some(x0), Some(a)) = (before, g.active()) {
            if a.2 != x0 {
                moved = true;
            }
            if target != x0 {
                assert!(
                    (a.2 - target).abs() <= (x0 - target).abs(),
                    "piece moved away from its target column"
                );
            }
        }
    }
    assert!(moved, "no piece ever moved sideways");
}

#[test]
fn snake_cells_show_head_body_and_food() {
    let g = SnakeGame::new(3, 13);
    let body = g.body();
    assert_eq!(body, vec![(1, 0), (1, 1), (1, 2)]);
    assert_eq!(g.cell(2, 1), Some(PAL_HEAD));
    assert_eq!(g.cell(0, 1), Some(PAL_BODY));
    let (fx, fy) = g.food();
    assert_eq!(g.cell(fy, fx), Some(PAL_FOOD));
    assert_eq!(g.cell(13, 0), None);
    assert_eq!(g.cell(0, 3), None);
}

#[test]
fn snake_snapshot_is_a_snake_frame() {
    let g = SnakeGame::new(3, 13);
    let s = g.snapshot();
    assert_eq!(s.game, GameKind::Snake);
    assert_eq!(s.cleared, 0);
    assert!(!s.flashing);
    assert!(s.clearing_rows.is_empty());
}

#[test]
fn tetris_snapshot_reports_the_flash() {
    let mut g = TetrisGame::new(3, 13);
    assert!(g.set_cell(0, 0, Some(PAL_PIECE_BASE)));
    assert!(g.set_cell(0, 2, Some(PAL_PIECE_BASE)));
    assert!(g.place_piece(0, 1, 0, 0));
    assert_eq!(g.tick(), Delay::ClearFlash);
    let s = g.snapshot();
    assert_eq!(s.game, GameKind::Tetris);
    assert!(s.flashing);
    assert_eq!(s.clearing_rows, vec![0]);
    assert_eq!(s.lanes[1][0], Some(PAL_CLEAR_A));
    g.set_blink(false);
    assert_eq!(g.cell(0, 1), Some(PAL_CLEAR_B));
    assert_eq!(g.tick(), Delay::SpawnHold);
    assert_eq!(g.snapshot().cleared, 1);
}

#[test]
fn placing_and_setting_are_refused_when_illegal() {
    let mut g = TetrisGame::new(3, 13);
    assert!(!g.set_cell(13, 0, Some(PAL_PIECE_BASE)));
    assert!(!g.set_cell(0, 0, Some(PAL_CLEAR_A)));
    assert!(!g.place_piece(7, 0, 0, 0));
    assert!(!g.place_piece(0, 0, 0, 4));
    assert!(!g.place_piece(2, 1, 0, 0), "a 3-wide piece at column 1 leaves the board");
    assert!(g.set_cell(0, 0, Some(PAL_PIECE_BASE)));
    assert!(!g.place_piece(0, 0, 0, 0), "the I-piece would overlap a settled cell");
}

#[test]
fn new_tetris_piece_appears_at_the_top_in_spawn_orientation() {
    let g = TetrisGame::new(3, 13);
    let (cells, color, x, y, rot) = g.active().unwrap();
    assert_eq!(rot, 0);
    let idx = (color - PAL_PIECE_BASE) as usize;
    assert_eq!(cells, shape(idx));
    assert_eq!(y, 13 - shape_height(&cells));
    assert!(x >= 0 && x + shape_width(&cells) <= 3);
    assert!(g.board().iter().flatten().all(|c| c.is_none()));
}

#[test]
fn gravity_moves_one_row_or_locks() {
    let mut g = TetrisGame::new(3, 13);
    assert!(g.place_piece(1, 0, 5, 0));
    let before = g.active().unwrap();
    assert_eq!(g.tick(), Delay::Gravity);
    let after = g.active().unwrap();
    assert_eq!(after.3, before.3 - 1);
    assert!((after.2 - before.2).abs() <= 1);
}

#[test]
fn game_palette_matches_the_panel_colours() {
    let accent = RgbColor::new(0, 210, 255);
    assert_eq!(game_color(PAL_BODY, accent), accent);
    assert_eq!(game_color(PAL_HEAD, accent), RgbColor::new(191, 243, 255));
    assert_eq!(game_color(PAL_FOOD, accent), RgbColor::new(255, 60, 60));
    assert_eq!(game_color(PAL_PIECE_BASE, accent), RgbColor::new(0, 220, 255));
    assert_eq!(game_color(PAL_PIECE_BASE + 6, accent), RgbColor::new(255, 140, 0));
    assert_eq!(game_color(PAL_CLEAR_A, accent), RgbColor::new(255, 255, 255));
    assert_eq!(game_color(PAL_CLEAR_B, accent), RgbColor::new(255, 60, 60));
    assert_eq!(game_color(200, accent), accent);
}

#[test]
fn head_colour_matches_the_float_blend() {
    for v in 0..=255u16 {
        let v = v as u8;
        let f = (v as f32 + (255.0 - v as f32) * 0.75f32) as u8;
        let c = game_color(PAL_HEAD, RgbColor::new(v, v, v));
        assert_eq!(c.r, f, "channel {v}");
    }
}

#[test]
fn sync_shape_rebuilds_only_a_resized_game() {
    let mut g = Games::new(3, 13);
    let body_before = g.snake.body();
    g.sync_shape(3, 13);
    assert_eq!(g.snake.body(), body_before);
    g.sync_shape(4, 10);
    assert_eq!(g.snake.dims(), (4, 10));
    assert_eq!(g.tetris.dims(), (4, 10));
    g.restart();
    assert_eq!(g.tetris.lines_cleared(), 0);
}

#[test]
fn snake_never_gets_shorter_than_its_start() {
    let mut g = SnakeGame::new(3, 13);
    assert_eq!(g.body().len(), 3);
    let mut len = g.body().len();
    for _ in 0..3000 {
        let restarted = g.advance();
        let now = g.body().len();
        if restarted {
            assert_eq!(now, 3, "a start over lays out the three-cell start body");
        } else {
            assert!(now == len || now == len + 1, "a move keeps the length or grows it by one");
        }
        assert!(now >= 3);
        len = now;
    }
}

#[test]
fn line_count_grows_only_by_the_rows_that_flashed() {
    let mut g = TetrisGame::new(3, 13);
    let mut clears = 0;
    for _ in 0..20_000 {
        let before = g.lines_cleared();
        let flashing = g.is_flashing();
        let rows = g.clearing_rows().len() as u32;
        g.tick();
        if flashing {
            assert_eq!(g.lines_cleared(), before + rows);
            clears += 1;
        } else {
            assert_eq!(g.lines_cleared(), before);
        }
    }
    assert!(clears > 0, "no flash ended in 20000 steps");
}

#[test]
fn tetris_plays_on_narrow_boards_with_pieces_that_fit() {
    for lanes in [1usize, 2] {
        let mut g = TetrisGame::new(lanes, 13);
        let mut pieces = 0;
        for _ in 0..20_000 {
            if let Some((cells, color, x, _y, _rot)) = g.active() {
                let width = cells.iter().map(|c| c.0).max().unwrap() + 1;
                assert!(x as usize + width as usize <= lanes, "piece wider than {lanes} lanes");
                if lanes == 1 {
                    assert_eq!(color, PAL_PIECE_BASE, "only the I piece fits one lane");
                } else {
                    assert!(color <= PAL_PIECE_BASE + 1, "only I and O fit two lanes");
                }
                pieces += 1;
            }
            g.tick();
        }
        assert!(pieces > 0);
        assert!(g.lines_cleared() > 0, "no line cleared on {lanes} lanes");
    }
}

#[test]
fn games_run_on_the_largest_boards() {
    let mut games = Games::new(127, 127);
    for _ in 0..300 {
        games.tetris.tick();
    }
    for _ in 0..50 {
        games.snake.advance();
    }
    assert_eq!(games.tetris.dims(), (127, 127));
    let mut small = Games::new(1, 4);
    for _ in 0..500 {
        small.tetris.tick();
        small.snake.advance();
    }
    assert_eq!(small.snake.dims(), (1, 4));
}

#[test]
fn tetris_plays_on_short_boards() {
    for (lanes, rows) in [(2usize, 2usize), (3, 2), (3, 3), (5, 3)] {
        let mut g = TetrisGame::new(lanes, rows);
        let mut pieces = 0;
        for _ in 0..5000 {
            if let Some((cells, _color, x, y, _rot)) = g.active() {
                for &(cx, cy) in &cells {
                    assert!(((x + cx) as usize) < lanes && ((y + cy) as usize) < rows);
                }
                pieces += 1;
            }
            g.tick();
        }
        assert!(pieces > 0);
        assert!(g.lines_cleared() > 0, "no line cleared on {lanes}x{rows}");
    }
    let games = Games::new(2, 2);
    assert_eq!(games.snake.dims(), (2, 2));
}
