use tetris_core::game::{Game, GameError, GamePhase, InputEvent, Mode};
use tetris_core::tetromino::{PieceColor, Tetromino, TetrominoShape};

fn classic(first: TetrominoShape) -> Game {
    Game::new(Mode::Classic, 1, first, TetrominoShape::O, TetrominoShape::T).unwrap()
}

fn running(first: TetrominoShape) -> Game {
    let mut g = classic(first);
    g.update(Some(InputEvent::TogglePause), 0, TetrominoShape::S, TetrominoShape::Z);
    g
}

fn cell_count(g: &Game) -> usize {
    g.game_state
        .iter()
        .map(|row| row.iter().filter(|&&c| c).count())
        .sum()
}

#[test]
fn new_rejects_bad_level() {
    assert!(matches!(
        Game::new(Mode::Classic, 0, TetrominoShape::I, TetrominoShape::O, TetrominoShape::T),
        Err(GameError::InvalidLevel)
    ));
    assert!(matches!(
        Game::new(Mode::Classic, 16, TetrominoShape::I, TetrominoShape::O, TetrominoShape::T),
        Err(GameError::InvalidLevel)
    ));
    assert!(Game::new(Mode::Classic, 1, TetrominoShape::I, TetrominoShape::O, TetrominoShape::T)
        .is_ok());
    assert!(Game::new(Mode::Modern, 15, TetrominoShape::I, TetrominoShape::O, TetrominoShape::T)
        .is_ok());
}

#[test]
fn new_initial_state() {
    let g = classic(TetrominoShape::I);
    assert_eq!(g.game_state.len(), 20);
    for row in &g.game_state {
        assert_eq!(row.len(), 10);
        assert!(row.iter().all(|&c| !c));
    }
    assert_eq!(g.score, 0);
    assert_eq!(g.lines, 0);
    assert_eq!(g.level, 1);
    assert_eq!(g.phase, GamePhase::NotStarted);
    assert_eq!(g.curr_piece.kind, TetrominoShape::I);
    assert_eq!(g.curr_piece.col, 3);
    assert_eq!(g.curr_piece.row, 0);
    assert_eq!(g.curr_piece.orientation, 0);
}

#[test]
fn modern_board_is_wider() {
    let g = Game::new(Mode::Modern, 1, TetrominoShape::I, TetrominoShape::O, TetrominoShape::T)
        .unwrap();
    assert_eq!(g.game_state.len(), 20);
    assert_eq!(g.game_state[0].len(), 15);
    assert_eq!(g.curr_piece.col, 5);
}

#[test]
fn events_ignored_before_start() {
    let mut g = classic(TetrominoShape::I);
    g.update(Some(InputEvent::MoveRight), 0, TetrominoShape::S, TetrominoShape::Z);
    assert_eq!(g.curr_piece.col, 3);
    assert_eq!(g.phase, GamePhase::NotStarted);
}

#[test]
fn toggle_runs_pauses_and_blocks_moves() {
    let mut g = classic(TetrominoShape::I);
    g.update(Some(InputEvent::TogglePause), 0, TetrominoShape::S, TetrominoShape::Z);
    assert_eq!(g.phase, GamePhase::Running);
    g.update(Some(InputEvent::TogglePause), 0, TetrominoShape::S, TetrominoShape::Z);
    assert_eq!(g.phase, GamePhase::Paused);
    g.update(Some(InputEvent::MoveRight), 0, TetrominoShape::S, TetrominoShape::Z);
    assert_eq!(g.curr_piece.col, 3);
    g.update(Some(InputEvent::TogglePause), 0, TetrominoShape::S, TetrominoShape::Z);
    assert_eq!(g.phase, GamePhase::Running);
}

#[test]
fn move_left_discarded_at_wall() {
    // The vertical I occupies only the second column of its box, so the
    // piece box may hang one cell over the left edge before the wall stops
    // it: the fifth request collides and is discarded silently.
    let mut g = running(TetrominoShape::I);
    for _ in 0..4 {
        g.update(Some(InputEvent::MoveLeft), 0, TetrominoShape::S, TetrominoShape::Z);
    }
    assert_eq!(g.curr_piece.col, -1);
    g.update(Some(InputEvent::MoveLeft), 0, TetrominoShape::S, TetrominoShape::Z);
    assert_eq!(g.curr_piece.col, -1);
    assert_eq!(g.curr_piece.row, 0);
}

#[test]
fn move_right_commits() {
    let mut g = running(TetrominoShape::I);
    g.update(Some(InputEvent::MoveRight), 0, TetrominoShape::S, TetrominoShape::Z);
    assert_eq!(g.curr_piece.col, 4);
}

#[test]
fn rotation_cycle_returns_to_start() {
    let mut g = running(TetrominoShape::T);
    for _ in 0..4 {
        g.update(Some(InputEvent::RotateRight), 0, TetrominoShape::S, TetrominoShape::Z);
    }
    assert_eq!(g.curr_piece.orientation, 0);
    assert_eq!(g.curr_piece.col, 3);
    assert_eq!(g.curr_piece.row, 0);
}

#[test]
fn rotation_previews_match_committed_masks() {
    let t = Tetromino::new(TetrominoShape::T, 3, 0);
    let mut cw = Tetromino::new(TetrominoShape::T, 3, 0);
    cw.rotate_right();
    assert_eq!(t.get_shape_right(), cw.get_shape());
    let mut ccw = Tetromino::new(TetrominoShape::T, 3, 0);
    ccw.rotate_left();
    assert_eq!(t.get_shape_left(), ccw.get_shape());
    assert_eq!(ccw.orientation, 3);
}

#[test]
fn hard_drop_locks_i_piece_at_bottom() {
    // Empty Classic board, I piece: the vertical bar stands in the box
    // column 1, so it locks in grid column 4, rows 16..=19. No row fills, so
    // the score stays 0 and the queued piece becomes current at spawn.
    let mut g = running(TetrominoShape::I);
    g.update(Some(InputEvent::HardDrop), 0, TetrominoShape::S, TetrominoShape::Z);
    for r in 16..20 {
        assert!(g.game_state[r][4]);
    }
    assert_eq!(cell_count(&g), 4);
    assert_eq!(g.score, 0);
    assert_eq!(g.curr_piece.kind, TetrominoShape::O);
    assert_eq!(g.curr_piece.col, 3);
    assert_eq!(g.curr_piece.row, 0);
    assert_eq!(g.next_piece.kind, TetrominoShape::S);
    assert_eq!(g.phase, GamePhase::Running);
}

#[test]
fn soft_drop_moves_down_then_locks() {
    let mut g = running(TetrominoShape::O);
    g.update(Some(InputEvent::SoftDrop), 0, TetrominoShape::S, TetrominoShape::Z);
    assert_eq!(g.curr_piece.row, 1);
    // The O occupies box rows 0 and 1, so it rests with its box at row 18.
    for _ in 0..17 {
        g.update(Some(InputEvent::SoftDrop), 0, TetrominoShape::S, TetrominoShape::Z);
    }
    assert_eq!(g.curr_piece.row, 18);
    assert_eq!(cell_count(&g), 0);
    g.update(Some(InputEvent::SoftDrop), 0, TetrominoShape::S, TetrominoShape::Z);
    assert_eq!(cell_count(&g), 4);
    assert!(g.game_state[19][4] && g.game_state[19][5]);
    assert!(g.game_state[18][4] && g.game_state[18][5]);
    assert_eq!(g.curr_piece.kind, TetrominoShape::O);
}

#[test]
fn gravity_fires_at_the_interval_boundary() {
    // Level 1: the fall interval is 950 ms, and gravity is due as soon as
    // that much time has elapsed.
    let mut g = running(TetrominoShape::I);
    g.update(None, 949, TetrominoShape::S, TetrominoShape::Z);
    assert_eq!(g.curr_piece.row, 0);
    g.update(None, 950, TetrominoShape::S, TetrominoShape::Z);
    assert_eq!(g.curr_piece.row, 1);
    assert_eq!(g.last_fall_time, 950);
}

#[test]
fn pause_freezes_gravity_clock() {
    let mut g = running(TetrominoShape::I);
    g.update(Some(InputEvent::TogglePause), 900, TetrominoShape::S, TetrominoShape::Z);
    assert_eq!(g.phase, GamePhase::Paused);
    g.update(None, 1500, TetrominoShape::S, TetrominoShape::Z);
    assert_eq!(g.curr_piece.row, 0);
    g.update(Some(InputEvent::TogglePause), 2000, TetrominoShape::S, TetrominoShape::Z);
    // 900 ms had elapsed before the pause; the clock resumes there.
    assert_eq!(g.last_fall_time, 1100);
    g.update(None, 2049, TetrominoShape::S, TetrominoShape::Z);
    assert_eq!(g.curr_piece.row, 0);
    g.update(None, 2050, TetrominoShape::S, TetrominoShape::Z);
    assert_eq!(g.curr_piece.row, 1);
}

#[test]
fn swap_is_a_noop_in_classic() {
    let mut g = running(TetrominoShape::I);
    g.update(Some(InputEvent::Swap), 0, TetrominoShape::S, TetrominoShape::Z);
    assert_eq!(g.curr_piece.kind, TetrominoShape::I);
    assert_eq!(g.swap_piece.kind, TetrominoShape::T);
}

#[test]
fn swap_exchanges_pieces_in_modern() {
    let mut g = Game::new(Mode::Modern, 1, TetrominoShape::I, TetrominoShape::O, TetrominoShape::T)
        .unwrap();
    g.update(Some(InputEvent::TogglePause), 0, TetrominoShape::S, TetrominoShape::Z);
    g.update(Some(InputEvent::MoveRight), 0, TetrominoShape::S, TetrominoShape::Z);
    g.update(Some(InputEvent::Swap), 0, TetrominoShape::S, TetrominoShape::Z);
    assert_eq!(g.curr_piece.kind, TetrominoShape::T);
    assert_eq!(g.curr_piece.col, 6);
    assert_eq!(g.swap_piece.kind, TetrominoShape::I);
    assert_eq!(g.swap_piece.col, 6);
}

#[test]
fn completed_row_clears_and_scores() {
    // Row 19 occupied except columns 4 and 5; the O piece falls straight
    // down from spawn into the gap and completes the row: one line, scored
    // 40 x (level + 1) at level 1.
    let mut g = running(TetrominoShape::O);
    for j in 0..10 {
        if j != 4 && j != 5 {
            g.game_state[19][j] = true;
        }
    }
    g.update(Some(InputEvent::HardDrop), 0, TetrominoShape::S, TetrominoShape::Z);
    assert_eq!(g.score, 80);
    assert_eq!(g.lines, 1);
    // The surviving top half of the O slides down into row 19.
    assert!(g.game_state[19][4] && g.game_state[19][5]);
    assert!(!g.game_state[19][0]);
    assert!(g.game_state[18].iter().all(|&c| !c));
}

#[test]
fn clear_lines_removes_exactly_the_full_rows() {
    let mut g = classic(TetrominoShape::I);
    for r in 16..20 {
        for j in 0..10 {
            g.game_state[r][j] = true;
        }
    }
    // A marker above the full rows keeps its column and slides to the bottom.
    g.game_state[15][2] = true;
    let removed = g.clear_lines();
    assert_eq!(removed, 4);
    assert_eq!(g.game_state.len(), 20);
    for r in 0..19 {
        assert!(g.game_state[r].iter().all(|&c| !c));
    }
    assert!(g.game_state[19][2]);
    assert_eq!(cell_count(&g), 1);
    assert_eq!(g.score, 2400);
    assert_eq!(g.lines, 4);
}

#[test]
fn clear_lines_with_no_full_rows_changes_nothing() {
    let mut g = classic(TetrominoShape::I);
    g.game_state[19][0] = true;
    let removed = g.clear_lines();
    assert_eq!(removed, 0);
    assert_eq!(g.score, 0);
    assert_eq!(g.lines, 0);
    assert_eq!(g.level, 1);
    assert!(g.game_state[19][0]);
    assert_eq!(cell_count(&g), 1);
}

#[test]
fn score_table_per_clear_count() {
    for (k, reward) in [(1usize, 40u32), (2, 100), (3, 300), (4, 1200)] {
        let mut g = classic(TetrominoShape::I);
        for r in (20 - k)..20 {
            for j in 0..10 {
                g.game_state[r][j] = true;
            }
        }
        let removed = g.clear_lines();
        assert_eq!(removed, k);
        assert_eq!(g.score, reward * 2); // level 1, scaled by (level + 1)
    }
}

#[test]
fn level_steps_on_ten_line_boundaries() {
    let mut g = classic(TetrominoShape::I);
    g.lines = 8;
    for r in 16..20 {
        for j in 0..10 {
            g.game_state[r][j] = true;
        }
    }
    g.clear_lines();
    assert_eq!(g.lines, 12);
    assert_eq!(g.level, 2);

    let mut g2 = classic(TetrominoShape::I);
    for r in 16..20 {
        for j in 0..10 {
            g2.game_state[r][j] = true;
        }
    }
    g2.clear_lines();
    assert_eq!(g2.lines, 4);
    assert_eq!(g2.level, 1);
}

#[test]
fn level_never_exceeds_cap() {
    let mut g = Game::new(Mode::Classic, 15, TetrominoShape::I, TetrominoShape::O, TetrominoShape::T)
        .unwrap();
    g.lines = 8;
    for r in 16..20 {
        for j in 0..10 {
            g.game_state[r][j] = true;
        }
    }
    g.clear_lines();
    assert_eq!(g.level, 15);
}

#[test]
fn lock_piece_adds_exactly_the_mask_popcount() {
    let mut g = classic(TetrominoShape::T);
    assert_eq!(cell_count(&g), 0);
    g.lock_piece();
    assert_eq!(cell_count(&g), 4);
    // The T mask at rotation 0: box cells (0,1), (1,0), (1,1), (1,2),
    // offset by the spawn position (column 3, row 0).
    assert!(g.game_state[0][4]);
    assert!(g.game_state[1][3] && g.game_state[1][4] && g.game_state[1][5]);
}

#[test]
fn spawn_collision_ends_the_match_and_freezes_it() {
    // Five vertical I pieces stack in column 4 and fill it; the sixth
    // cannot spawn and the match ends. Further events change nothing.
    let mut g = running(TetrominoShape::I);
    g.next_piece = Tetromino::new(TetrominoShape::I, 3, 0);
    for _ in 0..5 {
        g.update(Some(InputEvent::HardDrop), 0, TetrominoShape::I, TetrominoShape::I);
    }
    for r in 0..20 {
        assert!(g.game_state[r][4]);
    }
    assert_eq!(g.phase, GamePhase::GameOver);
    let score_before = g.score;
    g.update(Some(InputEvent::MoveRight), 0, TetrominoShape::S, TetrominoShape::Z);
    g.update(Some(InputEvent::TogglePause), 5000, TetrominoShape::S, TetrominoShape::Z);
    assert_eq!(g.phase, GamePhase::GameOver);
    assert_eq!(g.score, score_before);
    assert_eq!(cell_count(&g), 20);
}

#[test]
fn random_piece_is_well_formed() {
    let t = Tetromino::random(3, 0);
    assert_eq!(t.orientation, 0);
    assert_eq!(t.col, 3);
    assert_eq!(t.row, 0);
    let reference = Tetromino::new(t.kind, 3, 0);
    assert_eq!(t.shapes, reference.shapes);
    assert_eq!(t.color, reference.color);
}

#[test]
fn moved_by_shifts_position_only() {
    let t = Tetromino::new(TetrominoShape::L, 3, 0);
    let m = t.moved_by(2, 5);
    assert_eq!(m.col, 5);
    assert_eq!(m.row, 5);
    assert_eq!(m.kind, TetrominoShape::L);
    assert_eq!(m.orientation, 0);
    assert_eq!(m.color, PieceColor::Gold);
}

#[test]
fn shape_colors_follow_the_catalog() {
    assert_eq!(Tetromino::new(TetrominoShape::I, 0, 0).color, PieceColor::Firebrick);
    assert_eq!(Tetromino::new(TetrominoShape::O, 0, 0).color, PieceColor::Green);
    assert_eq!(Tetromino::new(TetrominoShape::T, 0, 0).color, PieceColor::SkyBlue);
    assert_eq!(Tetromino::new(TetrominoShape::L, 0, 0).color, PieceColor::Gold);
    assert_eq!(Tetromino::new(TetrominoShape::J, 0, 0).color, PieceColor::Orange);
    assert_eq!(Tetromino::new(TetrominoShape::S, 0, 0).color, PieceColor::Pink);
    assert_eq!(Tetromino::new(TetrominoShape::Z, 0, 0).color, PieceColor::Purple);
}

#[test]
fn two_state_shapes_repeat_masks() {
    let i = Tetromino::new(TetrominoShape::I, 0, 0);
    assert_eq!(i.shapes[0], i.shapes[2]);
    assert_eq!(i.shapes[1], i.shapes[3]);
    let o = Tetromino::new(TetrominoShape::O, 0, 0);
    assert_eq!(o.shapes[0], o.shapes[1]);
    assert_eq!(o.shapes[0], o.shapes[3]);
    let t = Tetromino::new(TetrominoShape::T, 0, 0);
    assert_ne!(t.shapes[0], t.shapes[2]);
}
