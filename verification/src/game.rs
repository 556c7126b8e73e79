use vstd::prelude::*;

use crate::tetromino::{masks_of, PieceModel, Tetromino, TetrominoShape};

verus! {

/// Which rule set a match is played under. Classic plays on a 10-wide board
/// without a swap slot; Modern plays on a 15-wide board with one.
#[derive(Clone, Copy, PartialEq, Eq, Structural, Debug)]
pub enum Mode {
    Classic,
    Modern,
}

/// The phase of a match. `NotStarted` and `Paused` both ignore gameplay
/// events; `GameOver` is terminal until the caller builds a fresh game.
#[derive(Clone, Copy, PartialEq, Eq, Structural, Debug)]
pub enum GamePhase {
    NotStarted,
    Running,
    Paused,
    GameOver,
}

/// The discrete events a caller can feed to `update`, at most one per tick.
#[derive(Clone, Copy, PartialEq, Eq, Structural, Debug)]
pub enum InputEvent {
    MoveLeft,
    MoveRight,
    RotateLeft,
    RotateRight,
    SoftDrop,
    HardDrop,
    Swap,
    TogglePause,
}

/// Construction failures. A game is never built in an invalid state.
#[derive(Clone, Copy, PartialEq, Eq, Structural, Debug)]
pub enum GameError {
    /// The starting level lies outside 1..=MAX_LEVEL.
    InvalidLevel,
}

/// Levels never exceed this cap, and the gravity interval has a floor at it.
pub const MAX_LEVEL: u32 = 15;

/// Board width in cells for each mode.
pub open spec fn board_width(mode: Mode) -> int {
    match mode {
        Mode::Classic => 10,
        Mode::Modern => 15,
    }
}

/// Board height in cells; row 0 is the topmost row.
pub open spec fn board_height(mode: Mode) -> int {
    match mode {
        Mode::Classic => 20,
        Mode::Modern => 20,
    }
}

/// Milliseconds between gravity steps: shrinks by 50 per level from 1000,
/// reaching its floor of 250 at the level cap.
pub open spec fn fall_interval_ms(level: int) -> int {
    1000 - 50 * level
}

/// Pre-scaling score reward for clearing `k` rows at once.
pub open spec fn line_reward(k: int) -> int {
    if k == 1 {
        40
    } else if k == 2 {
        100
    } else if k == 3 {
        300
    } else if k >= 4 {
        1200
    } else {
        0
    }
}

/// The level after a clear: one step per ten-line boundary the cumulative
/// counter crossed, capped at MAX_LEVEL.
pub open spec fn level_after(level: int, lines_before: int, lines_after: int) -> int {
    let lvl = level + (lines_after / 10 - lines_before / 10);
    if lvl > MAX_LEVEL {
        MAX_LEVEL as int
    } else {
        lvl
    }
}

/// A cell the piece may not occupy: outside the board, or already filled.
pub open spec fn cell_blocked(board: Seq<Seq<bool>>, w: int, h: int, x: int, y: int) -> bool {
    x < 0 || x >= w || y < 0 || y >= h || board[y][x]
}

/// Whether a mask placed at (col, row) collides: some set mask cell maps to a
/// blocked board cell. This is the single authority for placement legality.
pub open spec fn spec_collides(
    board: Seq<Seq<bool>>,
    w: int,
    h: int,
    m: [[bool; 4]; 4],
    col: int,
    row: int,
) -> bool {
    exists|i: int, j: int|
        0 <= i < 4 && 0 <= j < 4 && (#[trigger] m[i][j]) && cell_blocked(
            board,
            w,
            h,
            col + j,
            row + i,
        )
}

/// The board with one cell set.
pub open spec fn set_cell(b: Seq<Seq<bool>>, y: int, x: int) -> Seq<Seq<bool>> {
    b.update(y, b[y].update(x, true))
}

/// Rows locked above the visible top are clamped onto row 0.
pub open spec fn clamp_row(y: int) -> int {
    if y < 0 {
        0
    } else {
        y
    }
}

/// The board after transferring the first `k` cells of the mask (in row-major
/// order) into it. Locking walks all 16 cells.
pub open spec fn lock_upto(
    b: Seq<Seq<bool>>,
    m: [[bool; 4]; 4],
    col: int,
    row: int,
    k: int,
) -> Seq<Seq<bool>>
    decreases k,
{
    if k <= 0 {
        b
    } else {
        let i = (k - 1) / 4;
        let j = (k - 1) % 4;
        let prev = lock_upto(b, m, col, row, k - 1);
        if m[i][j] {
            set_cell(prev, clamp_row(row + i), col + j)
        } else {
            prev
        }
    }
}

/// The board after locking a whole mask at (col, row).
pub open spec fn spec_lock(b: Seq<Seq<bool>>, m: [[bool; 4]; 4], col: int, row: int) -> Seq<
    Seq<bool>,
> {
    lock_upto(b, m, col, row, 16)
}

/// A row every cell of which is occupied.
pub open spec fn row_full(r: Seq<bool>) -> bool {
    forall|j: int| 0 <= j < r.len() ==> r[j]
}

/// The rows that survive a clear, in their original relative order.
pub open spec fn remove_full(b: Seq<Seq<bool>>) -> Seq<Seq<bool>>
    decreases b.len(),
{
    if b.len() == 0 {
        Seq::empty()
    } else if row_full(b[0]) {
        remove_full(b.drop_first())
    } else {
        seq![b[0]] + remove_full(b.drop_first())
    }
}

/// How many rows of the board are full.
pub open spec fn count_full(b: Seq<Seq<bool>>) -> int
    decreases b.len(),
{
    if b.len() == 0 {
        0
    } else {
        (if row_full(b[0]) {
            1int
        } else {
            0int
        }) + count_full(b.drop_first())
    }
}

/// An unoccupied row of width `w`.
pub open spec fn empty_row(w: int) -> Seq<bool> {
    Seq::new(w as nat, |j: int| false)
}

/// `k` unoccupied rows of width `w`.
pub open spec fn empty_rows(k: int, w: int) -> Seq<Seq<bool>> {
    Seq::new(k as nat, |i: int| empty_row(w))
}

/// Appending a row to a board appends it to the swept board too, unless the
/// row is full, in which case sweeping drops it and counts it.
proof fn lemma_remove_full_push(b: Seq<Seq<bool>>, r: Seq<bool>)
    ensures
        remove_full(b.push(r)) == remove_full(b) + (if row_full(r) {
            Seq::<Seq<bool>>::empty()
        } else {
            seq![r]
        }),
        count_full(b.push(r)) == count_full(b) + (if row_full(r) {
            1int
        } else {
            0int
        }),
    decreases b.len(),
{
    if b.len() == 0 {
        assert(b.push(r)[0] == r);
        assert(b.push(r).drop_first() =~= b);
        if row_full(r) {
            assert(remove_full(b.push(r)) =~= remove_full(b));
        } else {
            assert(remove_full(b.push(r)) =~= remove_full(b) + seq![r]);
        }
    } else {
        assert(b.push(r)[0] == b[0]);
        assert(b.push(r).drop_first() =~= b.drop_first().push(r));
        lemma_remove_full_push(b.drop_first(), r);
        assert(remove_full(b.push(r)) =~= remove_full(b) + (if row_full(r) {
            Seq::<Seq<bool>>::empty()
        } else {
            seq![r]
        }));
    }
}

/// Sweeping removes exactly the full rows: the survivors and the full-row
/// count add back up to the row count.
pub proof fn lemma_remove_count(b: Seq<Seq<bool>>)
    ensures
        remove_full(b).len() + count_full(b) == b.len(),
        count_full(b) >= 0,
    decreases b.len(),
{
    if b.len() == 0 {
    } else {
        lemma_remove_count(b.drop_first());
    }
}

/// The mathematical content of a match: the abstraction that the contracts
/// of every `Game` method are stated over.
pub struct GameModel {
    pub mode: Mode,
    pub curr: PieceModel,
    pub next: PieceModel,
    pub held: PieceModel,
    pub board: Seq<Seq<bool>>,
    pub last_fall_time: int,
    pub last_seen_time: int,
    pub pause_time: int,
    pub score: int,
    pub level: int,
    pub lines: int,
    pub phase: GamePhase,
}

/// A freshly spawned piece of the given shape: rotation 0, at the spawn
/// point of the mode (horizontally centered 4x4 box, top row).
pub open spec fn spawn_piece(mode: Mode, kind: TetrominoShape) -> PieceModel {
    PieceModel { kind, orientation: 0, col: board_width(mode) / 2 - 2, row: 0 }
}

impl GameModel {
    pub open spec fn w(self) -> int {
        board_width(self.mode)
    }

    pub open spec fn h(self) -> int {
        board_height(self.mode)
    }

    pub open spec fn spawn_col(self) -> int {
        self.w() / 2 - 2
    }

    /// Whether a piece collides with this board.
    pub open spec fn collides_piece(self, p: PieceModel) -> bool {
        spec_collides(self.board, self.w(), self.h(), p.mask(), p.col, p.row)
    }

    /// Every set cell of the active piece maps into the board once its row
    /// is clamped at the top: what locking needs to stay inside the grid.
    pub open spec fn lock_in_bounds(self) -> bool {
        forall|i: int, j: int|
            0 <= i < 4 && 0 <= j < 4 && (#[trigger] self.curr.mask()[i][j]) ==> 0 <= self.curr.col
                + j < self.w() && clamp_row(self.curr.row + i) < self.h()
    }

    /// The board has its full complement of rows, all of board width.
    pub open spec fn board_wf(self) -> bool {
        &&& self.board.len() == self.h()
        &&& forall|r: int| 0 <= r < self.board.len() ==> (#[trigger] self.board[r]).len() == self.w()
    }

    /// Structural facts that hold of every reachable match state, whatever
    /// its phase.
    pub open spec fn inv_base(self) -> bool {
        &&& self.board_wf()
        &&& 0 <= self.curr.orientation < 4
        &&& 0 <= self.next.orientation < 4
        &&& 0 <= self.held.orientation < 4
        &&& self.next.col == self.spawn_col()
        &&& self.next.row == 0
        &&& self.next.orientation == 0
        &&& 1 <= self.level <= MAX_LEVEL
        &&& 0 <= self.score <= u32::MAX
        &&& 0 <= self.lines <= u32::MAX
        &&& 0 <= self.last_fall_time <= self.last_seen_time
        &&& 0 <= self.pause_time <= self.last_seen_time
        &&& self.last_seen_time <= u64::MAX
        &&& (self.phase is Paused ==> self.last_fall_time <= self.pause_time)
    }

    /// The match invariant: the active piece sits on free in-bounds cells in
    /// every phase but GameOver.
    pub open spec fn inv(self) -> bool {
        &&& self.inv_base()
        &&& (!(self.phase is GameOver) ==> !self.collides_piece(self.curr))
    }
}

/// The starting state of a match.
pub open spec fn initial_model(
    mode: Mode,
    level: int,
    first: TetrominoShape,
    second: TetrominoShape,
    third: TetrominoShape,
) -> GameModel {
    GameModel {
        mode,
        curr: spawn_piece(mode, first),
        next: spawn_piece(mode, second),
        held: spawn_piece(mode, third),
        board: empty_rows(board_height(mode), board_width(mode)),
        last_fall_time: 0,
        last_seen_time: 0,
        pause_time: 0,
        score: 0,
        level,
        lines: 0,
        phase: GamePhase::NotStarted,
    }
}

/// The match after sweeping full rows: the surviving rows keep their order
/// below as many empty rows as were removed; the reward-table entry for the
/// removed count, scaled by (level + 1), is added to the score; the line
/// counter grows by the removed count; and the level steps once per ten-line
/// boundary the counter crossed, capped at MAX_LEVEL.
pub open spec fn step_clear(m: GameModel) -> GameModel {
    let kept = remove_full(m.board);
    let removed = m.board.len() - kept.len();
    let lines2 = m.lines + removed;
    GameModel {
        board: empty_rows(removed, m.w()) + kept,
        score: m.score + line_reward(removed) * (m.level + 1),
        lines: lines2,
        level: level_after(m.level, m.lines, lines2),
        ..m
    }
}

/// The pause toggle: NotStarted and Paused resume to Running, Running
/// pauses. Resuming shifts the gravity clock forward by the paused duration,
/// so elapsed-but-unconsumed fall time is frozen, not reset. GameOver is
/// terminal and never reached here.
pub open spec fn step_toggle(m: GameModel, now: int) -> GameModel {
    match m.phase {
        GamePhase::NotStarted => GameModel {
            phase: GamePhase::Running,
            last_fall_time: now,
            ..m
        },
        GamePhase::Running => GameModel { phase: GamePhase::Paused, pause_time: now, ..m },
        GamePhase::Paused => GameModel {
            phase: GamePhase::Running,
            last_fall_time: m.last_fall_time + (now - m.pause_time),
            ..m
        },
        GamePhase::GameOver => m,
    }
}

/// A horizontal move: the candidate one column over is committed when it
/// does not collide and discarded silently otherwise.
pub open spec fn step_shift(m: GameModel, dc: int) -> GameModel {
    let cand = PieceModel { col: m.curr.col + dc, ..m.curr };
    if m.collides_piece(cand) {
        m
    } else {
        GameModel { curr: cand, ..m }
    }
}

/// A rotation: the candidate with the adjacent rotation state at the same
/// position is committed when it does not collide; no kick offsets are
/// tried.
pub open spec fn step_rotate(m: GameModel, delta: int) -> GameModel {
    let cand = PieceModel { orientation: (m.curr.orientation + delta) % 4, ..m.curr };
    if m.collides_piece(cand) {
        m
    } else {
        GameModel { curr: cand, ..m }
    }
}

/// The swap move, Modern only: the held piece takes over the active piece's
/// position and the active piece is put away as held, kept whole. The
/// exchange is validated like any other candidate and discarded when the
/// held piece cannot stand at that position.
pub open spec fn step_swap(m: GameModel) -> GameModel {
    match m.mode {
        Mode::Classic => m,
        Mode::Modern => {
            let cand = PieceModel { col: m.curr.col, row: m.curr.row, ..m.held };
            if m.collides_piece(cand) {
                m
            } else {
                GameModel { curr: cand, held: m.curr, ..m }
            }
        },
    }
}

/// The lock sequence: the active piece is transferred into the board, full
/// rows are swept with their score, line and level effects, the queued piece
/// is promoted and a fresh piece of the given shape queued, and the match
/// ends if the promoted piece already collides at its spawn position.
pub open spec fn step_lock(m: GameModel, fresh: TetrominoShape) -> GameModel {
    let locked = GameModel {
        board: spec_lock(m.board, m.curr.mask(), m.curr.col, m.curr.row),
        ..m
    };
    let c = step_clear(locked);
    let promoted = GameModel { curr: c.next, next: spawn_piece(c.mode, fresh), ..c };
    if promoted.collides_piece(promoted.curr) {
        GameModel { phase: GamePhase::GameOver, ..promoted }
    } else {
        promoted
    }
}

/// A one-row downward move: committed when free, and a lock event (not a
/// discard) when the cell below is taken.
pub open spec fn step_soft_drop(m: GameModel, fresh: TetrominoShape) -> GameModel {
    let cand = PieceModel { row: m.curr.row + 1, ..m.curr };
    if m.collides_piece(cand) {
        step_lock(m, fresh)
    } else {
        GameModel { curr: cand, ..m }
    }
}

/// The lowest row at or below `row` from which the mask cannot move down
/// one more: where a hard drop comes to rest. The `row >= h` guard only
/// keeps the recursion finite for masks with no set cells; any catalog mask
/// collides at the floor first.
pub open spec fn landing_row(
    board: Seq<Seq<bool>>,
    w: int,
    h: int,
    m: [[bool; 4]; 4],
    col: int,
    row: int,
) -> int
    decreases h - row,
{
    if row >= h {
        row
    } else if spec_collides(board, w, h, m, col, row + 1) {
        row
    } else {
        landing_row(board, w, h, m, col, row + 1)
    }
}

/// A hard drop: the piece falls to its landing row and the lock sequence
/// runs at once.
pub open spec fn step_hard_drop(m: GameModel, fresh: TetrominoShape) -> GameModel {
    let r = landing_row(m.board, m.w(), m.h(), m.curr.mask(), m.curr.col, m.curr.row);
    step_lock(GameModel { curr: PieceModel { row: r, ..m.curr }, ..m }, fresh)
}

/// Dispatch of one optional input event. TogglePause acts in every phase
/// but GameOver; every other event acts only while Running and is ignored
/// otherwise.
pub open spec fn step_input(
    m: GameModel,
    input: Option<InputEvent>,
    now: int,
    fresh: TetrominoShape,
) -> GameModel {
    match input {
        Option::None => m,
        Option::Some(InputEvent::TogglePause) => step_toggle(m, now),
        Option::Some(ev) => if !(m.phase is Running) {
            m
        } else {
            match ev {
                InputEvent::MoveLeft => step_shift(m, -1),
                InputEvent::MoveRight => step_shift(m, 1),
                InputEvent::RotateLeft => step_rotate(m, 3),
                InputEvent::RotateRight => step_rotate(m, 1),
                InputEvent::SoftDrop => step_soft_drop(m, fresh),
                InputEvent::HardDrop => step_hard_drop(m, fresh),
                InputEvent::Swap => step_swap(m),
                InputEvent::TogglePause => m,
            }
        },
    }
}

/// Time-driven gravity: while Running, once at least the fall interval has
/// passed since the last fall, the piece advances one row, locking instead
/// when the row below is taken, and the fall clock restarts at `now`.
pub open spec fn step_gravity(m: GameModel, now: int, fresh: TetrominoShape) -> GameModel {
    if !(m.phase is Running) {
        m
    } else if now - m.last_fall_time >= fall_interval_ms(m.level) {
        let cand = PieceModel { row: m.curr.row + 1, ..m.curr };
        let m2 = if m.collides_piece(cand) {
            step_lock(m, fresh)
        } else {
            GameModel { curr: cand, ..m }
        };
        GameModel { last_fall_time: now, ..m2 }
    } else {
        m
    }
}

/// One tick: in GameOver nothing moves; otherwise the tick timestamp is
/// recorded, the input event (if any) is dispatched, and gravity runs on the
/// result. `fresh` and `extra` are the shapes queued by the input-driven and
/// the gravity-driven lock respectively, when those occur.
pub open spec fn spec_update(
    m: GameModel,
    input: Option<InputEvent>,
    now: int,
    fresh: TetrominoShape,
    extra: TetrominoShape,
) -> GameModel {
    if m.phase is GameOver {
        m
    } else {
        let m1 = GameModel { last_seen_time: now, ..m };
        step_gravity(step_input(m1, input, now, fresh), now, extra)
    }
}

/// Occupied cells in a row.
pub open spec fn row_count(r: Seq<bool>) -> int
    decreases r.len(),
{
    if r.len() == 0 {
        0
    } else {
        (if r[r.len() - 1] {
            1int
        } else {
            0int
        }) + row_count(r.drop_last())
    }
}

/// Occupied cells on the whole board.
pub open spec fn board_count(b: Seq<Seq<bool>>) -> int
    decreases b.len(),
{
    if b.len() == 0 {
        0
    } else {
        row_count(b[b.len() - 1]) + board_count(b.drop_last())
    }
}

/// Set cells among the first `k` mask entries in row-major order.
pub open spec fn mask_count_upto(m: [[bool; 4]; 4], k: int) -> int
    decreases k,
{
    if k <= 0 {
        0
    } else {
        mask_count_upto(m, k - 1) + (if m[(k - 1) / 4][(k - 1) % 4] {
            1int
        } else {
            0int
        })
    }
}

/// The popcount of a mask: how many of its 16 cells are set.
pub open spec fn mask_popcount(m: [[bool; 4]; 4]) -> int {
    mask_count_upto(m, 16)
}

/// Setting a free cell raises the row's occupied count by exactly one.
proof fn lemma_row_count_update(r: Seq<bool>, x: int)
    requires
        0 <= x < r.len(),
        !r[x],
    ensures
        row_count(r.update(x, true)) == row_count(r) + 1,
    decreases r.len(),
{
    let r2 = r.update(x, true);
    if x == r.len() - 1 {
        assert(r2.drop_last() =~= r.drop_last());
    } else {
        assert(r2.drop_last() =~= r.drop_last().update(x, true));
        lemma_row_count_update(r.drop_last(), x);
    }
}

/// Setting a free cell raises the board's occupied count by exactly one.
proof fn lemma_board_count_update(b: Seq<Seq<bool>>, y: int, x: int)
    requires
        0 <= y < b.len(),
        0 <= x < b[y].len(),
        !b[y][x],
    ensures
        board_count(set_cell(b, y, x)) == board_count(b) + 1,
    decreases b.len(),
{
    let b2 = set_cell(b, y, x);
    if y == b.len() - 1 {
        assert(b2.drop_last() =~= b.drop_last());
        lemma_row_count_update(b[y], x);
        assert(b2[b2.len() - 1] == b[y].update(x, true));
    } else {
        assert(b2.drop_last() =~= set_cell(b.drop_last(), y, x));
        lemma_board_count_update(b.drop_last(), y, x);
        assert(b2[b2.len() - 1] == b[b.len() - 1]);
    }
}

/// Induction behind the lock-count law: after the first `k` mask entries are
/// transferred, the occupied count has grown by the set entries among them,
/// entries not yet transferred still see their original cells, and no
/// occupied cell has been erased.
proof fn lemma_lock_upto_count(
    b: Seq<Seq<bool>>,
    m: [[bool; 4]; 4],
    col: int,
    row: int,
    w: int,
    h: int,
    k: int,
)
    requires
        b.len() == h,
        forall|r: int| 0 <= r < h ==> (#[trigger] b[r]).len() == w,
        0 <= k <= 16,
        forall|i: int, j: int|
            0 <= i < 4 && 0 <= j < 4 && (#[trigger] m[i][j]) ==> 0 <= col + j < w && 0 <= row + i
                < h && !b[row + i][col + j],
    ensures
        lock_upto(b, m, col, row, k).len() == h,
        forall|r: int| 0 <= r < h ==> (#[trigger] lock_upto(b, m, col, row, k)[r]).len() == w,
        board_count(lock_upto(b, m, col, row, k)) == board_count(b) + mask_count_upto(m, k),
        forall|i: int, j: int|
            0 <= i < 4 && 0 <= j < 4 && (#[trigger] m[i][j]) && 4 * i + j >= k ==> lock_upto(
                b,
                m,
                col,
                row,
                k,
            )[row + i][col + j] == b[row + i][col + j],
        forall|y: int, x: int|
            0 <= y < h && 0 <= x < w && b[y][x] ==> lock_upto(b, m, col, row, k)[y][x],
    decreases k,
{
    if k <= 0 {
    } else {
        lemma_lock_upto_count(b, m, col, row, w, h, k - 1);
        let i = (k - 1) / 4;
        let j = (k - 1) % 4;
        assert(0 <= i < 4 && 0 <= j < 4 && 4 * i + j == k - 1) by (nonlinear_arith)
            requires
                0 < k <= 16,
                i == (k - 1) / 4,
                j == (k - 1) % 4,
        ;
        let prev = lock_upto(b, m, col, row, k - 1);
        let cur = lock_upto(b, m, col, row, k);
        if m[i][j] {
            assert(prev[row + i][col + j] == b[row + i][col + j]);
            assert(clamp_row(row + i) == row + i);
            lemma_board_count_update(prev, row + i, col + j);
            assert forall|i2: int, j2: int|
                0 <= i2 < 4 && 0 <= j2 < 4 && (#[trigger] m[i2][j2]) && 4 * i2 + j2
                    >= k implies cur[row + i2][col + j2] == b[row + i2][col + j2] by {
                assert(4 * i2 + j2 > 4 * i + j);
                if i2 == i {
                    assert(j2 != j);
                    assert(cur[row + i2] == prev[row + i].update(col + j, true));
                    assert(cur[row + i2][col + j2] == prev[row + i2][col + j2]);
                } else {
                    assert(row + i2 != row + i);
                    assert(cur[row + i2] == prev[row + i2]);
                }
            }
        } else {
        }
    }
}

/// Lock idempotence of geometry: locking a piece at a validated,
/// non-colliding position raises the occupied-cell count by exactly the
/// popcount of its mask; every set mask cell lands on a previously free
/// in-bounds cell, and no occupied cell is ever erased.
pub proof fn lemma_lock_geometry(
    b: Seq<Seq<bool>>,
    m: [[bool; 4]; 4],
    col: int,
    row: int,
    w: int,
    h: int,
)
    requires
        b.len() == h,
        forall|r: int| 0 <= r < h ==> (#[trigger] b[r]).len() == w,
        !spec_collides(b, w, h, m, col, row),
    ensures
        board_count(spec_lock(b, m, col, row)) == board_count(b) + mask_popcount(m),
        forall|i: int, j: int|
            0 <= i < 4 && 0 <= j < 4 && (#[trigger] m[i][j]) ==> 0 <= col + j < w && 0 <= row + i
                < h && !b[row + i][col + j],
        forall|y: int, x: int| 0 <= y < h && 0 <= x < w && b[y][x] ==> spec_lock(b, m, col, row)[y][x],
{
    assert forall|i: int, j: int|
        0 <= i < 4 && 0 <= j < 4 && (#[trigger] m[i][j]) implies 0 <= col + j < w && 0 <= row + i
        < h && !b[row + i][col + j] by {
        if cell_blocked(b, w, h, col + j, row + i) {
            assert(spec_collides(b, w, h, m, col, row));
        }
    }
    lemma_lock_upto_count(b, m, col, row, w, h, 16);
}

/// Sweeping keeps exactly the rows that are not full, in their original
/// order, and a board with no full row is kept whole.
pub proof fn lemma_remove_full_keeps_nonfull(b: Seq<Seq<bool>>)
    ensures
        forall|r: int| 0 <= r < remove_full(b).len() ==> !row_full(#[trigger] remove_full(b)[r]),
        count_full(b) == 0 ==> remove_full(b) == b,
    decreases b.len(),
{
    lemma_remove_count(b);
    if b.len() == 0 {
    } else {
        lemma_remove_full_keeps_nonfull(b.drop_first());
        lemma_remove_count(b.drop_first());
        if count_full(b) == 0 {
            assert(seq![b[0]] + remove_full(b.drop_first()) =~= b);
        }
    }
}

/// Bounds invariant: while a match has not ended, every occupied cell of
/// the active piece lies inside the board. `update` ends in a well-formed
/// game, so every committed move or rotation preserves this.
pub proof fn lemma_active_piece_in_bounds(m: GameModel)
    requires
        m.inv(),
        !(m.phase is GameOver),
    ensures
        forall|i: int, j: int|
            0 <= i < 4 && 0 <= j < 4 && (#[trigger] m.curr.mask()[i][j]) ==> 0 <= m.curr.col + j
                < m.w() && 0 <= m.curr.row + i < m.h(),
{
    assert forall|i: int, j: int|
        0 <= i < 4 && 0 <= j < 4 && (#[trigger] m.curr.mask()[i][j]) implies 0 <= m.curr.col + j
        < m.w() && 0 <= m.curr.row + i < m.h() by {
        if cell_blocked(m.board, m.w(), m.h(), m.curr.col + j, m.curr.row + i) {
            assert(spec_collides(m.board, m.w(), m.h(), m.curr.mask(), m.curr.col, m.curr.row));
        }
    }
}

/// Rotation cycle: four clockwise rotations, each validated as succeeding
/// (as they are in open space, where no rotation state of the shape
/// collides), return the match to exactly its prior state; in particular
/// the piece regains its original rotation state and position.
pub proof fn lemma_rotation_cycle(m: GameModel)
    requires
        0 <= m.curr.orientation < 4,
        forall|d: int|
            0 <= d < 4 ==> !spec_collides(
                m.board,
                m.w(),
                m.h(),
                masks_of(m.curr.kind)[d],
                m.curr.col,
                m.curr.row,
            ),
    ensures
        step_rotate(step_rotate(step_rotate(step_rotate(m, 1), 1), 1), 1) == m,
{
    let m1 = step_rotate(m, 1);
    let m2 = step_rotate(m1, 1);
    let m3 = step_rotate(m2, 1);
    let m4 = step_rotate(m3, 1);
    assert(m1 == GameModel {
        curr: PieceModel { orientation: (m.curr.orientation + 1) % 4, ..m.curr },
        ..m
    });
    assert(m2 == GameModel {
        curr: PieceModel { orientation: (m.curr.orientation + 2) % 4, ..m.curr },
        ..m
    });
    assert(m3 == GameModel {
        curr: PieceModel { orientation: (m.curr.orientation + 3) % 4, ..m.curr },
        ..m
    });
    assert(m4.curr.orientation == m.curr.orientation);
    assert(m4 == m);
}

/// Score and level bounds of one sweep: the score moves up by exactly the
/// reward of the removed count scaled by (level + 1), so it never moves
/// down; the line counter never shrinks; the level never leaves
/// [level, MAX_LEVEL]; and a sweep that removes nothing changes nothing.
pub proof fn lemma_step_clear_bounds(m: GameModel)
    requires
        0 <= m.level <= MAX_LEVEL,
        0 <= m.lines,
    ensures
        step_clear(m).score == m.score + line_reward(
            m.board.len() - remove_full(m.board).len(),
        ) * (m.level + 1),
        step_clear(m).score >= m.score,
        step_clear(m).lines >= m.lines,
        m.level <= step_clear(m).level <= MAX_LEVEL,
        step_clear(m).level - m.level == step_clear(m).lines / 10 - m.lines / 10 || step_clear(
            m,
        ).level == MAX_LEVEL,
        count_full(m.board) == 0 ==> step_clear(m) == m,
{
    lemma_remove_count(m.board);
    let removed = m.board.len() - remove_full(m.board).len();
    assert(removed >= 0);
    assert(line_reward(removed) >= 0);
    assert(line_reward(removed) * (m.level + 1) >= 0) by (nonlinear_arith)
        requires
            line_reward(removed) >= 0,
            m.level >= 0,
    ;
    vstd::arithmetic::div_mod::lemma_div_is_ordered(m.lines, m.lines + removed, 10);
    if count_full(m.board) == 0 {
        lemma_remove_full_keeps_nonfull(m.board);
        assert(empty_rows(0, m.w()) + remove_full(m.board) =~= m.board);
    }
}

/// The lock sequence never lowers the score or the line counter, and keeps
/// the level inside [level, MAX_LEVEL].
proof fn lemma_step_lock_bounds(m: GameModel, fresh: TetrominoShape)
    requires
        0 <= m.level <= MAX_LEVEL,
        0 <= m.lines,
    ensures
        step_lock(m, fresh).score >= m.score,
        step_lock(m, fresh).lines >= m.lines,
        m.level <= step_lock(m, fresh).level <= MAX_LEVEL,
{
    let locked = GameModel {
        board: spec_lock(m.board, m.curr.mask(), m.curr.col, m.curr.row),
        ..m
    };
    lemma_step_clear_bounds(locked);
}

/// One input dispatch never lowers the score or the line counter, and keeps
/// the level inside [level, MAX_LEVEL].
proof fn lemma_step_input_bounds(
    m: GameModel,
    input: Option<InputEvent>,
    now: int,
    fresh: TetrominoShape,
)
    requires
        0 <= m.level <= MAX_LEVEL,
        0 <= m.lines,
    ensures
        step_input(m, input, now, fresh).score >= m.score,
        step_input(m, input, now, fresh).lines >= m.lines,
        m.level <= step_input(m, input, now, fresh).level <= MAX_LEVEL,
{
    match input {
        Option::None => {},
        Option::Some(InputEvent::TogglePause) => {},
        Option::Some(ev) => {
            if m.phase is Running {
                match ev {
                    InputEvent::SoftDrop => {
                        lemma_step_lock_bounds(m, fresh);
                    },
                    InputEvent::HardDrop => {
                        let r = landing_row(m.board, m.w(), m.h(), m.curr.mask(), m.curr.col, m.curr.row);
                        lemma_step_lock_bounds(
                            GameModel { curr: PieceModel { row: r, ..m.curr }, ..m },
                            fresh,
                        );
                    },
                    _ => {},
                }
            }
        },
    }
}

/// Score monotonicity: one tick of the match never lowers the score, the
/// line counter, or the level, whatever the event, clock and queued shapes.
pub proof fn lemma_update_score_monotonic(
    m: GameModel,
    input: Option<InputEvent>,
    now: int,
    fresh: TetrominoShape,
    extra: TetrominoShape,
)
    requires
        0 <= m.level <= MAX_LEVEL,
        0 <= m.lines,
    ensures
        spec_update(m, input, now, fresh, extra).score >= m.score,
        spec_update(m, input, now, fresh, extra).lines >= m.lines,
        m.level <= spec_update(m, input, now, fresh, extra).level <= MAX_LEVEL,
{
    if m.phase is GameOver {
    } else {
        let m1 = GameModel { last_seen_time: now, ..m };
        lemma_step_input_bounds(m1, input, now, fresh);
        let m2 = step_input(m1, input, now, fresh);
        if m2.phase is Running && now - m2.last_fall_time >= fall_interval_ms(m2.level) {
            let cand = PieceModel { row: m2.curr.row + 1, ..m2.curr };
            if m2.collides_piece(cand) {
                lemma_step_lock_bounds(m2, extra);
            }
        }
    }
}

/// Level progression: a sweep steps the level by exactly the number of
/// ten-line boundaries the cumulative line counter crossed, except where the
/// cap cuts it off; it never exceeds MAX_LEVEL, and a sweep that removes no
/// rows moves neither the level nor anything else.
pub proof fn lemma_level_progression(m: GameModel)
    requires
        0 <= m.level <= MAX_LEVEL,
        0 <= m.lines,
    ensures
        step_clear(m).level <= MAX_LEVEL,
        m.level <= step_clear(m).level,
        step_clear(m).level - m.level == step_clear(m).lines / 10 - m.lines / 10 || step_clear(
            m,
        ).level == MAX_LEVEL,
        count_full(m.board) == 0 ==> step_clear(m) == m,
{
    lemma_step_clear_bounds(m);
}

/// A well-formed piece that does not collide sits just inside the board:
/// every catalog mask has its cell (1,1) set, so that cell pins the
/// position window.
proof fn lemma_piece_window(board: Seq<Seq<bool>>, w: int, h: int, p: PieceModel)
    requires
        0 <= p.orientation < 4,
        !spec_collides(board, w, h, p.mask(), p.col, p.row),
    ensures
        -1 <= p.col <= w - 2,
        -1 <= p.row <= h - 2,
{
    crate::tetromino::lemma_mask_center(p.kind);
    assert(p.mask()[1][1]);
    if cell_blocked(board, w, h, p.col + 1, p.row + 1) {
        assert(spec_collides(board, w, h, p.mask(), p.col, p.row));
    }
}

/// The view of `Vec` rows as a mathematical board.
pub open spec fn board_of(rows: Seq<Vec<bool>>) -> Seq<Seq<bool>> {
    Seq::new(rows.len(), |i: int| rows[i]@)
}

/// Whether every cell of the row is occupied.
fn row_is_full(r: &Vec<bool>) -> (b: bool)
    ensures
        b == row_full(r@),
{
    let mut j: usize = 0;
    while j < r.len()
        invariant
            j <= r@.len(),
            forall|k: int| 0 <= k < j ==> r@[k],
        decreases r@.len() - j,
    {
        if !r[j] {
            assert(!r@[j as int]);
            return false;
        }
        j += 1;
    }
    true
}

/// Transfers every set cell of the mask into the grid at (col, row), row
/// indices clamped at the top of the grid.
fn lock_mask_into(
    grid: &mut Vec<Vec<bool>>,
    shape: [[bool; 4]; 4],
    col: i32,
    row: i32,
    w: usize,
    h: usize,
)
    requires
        old(grid)@.len() == h,
        forall|r: int| 0 <= r < h ==> (#[trigger] old(grid)@[r])@.len() == w,
        forall|i: int, j: int|
            0 <= i < 4 && 0 <= j < 4 && (#[trigger] shape[i][j]) ==> 0 <= col + j < w && clamp_row(
                row + i,
            ) < h,
    ensures
        board_of(final(grid)@) == spec_lock(board_of(old(grid)@), shape, col as int, row as int),
        final(grid)@.len() == h,
        forall|r: int| 0 <= r < h ==> (#[trigger] final(grid)@[r])@.len() == w,
{
    let ghost b0 = board_of(old(grid)@);
    let mut i: usize = 0;
    while i < 4
        invariant
            grid@.len() == h,
            forall|r: int| 0 <= r < h ==> (#[trigger] grid@[r])@.len() == w,
            forall|i0: int, j0: int|
                0 <= i0 < 4 && 0 <= j0 < 4 && (#[trigger] shape[i0][j0]) ==> 0 <= col + j0 < w
                    && clamp_row(row + i0) < h,
            i <= 4,
            board_of(grid@) == lock_upto(b0, shape, col as int, row as int, 4 * i),
        decreases 4 - i,
    {
        let mut j: usize = 0;
        while j < 4
            invariant
                grid@.len() == h,
                forall|r: int| 0 <= r < h ==> (#[trigger] grid@[r])@.len() == w,
                forall|i0: int, j0: int|
                    0 <= i0 < 4 && 0 <= j0 < 4 && (#[trigger] shape[i0][j0]) ==> 0 <= col + j0 < w
                        && clamp_row(row + i0) < h,
                i < 4,
                j <= 4,
                board_of(grid@) == lock_upto(b0, shape, col as int, row as int, 4 * i + j),
            decreases 4 - j,
        {
            let ghost k: int = 4 * i + j;
            let ghost before = board_of(grid@);
            if shape[i][j] {
                let y_raw: i64 = row as i64 + i as i64;
                let y: usize = if y_raw < 0 {
                    0
                } else {
                    y_raw as usize
                };
                let x: usize = (col as i64 + j as i64) as usize;
                assert(y as int == clamp_row(row + i as int));
                assert(x as int == col + j as int);
                grid[y][x] = true;
                proof {
                    assert(board_of(grid@) =~~= set_cell(before, y as int, x as int));
                }
            }
            proof {
                assert((k + 1 - 1) / 4 == i as int && (k + 1 - 1) % 4 == j as int) by (nonlinear_arith)
                    requires
                        k == 4 * (i as int) + j as int,
                        0 <= i < 4,
                        0 <= j < 4,
                ;
                assert(board_of(grid@) == lock_upto(b0, shape, col as int, row as int, k + 1));
            }
            j += 1;
        }
        i += 1;
    }
}

/// The rules-and-state engine of one match: the playfield grid, the active,
/// queued and held pieces, scoring, leveling and the phase machine. The
/// caller drives it by calling `update` once per tick with at most one input
/// event, the current time, and shapes to draw from when pieces spawn.
pub struct Game {
    pub mode: Mode,
    pub curr_piece: Tetromino,
    pub next_piece: Tetromino,
    pub swap_piece: Tetromino,
    pub game_state: Vec<Vec<bool>>,
    pub last_fall_time: u64,
    pub last_seen_time: u64,
    pub pause_time: u64,
    pub score: u32,
    pub level: u32,
    pub lines: u32,
    pub phase: GamePhase,
}

impl View for Game {
    type V = GameModel;

    open spec fn view(&self) -> GameModel {
        GameModel {
            mode: self.mode,
            curr: self.curr_piece@,
            next: self.next_piece@,
            held: self.swap_piece@,
            board: board_of(self.game_state@),
            last_fall_time: self.last_fall_time as int,
            last_seen_time: self.last_seen_time as int,
            pause_time: self.pause_time as int,
            score: self.score as int,
            level: self.level as int,
            lines: self.lines as int,
            phase: self.phase,
        }
    }
}

impl Game {
    /// A game is well formed when its model satisfies the match invariant
    /// and each held piece instance carries the catalog masks of its shape.
    pub open spec fn wf(self) -> bool {
        &&& self@.inv()
        &&& self.curr_piece.wf()
        &&& self.next_piece.wf()
        &&& self.swap_piece.wf()
    }

    /// Board width in cells.
    pub fn width(&self) -> (w: usize)
        ensures
            w as int == self@.w(),
    {
        match self.mode {
            Mode::Classic => 10,
            Mode::Modern => 15,
        }
    }

    /// Board height in cells.
    pub fn height(&self) -> (h: usize)
        ensures
            h as int == self@.h(),
    {
        match self.mode {
            Mode::Classic => 20,
            Mode::Modern => 20,
        }
    }

    /// The column where new pieces spawn.
    pub fn spawn_col(&self) -> (c: i32)
        ensures
            c as int == self@.spawn_col(),
    {
        match self.mode {
            Mode::Classic => 3,
            Mode::Modern => 5,
        }
    }

    /// Builds a match in its starting state: an empty board, the three given
    /// shapes as active, queued and held pieces at the spawn point, score and
    /// line counter zero, and the phase NotStarted. Fails exactly when the
    /// starting level lies outside 1..=MAX_LEVEL.
    pub fn new(
        mode: Mode,
        level: u32,
        first: TetrominoShape,
        second: TetrominoShape,
        third: TetrominoShape,
    ) -> (r: Result<Game, GameError>)
        ensures
            r is Ok <==> 1 <= level <= MAX_LEVEL,
            r matches Ok(g) ==> g.wf() && g@ == initial_model(
                mode,
                level as int,
                first,
                second,
                third,
            ),
            r matches Err(e) ==> e == GameError::InvalidLevel,
    {
        if level < 1 || level > MAX_LEVEL {
            return Err(GameError::InvalidLevel);
        }
        let w = match mode {
            Mode::Classic => 10usize,
            Mode::Modern => 15usize,
        };
        let h = 20usize;
        let mut grid: Vec<Vec<bool>> = Vec::new();
        let mut r: usize = 0;
        while r < h
            invariant
                r <= h,
                grid@.len() == r,
                forall|k: int| 0 <= k < r ==> (#[trigger] grid@[k])@ == empty_row(w as int),
            decreases h - r,
        {
            let row: Vec<bool> = vec![false; w];
            proof {
                assert(row@ =~= empty_row(w as int));
            }
            grid.push(row);
            r += 1;
        }
        let sc = match mode {
            Mode::Classic => 3i32,
            Mode::Modern => 5i32,
        };
        let g = Game {
            mode,
            curr_piece: Tetromino::new(first, sc, 0),
            next_piece: Tetromino::new(second, sc, 0),
            swap_piece: Tetromino::new(third, sc, 0),
            game_state: grid,
            last_fall_time: 0,
            last_seen_time: 0,
            pause_time: 0,
            score: 0,
            level,
            lines: 0,
            phase: GamePhase::NotStarted,
        };
        proof {
            assert(g@.board =~~= empty_rows(board_height(mode), board_width(mode)));
            assert(g@ == initial_model(mode, level as int, first, second, third));
            assert forall|i: int, j: int|
                0 <= i < 4 && 0 <= j < 4 && (#[trigger] g@.curr.mask()[i][j]) implies !cell_blocked(
                g@.board,
                g@.w(),
                g@.h(),
                g@.curr.col + j,
                g@.curr.row + i,
            ) by {
                assert(g@.board[g@.curr.row + i] == empty_row(g@.w()));
            }
        }
        Ok(g)
    }

    /// Whether the given mask placed at (col, row) would fall outside the
    /// board or land on an occupied cell.
    pub fn is_collision(&self, shape: [[bool; 4]; 4], col: i32, row: i32) -> (b: bool)
        requires
            self@.board_wf(),
        ensures
            b == spec_collides(self@.board, self@.w(), self@.h(), shape, col as int, row as int),
    {
        let w = self.width() as i64;
        let h = self.height() as i64;
        let mut i: usize = 0;
        while i < 4
            invariant
                self@.board_wf(),
                w == self@.w(),
                h == self@.h(),
                i <= 4,
                forall|i0: int, j0: int|
                    0 <= i0 < i && 0 <= j0 < 4 ==> !((#[trigger] shape[i0][j0]) && cell_blocked(
                        self@.board,
                        w as int,
                        h as int,
                        col + j0,
                        row + i0,
                    )),
            decreases 4 - i,
        {
            let mut j: usize = 0;
            while j < 4
                invariant
                    self@.board_wf(),
                    w == self@.w(),
                    h == self@.h(),
                    i < 4,
                    j <= 4,
                    forall|i0: int, j0: int|
                        0 <= i0 < i && 0 <= j0 < 4 ==> !((#[trigger] shape[i0][j0])
                            && cell_blocked(
                            self@.board,
                            w as int,
                            h as int,
                            col + j0,
                            row + i0,
                        )),
                    forall|j0: int|
                        0 <= j0 < j ==> !((#[trigger] shape[i as int][j0]) && cell_blocked(
                            self@.board,
                            w as int,
                            h as int,
                            col + j0,
                            row + i as int,
                        )),
                decreases 4 - j,
            {
                if shape[i][j] {
                    let x: i64 = col as i64 + j as i64;
                    let y: i64 = row as i64 + i as i64;
                    if x < 0 || x >= w || y < 0 || y >= h {
                        return true;
                    }
                    proof {
                        assert(self@.board[y as int] == self.game_state@[y as int]@);
                    }
                    if self.game_state[y as usize][x as usize] {
                        return true;
                    }
                }
                j += 1;
            }
            i += 1;
        }
        false
    }

    /// Transfers the active piece's occupied cells into the playfield grid,
    /// permanently. The caller must already have validated the placement:
    /// locking itself checks nothing beyond clamping rows at the top.
    pub fn lock_piece(&mut self)
        requires
            old(self)@.inv_base(),
            old(self).curr_piece.wf(),
            old(self)@.lock_in_bounds(),
        ensures
            final(self)@ == (GameModel {
                board: spec_lock(
                    old(self)@.board,
                    old(self)@.curr.mask(),
                    old(self)@.curr.col,
                    old(self)@.curr.row,
                ),
                ..old(self)@
            }),
            final(self)@.inv_base(),
            final(self).curr_piece == old(self).curr_piece,
            final(self).next_piece == old(self).next_piece,
            final(self).swap_piece == old(self).swap_piece,
    {
        let shape = self.curr_piece.get_shape();
        let w = self.width();
        let h = self.height();
        let col = self.curr_piece.col;
        let row = self.curr_piece.row;
        proof {
            assert forall|r: int| 0 <= r < h implies (#[trigger] self.game_state@[r])@.len()
                == w by {
                assert(self@.board[r] == self.game_state@[r]@);
            }
        }
        lock_mask_into(&mut self.game_state, shape, col, row, w, h);
    }

    /// Sweeps every full row out of the grid, prepends as many empty rows at
    /// the top, and converts the removed count into score, line-counter and
    /// level deltas. Returns how many rows were removed. One sweep adds at
    /// most 1200 * (MAX_LEVEL + 1) = 19200 points and at most a board height
    /// of lines, which is where the headroom demanded of the counters comes
    /// from.
    pub fn clear_lines(&mut self) -> (removed: usize)
        requires
            old(self)@.inv_base(),
            old(self)@.score + 19200 <= u32::MAX,
            old(self)@.lines + old(self)@.h() <= u32::MAX,
        ensures
            final(self)@ == step_clear(old(self)@),
            removed as int == count_full(old(self)@.board),
            final(self)@.inv_base(),
            old(self)@.score <= final(self)@.score <= old(self)@.score + 19200,
            old(self)@.lines <= final(self)@.lines <= old(self)@.lines + old(self)@.h(),
            final(self).curr_piece == old(self).curr_piece,
            final(self).next_piece == old(self).next_piece,
            final(self).swap_piece == old(self).swap_piece,
    {
        let h = self.height();
        let w = self.width();
        let ghost b0 = self@.board;
        let mut kept: Vec<Vec<bool>> = Vec::new();
        let mut idx: usize = 0;
        while idx < h
            invariant
                self@.board_wf(),
                h as int == self@.h(),
                w as int == self@.w(),
                b0 == self@.board,
                idx <= h,
                kept@.len() <= idx,
                board_of(kept@) == remove_full(b0.subrange(0, idx as int)),
                forall|r: int| 0 <= r < kept@.len() ==> (#[trigger] kept@[r])@.len() == w,
            decreases h - idx,
        {
            let ghost prefix = b0.subrange(0, idx as int);
            proof {
                assert(b0.subrange(0, idx + 1) =~= prefix.push(b0[idx as int]));
                lemma_remove_full_push(prefix, b0[idx as int]);
                lemma_remove_count(prefix);
                assert(self@.board[idx as int] == self.game_state@[idx as int]@);
            }
            if !row_is_full(&self.game_state[idx]) {
                let r = self.game_state[idx].clone();
                proof {
                    assert(r@ =~= self.game_state@[idx as int]@);
                }
                kept.push(r);
                proof {
                    assert(board_of(kept@) =~~= remove_full(prefix) + seq![b0[idx as int]]);
                }
            } else {
                proof {
                    assert(board_of(kept@) =~~= remove_full(prefix));
                }
            }
            idx += 1;
        }
        proof {
            assert(b0.subrange(0, h as int) =~= b0);
            lemma_remove_count(b0);
        }
        let removed: usize = h - kept.len();
        let mut fresh_grid: Vec<Vec<bool>> = Vec::new();
        let mut e: usize = 0;
        while e < removed
            invariant
                e <= removed,
                w as int == self@.w(),
                fresh_grid@.len() == e,
                forall|k: int| 0 <= k < e ==> (#[trigger] fresh_grid@[k])@ == empty_row(w as int),
            decreases removed - e,
        {
            let row: Vec<bool> = vec![false; w];
            proof {
                assert(row@ =~= empty_row(w as int));
            }
            fresh_grid.push(row);
            e += 1;
        }
        fresh_grid.append(&mut kept);
        self.game_state = fresh_grid;
        proof {
            assert(self@.board =~~= empty_rows(removed as int, w as int) + remove_full(b0));
        }
        let reward: u32 = if removed == 1 {
            40
        } else if removed == 2 {
            100
        } else if removed == 3 {
            300
        } else if removed >= 4 {
            1200
        } else {
            0
        };
        proof {
            assert(reward as int * (self.level as int + 1) <= 19200) by (nonlinear_arith)
                requires
                    reward <= 1200,
                    0 <= self.level <= 15,
            ;
        }
        self.score = self.score + reward * (self.level + 1);
        let lines_before = self.lines;
        self.lines = self.lines + removed as u32;
        proof {
            vstd::arithmetic::div_mod::lemma_div_is_ordered(
                lines_before as int,
                self.lines as int,
                10,
            );
            vstd::arithmetic::div_mod::lemma_div_is_ordered(self.lines as int, u32::MAX as int, 10);
        }
        let delta = self.lines / 10 - lines_before / 10;
        let lvl = self.level + delta;
        self.level = if lvl > MAX_LEVEL {
            MAX_LEVEL
        } else {
            lvl
        };
        removed
    }

    /// Flips Running and Paused (or starts a NotStarted match), freezing the
    /// gravity clock across the pause.
    fn apply_toggle(&mut self, now: u64)
        requires
            old(self).wf(),
            !(old(self)@.phase is GameOver),
            old(self)@.last_seen_time == now,
        ensures
            final(self)@ == step_toggle(old(self)@, now as int),
            final(self).wf(),
    {
        match self.phase {
            GamePhase::NotStarted => {
                self.phase = GamePhase::Running;
                self.last_fall_time = now;
            },
            GamePhase::Running => {
                self.phase = GamePhase::Paused;
                self.pause_time = now;
            },
            GamePhase::Paused => {
                self.last_fall_time = self.last_fall_time + (now - self.pause_time);
                self.phase = GamePhase::Running;
            },
            GamePhase::GameOver => {},
        }
    }

    /// Attempts the one-column move, committing it only when the candidate
    /// does not collide.
    fn apply_shift(&mut self, dc: i32)
        requires
            old(self).wf(),
            old(self)@.phase is Running,
            dc == 1 || dc == -1,
        ensures
            final(self)@ == step_shift(old(self)@, dc as int),
            final(self).wf(),
    {
        proof {
            lemma_piece_window(self@.board, self@.w(), self@.h(), self@.curr);
        }
        let t = self.curr_piece.moved_by(dc, 0);
        let shape = t.get_shape();
        if !self.is_collision(shape, t.col, t.row) {
            self.curr_piece = t;
        }
    }

    /// Attempts the adjacent rotation state, committing it only when the
    /// rotated mask does not collide at the current position.
    fn apply_rotate(&mut self, clockwise: bool)
        requires
            old(self).wf(),
            old(self)@.phase is Running,
        ensures
            final(self)@ == step_rotate(
                old(self)@,
                if clockwise {
                    1int
                } else {
                    3int
                },
            ),
            final(self).wf(),
    {
        let shape = if clockwise {
            self.curr_piece.get_shape_right()
        } else {
            self.curr_piece.get_shape_left()
        };
        if !self.is_collision(shape, self.curr_piece.col, self.curr_piece.row) {
            if clockwise {
                self.curr_piece.rotate_right();
            } else {
                self.curr_piece.rotate_left();
            }
        }
    }

    /// Attempts the swap move; a no-op in Classic mode and whenever the held
    /// piece cannot stand at the active piece's position.
    fn apply_swap(&mut self)
        requires
            old(self).wf(),
            old(self)@.phase is Running,
        ensures
            final(self)@ == step_swap(old(self)@),
            final(self).wf(),
    {
        match self.mode {
            Mode::Classic => {},
            Mode::Modern => {
                let cand = Tetromino {
                    col: self.curr_piece.col,
                    row: self.curr_piece.row,
                    ..self.swap_piece
                };
                let shape = cand.get_shape();
                if !self.is_collision(shape, cand.col, cand.row) {
                    let tmp = self.curr_piece;
                    self.curr_piece = cand;
                    self.swap_piece = tmp;
                }
            },
        }
    }

    /// The lock sequence: lock, sweep, promote the queued piece, queue a
    /// fresh one, and end the match if the promoted piece collides at spawn.
    fn lock_sequence(&mut self, fresh: TetrominoShape)
        requires
            old(self).wf(),
            old(self)@.phase is Running,
            old(self)@.score + 19200 <= u32::MAX,
            old(self)@.lines + old(self)@.h() <= u32::MAX,
        ensures
            final(self)@ == step_lock(old(self)@, fresh),
            final(self).wf(),
            old(self)@.score <= final(self)@.score <= old(self)@.score + 19200,
            old(self)@.lines <= final(self)@.lines <= old(self)@.lines + old(self)@.h(),
            final(self)@.last_seen_time == old(self)@.last_seen_time,
    {
        proof {
            let m = self@;
            assert forall|i: int, j: int|
                0 <= i < 4 && 0 <= j < 4 && (#[trigger] m.curr.mask()[i][j]) implies 0 <= m.curr.col
                + j < m.w() && clamp_row(m.curr.row + i) < m.h() by {
                if cell_blocked(m.board, m.w(), m.h(), m.curr.col + j, m.curr.row + i) {
                    assert(spec_collides(m.board, m.w(), m.h(), m.curr.mask(), m.curr.col, m.curr.row));
                }
            }
        }
        self.lock_piece();
        self.clear_lines();
        self.curr_piece = self.next_piece;
        let sc = self.spawn_col();
        self.next_piece = Tetromino::new(fresh, sc, 0);
        let shape = self.curr_piece.get_shape();
        if self.is_collision(shape, self.curr_piece.col, self.curr_piece.row) {
            self.phase = GamePhase::GameOver;
        }
    }

    /// One accelerated downward step, which locks instead of discarding when
    /// the piece cannot move down.
    fn apply_soft_drop(&mut self, fresh: TetrominoShape)
        requires
            old(self).wf(),
            old(self)@.phase is Running,
            old(self)@.score + 19200 <= u32::MAX,
            old(self)@.lines + old(self)@.h() <= u32::MAX,
        ensures
            final(self)@ == step_soft_drop(old(self)@, fresh),
            final(self).wf(),
            old(self)@.score <= final(self)@.score <= old(self)@.score + 19200,
            old(self)@.lines <= final(self)@.lines <= old(self)@.lines + old(self)@.h(),
            final(self)@.last_seen_time == old(self)@.last_seen_time,
    {
        proof {
            lemma_piece_window(self@.board, self@.w(), self@.h(), self@.curr);
        }
        let t = self.curr_piece.moved_by(0, 1);
        let shape = t.get_shape();
        if self.is_collision(shape, t.col, t.row) {
            self.lock_sequence(fresh);
        } else {
            self.curr_piece = t;
        }
    }

    /// Moves the piece to its landing row, then runs the lock sequence.
    fn apply_hard_drop(&mut self, fresh: TetrominoShape)
        requires
            old(self).wf(),
            old(self)@.phase is Running,
            old(self)@.score + 19200 <= u32::MAX,
            old(self)@.lines + old(self)@.h() <= u32::MAX,
        ensures
            final(self)@ == step_hard_drop(old(self)@, fresh),
            final(self).wf(),
            old(self)@.score <= final(self)@.score <= old(self)@.score + 19200,
            old(self)@.lines <= final(self)@.lines <= old(self)@.lines + old(self)@.h(),
            final(self)@.last_seen_time == old(self)@.last_seen_time,
    {
        let shape = self.curr_piece.get_shape();
        let col = self.curr_piece.col;
        let ghost m0 = self@;
        proof {
            lemma_piece_window(self@.board, self@.w(), self@.h(), self@.curr);
        }
        while !self.is_collision(shape, col, self.curr_piece.row + 1)
            invariant
                self.wf(),
                self@.phase is Running,
                m0 == old(self)@,
                *self == (Game { curr_piece: self.curr_piece, ..*old(self) }),
                self.curr_piece == (Tetromino { row: self.curr_piece.row, ..old(self).curr_piece }),
                shape == self@.curr.mask(),
                col == self.curr_piece.col,
                m0.curr.row <= self@.curr.row <= self@.h() - 2,
                landing_row(m0.board, m0.w(), m0.h(), m0.curr.mask(), m0.curr.col, self@.curr.row)
                    == landing_row(m0.board, m0.w(), m0.h(), m0.curr.mask(), m0.curr.col, m0.curr.row),
            decreases self@.h() - self@.curr.row,
        {
            let ghost r0 = self@.curr.row;
            proof {
                assert(!spec_collides(m0.board, m0.w(), m0.h(), m0.curr.mask(), m0.curr.col, r0 + 1));
                assert(landing_row(m0.board, m0.w(), m0.h(), m0.curr.mask(), m0.curr.col, r0)
                    == landing_row(m0.board, m0.w(), m0.h(), m0.curr.mask(), m0.curr.col, r0 + 1));
            }
            self.curr_piece.row = self.curr_piece.row + 1;
            proof {
                lemma_piece_window(self@.board, self@.w(), self@.h(), self@.curr);
            }
        }
        proof {
            assert(self@.curr.row == landing_row(
                m0.board,
                m0.w(),
                m0.h(),
                m0.curr.mask(),
                m0.curr.col,
                m0.curr.row,
            ));
        }
        self.lock_sequence(fresh);
    }

    /// While Running and once the fall interval has elapsed, advances the
    /// piece one row or locks it, and restarts the fall clock.
    fn apply_gravity(&mut self, now: u64, fresh: TetrominoShape)
        requires
            old(self).wf(),
            old(self)@.last_seen_time == now,
            old(self)@.score + 19200 <= u32::MAX,
            old(self)@.lines + old(self)@.h() <= u32::MAX,
        ensures
            final(self)@ == step_gravity(old(self)@, now as int, fresh),
            final(self).wf(),
    {
        match self.phase {
            GamePhase::Running => {},
            _ => {
                return ;
            },
        }
        let interval: u64 = 1000 - 50 * (self.level as u64);
        if now - self.last_fall_time >= interval {
            proof {
                lemma_piece_window(self@.board, self@.w(), self@.h(), self@.curr);
            }
            let t = self.curr_piece.moved_by(0, 1);
            let shape = t.get_shape();
            if self.is_collision(shape, t.col, t.row) {
                self.lock_sequence(fresh);
            } else {
                self.curr_piece = t;
            }
            self.last_fall_time = now;
        }
    }

    /// One tick of the match: dispatches at most one input event, then runs
    /// gravity if it is due, exactly as `spec_update` lays down. `now` comes
    /// from the caller's monotonic clock; `fresh` and `extra` are the shapes
    /// to queue if the input event or gravity lock a piece this tick. At
    /// most two lock sequences can fall into one tick, so the score and
    /// line counters must have twice a sweep's headroom left.
    pub fn update(
        &mut self,
        input: Option<InputEvent>,
        now: u64,
        fresh: TetrominoShape,
        extra: TetrominoShape,
    )
        requires
            old(self).wf(),
            now >= old(self)@.last_seen_time,
            old(self)@.score + 38400 <= u32::MAX,
            old(self)@.lines + 2 * old(self)@.h() <= u32::MAX,
        ensures
            final(self)@ == spec_update(old(self)@, input, now as int, fresh, extra),
            final(self).wf(),
    {
        match self.phase {
            GamePhase::GameOver => {
                return ;
            },
            _ => {},
        }
        self.last_seen_time = now;
        let ghost m1 = self@;
        proof {
            assert(m1 == GameModel { last_seen_time: now as int, ..old(self)@ });
        }
        match input {
            Option::None => {},
            Option::Some(InputEvent::TogglePause) => {
                self.apply_toggle(now);
            },
            Option::Some(ev) => {
                let running = self.phase == GamePhase::Running;
                if running {
                    match ev {
                        InputEvent::MoveLeft => self.apply_shift(-1),
                        InputEvent::MoveRight => self.apply_shift(1),
                        InputEvent::RotateLeft => self.apply_rotate(false),
                        InputEvent::RotateRight => self.apply_rotate(true),
                        InputEvent::SoftDrop => self.apply_soft_drop(fresh),
                        InputEvent::HardDrop => self.apply_hard_drop(fresh),
                        InputEvent::Swap => self.apply_swap(),
                        InputEvent::TogglePause => {},
                    }
                }
            },
        }
        proof {
            assert(self@ == step_input(m1, input, now as int, fresh));
        }
        self.apply_gravity(now, extra);
    }
}

} // verus!
