use vstd::prelude::*;

verus! {

/// The seven canonical tetromino shapes.
#[derive(Clone, Copy, PartialEq, Eq, Structural, Debug)]
pub enum TetrominoShape {
    I,
    O,
    T,
    L,
    J,
    S,
    Z,
}

/// The display colour that belongs to a shape. Rendering front ends map each
/// variant to whatever concrete colour value their graphics library uses.
#[derive(Clone, Copy, PartialEq, Eq, Structural, Debug)]
pub enum PieceColor {
    Firebrick,
    Green,
    SkyBlue,
    Gold,
    Orange,
    Pink,
    Purple,
}

/// The four 4x4 occupancy masks of a shape, one per clockwise rotation state.
/// A mask cell `masks_of(kind)[rot][i][j]` is true when the piece occupies the
/// cell `i` rows below and `j` columns right of its position. Shapes with
/// fewer than four distinct silhouettes repeat masks (O at period 1; I, S and
/// Z at period 2). Rotation is mask selection only: no wall kicks.
pub open spec fn masks_of(kind: TetrominoShape) -> [[[bool; 4]; 4]; 4] {
    match kind {
        TetrominoShape::I => {
            let top = [
                [false, true, false, false],
                [false, true, false, false],
                [false, true, false, false],
                [false, true, false, false],
            ];
            let side = [
                [false, false, false, false],
                [true, true, true, true],
                [false, false, false, false],
                [false, false, false, false],
            ];
            [top, side, top, side]
        },
        TetrominoShape::O => {
            let square = [
                [false, true, true, false],
                [false, true, true, false],
                [false, false, false, false],
                [false, false, false, false],
            ];
            [square, square, square, square]
        },
        TetrominoShape::T => {
            let top = [
                [false, true, false, false],
                [true, true, true, false],
                [false, false, false, false],
                [false, false, false, false],
            ];
            let right = [
                [false, true, false, false],
                [false, true, true, false],
                [false, true, false, false],
                [false, false, false, false],
            ];
            let bottom = [
                [false, false, false, false],
                [true, true, true, false],
                [false, true, false, false],
                [false, false, false, false],
            ];
            let left = [
                [false, true, false, false],
                [true, true, false, false],
                [false, true, false, false],
                [false, false, false, false],
            ];
            [top, right, bottom, left]
        },
        TetrominoShape::L => {
            let top = [
                [false, true, false, false],
                [false, true, false, false],
                [false, true, true, false],
                [false, false, false, false],
            ];
            let right = [
                [false, false, false, false],
                [true, true, true, false],
                [true, false, false, false],
                [false, false, false, false],
            ];
            let bottom = [
                [true, true, false, false],
                [false, true, false, false],
                [false, true, false, false],
                [false, false, false, false],
            ];
            let left = [
                [false, false, true, false],
                [true, true, true, false],
                [false, false, false, false],
                [false, false, false, false],
            ];
            [top, right, bottom, left]
        },
        TetrominoShape::J => {
            let top = [
                [false, true, false, false],
                [false, true, false, false],
                [true, true, false, false],
                [false, false, false, false],
            ];
            let right = [
                [true, false, false, false],
                [true, true, true, false],
                [false, false, false, false],
                [false, false, false, false],
            ];
            let bottom = [
                [false, true, true, false],
                [false, true, false, false],
                [false, true, false, false],
                [false, false, false, false],
            ];
            let left = [
                [false, false, false, false],
                [true, true, true, false],
                [false, false, true, false],
                [false, false, false, false],
            ];
            [top, right, bottom, left]
        },
        TetrominoShape::S => {
            let top = [
                [false, true, true, false],
                [true, true, false, false],
                [false, false, false, false],
                [false, false, false, false],
            ];
            let side = [
                [true, false, false, false],
                [true, true, false, false],
                [false, true, false, false],
                [false, false, false, false],
            ];
            [top, side, top, side]
        },
        TetrominoShape::Z => {
            let top = [
                [true, true, false, false],
                [false, true, true, false],
                [false, false, false, false],
                [false, false, false, false],
            ];
            let side = [
                [false, true, false, false],
                [true, true, false, false],
                [true, false, false, false],
                [false, false, false, false],
            ];
            [top, side, top, side]
        },
    }
}

/// The display colour of each shape.
pub open spec fn color_of(kind: TetrominoShape) -> PieceColor {
    match kind {
        TetrominoShape::I => PieceColor::Firebrick,
        TetrominoShape::O => PieceColor::Green,
        TetrominoShape::T => PieceColor::SkyBlue,
        TetrominoShape::L => PieceColor::Gold,
        TetrominoShape::J => PieceColor::Orange,
        TetrominoShape::S => PieceColor::Pink,
        TetrominoShape::Z => PieceColor::Purple,
    }
}

/// Every mask of every shape occupies the cell one row below and one column
/// right of the piece position. Collision tests on that cell therefore bound
/// the position of any well-formed piece.
pub proof fn lemma_mask_center(kind: TetrominoShape)
    ensures
        forall|rot: int| 0 <= rot < 4 ==> masks_of(kind)[rot][1][1],
{
    assert(masks_of(kind)[0][1][1]);
    assert(masks_of(kind)[1][1][1]);
    assert(masks_of(kind)[2][1][1]);
    assert(masks_of(kind)[3][1][1]);
}

/// The mathematical content of a piece: its shape identity, rotation state
/// and position. The mask table and colour of a well-formed piece are
/// functions of the shape, so the model leaves them out.
pub struct PieceModel {
    pub kind: TetrominoShape,
    pub orientation: int,
    pub col: int,
    pub row: int,
}

impl PieceModel {
    /// The mask a piece with this model presents to collision queries.
    pub open spec fn mask(self) -> [[bool; 4]; 4] {
        masks_of(self.kind)[self.orientation]
    }
}

/// A piece instance: a shape together with its four rotation masks, a
/// rotation state, a grid position (top-left corner of the 4x4 bounding box;
/// `row` 0 is the top of the board) and a display colour.
#[derive(Clone, Copy)]
pub struct Tetromino {
    pub kind: TetrominoShape,
    pub shapes: [[[bool; 4]; 4]; 4],
    pub col: i32,
    pub row: i32,
    pub orientation: usize,
    pub color: PieceColor,
}

impl View for Tetromino {
    type V = PieceModel;

    open spec fn view(&self) -> PieceModel {
        PieceModel {
            kind: self.kind,
            orientation: self.orientation as int,
            col: self.col as int,
            row: self.row as int,
        }
    }
}

impl Tetromino {
    /// A piece is well formed when its rotation state is one of the four
    /// legal states and its mask table and colour are the catalog entries for
    /// its shape.
    pub open spec fn wf(self) -> bool {
        &&& self.orientation < 4
        &&& self.shapes == masks_of(self.kind)
        &&& self.color == color_of(self.kind)
    }

    /// Builds the piece for a shape at a position, in rotation state 0, with
    /// the catalog masks and colour for that shape.
    pub fn new(kind: TetrominoShape, col: i32, row: i32) -> (t: Tetromino)
        ensures
            t.wf(),
            t@ == (PieceModel { kind, orientation: 0, col: col as int, row: row as int }),
    {
        let shapes: [[[bool; 4]; 4]; 4] = match kind {
            TetrominoShape::I => {
                let top = [
                    [false, true, false, false],
                    [false, true, false, false],
                    [false, true, false, false],
                    [false, true, false, false],
                ];
                let side = [
                    [false, false, false, false],
                    [true, true, true, true],
                    [false, false, false, false],
                    [false, false, false, false],
                ];
                [top, side, top, side]
            },
            TetrominoShape::O => {
                let square = [
                    [false, true, true, false],
                    [false, true, true, false],
                    [false, false, false, false],
                    [false, false, false, false],
                ];
                [square, square, square, square]
            },
            TetrominoShape::T => {
                let top = [
                    [false, true, false, false],
                    [true, true, true, false],
                    [false, false, false, false],
                    [false, false, false, false],
                ];
                let right = [
                    [false, true, false, false],
                    [false, true, true, false],
                    [false, true, false, false],
                    [false, false, false, false],
                ];
                let bottom = [
                    [false, false, false, false],
                    [true, true, true, false],
                    [false, true, false, false],
                    [false, false, false, false],
                ];
                let left = [
                    [false, true, false, false],
                    [true, true, false, false],
                    [false, true, false, false],
                    [false, false, false, false],
                ];
                [top, right, bottom, left]
            },
            TetrominoShape::L => {
                let top = [
                    [false, true, false, false],
                    [false, true, false, false],
                    [false, true, true, false],
                    [false, false, false, false],
                ];
                let right = [
                    [false, false, false, false],
                    [true, true, true, false],
                    [true, false, false, false],
                    [false, false, false, false],
                ];
                let bottom = [
                    [true, true, false, false],
                    [false, true, false, false],
                    [false, true, false, false],
                    [false, false, false, false],
                ];
                let left = [
                    [false, false, true, false],
                    [true, true, true, false],
                    [false, false, false, false],
                    [false, false, false, false],
                ];
                [top, right, bottom, left]
            },
            TetrominoShape::J => {
                let top = [
                    [false, true, false, false],
                    [false, true, false, false],
                    [true, true, false, false],
                    [false, false, false, false],
                ];
                let right = [
                    [true, false, false, false],
                    [true, true, true, false],
                    [false, false, false, false],
                    [false, false, false, false],
                ];
                let bottom = [
                    [false, true, true, false],
                    [false, true, false, false],
                    [false, true, false, false],
                    [false, false, false, false],
                ];
                let left = [
                    [false, false, false, false],
                    [true, true, true, false],
                    [false, false, true, false],
                    [false, false, false, false],
                ];
                [top, right, bottom, left]
            },
            TetrominoShape::S => {
                let top = [
                    [false, true, true, false],
                    [true, true, false, false],
                    [false, false, false, false],
                    [false, false, false, false],
                ];
                let side = [
                    [true, false, false, false],
                    [true, true, false, false],
                    [false, true, false, false],
                    [false, false, false, false],
                ];
                [top, side, top, side]
            },
            TetrominoShape::Z => {
                let top = [
                    [true, true, false, false],
                    [false, true, true, false],
                    [false, false, false, false],
                    [false, false, false, false],
                ];
                let side = [
                    [false, true, false, false],
                    [true, true, false, false],
                    [true, false, false, false],
                    [false, false, false, false],
                ];
                [top, side, top, side]
            },
        };
        let color = match kind {
            TetrominoShape::I => PieceColor::Firebrick,
            TetrominoShape::O => PieceColor::Green,
            TetrominoShape::T => PieceColor::SkyBlue,
            TetrominoShape::L => PieceColor::Gold,
            TetrominoShape::J => PieceColor::Orange,
            TetrominoShape::S => PieceColor::Pink,
            TetrominoShape::Z => PieceColor::Purple,
        };
        Tetromino { kind, shapes, col, row, orientation: 0, color }
    }

    /// Builds the piece for the shape with the given catalog index.
    fn from_index(idx: u32, col: i32, row: i32) -> (t: Tetromino)
        requires
            idx < 7,
        ensures
            t.wf(),
            t@.orientation == 0,
            t@.col == col as int,
            t@.row == row as int,
    {
        let kind = if idx == 0 {
            TetrominoShape::I
        } else if idx == 1 {
            TetrominoShape::O
        } else if idx == 2 {
            TetrominoShape::T
        } else if idx == 3 {
            TetrominoShape::L
        } else if idx == 4 {
            TetrominoShape::J
        } else if idx == 5 {
            TetrominoShape::S
        } else {
            TetrominoShape::Z
        };
        Tetromino::new(kind, col, row)
    }

    /// Builds a piece of a uniformly random shape at the given position, in
    /// rotation state 0. Which of the seven shapes comes back is not pinned:
    /// every other field is.
    pub fn random(col: i32, row: i32) -> (t: Tetromino)
        ensures
            t.wf(),
            t@.orientation == 0,
            t@.col == col as int,
            t@.row == row as int,
    {
        let idx = random_shape_index();
        Tetromino::from_index(idx, col, row)
    }

    /// The mask for the current rotation state.
    pub fn get_shape(&self) -> (m: [[bool; 4]; 4])
        requires
            self.wf(),
        ensures
            m == self@.mask(),
    {
        self.shapes[self.orientation]
    }

    /// The mask the piece would present after one clockwise rotation, without
    /// changing the piece: used to validate a rotation before committing it.
    pub fn get_shape_right(&self) -> (m: [[bool; 4]; 4])
        requires
            self.wf(),
        ensures
            m == masks_of(self@.kind)[(self@.orientation + 1) % 4],
    {
        self.shapes[(self.orientation + 1) % 4]
    }

    /// The mask the piece would present after one counterclockwise rotation,
    /// without changing the piece.
    pub fn get_shape_left(&self) -> (m: [[bool; 4]; 4])
        requires
            self.wf(),
        ensures
            m == masks_of(self@.kind)[(self@.orientation + 3) % 4],
    {
        self.shapes[(self.orientation + 3) % 4]
    }

    /// Advances the rotation state clockwise. The caller validates the move
    /// first; the piece never checks collisions itself.
    pub fn rotate_right(&mut self)
        requires
            old(self).wf(),
        ensures
            final(self).wf(),
            final(self)@ == (PieceModel {
                orientation: (old(self)@.orientation + 1) % 4,
                ..old(self)@
            }),
    {
        self.orientation = (self.orientation + 1) % 4;
    }

    /// Advances the rotation state counterclockwise.
    pub fn rotate_left(&mut self)
        requires
            old(self).wf(),
        ensures
            final(self).wf(),
            final(self)@ == (PieceModel {
                orientation: (old(self)@.orientation + 3) % 4,
                ..old(self)@
            }),
    {
        self.orientation = (self.orientation + 3) % 4;
    }

    /// A copy of the piece shifted by `dx` columns and `dy` rows, with the
    /// same shape and rotation state: the speculative move that the caller
    /// validates against the board before committing.
    pub fn moved_by(&self, dx: i32, dy: i32) -> (t: Tetromino)
        requires
            self.wf(),
            i32::MIN <= self@.col + dx <= i32::MAX,
            i32::MIN <= self@.row + dy <= i32::MAX,
        ensures
            t.wf(),
            t@ == (PieceModel { col: self@.col + dx, row: self@.row + dy, ..self@ }),
    {
        Tetromino { col: self.col + dx, row: self.row + dy, ..*self }
    }

    /// The speculative one-column move to the right.
    pub fn try_move_right(&self) -> (t: Tetromino)
        requires
            self.wf(),
            self@.col + 1 <= i32::MAX,
        ensures
            t.wf(),
            t@ == (PieceModel { col: self@.col + 1, ..self@ }),
    {
        self.moved_by(1, 0)
    }

    /// The speculative one-column move to the left.
    pub fn try_move_left(&self) -> (t: Tetromino)
        requires
            self.wf(),
            i32::MIN <= self@.col - 1,
        ensures
            t.wf(),
            t@ == (PieceModel { col: self@.col - 1, ..self@ }),
    {
        self.moved_by(-1, 0)
    }
}

/// Relies on rand::random_range: it returns a value of the given range,
/// drawn from the thread-local generator, and panics only when the range is
/// empty; 0..7 is not.
#[verifier::external_body]
fn random_shape_index() -> (r: u32)
    ensures
        r < 7,
{
    rand::random_range(0u32..7u32)
}

} // verus!
