//! Pieces: the seven shapes, the quarter turn of a frame, and the random draw
//! of a new piece.

use vstd::prelude::*;

verus! {

/// Direction of a quarter turn of a piece's frame.
#[derive(Clone, Copy, Debug, PartialEq, Eq)]
pub enum Rotation {
    Clockwise,
    CounterClockwise,
}

/// A falling piece: a frame of four by four cell values and the board position of the
/// frame's top-left corner. A cell holds 0 where the frame is empty and the
/// piece's colour id, 1 to 7, where it is occupied.
#[derive(Clone, Copy, Debug, PartialEq, Eq)]
pub struct Piece {
    pub x: i32,
    pub y: i32,
    pub shape: [[u8; 4]; 4],
}

/// The seven shapes, in the order I, J, L, O, S, T, Z. Shape `k` is drawn in
/// colour `k + 1`.
pub const PIECES: [[[u8; 4]; 4]; 7] = [
    [[0, 0, 0, 0], [1, 1, 1, 1], [0, 0, 0, 0], [0, 0, 0, 0]],
    [[2, 0, 0, 0], [2, 2, 2, 0], [0, 0, 0, 0], [0, 0, 0, 0]],
    [[0, 0, 3, 0], [3, 3, 3, 0], [0, 0, 0, 0], [0, 0, 0, 0]],
    [[0, 0, 0, 0], [0, 4, 4, 0], [0, 4, 4, 0], [0, 0, 0, 0]],
    [[0, 5, 5, 0], [5, 5, 0, 0], [0, 0, 0, 0], [0, 0, 0, 0]],
    [[0, 6, 0, 0], [6, 6, 6, 0], [0, 0, 0, 0], [0, 0, 0, 0]],
    [[7, 7, 0, 0], [0, 7, 7, 0], [0, 0, 0, 0], [0, 0, 0, 0]],
];

/// Column at which a new piece enters the board.
pub const SPAWN_X: i32 = 2;

/// Row at which a new piece enters the board: flush with the top edge.
pub const SPAWN_Y: i32 = 0;

/// The mathematical model of a piece: unbounded coordinates and the frame as
/// four rows of four cells.
pub struct PieceView {
    pub x: int,
    pub y: int,
    pub cells: Seq<Seq<u8>>,
}

/// A frame has four rows of four cells.
pub open spec fn is_frame(cells: Seq<Seq<u8>>) -> bool {
    &&& cells.len() == 4
    &&& forall|r: int| 0 <= r < 4 ==> (#[trigger] cells[r]).len() == 4
}

/// The frame after a quarter turn. Clockwise, the cell at `(row, col)` comes
/// from `(3 - col, row)`; counter-clockwise, from `(col, 3 - row)`.
pub open spec fn rotated(cells: Seq<Seq<u8>>, rotation: Rotation) -> Seq<Seq<u8>> {
    match rotation {
        Rotation::Clockwise => Seq::new(4, |r: int| Seq::new(4, |c: int| cells[3 - c][r])),
        Rotation::CounterClockwise => Seq::new(4, |r: int| Seq::new(4, |c: int| cells[c][3 - r])),
    }
}

/// The frame of shape `kind`, for `kind` from 0 to 6.
pub open spec fn canonical_cells(kind: int) -> Seq<Seq<u8>> {
    Seq::new(4, |r: int| Seq::new(4, |c: int| PIECES[kind][r][c]))
}

/// Shape `kind` where a new piece enters the board.
pub open spec fn spawn_piece(kind: int) -> PieceView {
    PieceView { x: SPAWN_X as int, y: SPAWN_Y as int, cells: canonical_cells(kind) }
}

/// The piece is one of the seven shapes, unturned, at the spawn position.
pub open spec fn is_canonical(p: PieceView) -> bool {
    exists|kind: int| 0 <= kind < 7 && p == #[trigger] spawn_piece(kind)
}

impl PieceView {
    /// The cells form a frame and every cell is a colour id or empty.
    pub open spec fn wf(self) -> bool {
        &&& is_frame(self.cells)
        &&& forall|r: int, c: int| 0 <= r < 4 && 0 <= c < 4 ==> #[trigger] self.cells[r][c] <= 7
    }

    /// The frame cell at `(r, c)` exists and is occupied.
    pub open spec fn occupied(self, r: int, c: int) -> bool {
        0 <= r < 4 && 0 <= c < 4 && self.cells[r][c] != 0
    }

    /// At least one cell of the frame is occupied.
    pub open spec fn has_block(self) -> bool {
        exists|r: int, c: int| self.occupied(r, c)
    }

    /// The same frame, `dx` columns to the right and `dy` rows down.
    pub open spec fn moved(self, dx: int, dy: int) -> PieceView {
        PieceView { x: self.x + dx, y: self.y + dy, cells: self.cells }
    }

    /// The same position with the frame turned.
    pub open spec fn turned(self, rotation: Rotation) -> PieceView {
        PieceView { x: self.x, y: self.y, cells: rotated(self.cells, rotation) }
    }
}

impl View for Piece {
    type V = PieceView;

    open spec fn view(&self) -> PieceView {
        PieceView {
            x: self.x as int,
            y: self.y as int,
            cells: Seq::new(4, |r: int| Seq::new(4, |c: int| self.shape[r][c])),
        }
    }
}

/// `macroquad::rand::gen_range` at type `usize`: a draw from the generator
/// that the whole process shares. Trusted: the result lies in `low..high`.
/// The outside code scales a 32-bit draw `k` to `low + (high - low) * k / 2^32`
/// in `f64` and truncates; with bounds of at most 2^16 that arithmetic is
/// exact, so the upper bound is never reached.
#[verifier::external_body]
fn gen_range(low: usize, high: usize) -> (r: usize)
    requires
        low < high <= 0x1_0000,
    ensures
        low <= r < high,
{
    macroquad::rand::gen_range(low, high)
}

impl Piece {
    /// One of the seven shapes, drawn at random, at the spawn position.
    pub fn new() -> (piece: Piece)
        ensures
            is_canonical(piece@),
    {
        let piece_index = gen_range(0, 7);
        Piece::from_index(piece_index).unwrap()
    }

    /// Seven pieces, each drawn independently as `new` draws one.
    pub fn generate_pieces() -> (pieces: Vec<Piece>)
        ensures
            pieces@.len() == 7,
            forall|i: int| 0 <= i < 7 ==> is_canonical(#[trigger] pieces@[i]@),
    {
        let mut pieces: Vec<Piece> = Vec::new();
        for n in 0..7usize
            invariant
                pieces@.len() == n,
                forall|i: int| 0 <= i < n ==> is_canonical(#[trigger] pieces@[i]@),
        {
            pieces.push(Piece::new());
        }
        pieces
    }

    /// Shape `index` at the spawn position, for an index from 0 to 6; no
    /// piece for any other index.
    pub fn from_index(index: usize) -> (piece: Option<Piece>)
        ensures
            match piece {
                Some(p) => index < 7 && p@ == spawn_piece(index as int),
                None => index >= 7,
            },
    {
        if index < 7 {
            let p = Piece { x: SPAWN_X, y: SPAWN_Y, shape: PIECES[index] };
            assert(p@.cells =~~= canonical_cells(index as int));
            Some(p)
        } else {
            None
        }
    }

    /// Turns the frame a quarter turn in place. The position does not change,
    /// and no check against any board is made.
    pub fn rotate(&mut self, rotation: &Rotation)
        ensures
            final(self)@ == old(self)@.turned(*rotation),
    {
        let temp = self.shape;
        match rotation {
            Rotation::Clockwise => {
                for y in 0..4usize
                    invariant
                        self.x == old(self).x,
                        self.y == old(self).y,
                        temp == old(self).shape,
                        forall|r: int, c: int|
                            0 <= r < y && 0 <= c < 4 ==> self.shape[r][c] == temp[3 - c][r],
                {
                    for x in 0..4usize
                        invariant
                            y < 4,
                            self.x == old(self).x,
                            self.y == old(self).y,
                            temp == old(self).shape,
                            forall|r: int, c: int|
                                0 <= r < y && 0 <= c < 4 ==> self.shape[r][c] == temp[3 - c][r],
                            forall|c: int| 0 <= c < x ==> self.shape[y as int][c] == temp[3 - c][y as int],
                    {
                        self.shape[y][x] = temp[3 - x][y];
                    }
                }
            },
            Rotation::CounterClockwise => {
                for y in 0..4usize
                    invariant
                        self.x == old(self).x,
                        self.y == old(self).y,
                        temp == old(self).shape,
                        forall|r: int, c: int|
                            0 <= r < y && 0 <= c < 4 ==> self.shape[r][c] == temp[c][3 - r],
                {
                    for x in 0..4usize
                        invariant
                            y < 4,
                            self.x == old(self).x,
                            self.y == old(self).y,
                            temp == old(self).shape,
                            forall|r: int, c: int|
                                0 <= r < y && 0 <= c < 4 ==> self.shape[r][c] == temp[c][3 - r],
                            forall|c: int| 0 <= c < x ==> self.shape[y as int][c] == temp[c][3 - y],
                    {
                        self.shape[y][x] = temp[x][3 - y];
                    }
                }
            },
        }
        assert(self@.cells =~~= rotated(old(self)@.cells, *rotation));
    }
}

/// Four clockwise quarter turns bring a piece back to where it started.
pub proof fn lemma_four_clockwise_turns(p: PieceView)
    requires
        is_frame(p.cells),
    ensures
        p.turned(Rotation::Clockwise).turned(Rotation::Clockwise).turned(
            Rotation::Clockwise,
        ).turned(Rotation::Clockwise) == p,
{
    let q = p.turned(Rotation::Clockwise).turned(Rotation::Clockwise).turned(
        Rotation::Clockwise,
    ).turned(Rotation::Clockwise);
    assert(q.cells =~~= p.cells);
}

/// Four counter-clockwise quarter turns bring a piece back to where it started.
pub proof fn lemma_four_counter_clockwise_turns(p: PieceView)
    requires
        is_frame(p.cells),
    ensures
        p.turned(Rotation::CounterClockwise).turned(Rotation::CounterClockwise).turned(
            Rotation::CounterClockwise,
        ).turned(Rotation::CounterClockwise) == p,
{
    let q = p.turned(Rotation::CounterClockwise).turned(Rotation::CounterClockwise).turned(
        Rotation::CounterClockwise,
    ).turned(Rotation::CounterClockwise);
    assert(q.cells =~~= p.cells);
}

/// A clockwise quarter turn is undone by a counter-clockwise one, and a
/// counter-clockwise quarter turn by a clockwise one.
pub proof fn lemma_opposite_turns_cancel(p: PieceView)
    requires
        is_frame(p.cells),
    ensures
        p.turned(Rotation::Clockwise).turned(Rotation::CounterClockwise) == p,
        p.turned(Rotation::CounterClockwise).turned(Rotation::Clockwise) == p,
{
    assert(p.turned(Rotation::Clockwise).turned(Rotation::CounterClockwise).cells =~~= p.cells);
    assert(p.turned(Rotation::CounterClockwise).turned(Rotation::Clockwise).cells =~~= p.cells);
}

/// A quarter turn keeps the frame's shape and its cell values: a well-formed
/// piece stays well-formed, and an occupied cell stays occupied where it lands.
pub proof fn lemma_turned_keeps_cells(p: PieceView, rotation: Rotation)
    requires
        is_frame(p.cells),
    ensures
        is_frame(p.turned(rotation).cells),
        p.wf() ==> p.turned(rotation).wf(),
        p.has_block() <==> p.turned(rotation).has_block(),
        forall|r: int, c: int|
            0 <= r < 4 && 0 <= c < 4 ==> p.turned(Rotation::Clockwise).cells[c][3 - r]
                == p.cells[r][c],
        forall|r: int, c: int|
            0 <= r < 4 && 0 <= c < 4 ==> p.turned(Rotation::CounterClockwise).cells[3 - c][r]
                == p.cells[r][c],
{
    let q = p.turned(rotation);
    if p.has_block() {
        let (r, c) = choose|r: int, c: int| p.occupied(r, c);
        match rotation {
            Rotation::Clockwise => {
                assert(q.occupied(c, 3 - r));
            },
            Rotation::CounterClockwise => {
                assert(q.occupied(3 - c, r));
            },
        }
    }
    if q.has_block() {
        let (r, c) = choose|r: int, c: int| q.occupied(r, c);
        match rotation {
            Rotation::Clockwise => {
                assert(p.occupied(3 - c, r));
            },
            Rotation::CounterClockwise => {
                assert(p.occupied(c, 3 - r));
            },
        }
    }
}

/// Each of the seven shapes at the spawn position is well-formed and has an
/// occupied cell.
pub proof fn lemma_canonical_is_sound(p: PieceView)
    requires
        is_canonical(p),
    ensures
        p.wf(),
        p.has_block(),
        p.x == SPAWN_X,
        p.y == SPAWN_Y,
{
    assert(p.occupied(1, 1));
}

} // verus!
