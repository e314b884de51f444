//! The board: where a piece fits, how it is written into the grid, where it
//! lands, and the sweep that takes out full rows.

use crate::piece::{Piece, PieceView};
use vstd::prelude::*;

verus! {

/// Number of columns of the board.
pub const WIDTH: i32 = 10;

/// Number of rows of the board.
pub const HEIGHT: i32 = 20;

/// A step across the board in whole cells: `x` columns to the right and `y`
/// rows down.
#[derive(Clone, Copy, Debug, PartialEq, Eq)]
pub struct Delta {
    pub x: i32,
    pub y: i32,
}

/// The playing field. `grid[row][col]` is 0 where the field is empty and the
/// colour id, 1 to 7, of the piece that was locked there otherwise. Row 0 is
/// the top row.
pub struct Board {
    pub width: i32,
    pub height: i32,
    pub grid: Vec<Vec<u8>>,
}

/// A grid has `HEIGHT` rows of `WIDTH` cells.
pub open spec fn is_grid(grid: Seq<Seq<u8>>) -> bool {
    &&& grid.len() == HEIGHT
    &&& forall|row: int| 0 <= row < HEIGHT ==> (#[trigger] grid[row]).len() == WIDTH
}

/// A grid whose every cell is empty or a colour id.
pub open spec fn grid_wf(grid: Seq<Seq<u8>>) -> bool {
    &&& is_grid(grid)
    &&& forall|row: int, col: int|
        0 <= row < HEIGHT && 0 <= col < WIDTH ==> #[trigger] grid[row][col] <= 7
}

/// A row of empty cells.
pub open spec fn empty_row() -> Seq<u8> {
    Seq::new(WIDTH as nat, |col: int| 0u8)
}

/// `count` empty rows.
pub open spec fn empty_rows(count: int) -> Seq<Seq<u8>> {
    Seq::new(count as nat, |row: int| empty_row())
}

/// The grid with no cell occupied.
pub open spec fn empty_grid() -> Seq<Seq<u8>> {
    Seq::new(HEIGHT as nat, |row: int| empty_row())
}

/// Every occupied cell of the piece lies on the board.
pub open spec fn within_board(p: PieceView) -> bool {
    forall|r: int, c: int|
        p.occupied(r, c) ==> 0 <= p.x + c < WIDTH && 0 <= p.y + r < HEIGHT
}

/// The piece can enter play: it is well-formed, has an occupied cell, and
/// lies on the board.
pub open spec fn spawnable(p: PieceView) -> bool {
    p.wf() && p.has_block() && within_board(p)
}

/// Every occupied cell of the piece lies on the board and over an empty cell.
pub open spec fn fits(grid: Seq<Seq<u8>>, p: PieceView) -> bool {
    forall|r: int, c: int|
        p.occupied(r, c) ==> {
            &&& 0 <= p.x + c < WIDTH
            &&& 0 <= p.y + r < HEIGHT
            &&& grid[p.y + r][p.x + c] == 0
        }
}

/// The piece would fit after a step of `dx` columns and `dy` rows.
pub open spec fn can_move(grid: Seq<Seq<u8>>, p: PieceView, dx: int, dy: int) -> bool {
    fits(grid, p.moved(dx, dy))
}

/// The grid with the piece's occupied cells written into it. A cell that the
/// piece does not cover keeps its value.
pub open spec fn stamped(grid: Seq<Seq<u8>>, p: PieceView) -> Seq<Seq<u8>> {
    Seq::new(
        HEIGHT as nat,
        |row: int|
            Seq::new(
                WIDTH as nat,
                |col: int|
                    if p.occupied(row - p.y, col - p.x) {
                        p.cells[row - p.y][col - p.x]
                    } else {
                        grid[row][col]
                    },
            ),
    )
}

/// Some cell of row 0 is occupied.
pub open spec fn top_row_occupied(grid: Seq<Seq<u8>>) -> bool {
    exists|col: int| 0 <= col < WIDTH && #[trigger] grid[0][col] != 0
}

/// The piece comes to rest after falling `rows` rows: each of those steps
/// down is free, and the next one is not.
pub open spec fn lands_after(grid: Seq<Seq<u8>>, p: PieceView, rows: int) -> bool {
    &&& 0 <= rows
    &&& forall|step: int| 1 <= step <= rows ==> #[trigger] can_move(grid, p, 0, step)
    &&& !can_move(grid, p, 0, rows + 1)
}

/// The piece where it comes to rest when it falls straight down.
pub open spec fn landing(grid: Seq<Seq<u8>>, p: PieceView) -> PieceView {
    p.moved(0, choose|rows: int| lands_after(grid, p, rows))
}

/// Every cell of the row is occupied.
pub open spec fn is_full(row: Seq<u8>) -> bool {
    forall|col: int| 0 <= col < row.len() ==> row[col] != 0
}

/// The grid after row `y` is taken out: the rows above it move down by one
/// and an empty row comes in at the top.
pub open spec fn collapsed(grid: Seq<Seq<u8>>, y: int) -> Seq<Seq<u8>> {
    empty_rows(1) + grid.remove(y)
}

/// The rows that are not full, in their order.
pub open spec fn without_full_rows(rows: Seq<Seq<u8>>) -> Seq<Seq<u8>>
    decreases rows.len(),
{
    if rows.len() == 0 {
        rows
    } else if is_full(rows[0]) {
        without_full_rows(rows.skip(1))
    } else {
        seq![rows[0]] + without_full_rows(rows.skip(1))
    }
}

/// Some row below the top row is full.
pub open spec fn has_full_row(grid: Seq<Seq<u8>>) -> bool {
    exists|row: int| 1 <= row < grid.len() && is_full(#[trigger] grid[row])
}

/// The number of rows that one sweep for full rows takes out. The sweep
/// starts only at a full row below the top row; once it has started, a full
/// top row goes too.
pub open spec fn full_rows(grid: Seq<Seq<u8>>) -> int {
    if has_full_row(grid) {
        grid.len() - without_full_rows(grid).len()
    } else {
        0
    }
}

/// The grid after one sweep for full rows: the rows that stay keep their
/// order and sink to the bottom, under as many empty rows as were taken out.
pub open spec fn swept(grid: Seq<Seq<u8>>) -> Seq<Seq<u8>> {
    if has_full_row(grid) {
        empty_rows(full_rows(grid)) + without_full_rows(grid)
    } else {
        grid
    }
}

impl View for Board {
    type V = Seq<Seq<u8>>;

    open spec fn view(&self) -> Seq<Seq<u8>> {
        Seq::new(self.grid@.len(), |row: int| self.grid@[row]@)
    }
}

impl Board {
    /// The dimensions are the fixed ones and every cell is empty or a colour id.
    pub open spec fn wf(&self) -> bool {
        &&& self.width == WIDTH
        &&& self.height == HEIGHT
        &&& grid_wf(self@)
    }

    /// The empty board.
    pub fn new() -> (board: Board)
        ensures
            board.wf(),
            board@ == empty_grid(),
    {
        let mut grid: Vec<Vec<u8>> = Vec::new();
        for row in 0..20usize
            invariant
                grid@.len() == row,
                forall|r: int| 0 <= r < row ==> (#[trigger] grid@[r])@ == empty_row(),
        {
            let mut cells: Vec<u8> = Vec::new();
            for col in 0..10usize
                invariant
                    cells@.len() == col,
                    forall|c: int| 0 <= c < col ==> cells@[c] == 0,
            {
                cells.push(0);
            }
            assert(cells@ =~= empty_row());
            grid.push(cells);
        }
        let board = Board { width: WIDTH, height: HEIGHT, grid };
        assert(board@ =~~= empty_grid());
        board
    }

    /// Whether the board is well-formed.
    pub fn is_valid(&self) -> (ok: bool)
        ensures
            ok == self.wf(),
    {
        if self.width != WIDTH || self.height != HEIGHT || self.grid.len() != 20 {
            return false;
        }
        for y in 0..20usize
            invariant
                self.width == WIDTH,
                self.height == HEIGHT,
                self.grid@.len() == HEIGHT,
                forall|row: int| 0 <= row < y ==> (#[trigger] self@[row]).len() == WIDTH,
                forall|row: int, col: int|
                    0 <= row < y && 0 <= col < WIDTH ==> #[trigger] self@[row][col] <= 7,
        {
            assert(self@[y as int] == self.grid@[y as int]@);
            if self.grid[y].len() != 10 {
                return false;
            }
            for x in 0..10usize
                invariant
                    y < HEIGHT,
                    self.grid@.len() == HEIGHT,
                    self@[y as int] == self.grid@[y as int]@,
                    self@[y as int].len() == WIDTH,
                    forall|col: int| 0 <= col < x ==> self@[y as int][col] <= 7,
            {
                if self.grid[y][x] > 7 {
                    assert(self@[y as int][x as int] > 7);
                    return false;
                }
            }
        }
        true
    }

    /// The value of the cell at `(row, col)`.
    pub fn cell(&self, row: usize, col: usize) -> (value: u8)
        requires
            self.wf(),
            row < HEIGHT,
            col < WIDTH,
        ensures
            value == self@[row as int][col as int],
    {
        assert(self@[row as int] == self.grid@[row as int]@);
        self.grid[row][col]
    }

    /// Writes `value` into the cell at `(row, col)`.
    pub fn set_cell(&mut self, row: usize, col: usize, value: u8)
        requires
            old(self).wf(),
            row < HEIGHT,
            col < WIDTH,
            value <= 7,
        ensures
            final(self).wf(),
            final(self)@ == old(self)@.update(
                row as int,
                old(self)@[row as int].update(col as int, value),
            ),
    {
        assert(self@[row as int] == self.grid@[row as int]@);
        self.grid[row][col] = value;
        assert(self@ =~~= old(self)@.update(
            row as int,
            old(self)@[row as int].update(col as int, value),
        ));
    }

    /// Empties row 0 and leaves every other row as it is.
    pub fn clear_top_row(&mut self)
        requires
            old(self).wf(),
        ensures
            final(self).wf(),
            final(self)@ == old(self)@.update(0, empty_row()),
    {
        for x in 0..10usize
            invariant
                self.wf(),
                forall|c: int| 0 <= c < x ==> self@[0][c] == 0,
                forall|row: int| 1 <= row < HEIGHT ==> self@[row] == old(self)@[row],
        {
            self.set_cell(0, x, 0);
        }
        assert(self@ =~~= old(self)@.update(0, empty_row()));
    }

    /// Writes the piece's occupied cells into the grid, whatever was there
    /// before. The caller has checked that the piece lies on the board.
    pub fn place_piece(&mut self, piece: Piece)
        requires
            old(self).wf(),
            piece@.wf(),
            within_board(piece@),
        ensures
            final(self).wf(),
            final(self)@ == stamped(old(self)@, piece@),
    {
        let ghost p = piece@;
        for y in 0..4usize
            invariant
                p == piece@,
                p.wf(),
                within_board(p),
                self.wf(),
                forall|row: int, col: int|
                    0 <= row < HEIGHT && 0 <= col < WIDTH ==> #[trigger] self@[row][col] == (if p.occupied(
                        row - p.y,
                        col - p.x,
                    ) && row - p.y < y {
                        p.cells[row - p.y][col - p.x]
                    } else {
                        old(self)@[row][col]
                    }),
        {
            for x in 0..4usize
                invariant
                    y < 4,
                    p == piece@,
                    p.wf(),
                    within_board(p),
                    self.wf(),
                    forall|row: int, col: int|
                        0 <= row < HEIGHT && 0 <= col < WIDTH ==> #[trigger] self@[row][col] == (if p.occupied(
                            row - p.y,
                            col - p.x,
                        ) && (row - p.y < y || (row - p.y == y && col - p.x < x)) {
                            p.cells[row - p.y][col - p.x]
                        } else {
                            old(self)@[row][col]
                        }),
            {
                if piece.shape[y][x] != 0 {
                    assert(p.occupied(y as int, x as int));
                    assert(p.cells[y as int][x as int] <= 7);
                    let row = (piece.y + y as i32) as usize;
                    let col = (piece.x + x as i32) as usize;
                    self.set_cell(row, col, piece.shape[y][x]);
                }
            }
        }
        assert(self@ =~~= stamped(old(self)@, p));
    }

    /// Whether the piece, moved by `delta`, would lie wholly on the board and
    /// over empty cells. Neither the board nor the piece changes.
    pub fn piece_can_move(&self, piece: Piece, delta: Delta) -> (free: bool)
        requires
            self.wf(),
        ensures
            free == can_move(self@, piece@, delta.x as int, delta.y as int),
    {
        let ghost q = piece@.moved(delta.x as int, delta.y as int);
        for y in 0..4usize
            invariant
                self.wf(),
                q == piece@.moved(delta.x as int, delta.y as int),
                forall|r: int, c: int|
                    0 <= r < y && q.occupied(r, c) ==> {
                        &&& 0 <= q.x + c < WIDTH
                        &&& 0 <= q.y + r < HEIGHT
                        &&& self@[q.y + r][q.x + c] == 0
                    },
        {
            for x in 0..4usize
                invariant
                    y < 4,
                    self.wf(),
                    q == piece@.moved(delta.x as int, delta.y as int),
                    forall|r: int, c: int|
                        (0 <= r < y || (r == y && 0 <= c < x)) && q.occupied(r, c) ==> {
                            &&& 0 <= q.x + c < WIDTH
                            &&& 0 <= q.y + r < HEIGHT
                            &&& self@[q.y + r][q.x + c] == 0
                        },
            {
                if piece.shape[y][x] != 0 {
                    assert(q.occupied(y as int, x as int));
                    let col: i64 = piece.x as i64 + x as i64 + delta.x as i64;
                    let row: i64 = piece.y as i64 + y as i64 + delta.y as i64;
                    if col < 0 || col >= self.width as i64 {
                        return false;
                    }
                    if row < 0 || row >= self.height as i64 {
                        return false;
                    }
                    if self.cell(row as usize, col as usize) != 0 {
                        return false;
                    }
                }
            }
        }
        true
    }

    /// Whether some cell of row 0 is occupied.
    pub fn top_row_is_occupied(&self) -> (occupied: bool)
        requires
            self.wf(),
        ensures
            occupied == top_row_occupied(self@),
    {
        for x in 0..10usize
            invariant
                self.wf(),
                forall|col: int| 0 <= col < x ==> self@[0][col] == 0,
        {
            if self.cell(0, x) != 0 {
                return true;
            }
        }
        false
    }

    /// The piece where it comes to rest when it falls straight down from
    /// where it is. The board does not change.
    pub fn drop_piece(&self, piece: Piece) -> (landed: Piece)
        requires
            self.wf(),
            piece@.has_block(),
        ensures
            landed@ == landing(self@, piece@),
            lands_after(self@, piece@, landed.y - piece.y),
    {
        let mut landed = piece;
        let ghost (r, c) = choose|r: int, c: int| piece@.occupied(r, c);
        let down = Delta { x: 0, y: 1 };
        while self.piece_can_move(landed, down)
            invariant
                self.wf(),
                down.x == 0 && down.y == 1,
                piece@.occupied(r, c),
                landed@ == piece@.moved(0, landed.y - piece.y),
                0 <= landed.y - piece.y,
                forall|step: int|
                    1 <= step <= landed.y - piece.y ==> #[trigger] can_move(
                        self@,
                        piece@,
                        0,
                        step,
                    ),
            decreases HEIGHT - landed.y,
        {
            assert(landed@.moved(0, 1) == piece@.moved(0, landed.y - piece.y + 1));
            assert(landed@.moved(0, 1).occupied(r, c));
            landed.y = landed.y + 1;
            assert(landed@.cells =~~= piece@.cells);
        }
        proof {
            assert(landed@.moved(0, 1) == piece@.moved(0, landed.y - piece.y + 1));
            lemma_landing_is_unique(self@, piece@, landed.y - piece.y, landed.y - piece.y);
        }
        landed
    }

    /// Whether every cell of row `y` is occupied.
    pub fn row_is_full(&self, y: usize) -> (full: bool)
        requires
            self.wf(),
            y < HEIGHT,
        ensures
            full == is_full(self@[y as int]),
    {
        for x in 0..10usize
            invariant
                self.wf(),
                y < HEIGHT,
                forall|col: int| 0 <= col < x ==> self@[y as int][col] != 0,
        {
            if self.cell(y, x) == 0 {
                return false;
            }
        }
        true
    }

    /// Takes out row `y`: each row above it moves down by one, and the top
    /// row is emptied.
    pub fn collapse_row(&mut self, y: usize)
        requires
            old(self).wf(),
            y < HEIGHT,
        ensures
            final(self).wf(),
            final(self)@ == collapsed(old(self)@, y as int),
    {
        let mut yy = y;
        while yy > 0
            invariant
                self.wf(),
                old(self).wf(),
                yy <= y < HEIGHT,
                forall|row: int| 0 <= row <= yy ==> self@[row] == old(self)@[row],
                forall|row: int| yy < row <= y ==> self@[row] == old(self)@[row - 1],
                forall|row: int| y < row < HEIGHT ==> self@[row] == old(self)@[row],
            decreases yy,
        {
            for x in 0..10usize
                invariant
                    self.wf(),
                    old(self).wf(),
                    0 < yy <= y < HEIGHT,
                    forall|row: int| 0 <= row < yy ==> self@[row] == old(self)@[row],
                    forall|col: int| 0 <= col < x ==> self@[yy as int][col] == old(self)@[yy - 1][col],
                    forall|col: int| x <= col < WIDTH ==> self@[yy as int][col] == old(self)@[yy as int][col],
                    forall|row: int| yy < row <= y ==> self@[row] == old(self)@[row - 1],
                    forall|row: int| y < row < HEIGHT ==> self@[row] == old(self)@[row],
            {
                let above = self.cell(yy - 1, x);
                self.set_cell(yy, x, above);
            }
            assert(self@[yy as int] =~= old(self)@[yy - 1]);
            yy = yy - 1;
        }
        self.clear_top_row();
        assert(self@ =~~= collapsed(old(self)@, y as int));
    }

    /// One sweep for full rows, from the bottom row up to row 1. A full row
    /// is taken out as `collapse_row` does, and the row that has moved into
    /// its place is looked at next. Returns the number of rows taken out.
    pub fn clear_full_rows(&mut self) -> (count: usize)
        requires
            old(self).wf(),
        ensures
            final(self).wf(),
            final(self)@ == swept(old(self)@),
            count == full_rows(old(self)@),
            count <= HEIGHT,
    {
        let ghost start = self@;
        let ghost mut unseen: int = HEIGHT as int;
        let mut count: usize = 0;
        let mut y: usize = 19;
        proof {
            lemma_sweep_begins(start);
        }
        while y > 0
            invariant
                self.wf(),
                is_grid(start),
                sweeping(start, self@, count as int, unseen, y as int),
            decreases y, unseen,
        {
            if self.row_is_full(y) {
                proof {
                    lemma_sweep_takes_row(start, self@, count as int, unseen, y as int);
                    unseen = unseen - 1;
                }
                self.collapse_row(y);
                count = count + 1;
            } else {
                proof {
                    lemma_sweep_passes_row(start, self@, count as int, unseen, y as int);
                    if unseen > 0 {
                        unseen = unseen - 1;
                    }
                }
                y = y - 1;
            }
        }
        proof {
            lemma_sweep_ends(start, self@, count as int, unseen);
        }
        count
    }
}

/// Whether the piece can enter play.
pub fn is_spawnable(piece: Piece) -> (ok: bool)
    ensures
        ok == spawnable(piece@),
{
    let ghost p = piece@;
    let mut blocks: usize = 0;
    for y in 0..4usize
        invariant
            p == piece@,
            blocks <= 4 * y,
            blocks > 0 <==> exists|r: int, c: int| 0 <= r < y && p.occupied(r, c),
            forall|r: int, c: int| 0 <= r < y && 0 <= c < 4 ==> #[trigger] p.cells[r][c] <= 7,
            forall|r: int, c: int|
                0 <= r < y && p.occupied(r, c) ==> 0 <= p.x + c < WIDTH && 0 <= p.y + r < HEIGHT,
    {
        for x in 0..4usize
            invariant
                y < 4,
                p == piece@,
                blocks <= 4 * y + x,
                blocks > 0 <==> exists|r: int, c: int|
                    (0 <= r < y || (r == y && c < x)) && p.occupied(r, c),
                forall|r: int, c: int|
                    (0 <= r < y || (r == y && 0 <= c < x)) && 0 <= c < 4 ==> #[trigger] p.cells[r][c]
                        <= 7,
                forall|r: int, c: int|
                    (0 <= r < y || (r == y && c < x)) && p.occupied(r, c) ==> 0 <= p.x + c < WIDTH
                        && 0 <= p.y + r < HEIGHT,
        {
            let value = piece.shape[y][x];
            if value > 7 {
                assert(p.cells[y as int][x as int] > 7);
                return false;
            }
            if value != 0 {
                assert(p.occupied(y as int, x as int));
                let col: i64 = piece.x as i64 + x as i64;
                let row: i64 = piece.y as i64 + y as i64;
                if col < 0 || col >= WIDTH as i64 || row < 0 || row >= HEIGHT as i64 {
                    return false;
                }
                blocks = blocks + 1;
            }
        }
    }
    blocks > 0
}

/// A piece that lies on the board and over empty cells can stay where it is.
pub proof fn lemma_fitting_piece_can_stay(grid: Seq<Seq<u8>>, p: PieceView)
    requires
        fits(grid, p),
    ensures
        can_move(grid, p, 0, 0),
{
    assert(p.moved(0, 0) == p);
}

/// A step that takes an occupied cell of the piece off the board is refused,
/// whatever the grid holds.
pub proof fn lemma_step_off_board_is_refused(
    grid: Seq<Seq<u8>>,
    p: PieceView,
    dx: int,
    dy: int,
    r: int,
    c: int,
)
    requires
        p.occupied(r, c),
        !(0 <= p.x + c + dx < WIDTH && 0 <= p.y + r + dy < HEIGHT),
    ensures
        !can_move(grid, p, dx, dy),
{
    assert(p.moved(dx, dy).occupied(r, c));
}

/// A piece with an occupied cell in the leftmost column cannot step left; in
/// the rightmost column, not right; in the bottom row, not down; in the top
/// row, not up.
pub proof fn lemma_edges_stop_a_piece(grid: Seq<Seq<u8>>, p: PieceView, r: int, c: int)
    requires
        p.occupied(r, c),
    ensures
        p.x + c == 0 ==> !can_move(grid, p, -1, 0),
        p.x + c == WIDTH - 1 ==> !can_move(grid, p, 1, 0),
        p.y + r == HEIGHT - 1 ==> !can_move(grid, p, 0, 1),
        p.y + r == 0 ==> !can_move(grid, p, 0, -1),
{
    if p.x + c == 0 {
        lemma_step_off_board_is_refused(grid, p, -1, 0, r, c);
    }
    if p.x + c == WIDTH - 1 {
        lemma_step_off_board_is_refused(grid, p, 1, 0, r, c);
    }
    if p.y + r == HEIGHT - 1 {
        lemma_step_off_board_is_refused(grid, p, 0, 1, r, c);
    }
    if p.y + r == 0 {
        lemma_step_off_board_is_refused(grid, p, 0, -1, r, c);
    }
}

/// A piece comes to rest after one number of rows only.
pub proof fn lemma_landing_is_unique(grid: Seq<Seq<u8>>, p: PieceView, a: int, b: int)
    requires
        lands_after(grid, p, a),
        lands_after(grid, p, b),
    ensures
        a == b,
        landing(grid, p) == p.moved(0, a),
{
    if a < b {
        assert(can_move(grid, p, 0, a + 1));
    }
    if b < a {
        assert(can_move(grid, p, 0, b + 1));
    }
    let chosen = choose|rows: int| lands_after(grid, p, rows);
    if a < chosen {
        assert(can_move(grid, p, 0, a + 1));
    }
    if chosen < a {
        assert(can_move(grid, p, 0, chosen + 1));
    }
}

/// Taking out row `y` moves each row above it down by exactly one, leaves
/// the rows below it alone, and leaves the top row empty.
pub proof fn lemma_collapsed_rows(grid: Seq<Seq<u8>>, y: int)
    requires
        is_grid(grid),
        0 <= y < HEIGHT,
    ensures
        is_grid(collapsed(grid, y)),
        forall|col: int| 0 <= col < WIDTH ==> collapsed(grid, y)[0][col] == 0,
        forall|row: int| 1 <= row <= y ==> #[trigger] collapsed(grid, y)[row] == grid[row - 1],
        forall|row: int| y < row < HEIGHT ==> #[trigger] collapsed(grid, y)[row] == grid[row],
        grid_wf(grid) ==> grid_wf(collapsed(grid, y)),
{
    let after = collapsed(grid, y);
    assert(after[0] == empty_row());
    assert forall|row: int| 0 <= row < HEIGHT implies (#[trigger] after[row]).len() == WIDTH by {
        if row == 0 {
        } else if row <= y {
            assert(after[row] == grid[row - 1]);
        } else {
            assert(after[row] == grid[row]);
        }
    }
    if grid_wf(grid) {
        assert forall|row: int, col: int|
            0 <= row < HEIGHT && 0 <= col < WIDTH implies #[trigger] after[row][col] <= 7 by {
            if row == 0 {
            } else if row <= y {
                assert(after[row] == grid[row - 1]);
            } else {
                assert(after[row] == grid[row]);
            }
        }
    }
}

/// The rows that are not full are no more than the rows there are, and none
/// of them is full.
pub proof fn lemma_without_full_rows(rows: Seq<Seq<u8>>)
    ensures
        without_full_rows(rows).len() <= rows.len(),
        forall|i: int|
            0 <= i < without_full_rows(rows).len() ==> !is_full(
                #[trigger] without_full_rows(rows)[i],
            ),
        (forall|i: int| 0 <= i < rows.len() ==> !is_full(#[trigger] rows[i]))
            <==> without_full_rows(rows) == rows,
    decreases rows.len(),
{
    if rows.len() > 0 {
        let rest = rows.skip(1);
        lemma_without_full_rows(rest);
        if is_full(rows[0]) {
            assert(without_full_rows(rows).len() < rows.len());
        } else {
            let kept = without_full_rows(rows);
            assert(kept == seq![rows[0]] + without_full_rows(rest));
            assert forall|i: int| 0 <= i < kept.len() implies !is_full(#[trigger] kept[i]) by {
                if i > 0 {
                    assert(kept[i] == without_full_rows(rest)[i - 1]);
                }
            }
            if forall|i: int| 0 <= i < rows.len() ==> !is_full(#[trigger] rows[i]) {
                assert forall|i: int| 0 <= i < rest.len() implies !is_full(#[trigger] rest[i]) by {
                    assert(rest[i] == rows[i + 1]);
                }
                assert(kept =~= rows);
            }
            if kept == rows {
                assert(without_full_rows(rest) =~= rest) by {
                    assert forall|i: int| 0 <= i < rest.len() implies without_full_rows(rest)[i]
                        == rest[i] by {
                        assert(kept[i + 1] == without_full_rows(rest)[i]);
                        assert(rows[i + 1] == rest[i]);
                    }
                    assert(kept.len() == rows.len());
                }
                assert forall|i: int| 0 <= i < rows.len() implies !is_full(#[trigger] rows[i]) by {
                    if i > 0 {
                        assert(rest[i - 1] == rows[i]);
                    }
                }
            }
        }
    }
}

/// Where as many rows stay as there are, every row stays.
pub proof fn lemma_full_length_keeps_all(rows: Seq<Seq<u8>>)
    requires
        without_full_rows(rows).len() == rows.len(),
    ensures
        without_full_rows(rows) == rows,
    decreases rows.len(),
{
    if rows.len() > 0 {
        let rest = rows.skip(1);
        lemma_without_full_rows(rest);
        if !is_full(rows[0]) {
            lemma_full_length_keeps_all(rest);
            assert(without_full_rows(rows) =~= rows);
        }
    }
}

/// Where row `y` is the only full row, the rows that stay are all the
/// others.
pub proof fn lemma_only_full_row_goes(rows: Seq<Seq<u8>>, y: int)
    requires
        0 <= y < rows.len(),
        is_full(rows[y]),
        forall|row: int| 0 <= row < rows.len() && row != y ==> !is_full(#[trigger] rows[row]),
    ensures
        without_full_rows(rows) == rows.remove(y),
    decreases rows.len(),
{
    let rest = rows.skip(1);
    if y == 0 {
        assert forall|i: int| 0 <= i < rest.len() implies !is_full(#[trigger] rest[i]) by {
            assert(rest[i] == rows[i + 1]);
        }
        lemma_without_full_rows(rest);
        assert(rows.remove(0) =~= rest);
    } else {
        assert(rest[y - 1] == rows[y]);
        assert forall|row: int| 0 <= row < rest.len() && row != y - 1 implies !is_full(
            #[trigger] rest[row],
        ) by {
            assert(rest[row] == rows[row + 1]);
        }
        lemma_only_full_row_goes(rest, y - 1);
        assert(rows.remove(y) =~= seq![rows[0]] + rest.remove(y - 1));
    }
}

/// Where exactly one row is full, and it is not the top row, the sweep
/// takes out that row alone: one row is counted, the rows above it move
/// down by one, and the top row is empty.
pub proof fn lemma_sweep_of_one_full_row(grid: Seq<Seq<u8>>, y: int)
    requires
        is_grid(grid),
        1 <= y < HEIGHT,
        is_full(grid[y]),
        forall|row: int| 0 <= row < HEIGHT && row != y ==> !is_full(#[trigger] grid[row]),
    ensures
        full_rows(grid) == 1,
        swept(grid) == collapsed(grid, y),
{
    lemma_only_full_row_goes(grid, y);
    assert(has_full_row(grid));
    assert(swept(grid) =~= collapsed(grid, y));
}

/// A grid without a full row below the top row comes out of the sweep as
/// it went in, and no row is counted.
pub proof fn lemma_sweep_without_full_rows(grid: Seq<Seq<u8>>)
    requires
        forall|row: int| 1 <= row < grid.len() ==> !is_full(#[trigger] grid[row]),
    ensures
        full_rows(grid) == 0,
        swept(grid) == grid,
{
}

/// After a sweep the grid is a grid again; as many rows at its top as were
/// taken out are empty; and where the sweep took out a row at all, no full
/// row is left.
pub proof fn lemma_swept_grid(grid: Seq<Seq<u8>>)
    requires
        is_grid(grid),
    ensures
        is_grid(swept(grid)),
        0 <= full_rows(grid) <= HEIGHT,
        has_full_row(grid) <==> full_rows(grid) >= 1,
        forall|row: int| 0 <= row < full_rows(grid) ==> #[trigger] swept(grid)[row] == empty_row(),
        has_full_row(grid) ==> forall|row: int|
            0 <= row < HEIGHT ==> !is_full(#[trigger] swept(grid)[row]),
        grid_wf(grid) ==> grid_wf(swept(grid)),
{
    let kept = without_full_rows(grid);
    let after = swept(grid);
    lemma_without_full_rows(grid);
    lemma_kept_rows_are_rows(grid);
    if has_full_row(grid) {
        if kept.len() == grid.len() {
            lemma_full_length_keeps_all(grid);
        }
        let count = full_rows(grid);
        assert forall|row: int| 0 <= row < HEIGHT implies {
            &&& (#[trigger] after[row]).len() == WIDTH
            &&& !is_full(after[row])
            &&& row < count ==> after[row] == empty_row()
            &&& grid_wf(grid) ==> forall|col: int| 0 <= col < WIDTH ==> after[row][col] <= 7
        } by {
            if row < count {
                assert(after[row] == empty_row());
                assert(after[row][0] == 0);
            } else {
                assert(after[row] == kept[row - count]);
                let from = choose|from: int| 0 <= from < grid.len() && grid[from] == kept[row - count];
                if grid_wf(grid) {
                    assert forall|col: int| 0 <= col < WIDTH implies after[row][col] <= 7 by {
                        assert(grid[from][col] <= 7);
                    }
                }
            }
        }
    }
}

/// Each row that stays is one of the rows.
pub proof fn lemma_kept_rows_are_rows(rows: Seq<Seq<u8>>)
    ensures
        forall|i: int|
            0 <= i < without_full_rows(rows).len() ==> exists|from: int|
                0 <= from < rows.len() && rows[from] == #[trigger] without_full_rows(rows)[i],
    decreases rows.len(),
{
    if rows.len() > 0 {
        let rest = rows.skip(1);
        let kept = without_full_rows(rows);
        lemma_kept_rows_are_rows(rest);
        assert forall|i: int| 0 <= i < kept.len() implies exists|from: int|
            0 <= from < rows.len() && rows[from] == #[trigger] kept[i] by {
            if !is_full(rows[0]) && i == 0 {
                assert(rows[0] == kept[0]);
            } else {
                let k = if is_full(rows[0]) {
                    i
                } else {
                    i - 1
                };
                assert(kept[i] == without_full_rows(rest)[k]);
                let from = choose|from: int|
                    0 <= from < rest.len() && rest[from] == without_full_rows(rest)[k];
                assert(rows[from + 1] == kept[i]);
            }
        }
    }
}

/// Writing a piece into the grid empties no cell.
pub proof fn lemma_stamped_keeps_cells_occupied(grid: Seq<Seq<u8>>, p: PieceView)
    ensures
        forall|row: int, col: int|
            0 <= row < HEIGHT && 0 <= col < WIDTH && grid[row][col] != 0 ==> #[trigger] stamped(
                grid,
                p,
            )[row][col] != 0,
        top_row_occupied(grid) ==> top_row_occupied(stamped(grid, p)),
{
    if top_row_occupied(grid) {
        let col = choose|col: int| 0 <= col < WIDTH && #[trigger] grid[0][col] != 0;
        assert(stamped(grid, p)[0][col] != 0);
    }
}

/// The state of a sweep that has reached row `y` after taking out `count`
/// rows: under `count` empty rows lie the `unseen` rows of `start` that the
/// sweep has not looked at yet, and under those the rows it has looked at
/// and left in place.
spec fn sweeping(start: Seq<Seq<u8>>, grid: Seq<Seq<u8>>, count: int, unseen: int, y: int) -> bool {
    &&& 0 <= unseen <= HEIGHT
    &&& 0 <= count
    &&& 0 <= y < HEIGHT
    &&& grid == empty_rows(count) + start.take(unseen) + without_full_rows(start.skip(unseen))
    &&& without_full_rows(start.skip(unseen)).len() == HEIGHT - count - unseen
    &&& unseen > 0 ==> y + 1 == count + unseen
    &&& unseen == 0 ==> y + 1 <= count
    &&& count > 0 ==> has_full_row(start)
}

/// Before the first look the sweep stands at the bottom row with every row
/// unseen.
proof fn lemma_sweep_begins(start: Seq<Seq<u8>>)
    requires
        is_grid(start),
    ensures
        sweeping(start, start, 0, HEIGHT as int, HEIGHT - 1),
{
    assert(start.skip(HEIGHT as int) =~= Seq::<Seq<u8>>::empty());
    assert(start =~= empty_rows(0) + start.take(HEIGHT as int) + without_full_rows(
        start.skip(HEIGHT as int),
    ));
}

/// Taking out the full row at `y` keeps the sweep's state, with one row more
/// counted and one row fewer unseen.
proof fn lemma_sweep_takes_row(
    start: Seq<Seq<u8>>,
    grid: Seq<Seq<u8>>,
    count: int,
    unseen: int,
    y: int,
)
    requires
        is_grid(start),
        sweeping(start, grid, count, unseen, y),
        is_full(grid[y]),
        y > 0,
    ensures
        unseen > 0,
        count < HEIGHT,
        sweeping(start, collapsed(grid, y), count + 1, unseen - 1, y),
{
    // A full row is not one of the empty rows at the top, so it is the last
    // of the rows not looked at yet.
    if unseen == 0 {
        assert(grid[y] == empty_row());
        assert(grid[y][0] == 0);
    }
    assert(grid[y] == start[unseen - 1]);
    // The first row taken out has not moved: it is a full row of `start`.
    if count == 0 {
        assert(is_full(start[y]));
    }
    assert(start.skip(unseen - 1).skip(1) =~= start.skip(unseen));
    assert(start.skip(unseen - 1)[0] == start[unseen - 1]);
    assert(without_full_rows(start.skip(unseen - 1)) == without_full_rows(start.skip(unseen)));
    assert(collapsed(grid, y) =~= empty_rows(count + 1) + start.take(unseen - 1)
        + without_full_rows(start.skip(unseen - 1)));
}

/// Passing the row at `y`, which is not full, keeps the sweep's state one
/// row further up.
proof fn lemma_sweep_passes_row(
    start: Seq<Seq<u8>>,
    grid: Seq<Seq<u8>>,
    count: int,
    unseen: int,
    y: int,
)
    requires
        is_grid(start),
        sweeping(start, grid, count, unseen, y),
        !is_full(grid[y]),
        y > 0,
    ensures
        sweeping(
            start,
            grid,
            count,
            if unseen > 0 {
                unseen - 1
            } else {
                0
            },
            y - 1,
        ),
{
    if unseen > 0 {
        assert(grid[y] == start[unseen - 1]);
        assert(start.skip(unseen - 1).skip(1) =~= start.skip(unseen));
        assert(start.skip(unseen - 1)[0] == start[unseen - 1]);
        assert(without_full_rows(start.skip(unseen - 1)) == seq![start[unseen - 1]]
            + without_full_rows(start.skip(unseen)));
        assert(grid =~= empty_rows(count) + start.take(unseen - 1) + without_full_rows(
            start.skip(unseen - 1),
        ));
    }
}

/// A sweep that has reached the top row has made the swept grid and counted
/// its full rows.
proof fn lemma_sweep_ends(start: Seq<Seq<u8>>, grid: Seq<Seq<u8>>, count: int, unseen: int)
    requires
        is_grid(start),
        sweeping(start, grid, count, unseen, 0),
    ensures
        grid == swept(start),
        count == full_rows(start),
        count <= HEIGHT,
{
    if unseen > 0 {
        // Only the top row is left, so no row was taken out and every row
        // below the top row has stayed.
        assert(start.skip(1).len() == HEIGHT - 1);
        lemma_full_length_keeps_all(start.skip(1));
        assert(grid =~= start);
        assert(!has_full_row(start)) by {
            lemma_without_full_rows(start.skip(1));
            assert forall|row: int| 1 <= row < start.len() implies !is_full(
                #[trigger] start[row],
            ) by {
                assert(start.skip(1)[row - 1] == start[row]);
            }
        }
    } else {
        assert(start.skip(0) =~= start);
        assert(start.take(0) =~= Seq::<Seq<u8>>::empty());
        assert(grid =~= swept(start));
    }
}

} // verus!
