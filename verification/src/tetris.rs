//! The game: its state, the tick that advances it by one frame, the queue of
//! pieces to come, and the score.

use crate::board::{
    can_move, empty_grid, full_rows, grid_wf, is_spawnable, landing,
    lemma_stamped_keeps_cells_occupied, spawnable, stamped, swept, top_row_occupied, Board,
    Delta, HEIGHT,
};
use crate::piece::{
    is_canonical, lemma_canonical_is_sound, lemma_turned_keeps_cells, spawn_piece, Piece,
    PieceView, Rotation,
};
use std::collections::VecDeque;
use vstd::prelude::*;

verus! {

/// Ticks for which the game rests after a piece has locked.
pub const LOCK_WAIT: i32 = 10;

/// Ticks between two sideways steps while a key is held.
pub const MOVE_DELAY: i32 = 12;

/// The piece falls one row on every tick whose frame count is a multiple of this.
pub const FALL_PERIOD: i32 = 40;

/// The queue is refilled as soon as it holds fewer pieces than this.
pub const QUEUE_LOW: usize = 7;

/// Number of pieces that one refill adds to the queue.
pub const REFILL: usize = 14;

/// What the game is doing.
#[derive(Clone, Copy, Debug, PartialEq, Eq, Structural)]
pub enum GameState {
    Running,
    Paused,
    GameOver,
}

/// What the player asks for during one tick. `left` and `right` say that the
/// key is held; the others, that it went down on this tick.
#[derive(Clone, Copy, Debug, PartialEq, Eq)]
pub struct Input {
    pub reset: bool,
    pub pause: bool,
    pub hard_drop: bool,
    pub left: bool,
    pub right: bool,
    pub rotate_clockwise: bool,
    pub rotate_counter_clockwise: bool,
}

/// The game: the board, the piece in play, the pieces to come, and the
/// counters that the tick reads and writes.
pub struct Tetris {
    pub next: VecDeque<Piece>,
    pub board: Board,
    pub piece: Piece,
    pub state: GameState,
    pub score: i32,
    pub rows_cleared: i32,
    pub frame_count: i32,
    pub wait_time: i32,
    pub move_timer: i32,
}

/// The mathematical model of the game.
pub struct TetrisView {
    pub next: Seq<PieceView>,
    pub board: Seq<Seq<u8>>,
    pub piece: PieceView,
    pub state: GameState,
    pub score: int,
    pub rows_cleared: int,
    pub frame_count: int,
    pub wait_time: int,
    pub move_timer: int,
}

/// The models of a sequence of pieces.
pub open spec fn views(pieces: Seq<Piece>) -> Seq<PieceView> {
    Seq::new(pieces.len(), |i: int| pieces[i]@)
}

/// Points for the rows that one sweep takes out.
pub open spec fn points(rows: int) -> int {
    if rows == 1 {
        40
    } else if rows == 2 {
        100
    } else if rows == 3 {
        300
    } else if rows == 4 {
        1200
    } else {
        0
    }
}

/// A batch of pieces that can refill the queue.
pub open spec fn is_refill(batch: Seq<PieceView>) -> bool {
    &&& batch.len() == REFILL
    &&& forall|i: int| 0 <= i < batch.len() ==> spawnable(#[trigger] batch[i])
}

/// A batch as the random draw makes it: `REFILL` pieces, each one of the
/// seven shapes at the spawn position.
pub open spec fn is_drawn_refill(batch: Seq<PieceView>) -> bool {
    &&& batch.len() == REFILL
    &&& forall|i: int| 0 <= i < batch.len() ==> is_canonical(#[trigger] batch[i])
}

/// The game at its start: `next` as the queue, an empty board, `piece` in
/// play, the game running and every counter at zero.
pub open spec fn initial(piece: PieceView, next: Seq<PieceView>) -> TetrisView {
    TetrisView {
        next,
        board: empty_grid(),
        piece,
        state: GameState::Running,
        score: 0,
        rows_cleared: 0,
        frame_count: 0,
        wait_time: 0,
        move_timer: 0,
    }
}

/// The rotation that the input asks for, if any. Clockwise wins over
/// counter-clockwise.
pub open spec fn turn_asked(input: Input) -> Option<Rotation> {
    if input.rotate_clockwise {
        Some(Rotation::Clockwise)
    } else if input.rotate_counter_clockwise {
        Some(Rotation::CounterClockwise)
    } else {
        None
    }
}

impl TetrisView {
    /// The board is a grid of valid cells, the piece in play and the queued
    /// pieces can enter play, and the queue is not empty.
    pub open spec fn wf(self) -> bool {
        &&& grid_wf(self.board)
        &&& spawnable(self.piece)
        &&& self.next.len() >= 1
        &&& forall|i: int| 0 <= i < self.next.len() ==> spawnable(#[trigger] self.next[i])
    }

    /// The move timer runs down by one while it is above zero.
    pub open spec fn timer_run_down(self) -> TetrisView {
        TetrisView {
            move_timer: if self.move_timer > 0 {
                self.move_timer - 1
            } else {
                self.move_timer
            },
            ..self
        }
    }

    /// A new game on the same queue: empty board, `fresh` in play, counters
    /// at zero. The frame count and the move timer go on.
    pub open spec fn restarted(self, fresh: PieceView) -> TetrisView {
        TetrisView {
            state: GameState::Running,
            board: empty_grid(),
            piece: fresh,
            rows_cleared: 0,
            score: 0,
            wait_time: 0,
            ..self
        }
    }

    /// A running game pauses and a paused game runs again, if `pause` is set.
    pub open spec fn pause_toggled(self, pause: bool) -> TetrisView {
        TetrisView {
            state: if pause && self.state == GameState::Running {
                GameState::Paused
            } else if pause && self.state == GameState::Paused {
                GameState::Running
            } else {
                self.state
            },
            ..self
        }
    }

    /// The front of the queue comes into play. If that leaves fewer than
    /// `QUEUE_LOW` pieces in the queue, `refill` is appended.
    pub open spec fn dequeued(self, refill: Seq<PieceView>) -> TetrisView {
        let rest = self.next.skip(1);
        TetrisView {
            piece: self.next[0],
            next: if rest.len() < QUEUE_LOW {
                rest + refill
            } else {
                rest
            },
            ..self
        }
    }

    /// The piece in play becomes part of the board, the next piece comes
    /// into play, and the wait after a lock begins.
    pub open spec fn locked(self, refill: Seq<PieceView>) -> TetrisView {
        TetrisView {
            board: stamped(self.board, self.piece),
            wait_time: self.wait_time + LOCK_WAIT,
            ..self
        }.dequeued(refill)
    }

    /// The piece falls as far as it can and locks there.
    pub open spec fn hard_dropped(self, refill: Seq<PieceView>) -> TetrisView {
        TetrisView { piece: landing(self.board, self.piece), ..self }.locked(refill)
    }

    /// One step sideways by `dx`, taken if the move timer is at zero and the
    /// step is free; taking it winds the move timer up.
    pub open spec fn shifted(self, dx: int) -> TetrisView {
        if can_move(self.board, self.piece, dx, 0) && self.move_timer == 0 {
            TetrisView { piece: self.piece.moved(dx, 0), move_timer: MOVE_DELAY as int, ..self }
        } else {
            self
        }
    }

    /// A quarter turn in place, taken if the turned piece fits where it is.
    pub open spec fn turned(self, rotation: Rotation) -> TetrisView {
        if can_move(self.board, self.piece.turned(rotation), 0, 0) {
            TetrisView { piece: self.piece.turned(rotation), ..self }
        } else {
            self
        }
    }

    /// The game is over as soon as a cell of the top row is occupied.
    pub open spec fn top_checked(self) -> TetrisView {
        if top_row_occupied(self.board) {
            TetrisView { state: GameState::GameOver, ..self }
        } else {
            self
        }
    }

    /// One sweep for full rows: the rows go, and they are counted and scored.
    pub open spec fn rows_scored(self) -> TetrisView {
        TetrisView {
            board: swept(self.board),
            rows_cleared: self.rows_cleared + full_rows(self.board),
            score: self.score + points(full_rows(self.board)),
            ..self
        }
    }

    /// Gravity: the piece falls one row if it can; if it cannot, it locks and
    /// the board is swept for full rows.
    pub open spec fn fallen(self, refill: Seq<PieceView>) -> TetrisView {
        if can_move(self.board, self.piece, 0, 1) {
            TetrisView { piece: self.piece.moved(0, 1), ..self }
        } else {
            self.locked(refill).rows_scored()
        }
    }

    /// The player's hand on the piece: a step left, a step right, and a
    /// quarter turn, each if the input asks for it and the board allows it.
    pub open spec fn steered(self, input: Input) -> TetrisView {
        let s = if input.left {
            self.shifted(-1)
        } else {
            self
        };
        let s = if input.right {
            s.shifted(1)
        } else {
            s
        };
        match turn_asked(input) {
            Some(rotation) => s.turned(rotation),
            None => s,
        }
    }

    /// The part of a tick that a running game plays: the hard drop, the
    /// player's hand on the piece, the look at the top row, and gravity on
    /// every `FALL_PERIOD`-th frame. `first` refills the queue after the
    /// hard drop, `second` after the lock that gravity makes.
    pub open spec fn played_on(
        self,
        input: Input,
        first: Seq<PieceView>,
        second: Seq<PieceView>,
    ) -> TetrisView {
        let s = if input.hard_drop {
            self.hard_dropped(first)
        } else {
            self
        };
        let s = s.steered(input).top_checked();
        if s.frame_count % (FALL_PERIOD as int) == 0 {
            s.fallen(second)
        } else {
            s
        }
    }

    /// The part of a tick that a running game plays, with one batch to
    /// refill the queue from.
    pub open spec fn played(self, input: Input, refill: Seq<PieceView>) -> TetrisView {
        self.played_on(input, refill, refill)
    }

    /// One tick. `fresh` is the piece that a reset puts into play, `refill`
    /// the batch that is appended where the queue runs low.
    pub open spec fn tick(self, input: Input, fresh: PieceView, refill: Seq<PieceView>) -> TetrisView {
        let s = self.timer_run_down();
        if s.wait_time > 0 {
            TetrisView { wait_time: s.wait_time - 1, ..s }
        } else if input.reset {
            s.restarted(fresh)
        } else if s.state == GameState::GameOver {
            s
        } else {
            let s = s.pause_toggled(input.pause);
            if s.state == GameState::Paused {
                s
            } else {
                s.played(input, refill)
            }
        }
    }
}

impl View for Tetris {
    type V = TetrisView;

    open spec fn view(&self) -> TetrisView {
        TetrisView {
            next: views(self.next@),
            board: self.board@,
            piece: self.piece@,
            state: self.state,
            score: self.score as int,
            rows_cleared: self.rows_cleared as int,
            frame_count: self.frame_count as int,
            wait_time: self.wait_time as int,
            move_timer: self.move_timer as int,
        }
    }
}

/// Where the pieces come from that a tick may need: the random draw, or
/// pieces that the caller has chosen.
enum Supply {
    Drawn,
    Given { fresh: Piece, refill: [Piece; 14] },
}

impl Supply {
    /// Pieces that the caller has chosen can enter play.
    spec fn wf(&self) -> bool {
        match self {
            Supply::Drawn => true,
            Supply::Given { fresh, refill } => spawnable(fresh@) && is_refill(views(refill@)),
        }
    }

    /// `p` may come out of `fresh_piece`.
    spec fn offers_fresh(&self, p: PieceView) -> bool {
        match self {
            Supply::Drawn => is_canonical(p),
            Supply::Given { fresh, refill } => p == fresh@,
        }
    }

    /// `batch` may come out of `refill_batch`.
    spec fn offers_refill(&self, batch: Seq<PieceView>) -> bool {
        match self {
            Supply::Drawn => is_drawn_refill(batch),
            Supply::Given { fresh, refill } => batch == views(refill@),
        }
    }

    /// A piece that `fresh_piece` may return, for a tick that asks for none.
    spec fn some_fresh(&self) -> PieceView {
        match self {
            Supply::Drawn => spawn_piece(0),
            Supply::Given { fresh, refill } => fresh@,
        }
    }

    /// A batch that `refill_batch` may return, for a tick that asks for none.
    spec fn some_refill(&self) -> Seq<PieceView> {
        match self {
            Supply::Drawn => Seq::new(REFILL as nat, |i: int| spawn_piece(0)),
            Supply::Given { fresh, refill } => views(refill@),
        }
    }

    /// What the supply offers exists and can enter play.
    proof fn lemma_offers(&self)
        requires
            self.wf(),
        ensures
            self.offers_fresh(self.some_fresh()),
            self.offers_refill(self.some_refill()),
            forall|p: PieceView| self.offers_fresh(p) ==> spawnable(p),
            forall|batch: Seq<PieceView>| self.offers_refill(batch) ==> is_refill(batch),
    {
        assert forall|p: PieceView| self.offers_fresh(p) implies spawnable(p) by {
            if self is Drawn {
                lemma_canonical_is_spawnable(p);
            }
        }
        assert forall|batch: Seq<PieceView>| self.offers_refill(batch) implies is_refill(batch) by {
            if self is Drawn {
                lemma_drawn_refill_is_refill(batch);
            }
        }
    }

    /// The piece that a reset puts into play.
    fn fresh_piece(&self) -> (piece: Piece)
        requires
            self.wf(),
        ensures
            self.offers_fresh(piece@),
    {
        match self {
            Supply::Drawn => Piece::new(),
            Supply::Given { fresh, refill } => *fresh,
        }
    }

    /// `REFILL` pieces for the queue: two draws of seven, or the given ones.
    fn refill_batch(&self) -> (batch: Vec<Piece>)
        requires
            self.wf(),
        ensures
            batch@.len() == REFILL,
            self.offers_refill(views(batch@)),
    {
        match self {
            Supply::Drawn => {
                let mut pieces = Piece::generate_pieces();
                let mut more = Piece::generate_pieces();
                pieces.append(&mut more);
                pieces
            },
            Supply::Given { fresh, refill } => {
                let mut pieces: Vec<Piece> = Vec::new();
                for i in 0..14usize
                    invariant
                        pieces@ == refill@.take(i as int),
                {
                    pieces.push(refill[i]);
                    assert(pieces@ =~= refill@.take(i + 1));
                }
                assert(pieces@ =~= refill@);
                pieces
            },
        }
    }
}

impl Tetris {
    /// The board has its fixed dimensions and the model is well-formed.
    pub open spec fn wf(&self) -> bool {
        &&& self.board.wf()
        &&& self@.wf()
    }

    /// The counters can take what one tick may add to them.
    pub open spec fn has_headroom(&self) -> bool {
        &&& self.score <= i32::MAX - 1200
        &&& self.rows_cleared <= i32::MAX - HEIGHT
    }

    /// A new game: `REFILL` pieces drawn at random in the queue, an empty
    /// board, and one more piece drawn at random in play.
    pub fn new() -> (game: Tetris)
        ensures
            game.wf(),
            is_canonical(game@.piece),
            is_drawn_refill(game@.next),
            game@ == initial(game@.piece, game@.next),
    {
        let (game, _) = Tetris::start(&Supply::Drawn);
        game
    }

    /// A new game with `piece` in play and `next` as the queue.
    pub fn with_pieces(piece: Piece, next: [Piece; 14]) -> (game: Tetris)
        requires
            spawnable(piece@),
            is_refill(views(next@)),
        ensures
            game.wf(),
            game@ == initial(piece@, views(next@)),
    {
        let (game, _) = Tetris::start(&Supply::Given { fresh: piece, refill: next });
        game
    }

    /// Whether the game is well-formed.
    pub fn is_valid(&self) -> (ok: bool)
        ensures
            ok == self.wf(),
    {
        if !self.board.is_valid() || !is_spawnable(self.piece) || self.next.len() < 1 {
            return false;
        }
        let count = self.next.len();
        for i in 0..count
            invariant
                count == self.next@.len(),
                forall|k: int| 0 <= k < i ==> spawnable(#[trigger] self@.next[k]),
        {
            assert(self@.next[i as int] == self.next@[i as int]@);
            if !is_spawnable(self.next[i]) {
                return false;
            }
        }
        true
    }

    /// Whether `update` can be called: the game is well-formed and the
    /// counters can take what one tick may add to them.
    pub fn can_update(&self) -> (ok: bool)
        ensures
            ok == (self.wf() && self.has_headroom()),
    {
        self.score <= i32::MAX - 1200 && self.rows_cleared <= i32::MAX - HEIGHT && self.is_valid()
    }

    /// One tick of the game, in this order. The move timer runs down by
    /// one. While the wait after a lock lasts, it runs down by one and
    /// nothing else happens. A reset starts a new game on the same queue,
    /// with a piece drawn at random in play. A game that is over stays as
    /// it is. A pause input pauses a running game and wakes a paused one; a
    /// paused game stays as it is. A running game then plays the hard drop,
    /// the steps left and right, the rotation, the look at the top row, and,
    /// on every `FALL_PERIOD`-th frame, gravity. Where the queue runs low,
    /// `REFILL` pieces are drawn at random.
    pub fn update(&mut self, input: Input)
        requires
            old(self).wf(),
            old(self).has_headroom(),
        ensures
            final(self).wf(),
            exists|fresh: PieceView, refill: Seq<PieceView>|
                is_canonical(fresh) && is_drawn_refill(refill) && final(self)@
                    == #[trigger] old(self)@.tick(input, fresh, refill),
    {
        let used = self.advance(input, &Supply::Drawn);
        assert(final(self)@ == old(self)@.tick(input, used@.0, used@.1));
    }

    /// One tick of the game as `update` plays it, with the pieces chosen by
    /// the caller: `fresh` is the piece that a reset puts into play, and
    /// `refill` is appended where the queue runs low.
    pub fn update_with(&mut self, input: Input, fresh: Piece, refill: [Piece; 14])
        requires
            old(self).wf(),
            old(self).has_headroom(),
            spawnable(fresh@),
            is_refill(views(refill@)),
        ensures
            final(self).wf(),
            final(self)@ == old(self)@.tick(input, fresh@, views(refill@)),
    {
        self.advance(input, &Supply::Given { fresh, refill });
    }

    /// Takes the front of the queue out and returns it. If that leaves
    /// fewer than `QUEUE_LOW` pieces in the queue, `REFILL` pieces are
    /// drawn at random and appended.
    pub fn next_piece(&mut self) -> (piece: Piece)
        requires
            old(self).next@.len() >= 1,
        ensures
            piece@ == old(self)@.next[0],
            exists|refill: Seq<PieceView>|
                is_drawn_refill(refill) && final(self)@ == (TetrisView {
                    piece: old(self)@.piece,
                    ..#[trigger] old(self)@.dequeued(refill)
                }),
            final(self).board == old(self).board,
            final(self)@.next.len() >= QUEUE_LOW,
    {
        let (piece, Ghost(refill)) = self.take_next(&Supply::Drawn);
        assert(final(self)@ == (TetrisView {
            piece: old(self)@.piece,
            ..old(self)@.dequeued(refill)
        }));
        piece
    }

    /// Takes the front of the queue out and returns it. If that leaves
    /// fewer than `QUEUE_LOW` pieces in the queue, `refill` is appended.
    pub fn next_piece_with(&mut self, refill: [Piece; 14]) -> (piece: Piece)
        requires
            old(self).next@.len() >= 1,
            is_refill(views(refill@)),
        ensures
            piece@ == old(self)@.next[0],
            final(self)@ == (TetrisView {
                piece: old(self)@.piece,
                ..old(self)@.dequeued(views(refill@))
            }),
            final(self).board == old(self).board,
            final(self)@.next.len() >= QUEUE_LOW,
    {
        let fresh = refill[0];
        assert(views(refill@)[0] == fresh@);
        let (piece, _) = self.take_next(&Supply::Given { fresh, refill });
        piece
    }

    /// Whether some cell of the top row is occupied.
    pub fn check_top_row(&self) -> (reached: bool)
        requires
            self.board.wf(),
        ensures
            reached == top_row_occupied(self@.board),
    {
        self.board.top_row_is_occupied()
    }

    /// One sweep of the board for full rows. The rows taken out are added
    /// to `rows_cleared`, and their points to `score`.
    pub fn check_full_rows(&mut self)
        requires
            old(self).board.wf(),
            old(self).has_headroom(),
        ensures
            final(self).board.wf(),
            final(self)@ == old(self)@.rows_scored(),
    {
        let rows_cleared = self.board.clear_full_rows();
        self.rows_cleared = self.rows_cleared + rows_cleared as i32;
        let gained: i32 = match rows_cleared {
            1 => 40,
            2 => 100,
            3 => 300,
            4 => 1200,
            _ => 0,
        };
        self.score = self.score + gained;
    }

    /// Where the piece in play would come to rest if it fell straight down
    /// now. Nothing changes.
    pub fn ghost_piece(&self) -> (ghost_piece: Piece)
        requires
            self.wf(),
        ensures
            ghost_piece@ == landing(self@.board, self@.piece),
    {
        self.board.drop_piece(self.piece)
    }

    /// Closes a frame: the frame count goes up by one. Returns whether the
    /// game goes on, which it does unless `quit` is set.
    pub fn end_frame(&mut self, quit: bool) -> (go_on: bool)
        requires
            old(self).frame_count < i32::MAX,
        ensures
            go_on == !quit,
            final(self)@ == (TetrisView {
                frame_count: old(self)@.frame_count + 1,
                ..old(self)@
            }),
            final(self).board == old(self).board,
    {
        self.frame_count = self.frame_count + 1;
        !quit
    }
}

/// The steps of a tick, each on pieces from a `Supply` where it may need any.
impl Tetris {
    /// A new game on pieces from `supply`: a queue of one batch, an empty
    /// board, and a fresh piece in play.
    fn start(supply: &Supply) -> (out: (Tetris, Ghost<(PieceView, Seq<PieceView>)>))
        requires
            supply.wf(),
        ensures
            out.0.wf(),
            supply.offers_fresh(out.1@.0),
            supply.offers_refill(out.1@.1),
            out.0@ == initial(out.1@.0, out.1@.1),
    {
        proof {
            supply.lemma_offers();
        }
        let batch = supply.refill_batch();
        let mut next: VecDeque<Piece> = VecDeque::new();
        for i in 0..14usize
            invariant
                batch@.len() == REFILL,
                next@ == batch@.take(i as int),
        {
            next.push_back(batch[i]);
            assert(next@ =~= batch@.take(i + 1));
        }
        assert(next@ =~= batch@);
        let board = Board::new();
        let piece = supply.fresh_piece();
        let game = Tetris {
            next,
            board,
            piece,
            state: GameState::Running,
            score: 0,
            rows_cleared: 0,
            frame_count: 0,
            wait_time: 0,
            move_timer: 0,
        };
        (game, Ghost((piece@, views(batch@))))
    }

    /// The front of the queue, taken out. If that leaves fewer than
    /// `QUEUE_LOW` pieces in the queue, a batch from `supply` is appended.
    fn take_next(&mut self, supply: &Supply) -> (out: (Piece, Ghost<Seq<PieceView>>))
        requires
            old(self).next@.len() >= 1,
            supply.wf(),
        ensures
            supply.offers_refill(out.1@),
            out.0@ == old(self)@.next[0],
            final(self)@ == (TetrisView { piece: old(self)@.piece, ..old(self)@.dequeued(out.1@) }),
            final(self).board == old(self).board,
    {
        proof {
            supply.lemma_offers();
        }
        let ghost mut batch_used = supply.some_refill();
        let piece = self.next.pop_front().unwrap();
        let ghost rest = self.next@;
        assert(views(rest) =~= old(self)@.next.skip(1));
        if self.next.len() < QUEUE_LOW {
            let batch = supply.refill_batch();
            proof {
                batch_used = views(batch@);
            }
            for i in 0..14usize
                invariant
                    batch@.len() == REFILL,
                    self.next@ == rest + batch@.take(i as int),
                    self.board == old(self).board,
                    self.piece == old(self).piece,
                    self.state == old(self).state,
                    self.score == old(self).score,
                    self.rows_cleared == old(self).rows_cleared,
                    self.frame_count == old(self).frame_count,
                    self.wait_time == old(self).wait_time,
                    self.move_timer == old(self).move_timer,
            {
                self.next.push_back(batch[i]);
                assert(self.next@ =~= rest + batch@.take(i + 1));
            }
            assert(batch@.take(14) =~= batch@);
            assert(views(self.next@) =~= views(rest) + views(batch@));
        }
        assert(self@.next =~= old(self)@.dequeued(batch_used).next);
        (piece, Ghost(batch_used))
    }

    /// The piece in play becomes part of the board, the next piece comes
    /// into play, and the wait after a lock begins.
    fn lock(&mut self, supply: &Supply) -> (used: Ghost<Seq<PieceView>>)
        requires
            old(self).wf(),
            old(self).wait_time <= i32::MAX - LOCK_WAIT,
            supply.wf(),
        ensures
            final(self).wf(),
            supply.offers_refill(used@),
            final(self)@ == old(self)@.locked(used@),
    {
        proof {
            supply.lemma_offers();
        }
        self.board.place_piece(self.piece);
        let (piece, Ghost(used)) = self.take_next(supply);
        self.piece = piece;
        self.wait_time = self.wait_time + LOCK_WAIT;
        proof {
            let after = old(self)@.locked(used);
            assert(self@.next =~= after.next);
            assert(spawnable(old(self)@.next[0]));
            assert forall|i: int| 0 <= i < after.next.len() implies spawnable(
                #[trigger] after.next[i],
            ) by {
                let rest = old(self)@.next.skip(1);
                if i < rest.len() {
                    assert(after.next[i] == old(self)@.next[i + 1]);
                } else {
                    assert(after.next[i] == used[i - rest.len()]);
                }
            }
        }
        Ghost(used)
    }

    /// The piece falls as far as it can and locks there.
    fn hard_drop(&mut self, supply: &Supply) -> (used: Ghost<Seq<PieceView>>)
        requires
            old(self).wf(),
            old(self).wait_time <= i32::MAX - LOCK_WAIT,
            supply.wf(),
        ensures
            final(self).wf(),
            supply.offers_refill(used@),
            final(self)@ == old(self)@.hard_dropped(used@),
    {
        let landed = self.board.drop_piece(self.piece);
        proof {
            let rows = landed.y - self.piece.y;
            if rows > 0 {
                assert(can_move(self@.board, self@.piece, 0, rows));
            }
            let (r, c) = choose|r: int, c: int| self@.piece.occupied(r, c);
            assert(landed@.occupied(r, c));
        }
        self.piece = landed;
        self.lock(supply)
    }

    /// One step sideways, taken if the move timer is at zero and the step
    /// is free.
    fn shift(&mut self, dx: i32)
        requires
            old(self).wf(),
            dx == -1 || dx == 1,
        ensures
            final(self).wf(),
            final(self)@ == old(self)@.shifted(dx as int),
    {
        if self.board.piece_can_move(self.piece, Delta { x: dx, y: 0 }) && self.move_timer == 0 {
            proof {
                let (r, c) = choose|r: int, c: int| self@.piece.occupied(r, c);
                assert(self@.piece.moved(dx as int, 0).occupied(r, c));
            }
            self.piece.x = self.piece.x + dx;
            self.move_timer = MOVE_DELAY;
            assert(self@.piece.cells =~~= old(self)@.piece.cells);
        }
    }

    /// A quarter turn in place, taken if the turned piece fits where it is.
    fn turn(&mut self, rotation: Rotation)
        requires
            old(self).wf(),
        ensures
            final(self).wf(),
            final(self)@ == old(self)@.turned(rotation),
    {
        let mut piece = self.piece;
        piece.rotate(&rotation);
        if self.board.piece_can_move(piece, Delta { x: 0, y: 0 }) {
            proof {
                lemma_turned_keeps_cells(self@.piece, rotation);
                assert(piece@.moved(0, 0) == piece@);
            }
            self.piece.rotate(&rotation);
        }
    }

    /// The player's hand on the piece: a step left, a step right, and a
    /// quarter turn.
    fn steer(&mut self, input: Input)
        requires
            old(self).wf(),
        ensures
            final(self).wf(),
            final(self)@ == old(self)@.steered(input),
    {
        if input.left {
            self.shift(-1);
        }
        if input.right {
            self.shift(1);
        }
        if input.rotate_clockwise || input.rotate_counter_clockwise {
            let rotation = if input.rotate_clockwise {
                Rotation::Clockwise
            } else {
                Rotation::CounterClockwise
            };
            self.turn(rotation);
        }
    }

    /// Gravity: the piece falls one row if it can; if it cannot, it locks
    /// and the board is swept for full rows.
    fn fall(&mut self, supply: &Supply) -> (used: Ghost<Seq<PieceView>>)
        requires
            old(self).wf(),
            old(self).has_headroom(),
            old(self).wait_time <= i32::MAX - LOCK_WAIT,
            supply.wf(),
        ensures
            final(self).wf(),
            supply.offers_refill(used@),
            final(self)@ == old(self)@.fallen(used@),
    {
        proof {
            supply.lemma_offers();
        }
        if self.board.piece_can_move(self.piece, Delta { x: 0, y: 1 }) {
            proof {
                let (r, c) = choose|r: int, c: int| self@.piece.occupied(r, c);
                assert(self@.piece.moved(0, 1).occupied(r, c));
            }
            self.piece.y = self.piece.y + 1;
            assert(self@.piece.cells =~~= old(self)@.piece.cells);
            Ghost(supply.some_refill())
        } else {
            let used = self.lock(supply);
            self.check_full_rows();
            used
        }
    }

    /// The part of a tick that a running game plays, on pieces from
    /// `supply`.
    fn play(&mut self, input: Input, supply: &Supply) -> (used: Ghost<
        (Seq<PieceView>, Seq<PieceView>),
    >)
        requires
            old(self).wf(),
            old(self).has_headroom(),
            old(self).wait_time <= 0,
            supply.wf(),
        ensures
            final(self).wf(),
            supply.offers_refill(used@.0),
            supply.offers_refill(used@.1),
            final(self)@ == old(self)@.played_on(input, used@.0, used@.1),
    {
        proof {
            supply.lemma_offers();
        }
        let ghost mut first = supply.some_refill();
        if input.hard_drop {
            let used = self.hard_drop(supply);
            proof {
                first = used@;
            }
        }
        self.steer(input);
        if self.check_top_row() {
            self.state = GameState::GameOver;
        }
        let ghost mut second = supply.some_refill();
        if self.frame_count % FALL_PERIOD == 0 {
            let used = self.fall(supply);
            proof {
                second = used@;
            }
        }
        Ghost((first, second))
    }

    /// One tick on pieces from `supply`.
    fn advance(&mut self, input: Input, supply: &Supply) -> (used: Ghost<
        (PieceView, Seq<PieceView>),
    >)
        requires
            old(self).wf(),
            old(self).has_headroom(),
            supply.wf(),
        ensures
            final(self).wf(),
            supply.offers_fresh(used@.0),
            supply.offers_refill(used@.1),
            final(self)@ == old(self)@.tick(input, used@.0, used@.1),
    {
        proof {
            supply.lemma_offers();
        }
        let ghost fresh = supply.some_fresh();
        let ghost refill = supply.some_refill();
        if self.move_timer > 0 {
            self.move_timer = self.move_timer - 1;
        }
        if self.wait_time > 0 {
            self.wait_time = self.wait_time - 1;
            return Ghost((fresh, refill));
        }
        if input.reset {
            let piece = supply.fresh_piece();
            self.state = GameState::Running;
            self.board = Board::new();
            self.piece = piece;
            self.rows_cleared = 0;
            self.score = 0;
            self.wait_time = 0;
            return Ghost((piece@, refill));
        }
        if self.state == GameState::GameOver {
            return Ghost((fresh, refill));
        }
        if input.pause && self.state == GameState::Running {
            self.state = GameState::Paused;
        } else if input.pause && self.state == GameState::Paused {
            self.state = GameState::Running;
        }
        if self.state == GameState::Paused {
            return Ghost((fresh, refill));
        }
        let ghost begun = self@;
        let used = self.play(input, supply);
        proof {
            // At most one of the two locks has refilled the queue; its batch
            // stands for both.
            lemma_one_refill_serves(begun, input, used@.0, used@.1);
            if self@ == begun.played(input, used@.0) {
                refill = used@.0;
            } else {
                refill = used@.1;
            }
        }
        Ghost((fresh, refill))
    }
}

/// One of the seven shapes at the spawn position can enter play.
pub proof fn lemma_canonical_is_spawnable(p: PieceView)
    requires
        is_canonical(p),
    ensures
        spawnable(p),
{
    lemma_canonical_is_sound(p);
}

/// A batch as the random draw makes it can refill the queue.
pub proof fn lemma_drawn_refill_is_refill(batch: Seq<PieceView>)
    requires
        is_drawn_refill(batch),
    ensures
        is_refill(batch),
{
    assert forall|i: int| 0 <= i < batch.len() implies spawnable(#[trigger] batch[i]) by {
        lemma_canonical_is_spawnable(batch[i]);
    }
}

/// Once the wait after a lock is over, a reset starts a new game whatever
/// the state was: the game runs, the board is empty, `fresh` is in play, and
/// score and rows are at zero. The queue stays.
pub proof fn lemma_reset_starts_anew(
    s: TetrisView,
    input: Input,
    fresh: PieceView,
    refill: Seq<PieceView>,
)
    requires
        s.wait_time <= 0,
        input.reset,
    ensures
        s.tick(input, fresh, refill) == s.timer_run_down().restarted(fresh),
        s.tick(input, fresh, refill).state == GameState::Running,
        s.tick(input, fresh, refill).board == empty_grid(),
        s.tick(input, fresh, refill).piece == fresh,
        s.tick(input, fresh, refill).score == 0,
        s.tick(input, fresh, refill).rows_cleared == 0,
        s.tick(input, fresh, refill).next == s.next,
{
}

/// A running game whose top row has an occupied cell is over after the next
/// tick that is played: one without a wait, a reset or a pause.
pub proof fn lemma_occupied_top_row_ends_the_game(
    s: TetrisView,
    input: Input,
    fresh: PieceView,
    refill: Seq<PieceView>,
)
    requires
        top_row_occupied(s.board),
        s.state == GameState::Running,
        s.wait_time <= 0,
        !input.reset,
        !input.pause,
    ensures
        s.tick(input, fresh, refill).state == GameState::GameOver,
{
    let begun = s.timer_run_down().pause_toggled(input.pause);
    let dropped = if input.hard_drop {
        begun.hard_dropped(refill)
    } else {
        begun
    };
    if input.hard_drop {
        lemma_stamped_keeps_cells_occupied(begun.board, landing(begun.board, begun.piece));
    }
    assert(top_row_occupied(dropped.board));
    let steered = dropped.steered(input);
    assert(steered.board == dropped.board);
    let checked = steered.top_checked();
    assert(checked.state == GameState::GameOver);
}

/// A game that is over stays over, with its board and its counters, until a
/// reset; only the timers run down.
pub proof fn lemma_game_over_waits_for_reset(
    s: TetrisView,
    input: Input,
    fresh: PieceView,
    refill: Seq<PieceView>,
)
    requires
        s.state == GameState::GameOver,
        !input.reset,
    ensures
        s.tick(input, fresh, refill).state == GameState::GameOver,
        s.tick(input, fresh, refill).board == s.board,
        s.tick(input, fresh, refill).piece == s.piece,
        s.tick(input, fresh, refill).next == s.next,
        s.tick(input, fresh, refill).score == s.score,
        s.tick(input, fresh, refill).rows_cleared == s.rows_cleared,
{
}

/// One batch is enough for a tick: where the hard drop has used the first
/// batch, the queue is long enough for gravity to need none.
pub proof fn lemma_one_refill_serves(
    s: TetrisView,
    input: Input,
    first: Seq<PieceView>,
    second: Seq<PieceView>,
)
    requires
        s.next.len() >= 1,
        first.len() == REFILL,
        second.len() == REFILL,
    ensures
        s.played_on(input, first, second) == s.played(input, first) || s.played_on(
            input,
            first,
            second,
        ) == s.played(input, second),
{
    if input.hard_drop && s.next.len() - 1 < QUEUE_LOW {
        let a = s.hard_dropped(first);
        assert(a.next.len() == s.next.len() - 1 + REFILL);
        assert(s.played_on(input, first, second) == s.played(input, first));
    } else {
        if input.hard_drop {
            assert(s.hard_dropped(first) == s.hard_dropped(second));
        }
        assert(s.played_on(input, first, second) == s.played(input, second));
    }
}

} // verus!
