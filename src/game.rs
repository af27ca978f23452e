//! The game state machine: turns, history, move application and undo.

use vstd::prelude::*;
use crate::board::{
    any_capture, cell_of, count_side, has_moves, idx, in_bounds, is_legal, lists_moves, placed,
    run_from, start_cell, Board, Cell, Coord, Direction,
};
use crate::{opp, ReversiError, Side};

verus! {

/// Who moves next on board `s` when it is `side`'s turn, and whether the game
/// is over: a side without a legal move passes, and when neither side has one
/// the game ends.
pub open spec fn status_after(s: Seq<Cell>, side: Side) -> (Side, bool) {
    if has_moves(s, side) {
        (side, false)
    } else if has_moves(s, opp(side)) {
        (opp(side), false)
    } else {
        (side, true)
    }
}

/// A position where neither side has a legal move ends the game, whatever
/// cells are still empty; a side with a legal move keeps the game going.
pub proof fn lemma_no_moves_ends(s: Seq<Cell>, side: Side)
    ensures
        status_after(s, side).1 <==> (!has_moves(s, side) && !has_moves(s, opp(side))),
{
}

/// A full board ends the game: with no empty cell, no side has a legal move.
pub proof fn lemma_full_board_ends(s: Seq<Cell>, side: Side)
    requires
        s.len() == 64,
        forall|q: int| 0 <= q < 64 ==> #[trigger] s[q] != Cell::Empty,
    ensures
        status_after(s, side).1,
{
    assert forall|x: Side, i: int, j: int| !#[trigger] is_legal(s, x, i, j) by {
        if in_bounds(i, j) {
            assert(s[idx(i, j)] != Cell::Empty);
        }
    }
}

/// Whether a game is still being played, and by whom.
#[derive(Debug, Clone, Copy, PartialEq, Eq, Structural)]
pub enum Status {
    InProgress(Side),
    Ended,
}

/// One ply: the side that moved, where, the board after it, and who moves next.
pub struct Turn {
    side: Side,
    coord: Coord,
    board: Board,
    next: Side,
    ended: bool,
}

/// The mathematical content of a turn.
pub struct TurnView {
    pub side: Side,
    pub coord: (int, int),
    pub board: Seq<Cell>,
    pub next: Side,
    pub ended: bool,
}

impl View for Turn {
    type V = TurnView;

    closed spec fn view(&self) -> TurnView {
        TurnView {
            side: self.side,
            coord: self.coord@,
            board: self.board@,
            next: self.next,
            ended: self.ended,
        }
    }
}

impl Turn {
    /// The side that moved.
    pub fn side(&self) -> (r: Side)
        ensures
            r == self@.side,
    {
        self.side
    }

    /// The cell that was played.
    pub fn coord(&self) -> (r: Coord)
        ensures
            r@ == self@.coord,
    {
        self.coord
    }

    /// The board after the move.
    pub fn board(&self) -> (r: &Board)
        ensures
            r@ == self@.board,
    {
        &self.board
    }
}

/// The mathematical content of a game: its starting position and its turns.
pub struct GameView {
    pub start: Seq<Cell>,
    pub first: Side,
    pub start_ended: bool,
    pub turns: Seq<TurnView>,
}

impl GameView {
    /// The current board.
    pub open spec fn board(self) -> Seq<Cell> {
        if self.turns.len() == 0 {
            self.start
        } else {
            self.turns.last().board
        }
    }

    /// The side to move.
    pub open spec fn side(self) -> Side {
        if self.turns.len() == 0 {
            self.first
        } else {
            self.turns.last().next
        }
    }

    /// Whether the game is over.
    pub open spec fn ended(self) -> bool {
        if self.turns.len() == 0 {
            self.start_ended
        } else {
            self.turns.last().ended
        }
    }
}

/// `g2` is `g` after the side to move played at (`r`, `c`).
pub open spec fn moved(g: GameView, r: int, c: int, g2: GameView) -> bool {
    &&& g2.start == g.start
    &&& g2.first == g.first
    &&& g2.start_ended == g.start_ended
    &&& g2.turns.len() == g.turns.len() + 1
    &&& g2.turns.drop_last() == g.turns
    &&& g2.turns.last().side == g.side()
    &&& g2.turns.last().coord == (r, c)
    &&& placed(g.board(), g.side(), r, c, g2.board())
    &&& (g2.side(), g2.ended()) == status_after(g2.board(), opp(g.side()))
}

/// `g` with its last turn taken back.
pub open spec fn undone(g: GameView) -> GameView {
    GameView { turns: g.turns.drop_last(), ..g }
}

/// Undoing a move restores the exact board, side to move, status and legal
/// moves from before it.
pub proof fn lemma_undo_restores(g: GameView, r: int, c: int, g2: GameView)
    requires
        moved(g, r, c, g2),
    ensures
        undone(g2) == g,
        undone(g2).board() == g.board(),
        undone(g2).side() == g.side(),
        undone(g2).ended() == g.ended(),
        forall|i: int, j: int|
            #[trigger] is_legal(undone(g2).board(), undone(g2).side(), i, j) == is_legal(
                g.board(),
                g.side(),
                i,
                j,
            ),
{
    assert(undone(g2).turns =~= g.turns);
}

/// Who moves next on `board` when it is `side`'s turn, and whether the game is
/// over.
fn status_of(board: &Board, side: Side) -> (r: (Side, bool))
    requires
        board.wf(),
    ensures
        r == status_after(board@, side),
{
    let mine = board.legal_moves(side);
    if mine.len() > 0 {
        assert(is_legal(board@, side, mine@[0]@.0, mine@[0]@.1));
        return (side, false);
    }
    let other = side.opposite();
    let theirs = board.legal_moves(other);
    if theirs.len() > 0 {
        assert(is_legal(board@, other, theirs@[0]@.0, theirs@[0]@.1));
        (other, false)
    } else {
        (side, true)
    }
}

/// A game of Reversi: the starting position and the ordered history of turns.
pub struct Game {
    start: Board,
    first: Side,
    start_ended: bool,
    turns: Vec<Turn>,
}

impl View for Game {
    type V = GameView;

    closed spec fn view(&self) -> GameView {
        GameView {
            start: self.start@,
            first: self.first,
            start_ended: self.start_ended,
            turns: self.turns@.map_values(|t: Turn| t@),
        }
    }
}

impl Game {
    /// Every board of the game holds 64 cells.
    pub closed spec fn wf(&self) -> bool {
        &&& self.start.wf()
        &&& forall|q: int| 0 <= q < self.turns@.len() ==> (#[trigger] self.turns@[q]).board.wf()
    }

    /// A game from the standard opening position, Dark to move.
    pub fn new() -> (g: Game)
        ensures
            g.wf(),
            forall|i: int, j: int| in_bounds(i, j) ==> #[trigger] cell_of(g@.start, i, j) == start_cell(i, j),
            g@.first == Side::Dark,
            !g@.start_ended,
            g@.turns.len() == 0,
    {
        let start = Board::new();
        proof {
            let s = start@;
            let d = Direction::South;
            assert(cell_of(s, 2, 3) == start_cell(2, 3));
            assert(cell_of(s, 3, 3) == start_cell(3, 3));
            assert(cell_of(s, 4, 3) == start_cell(4, 3));
            assert(run_from(s, Side::Dark, 2, 3, d, 2) == 1);
            assert(run_from(s, Side::Dark, 2, 3, d, 1) == 1);
            assert(any_capture(s, Side::Dark, 2, 3, 5));
            assert(any_capture(s, Side::Dark, 2, 3, 6));
            assert(any_capture(s, Side::Dark, 2, 3, 7));
            assert(any_capture(s, Side::Dark, 2, 3, 8));
            assert(is_legal(s, Side::Dark, 2, 3));
        }
        let (first, start_ended) = status_of(&start, Side::Dark);
        Game { start, first, start_ended, turns: Vec::new() }
    }

    /// A game from a given position, with `side` to move if it can.
    pub fn from_board(board: Board, side: Side) -> (g: Game)
        requires
            board.wf(),
        ensures
            g.wf(),
            g@.start == board@,
            (g@.first, g@.start_ended) == status_after(board@, side),
            g@.turns.len() == 0,
    {
        let (first, start_ended) = status_of(&board, side);
        Game { start: board, first, start_ended, turns: Vec::new() }
    }

    /// The current board.
    pub fn board(&self) -> (r: &Board)
        requires
            self.wf(),
        ensures
            r@ == self@.board(),
            r.wf(),
    {
        let n = self.turns.len();
        if n == 0 {
            &self.start
        } else {
            assert(self.turns@[n - 1]@ == self@.turns.last());
            &self.turns[n - 1].board
        }
    }

    /// The side to move.
    pub fn current_side(&self) -> (r: Side)
        ensures
            r == self@.side(),
    {
        let n = self.turns.len();
        if n == 0 {
            self.first
        } else {
            assert(self.turns@[n - 1]@ == self@.turns.last());
            self.turns[n - 1].next
        }
    }

    /// Whether the game is over.
    pub fn is_ended(&self) -> (r: bool)
        ensures
            r == self@.ended(),
    {
        let n = self.turns.len();
        if n == 0 {
            self.start_ended
        } else {
            assert(self.turns@[n - 1]@ == self@.turns.last());
            self.turns[n - 1].ended
        }
    }

    /// The game's status.
    pub fn status(&self) -> (r: Status)
        ensures
            r == if self@.ended() {
                Status::Ended
            } else {
                Status::InProgress(self@.side())
            },
    {
        if self.is_ended() {
            Status::Ended
        } else {
            Status::InProgress(self.current_side())
        }
    }

    /// The number of turns played.
    pub fn turn_count(&self) -> (r: usize)
        ensures
            r == self@.turns.len(),
    {
        self.turns.len()
    }

    /// The turn at position `i` of the history, oldest first.
    pub fn turn(&self, i: usize) -> (r: &Turn)
        requires
            i < self@.turns.len(),
        ensures
            r@ == self@.turns[i as int],
    {
        &self.turns[i]
    }

    /// The legal moves of the side to move, in row-major order.
    pub fn legal_moves(&self) -> (v: Vec<Coord>)
        requires
            self.wf(),
        ensures
            lists_moves(self@.board(), self@.side(), v@),
    {
        self.board().legal_moves(self.current_side())
    }

    /// The number of disks of `side` on the current board.
    pub fn disk_count(&self, side: Side) -> (n: usize)
        requires
            self.wf(),
        ensures
            n as int == count_side(self@.board(), side, 64),
    {
        self.board().disk_count(side)
    }

    /// The cell at `coord` on the current board.
    pub fn cell_at(&self, coord: Coord) -> (r: Cell)
        requires
            self.wf(),
        ensures
            r == cell_of(self@.board(), coord@.0, coord@.1),
    {
        self.board().cell_at(coord)
    }

    /// The side to move places a disk at `coord`; the turn is appended to the
    /// history and the next side to move is decided. Fails, leaving the game
    /// as it was, when the game is over, the cell is taken or the move
    /// captures nothing.
    pub fn apply_move(&mut self, coord: Coord) -> (res: Result<(), ReversiError>)
        requires
            old(self).wf(),
        ensures
            final(self).wf(),
            old(self)@.ended() ==> res == Err::<(), ReversiError>(ReversiError::EndedGame),
            !old(self)@.ended() && cell_of(old(self)@.board(), coord@.0, coord@.1) != Cell::Empty
                ==> res == Err::<(), ReversiError>(ReversiError::CellAlreadyTaken(coord)),
            !old(self)@.ended() && cell_of(old(self)@.board(), coord@.0, coord@.1) == Cell::Empty
                && !is_legal(old(self)@.board(), old(self)@.side(), coord@.0, coord@.1) ==> res
                == Err::<(), ReversiError>(ReversiError::IllegalMove(coord)),
            !old(self)@.ended() && is_legal(old(self)@.board(), old(self)@.side(), coord@.0, coord@.1)
                ==> res is Ok,
            res is Ok ==> moved(old(self)@, coord@.0, coord@.1, final(self)@),
            res is Err ==> final(self)@ == old(self)@,
    {
        if self.is_ended() {
            return Err(ReversiError::EndedGame);
        }
        let side = self.current_side();
        let mut b = self.board().copy();
        match b.place_disk(coord, side) {
            Err(e) => {
                return Err(e);
            },
            Ok(()) => {},
        }
        let (next, ended) = status_of(&b, side.opposite());
        let ghost g = self@;
        self.turns.push(Turn { side, coord, board: b, next, ended });
        assert(self@.turns =~= g.turns.push(self.turns@[self.turns@.len() - 1]@));
        assert(self@.turns.drop_last() =~= g.turns);
        Ok(())
    }

    /// Takes back the last turn; fails when no turn has been played.
    pub fn undo(&mut self) -> (res: Result<(), ReversiError>)
        requires
            old(self).wf(),
        ensures
            final(self).wf(),
            old(self)@.turns.len() == 0 ==> res == Err::<(), ReversiError>(ReversiError::NoUndo)
                && final(self)@ == old(self)@,
            old(self)@.turns.len() > 0 ==> res is Ok && final(self)@ == undone(old(self)@),
    {
        if self.turns.len() == 0 {
            return Err(ReversiError::NoUndo);
        }
        let ghost g = self@;
        self.turns.pop();
        assert(self@.turns =~= g.turns.drop_last());
        Ok(())
    }
}

} // verus!
