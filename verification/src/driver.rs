//! The turns of a game: the human and the automated player move in
//! alternation until one of them has won or the board is full.

use vstd::prelude::*;
use crate::board::{
    lemma_full_board, lemma_marks_in_bounds, lemma_valid_bounds, Board, BoardView, CELL_TAKEN,
    INVALID_DIMENSION, MAX_DIM, MIN_DIM,
};
use crate::cell::{opponent_of, Cell, GameOver};
use crate::engine::best_cell;
use crate::lines::cell_index;
use crate::outcome::outcome;

verus! {

/// Whose move a game waits for, or how it ended.
#[derive(Debug, PartialEq, Eq, Clone, Copy, Structural)]
pub enum Turn {
    AwaitingHumanMove,
    AwaitingComputerMove,
    GameOver(GameOver),
}

/// The turn with which a game starts.
pub open spec fn first_turn(computer_begins: bool) -> Turn {
    if computer_begins {
        Turn::AwaitingComputerMove
    } else {
        Turn::AwaitingHumanMove
    }
}

/// The turn that follows the move made at `turn`, after which the game
/// stands at `over`: the end of the game if it is over, else the other
/// player's move.
pub open spec fn turn_after(turn: Turn, over: Option<GameOver>) -> Turn {
    match over {
        Some(end) => Turn::GameOver(end),
        None => match turn {
            Turn::AwaitingHumanMove => Turn::AwaitingComputerMove,
            Turn::AwaitingComputerMove => Turn::AwaitingHumanMove,
            Turn::GameOver(end) => Turn::GameOver(end),
        },
    }
}

/// The board after `mark` was played on the cell at `idx`, and how the game
/// stands then.
pub open spec fn played(board: BoardView, idx: int, mark: Cell) -> (BoardView, Option<GameOver>) {
    (board.place(idx, mark), outcome(board.place(idx, mark), idx, mark))
}

/// The mathematical content of a game.
pub struct GameView {
    /// The board as it stands.
    pub board: BoardView,
    /// Whose move it is, or how the game ended.
    pub turn: Turn,
}

impl GameView {
    /// What holds of every game: its board is a board, and a blank cell is
    /// left for the player whose move it is.
    pub open spec fn valid(self) -> bool {
        &&& self.board.valid()
        &&& self.turn is GameOver || !self.board.full()
    }
}

/// A game that waits for a move has fewer moves behind it than its board
/// has cells. Each move adds one, so a game is over after at most as many
/// moves as the board has cells.
pub proof fn lemma_moves_are_left(game: GameView)
    requires
        game.valid(),
        !(game.turn is GameOver),
    ensures
        game.board.moves < game.board.dim * game.board.dim,
{
    lemma_valid_bounds(game.board);
    lemma_full_board(game.board);
}

/// A game between the human and the automated player.
#[derive(Debug, Clone)]
pub struct Game {
    board: Board,
    turn: Turn,
}

impl View for Game {
    type V = GameView;

    closed spec fn view(&self) -> GameView {
        GameView { board: self.board@, turn: self.turn }
    }
}

impl Turn {
    /// The turn with which a game starts.
    pub fn first(computer_begins: bool) -> (turn: Turn)
        ensures
            turn == first_turn(computer_begins),
    {
        if computer_begins {
            Turn::AwaitingComputerMove
        } else {
            Turn::AwaitingHumanMove
        }
    }

    /// The turn that follows the move made at this turn, after which the
    /// game stands at `over`.
    pub fn next(self, over: Option<GameOver>) -> (turn: Turn)
        ensures
            turn == turn_after(self, over),
    {
        match over {
            Some(end) => Turn::GameOver(end),
            None => match self {
                Turn::AwaitingHumanMove => Turn::AwaitingComputerMove,
                Turn::AwaitingComputerMove => Turn::AwaitingHumanMove,
                Turn::GameOver(end) => Turn::GameOver(end),
            },
        }
    }
}

impl Board {
    /// Plays the human's mark in column `x` and row `y` and says how the
    /// game stands then.
    ///
    /// Fails, leaving the board as it was, when the cell already holds a mark.
    pub fn user_move(&mut self, x: usize, y: usize) -> (moved: Result<
        Option<GameOver>,
        &'static str,
    >)
        requires
            old(self).wf(),
            x < old(self)@.dim,
            y < old(self)@.dim,
        ensures
            final(self).wf(),
            moved is Ok <==> old(self)@.at(x as int, y as int) == Cell::Blank,
            moved matches Ok(over) ==> (final(self)@, over) == played(
                old(self)@,
                cell_index(old(self)@.dim as int, x as int, y as int),
                old(self)@.human_uses,
            ),
            moved matches Err(message) ==> message@ == CELL_TAKEN@ && *final(self) == *old(self),
    {
        let mark = self.human_uses();
        match self.set_cell(x, y, mark) {
            Err(message) => Err(message),
            Ok(()) => Ok(self.check_game_over(x, y, mark)),
        }
    }

    /// Plays the automated player's mark on the cell that `best_move`
    /// chooses and says how the game stands then.
    pub fn computer_move(&mut self) -> (over: Option<GameOver>)
        requires
            old(self).wf(),
            !old(self)@.full(),
        ensures
            final(self).wf(),
            (final(self)@, over) == played(
                old(self)@,
                best_cell(
                    old(self)@.cells,
                    old(self)@.dim as int,
                    opponent_of(old(self)@.human_uses),
                ),
                opponent_of(old(self)@.human_uses),
            ),
            old(self)@.cells[best_cell(
                old(self)@.cells,
                old(self)@.dim as int,
                opponent_of(old(self)@.human_uses),
            )] == Cell::Blank,
    {
        let comp_uses = self.human_uses().opponent();
        let (x, y) = self.best_move(comp_uses);
        self.set_cell(x, y, comp_uses).unwrap();
        self.check_game_over(x, y, comp_uses)
    }
}

impl Game {
    /// Whether the winning lines stored with the game's board are those of
    /// its dimension.
    pub closed spec fn board_ready(&self) -> bool {
        self.board.lines_ready()
    }

    /// The invariant of every game that this library hands out.
    pub open spec fn wf(&self) -> bool {
        &&& self@.valid()
        &&& self.board_ready()
    }

    /// Starts a game on a board of `dim` rows and columns with every cell
    /// blank.
    ///
    /// Fails when `dim` is not between 2 and 30.
    pub fn build(dim: usize, human_uses: Cell, computer_begins: bool) -> (built: Result<
        Game,
        &'static str,
    >)
        requires
            human_uses != Cell::Blank,
        ensures
            built is Ok <==> MIN_DIM <= dim <= MAX_DIM,
            built matches Ok(game) ==> game.wf() && game@ == (GameView {
                board: BoardView::empty(dim as nat, human_uses),
                turn: first_turn(computer_begins),
            }),
            built matches Err(message) ==> message@ == INVALID_DIMENSION@,
    {
        match Board::build(dim, human_uses) {
            Err(message) => Err(message),
            Ok(board) => {
                proof {
                    lemma_valid_bounds(board@);
                }
                Ok(Game { board, turn: Turn::first(computer_begins) })
            },
        }
    }

    /// The board as it stands.
    pub fn board(&self) -> (board: &Board)
        ensures
            board@ == self@.board,
            self.wf() ==> board.wf(),
    {
        &self.board
    }

    /// Whose move it is, or how the game ended.
    pub fn turn(&self) -> (turn: Turn)
        ensures
            turn == self@.turn,
    {
        self.turn
    }

    /// Plays the human's mark in column `x` and row `y` and passes the turn
    /// on.
    ///
    /// Fails, leaving the game as it was, when the cell already holds a mark.
    pub fn user_move(&mut self, x: usize, y: usize) -> (moved: Result<(), &'static str>)
        requires
            old(self).wf(),
            old(self)@.turn == Turn::AwaitingHumanMove,
            x < old(self)@.board.dim,
            y < old(self)@.board.dim,
        ensures
            final(self).wf(),
            moved is Ok <==> old(self)@.board.at(x as int, y as int) == Cell::Blank,
            moved is Ok ==> ({
                let (board, over) = played(
                    old(self)@.board,
                    cell_index(old(self)@.board.dim as int, x as int, y as int),
                    old(self)@.board.human_uses,
                );
                final(self)@ == (GameView { board, turn: turn_after(old(self)@.turn, over) })
            }),
            moved matches Err(message) ==> message@ == CELL_TAKEN@ && final(self)@ == old(self)@,
    {
        match self.board.user_move(x, y) {
            Err(message) => Err(message),
            Ok(over) => {
                proof {
                    lemma_marks_in_bounds(self.board@.cells);
                }
                self.turn = self.turn.next(over);
                Ok(())
            },
        }
    }

    /// Plays the automated player's mark on the cell that `Board::best_move`
    /// chooses and passes the turn on.
    pub fn computer_move(&mut self)
        requires
            old(self).wf(),
            old(self)@.turn == Turn::AwaitingComputerMove,
        ensures
            final(self).wf(),
            ({
                let mark = opponent_of(old(self)@.board.human_uses);
                let (board, over) = played(
                    old(self)@.board,
                    best_cell(old(self)@.board.cells, old(self)@.board.dim as int, mark),
                    mark,
                );
                final(self)@ == (GameView { board, turn: turn_after(old(self)@.turn, over) })
            }),
    {
        let over = self.board.computer_move();
        proof {
            lemma_marks_in_bounds(self.board@.cells);
        }
        self.turn = self.turn.next(over);
    }
}

} // verus!
