//! The detection of a finished game.
//!
//! A move can only complete a line that runs through the cell it was made
//! on, so only those lines are looked at after a move.

use vstd::prelude::*;
use crate::board::{lemma_full_board, lemma_valid_bounds, Board, BoardView};
use crate::cell::{Cell, GameOver};
use crate::lines::{
    as_ints, cell_index, holds_win_lines, lemma_line_inside, lemma_stored_line, line_count,
    win_line,
};

verus! {

/// Whether every cell of `line` holds `mark`.
pub open spec fn line_full_of(cells: Seq<Cell>, line: Seq<int>, mark: Cell) -> bool {
    forall|i: int| 0 <= i < line.len() ==> cells[#[trigger] line[i]] == mark
}

/// Whether line `k` runs through the cell at `idx` and holds `mark` in every
/// cell.
pub open spec fn completed_through(
    cells: Seq<Cell>,
    dim: int,
    k: int,
    idx: int,
    mark: Cell,
) -> bool {
    win_line(dim, k).contains(idx) && line_full_of(cells, win_line(dim, k), mark)
}

/// Whether some line through the cell at `idx` holds `mark` in every cell.
pub open spec fn completes_line(cells: Seq<Cell>, dim: int, idx: int, mark: Cell) -> bool {
    exists|k: int|
        0 <= k < line_count(dim) && #[trigger] completed_through(cells, dim, k, idx, mark)
}

/// Who has won when `mark` has completed a line.
pub open spec fn winner(human_uses: Cell, mark: Cell) -> GameOver {
    if mark == human_uses {
        GameOver::HumanWon
    } else {
        GameOver::ComputerWon
    }
}

/// How the game stands after `mark` was played on the cell at `idx`: won by
/// the player of `mark` if a line through that cell is complete, else tied
/// if as many moves were made as there are cells, else not over.
pub open spec fn outcome(board: BoardView, idx: int, mark: Cell) -> Option<GameOver> {
    if completes_line(board.cells, board.dim as int, idx, mark) {
        Some(winner(board.human_uses, mark))
    } else if board.moves == board.dim * board.dim {
        Some(GameOver::Tie)
    } else {
        None
    }
}

/// Win detection is exact. After a move that completed a line the human has
/// won if the move was made with the human's mark, and the automated player
/// otherwise. After a move that completed no line the game is tied if the
/// board is full, and not over if it is not.
pub proof fn lemma_outcome_exact(board: BoardView, idx: int, mark: Cell)
    requires
        board.valid(),
    ensures
        completes_line(board.cells, board.dim as int, idx, mark) && mark == board.human_uses
            ==> outcome(board, idx, mark) == Some(GameOver::HumanWon),
        completes_line(board.cells, board.dim as int, idx, mark) && mark != board.human_uses
            ==> outcome(board, idx, mark) == Some(GameOver::ComputerWon),
        !completes_line(board.cells, board.dim as int, idx, mark) && board.full() ==> outcome(
            board,
            idx,
            mark,
        ) == Some(GameOver::Tie),
        !completes_line(board.cells, board.dim as int, idx, mark) && !board.full() ==> outcome(
            board,
            idx,
            mark,
        ) is None,
{
    lemma_full_board(board);
}

/// Only a line through the cell of the last move can have been completed by
/// it: if no line held `mark` in every cell before `mark` was placed on the
/// blank cell at `idx`, then a line holds `mark` in every cell afterwards
/// exactly when one through that cell does.
pub proof fn lemma_win_runs_through_move(board: BoardView, idx: int, mark: Cell)
    requires
        board.valid(),
        0 <= idx < board.cells.len(),
        board.cells[idx] == Cell::Blank,
        mark != Cell::Blank,
        forall|k: int|
            0 <= k < line_count(board.dim as int) ==> !line_full_of(
                board.cells,
                #[trigger] win_line(board.dim as int, k),
                mark,
            ),
    ensures
        (exists|k: int|
            0 <= k < line_count(board.dim as int) && line_full_of(
                board.place(idx, mark).cells,
                #[trigger] win_line(board.dim as int, k),
                mark,
            )) <==> completes_line(board.place(idx, mark).cells, board.dim as int, idx, mark),
{
    let dim = board.dim as int;
    let after = board.place(idx, mark).cells;
    if exists|k: int|
        0 <= k < line_count(dim) && line_full_of(after, #[trigger] win_line(dim, k), mark) {
        let k = choose|k: int|
            0 <= k < line_count(dim) && line_full_of(after, #[trigger] win_line(dim, k), mark);
        let line = win_line(dim, k);
        if !line.contains(idx) {
            assert forall|i: int| 0 <= i < line.len() implies board.cells[#[trigger] line[i]]
                == mark by {
                lemma_line_inside(dim, k, i);
            }
        }
        assert(completed_through(after, dim, k, idx, mark));
    }
    if completes_line(after, dim, idx, mark) {
        let k = choose|k: int|
            0 <= k < line_count(dim) && #[trigger] completed_through(after, dim, k, idx, mark);
    }
}

/// Whether `line` runs through the cell at `idx`.
fn runs_through(line: &Vec<usize>, idx: usize) -> (found: bool)
    ensures
        found == as_ints(line@).contains(idx as int),
{
    let ghost whole = as_ints(line@);
    for i in 0..line.len()
        invariant
            whole == as_ints(line@),
            forall|j: int| 0 <= j < i ==> whole[j] != idx,
    {
        if line[i] == idx {
            assert(whole[i as int] == idx);
            return true;
        }
    }
    false
}

/// Whether every cell of `line` holds `mark`.
fn holds_only(cells: &Vec<Cell>, line: &Vec<usize>, mark: Cell) -> (full: bool)
    requires
        forall|i: int| 0 <= i < line@.len() ==> #[trigger] line@[i] < cells@.len(),
    ensures
        full == line_full_of(cells@, as_ints(line@), mark),
{
    let ghost whole = as_ints(line@);
    for i in 0..line.len()
        invariant
            whole == as_ints(line@),
            forall|j: int| 0 <= j < line@.len() ==> #[trigger] line@[j] < cells@.len(),
            forall|j: int| 0 <= j < i ==> cells@[#[trigger] whole[j]] == mark,
    {
        if cells[line[i]] != mark {
            assert(cells@[whole[i as int]] != mark);
            return false;
        }
    }
    true
}

impl Board {
    /// How the game stands after `cell` was played in column `x` and row
    /// `y`: won if that move completed a line, tied if it filled the board
    /// without completing one, and still running otherwise.
    pub fn check_game_over(&self, x: usize, y: usize, cell: Cell) -> (over: Option<GameOver>)
        requires
            self.wf(),
            x < self@.dim,
            y < self@.dim,
        ensures
            over == outcome(self@, cell_index(self@.dim as int, x as int, y as int), cell),
    {
        let dim = self.dim();
        let cells = self.cells();
        let lines = self.lines();
        let ghost d = dim as int;
        proof {
            lemma_valid_bounds(self@);
        }
        let idx = Board::index_of(dim, x, y);
        for k in 0..lines.len()
            invariant
                d == dim,
                dim == self@.dim,
                cells@ == self@.cells,
                cells@.len() == d * d,
                idx == cell_index(d, x as int, y as int),
                holds_win_lines(lines@, d),
                forall|j: int|
                    0 <= j < k ==> !#[trigger] completed_through(cells@, d, j, idx as int, cell),
        {
            let line = &lines[k];
            proof {
                lemma_stored_line(lines@, d, k as int);
            }
            if runs_through(line, idx) && holds_only(cells, line, cell) {
                assert(completed_through(cells@, d, k as int, idx as int, cell));
                return self.won(cell);
            }
        }
        if self.moves() == dim * dim {
            Some(GameOver::Tie)
        } else {
            None
        }
    }

    /// The end of the game that the player of `c` has won.
    pub fn won(&self, c: Cell) -> (over: Option<GameOver>)
        ensures
            over == Some(winner(self@.human_uses, c)),
    {
        if c == self.human_uses() {
            Some(GameOver::HumanWon)
        } else {
            Some(GameOver::ComputerWon)
        }
    }
}

} // verus!
