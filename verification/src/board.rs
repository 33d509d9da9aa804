//! The board: a square grid of cells together with its winning lines, the
//! mark the human plays and the number of moves made so far.

use vstd::prelude::*;
use crate::cell::Cell;
use crate::lines::{cell_index, holds_win_lines, lemma_cell_index_in_range, win_line};

verus! {

/// The smallest dimension a board can have.
pub const MIN_DIM: usize = 2;

/// The largest dimension a board can have.
pub const MAX_DIM: usize = 30;

/// What `Board::build` reports for a dimension outside the accepted range.
pub const INVALID_DIMENSION: &'static str = "Invalid board dimension, must be between 2 and 30";

/// What `Board::set_cell` reports for a cell that already holds a mark.
pub const CELL_TAKEN: &'static str = "Cell already taken";

/// The number of cells of `cells` that hold a mark.
pub open spec fn marks_in(cells: Seq<Cell>) -> nat
    decreases cells.len(),
{
    if cells.len() == 0 {
        0
    } else {
        marks_in(cells.drop_last()) + if cells.last() != Cell::Blank {
            1nat
        } else {
            0nat
        }
    }
}

/// The mathematical content of a board.
pub struct BoardView {
    /// The number of rows, which is also the number of columns.
    pub dim: nat,
    /// The cells, the one in column `x` and row `y` at `x + y * dim`.
    pub cells: Seq<Cell>,
    /// The mark that the human plays.
    pub human_uses: Cell,
    /// The number of moves made so far.
    pub moves: nat,
}

impl BoardView {
    /// What holds of every board: the dimension is in range, there is one
    /// cell for each place of the grid, the human plays a mark, and each move
    /// made has filled one cell.
    pub open spec fn valid(self) -> bool {
        &&& MIN_DIM <= self.dim <= MAX_DIM
        &&& self.cells.len() == self.dim * self.dim
        &&& self.human_uses != Cell::Blank
        &&& self.moves == marks_in(self.cells)
    }

    /// The cell in column `x` and row `y`.
    pub open spec fn at(self, x: int, y: int) -> Cell
        recommends
            0 <= x < self.dim,
            0 <= y < self.dim,
    {
        self.cells[cell_index(self.dim as int, x, y)]
    }

    /// Whether every cell holds a mark.
    pub open spec fn full(self) -> bool {
        forall|i: int| 0 <= i < self.cells.len() ==> self.cells[i] != Cell::Blank
    }

    /// The board with no move made yet.
    pub open spec fn empty(dim: nat, human_uses: Cell) -> BoardView {
        BoardView { dim, cells: Seq::new(dim * dim, |i: int| Cell::Blank), human_uses, moves: 0 }
    }

    /// The board after `mark` was placed on the cell at `idx`.
    pub open spec fn place(self, idx: int, mark: Cell) -> BoardView {
        BoardView { cells: self.cells.update(idx, mark), moves: self.moves + 1, ..self }
    }
}

/// A square grid of cells on which two players place their marks in turn.
#[derive(Debug, Clone)]
pub struct Board {
    dim: usize,
    cells: Vec<Cell>,
    win_lines: Vec<Vec<usize>>,
    human_uses: Cell,
    moves: usize,
}

impl View for Board {
    type V = BoardView;

    closed spec fn view(&self) -> BoardView {
        BoardView {
            dim: self.dim as nat,
            cells: self.cells@,
            human_uses: self.human_uses,
            moves: self.moves as nat,
        }
    }
}

/// A sequence without a mark counts no mark.
pub proof fn lemma_marks_in_blank(cells: Seq<Cell>)
    requires
        forall|i: int| 0 <= i < cells.len() ==> cells[i] == Cell::Blank,
    ensures
        marks_in(cells) == 0,
    decreases cells.len(),
{
    if cells.len() > 0 {
        lemma_marks_in_blank(cells.drop_last());
    }
}

/// There are at most as many marks as cells, and exactly as many when no
/// cell is blank.
pub proof fn lemma_marks_in_bounds(cells: Seq<Cell>)
    ensures
        marks_in(cells) <= cells.len(),
        marks_in(cells) == cells.len() <==> (forall|i: int|
            0 <= i < cells.len() ==> cells[i] != Cell::Blank),
    decreases cells.len(),
{
    if cells.len() > 0 {
        let front = cells.drop_last();
        lemma_marks_in_bounds(front);
        if marks_in(cells) == cells.len() {
            assert forall|i: int| 0 <= i < cells.len() implies cells[i] != Cell::Blank by {
                if i < front.len() {
                    assert(front[i] != Cell::Blank);
                }
            }
        }
    }
}

/// Placing a mark on a blank cell adds one to the number of marks.
pub proof fn lemma_marks_in_update(cells: Seq<Cell>, idx: int, mark: Cell)
    requires
        0 <= idx < cells.len(),
        cells[idx] == Cell::Blank,
        mark != Cell::Blank,
    ensures
        marks_in(cells.update(idx, mark)) == marks_in(cells) + 1,
    decreases cells.len(),
{
    let after = cells.update(idx, mark);
    if idx == cells.len() - 1 {
        assert(after.drop_last() =~= cells.drop_last());
    } else {
        assert(after.drop_last() =~= cells.drop_last().update(idx, mark));
        lemma_marks_in_update(cells.drop_last(), idx, mark);
    }
}

/// A board has between 4 and 900 cells, and no more moves than cells.
pub proof fn lemma_valid_bounds(board: BoardView)
    requires
        board.valid(),
    ensures
        4 <= board.cells.len() <= 900,
        board.moves <= board.cells.len(),
{
    let dim = board.dim as int;
    assert(4 <= dim * dim <= 900) by (nonlinear_arith)
        requires
            2 <= dim <= 30,
    ;
    lemma_marks_in_bounds(board.cells);
}

/// A board is full exactly when as many moves were made as it has cells.
pub proof fn lemma_full_board(board: BoardView)
    requires
        board.valid(),
    ensures
        board.full() <==> board.moves == board.dim * board.dim,
{
    lemma_marks_in_bounds(board.cells);
}

impl Board {
    /// Whether the winning lines stored with the board are those of its
    /// dimension.
    pub closed spec fn lines_ready(&self) -> bool {
        holds_win_lines(self.win_lines@, self.dim as int)
    }

    /// The invariant of every board that this library hands out.
    pub open spec fn wf(&self) -> bool {
        &&& self@.valid()
        &&& self.lines_ready()
    }

    /// The place in the cell sequence of the cell in column `x` and row `y`.
    pub(crate) fn index_of(dim: usize, x: usize, y: usize) -> (idx: usize)
        requires
            x < dim,
            y < dim,
            dim * dim <= usize::MAX,
        ensures
            idx == cell_index(dim as int, x as int, y as int),
            idx < dim * dim,
    {
        proof {
            lemma_cell_index_in_range(dim as int, x as int, y as int);
        }
        x + y * dim
    }

    /// Creates a board of `dim` rows and columns with every cell blank.
    ///
    /// Fails when `dim` is not between 2 and 30.
    pub fn build(dim: usize, human_uses: Cell) -> (built: Result<Board, &'static str>)
        requires
            human_uses != Cell::Blank,
        ensures
            built is Ok <==> MIN_DIM <= dim <= MAX_DIM,
            built matches Ok(board) ==> board.wf() && board@ == BoardView::empty(
                dim as nat,
                human_uses,
            ),
            built matches Err(message) ==> message@ == INVALID_DIMENSION@,
    {
        if dim < MIN_DIM || dim > MAX_DIM {
            return Err(INVALID_DIMENSION);
        }
        assert(dim * dim <= 900) by (nonlinear_arith)
            requires
                dim <= 30,
        ;
        let cells = vec![Cell::Blank; dim * dim];
        let win_lines = Board::win_lines(dim);
        let board = Board { dim, cells, win_lines, human_uses, moves: 0 };
        proof {
            assert(board@.cells =~= BoardView::empty(dim as nat, human_uses).cells);
            lemma_marks_in_blank(board@.cells);
        }
        Ok(board)
    }

    /// The board of dimension `dim` that holds `cells`, with as many moves
    /// made as cells hold a mark.
    pub(crate) fn from_cells(dim: usize, cells: Vec<Cell>, human_uses: Cell) -> (board: Board)
        requires
            MIN_DIM <= dim <= MAX_DIM,
            cells@.len() == dim * dim,
            human_uses != Cell::Blank,
        ensures
            board.wf(),
            board@ == (BoardView {
                dim: dim as nat,
                cells: cells@,
                human_uses,
                moves: marks_in(cells@),
            }),
    {
        let mut moves: usize = 0;
        for i in 0..cells.len()
            invariant
                moves == marks_in(cells@.take(i as int)),
                moves <= i,
        {
            assert(cells@.take(i + 1).drop_last() =~= cells@.take(i as int));
            if cells[i] != Cell::Blank {
                moves += 1;
            }
        }
        assert(cells@.take(cells@.len() as int) =~= cells@);
        let win_lines = Board::win_lines(dim);
        Board { dim, cells, win_lines, human_uses, moves }
    }

    /// The winning lines of a board of dimension `dim`: its columns, its
    /// rows, the main diagonal and the anti-diagonal, each as the indices of
    /// its cells.
    pub fn win_lines(dim: usize) -> (lines: Vec<Vec<usize>>)
        requires
            dim * dim <= usize::MAX,
        ensures
            holds_win_lines(lines@, dim as int),
            lines@.len() == 2 * dim + 2,
            forall|k: int| 0 <= k < lines@.len() ==> (#[trigger] lines@[k])@.len() == dim,
    {
        let mut win_lines: Vec<Vec<usize>> = Vec::new();
        for x in 0..dim
            invariant
                dim * dim <= usize::MAX,
                win_lines@.len() == x,
                forall|k: int| 0 <= k < x ==> (#[trigger] win_lines@[k])@.len() == dim,
                forall|k: int, i: int|
                    0 <= k < x && 0 <= i < dim ==> (#[trigger] win_lines@[k]@[i]) as int
                        == win_line(dim as int, k)[i],
        {
            let mut line: Vec<usize> = Vec::new();
            for y in 0..dim
                invariant
                    x < dim,
                    dim * dim <= usize::MAX,
                    line@.len() == y,
                    forall|i: int|
                        0 <= i < y ==> (#[trigger] line@[i]) as int == win_line(
                            dim as int,
                            x as int,
                        )[i],
            {
                line.push(Board::index_of(dim, x, y));
            }
            win_lines.push(line);
        }
        for y in 0..dim
            invariant
                dim * dim <= usize::MAX,
                win_lines@.len() == dim + y,
                forall|k: int| 0 <= k < dim + y ==> (#[trigger] win_lines@[k])@.len() == dim,
                forall|k: int, i: int|
                    0 <= k < dim + y && 0 <= i < dim ==> (#[trigger] win_lines@[k]@[i]) as int
                        == win_line(dim as int, k)[i],
        {
            let mut line: Vec<usize> = Vec::new();
            for x in 0..dim
                invariant
                    y < dim,
                    dim * dim <= usize::MAX,
                    line@.len() == x,
                    forall|i: int|
                        0 <= i < x ==> (#[trigger] line@[i]) as int == win_line(
                            dim as int,
                            dim + y,
                        )[i],
            {
                line.push(Board::index_of(dim, x, y));
            }
            win_lines.push(line);
        }
        let mut line: Vec<usize> = Vec::new();
        for x in 0..dim
            invariant
                dim * dim <= usize::MAX,
                line@.len() == x,
                forall|i: int|
                    0 <= i < x ==> (#[trigger] line@[i]) as int == win_line(dim as int, 2 * dim)[i],
        {
            line.push(Board::index_of(dim, x, x));
        }
        win_lines.push(line);
        let mut line: Vec<usize> = Vec::new();
        for x in 0..dim
            invariant
                dim * dim <= usize::MAX,
                line@.len() == x,
                forall|i: int|
                    0 <= i < x ==> (#[trigger] line@[i]) as int == win_line(
                        dim as int,
                        2 * dim + 1,
                    )[i],
        {
            line.push(Board::index_of(dim, x, dim - 1 - x));
        }
        win_lines.push(line);
        win_lines
    }

    /// The cells, row after row.
    pub(crate) fn cells(&self) -> (cells: &Vec<Cell>)
        ensures
            cells@ == self@.cells,
    {
        &self.cells
    }

    /// The winning lines of the board, in scanning order: `2 * dim + 2`
    /// lines of `dim` cells each.
    pub fn lines(&self) -> (lines: &Vec<Vec<usize>>)
        requires
            self.wf(),
        ensures
            holds_win_lines(lines@, self@.dim as int),
            lines@.len() == 2 * self@.dim + 2,
            forall|k: int| 0 <= k < lines@.len() ==> (#[trigger] lines@[k])@.len() == self@.dim,
    {
        &self.win_lines
    }

    /// The number of rows, which is also the number of columns.
    pub fn dim(&self) -> (dim: usize)
        ensures
            dim == self@.dim,
    {
        self.dim
    }

    /// The number of moves made so far.
    pub fn moves(&self) -> (moves: usize)
        ensures
            moves == self@.moves,
    {
        self.moves
    }

    /// The mark that the human plays.
    pub fn human_uses(&self) -> (mark: Cell)
        ensures
            mark == self@.human_uses,
    {
        self.human_uses
    }

    /// Whether every cell holds a mark.
    pub fn is_full(&self) -> (full: bool)
        requires
            self.wf(),
        ensures
            full == self@.full(),
    {
        proof {
            lemma_valid_bounds(self@);
            lemma_full_board(self@);
        }
        self.moves == self.dim * self.dim
    }

    /// The content of the cell in column `x` and row `y`.
    pub fn get_cell(&self, x: usize, y: usize) -> (cell: Cell)
        requires
            self.wf(),
            x < self@.dim,
            y < self@.dim,
        ensures
            cell == self@.at(x as int, y as int),
    {
        proof {
            lemma_valid_bounds(self@);
        }
        self.cells[Board::index_of(self.dim, x, y)]
    }

    /// Places `cell` in column `x` and row `y` and counts the move.
    ///
    /// Fails, leaving the board as it was, when the cell already holds a mark.
    pub fn set_cell(&mut self, x: usize, y: usize, cell: Cell) -> (placed: Result<(), &'static str>)
        requires
            old(self).wf(),
            x < old(self)@.dim,
            y < old(self)@.dim,
            cell != Cell::Blank,
        ensures
            final(self).wf(),
            placed is Ok <==> old(self)@.at(x as int, y as int) == Cell::Blank,
            placed is Ok ==> final(self)@ == old(self)@.place(
                cell_index(old(self)@.dim as int, x as int, y as int),
                cell,
            ),
            placed matches Err(message) ==> message@ == CELL_TAKEN@ && *final(self) == *old(self),
    {
        if self.get_cell(x, y) != Cell::Blank {
            return Err(CELL_TAKEN);
        }
        proof {
            lemma_valid_bounds(self@);
        }
        let idx = Board::index_of(self.dim, x, y);
        proof {
            lemma_marks_in_update(self.cells@, idx as int, cell);
        }
        self.cells.set(idx, cell);
        self.moves += 1;
        Ok(())
    }
}

} // verus!
