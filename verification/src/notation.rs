//! Boards as text.
//!
//! A board is written down in two ways. The notation is the short one: one
//! character for each cell, `X`, `O` or `-` for a blank cell, row after row,
//! the rows on lines of their own. It can be read back. The grid is the one
//! that is shown to a player: the cells between borders, a blank cell as a
//! space.

use vstd::prelude::*;
use vstd::string::StringExecFns;
use crate::board::{marks_in, Board, BoardView, INVALID_DIMENSION, MAX_DIM, MIN_DIM};
use crate::cell::{shown_as, Cell};
use crate::lines::cell_index;

verus! {

/// What `Board::from_string` reports for a character that stands for no cell.
pub const INVALID_CHARACTER: &'static str = "Invalid character in board string";

/// What `Board::from_string` reports for a text with too few or too many cells.
pub const WRONG_CELL_COUNT: &'static str = "Board string does not match the board dimension";

/// Whether `c` is white space, as Unicode defines it.
pub open spec fn is_white_space(c: char) -> bool {
    let code = c as u32;
    ||| 0x09 <= code <= 0x0D
    ||| code == 0x20
    ||| code == 0x85
    ||| code == 0xA0
    ||| code == 0x1680
    ||| 0x2000 <= code <= 0x200A
    ||| code == 0x2028
    ||| code == 0x2029
    ||| code == 0x202F
    ||| code == 0x205F
    ||| code == 0x3000
}

/// `text` without the white space at its start.
pub open spec fn trim_start(text: Seq<char>) -> Seq<char>
    decreases text.len(),
{
    if text.len() > 0 && is_white_space(text.first()) {
        trim_start(text.drop_first())
    } else {
        text
    }
}

/// `text` without the white space at its end.
pub open spec fn trim_end(text: Seq<char>) -> Seq<char>
    decreases text.len(),
{
    if text.len() > 0 && is_white_space(text.last()) {
        trim_end(text.drop_last())
    } else {
        text
    }
}

/// `text` without the white space at its start and at its end.
pub open spec fn trimmed(text: Seq<char>) -> Seq<char> {
    trim_end(trim_start(text))
}

/// Whether `c` only lays the notation out: a space or a line break.
pub open spec fn is_layout(c: char) -> bool {
    c == '\r' || c == '\n' || c == ' '
}

/// The characters of `text` that stand for cells: what is left of the
/// trimmed text without its layout.
pub open spec fn glyphs(text: Seq<char>) -> Seq<char> {
    trimmed(text).filter(|c: char| !is_layout(c))
}

/// The cell that `c` stands for in the notation, if it stands for one.
pub open spec fn cell_of(c: char) -> Option<Cell> {
    if c == 'X' {
        Some(Cell::X)
    } else if c == 'O' {
        Some(Cell::O)
    } else if c == '-' {
        Some(Cell::Blank)
    } else {
        None
    }
}

/// The character that stands for `cell` in the notation.
pub open spec fn glyph_of(cell: Cell) -> char {
    match cell {
        Cell::X => 'X',
        Cell::O => 'O',
        Cell::Blank => '-',
    }
}

/// The cells that the characters of `marks` stand for, if each stands for one.
pub open spec fn cells_of(marks: Seq<char>) -> Option<Seq<Cell>> {
    if forall|i: int| 0 <= i < marks.len() ==> cell_of(#[trigger] marks[i]) is Some {
        Some(marks.map_values(|c: char| cell_of(c)->0))
    } else {
        None
    }
}

/// The cells written down in `text`, if every character of it that is not
/// layout stands for a cell.
pub open spec fn text_cells(text: Seq<char>) -> Option<Seq<Cell>> {
    cells_of(glyphs(text))
}

/// The board written down in `text`, or the reason why there is none: a
/// character that stands for no cell, a dimension out of range, or a number
/// of cells other than that of the grid.
pub open spec fn text_board(text: Seq<char>, dim: nat, human_uses: Cell) -> Result<
    BoardView,
    Seq<char>,
> {
    match text_cells(text) {
        None => Err(INVALID_CHARACTER@),
        Some(cells) => if !(MIN_DIM <= dim <= MAX_DIM) {
            Err(INVALID_DIMENSION@)
        } else if cells.len() != dim * dim {
            Err(WRONG_CELL_COUNT@)
        } else {
            Ok(BoardView { dim, cells, human_uses, moves: marks_in(cells) })
        },
    }
}

/// The notation of `cells` on a grid of dimension `dim`: the character of
/// each cell, and a line break before each row but the first.
pub open spec fn notation_text(cells: Seq<Cell>, dim: int) -> Seq<char>
    decreases cells.len(),
{
    if cells.len() == 0 {
        Seq::empty()
    } else {
        let before = notation_text(cells.drop_last(), dim);
        let at = cells.len() - 1;
        if at > 0 && at % dim == 0 {
            before.push('\n').push(glyph_of(cells.last()))
        } else {
            before.push(glyph_of(cells.last()))
        }
    }
}

/// The border above and below each row, up to its last corner: `+---` for
/// each of `n` cells.
pub open spec fn border_cells(n: int) -> Seq<char>
    decreases n,
{
    if n <= 0 {
        Seq::empty()
    } else {
        border_cells(n - 1) + seq!['+', '-', '-', '-']
    }
}

/// The border above and below each row of a grid of dimension `dim`.
pub open spec fn border(dim: int) -> Seq<char> {
    border_cells(dim).push('+')
}

/// The first `n` cells of row `y` as the grid shows them: each after a bar
/// and between two spaces.
pub open spec fn row_cells(cells: Seq<Cell>, dim: int, y: int, n: int) -> Seq<char>
    decreases n,
{
    if n <= 0 {
        Seq::empty()
    } else {
        row_cells(cells, dim, y, n - 1) + seq![
            '|',
            ' ',
            shown_as(cells[cell_index(dim, n - 1, y)]),
            ' ',
        ]
    }
}

/// The first `n` rows of the grid, each closed by a bar and followed by a
/// border on a line of its own.
pub open spec fn grid_rows(cells: Seq<Cell>, dim: int, n: int) -> Seq<char>
    decreases n,
{
    if n <= 0 {
        Seq::empty()
    } else {
        grid_rows(cells, dim, n - 1) + row_cells(cells, dim, n - 1, dim) + seq!['|', '\n']
            + border(dim) + seq!['\n']
    }
}

/// The grid of `cells` as it is shown to a player: a border, then the rows.
pub open spec fn grid_text(cells: Seq<Cell>, dim: int) -> Seq<char> {
    border(dim) + seq!['\n'] + grid_rows(cells, dim, dim)
}

/// The notation of at least one cell starts with the character of the first
/// cell and ends with that of the last.
proof fn lemma_notation_ends(cells: Seq<Cell>, dim: int)
    requires
        cells.len() > 0,
    ensures
        notation_text(cells, dim).len() > 0,
        notation_text(cells, dim).first() == glyph_of(cells.first()),
        notation_text(cells, dim).last() == glyph_of(cells.last()),
    decreases cells.len(),
{
    if cells.len() > 1 {
        lemma_notation_ends(cells.drop_last(), dim);
    } else {
        assert(notation_text(cells.drop_last(), dim).len() == 0);
    }
}

/// Without its layout, the notation holds the character of each cell.
proof fn lemma_notation_glyphs(cells: Seq<Cell>, dim: int)
    ensures
        notation_text(cells, dim).filter(|c: char| !is_layout(c)) == cells.map_values(
            |cell: Cell| glyph_of(cell),
        ),
    decreases cells.len(),
{
    let kept = |c: char| !is_layout(c);
    if cells.len() > 0 {
        let before = notation_text(cells.drop_last(), dim);
        let glyph = glyph_of(cells.last());
        lemma_notation_glyphs(cells.drop_last(), dim);
        before.lemma_filter_push('\n', kept);
        before.push('\n').lemma_filter_push(glyph, kept);
        before.lemma_filter_push(glyph, kept);
    }
}

/// Reading back the notation of `cells` gives `cells`.
pub proof fn lemma_notation_reads_back(cells: Seq<Cell>, dim: int)
    ensures
        text_cells(notation_text(cells, dim)) == Some(cells),
{
    if cells.len() > 0 {
        lemma_notation_ends(cells, dim);
    }
    lemma_notation_glyphs(cells, dim);
}

/// A board written in the notation and read back is the same board: it
/// has the same dimension, the same cells and the same number of moves.
pub proof fn lemma_board_reads_back(board: BoardView)
    requires
        board.valid(),
    ensures
        text_board(notation_text(board.cells, board.dim as int), board.dim, board.human_uses)
            == Ok::<BoardView, Seq<char>>(board),
{
    lemma_notation_reads_back(board.cells, board.dim as int);
}

/// The characters of `text`, one by one.
fn chars_of(text: &str) -> (chars: Vec<char>)
    ensures
        chars@ == text@,
{
    let mut chars: Vec<char> = Vec::new();
    for c in it: text.chars()
        invariant
            it.seq() == text@,
            chars@ == text@.take(it.index() as int),
    {
        chars.push(c);
    }
    chars
}

/// Whether `c` is white space.
fn white_space(c: char) -> (white: bool)
    ensures
        white == is_white_space(c),
{
    let code = c as u32;
    (0x09 <= code && code <= 0x0D) || code == 0x20 || code == 0x85 || code == 0xA0 || code
        == 0x1680 || (0x2000 <= code && code <= 0x200A) || code == 0x2028 || code == 0x2029
        || code == 0x202F || code == 0x205F || code == 0x3000
}

/// Where the trimmed text starts and ends in `chars`.
fn trim_bounds(chars: &Vec<char>) -> (bounds: (usize, usize))
    ensures
        bounds.0 <= bounds.1 <= chars@.len(),
        chars@.subrange(bounds.0 as int, bounds.1 as int) == trimmed(chars@),
{
    let n = chars.len();
    let mut start: usize = 0;
    assert(chars@.subrange(0, n as int) =~= chars@);
    while start < n && white_space(chars[start])
        invariant
            n == chars@.len(),
            start <= n,
            trim_start(chars@) == trim_start(chars@.subrange(start as int, n as int)),
        decreases n - start,
    {
        assert(chars@.subrange(start as int, n as int).drop_first() =~= chars@.subrange(
            start + 1,
            n as int,
        ));
        start += 1;
    }
    let mut end: usize = n;
    while end > start && white_space(chars[end - 1])
        invariant
            n == chars@.len(),
            start <= end <= n,
            trim_start(chars@) == chars@.subrange(start as int, n as int),
            trimmed(chars@) == trim_end(chars@.subrange(start as int, end as int)),
        decreases end,
    {
        assert(chars@.subrange(start as int, end as int).drop_last() =~= chars@.subrange(
            start as int,
            end - 1,
        ));
        end -= 1;
    }
    (start, end)
}

impl Board {
    /// Reads a board of dimension `dim` from its notation: `X`, `O` and `-`
    /// for a blank cell, row after row. White space around the text, and
    /// spaces and line breaks inside it, are passed over.
    ///
    /// Fails on any other character, on a dimension that is not between 2
    /// and 30, and on a text that does not hold one cell for each place of
    /// the grid.
    pub fn from_string(s: &str, dim: usize, human_uses: Cell) -> (parsed: Result<
        Board,
        &'static str,
    >)
        requires
            human_uses != Cell::Blank,
        ensures
            match text_board(s@, dim as nat, human_uses) {
                Ok(view) => parsed matches Ok(board) && board.wf() && board@ == view,
                Err(reason) => parsed matches Err(message) && message@ == reason,
            },
    {
        let chars = chars_of(s);
        let (start, end) = trim_bounds(&chars);
        let ghost body = trimmed(s@);
        let ghost kept = |c: char| !is_layout(c);
        let mut cells: Vec<Cell> = Vec::new();
        for i in start..end
            invariant
                start <= end <= chars@.len(),
                chars@ == s@,
                body == chars@.subrange(start as int, end as int),
                body == trimmed(s@),
                kept == |c: char| !is_layout(c),
                cells_of(body.take(i - start).filter(kept)) == Some(cells@),
        {
            let c = chars[i];
            let ghost seen = body.take(i - start);
            proof {
                assert(body.take(i - start + 1) =~= seen.push(c));
                seen.lemma_filter_push(c, kept);
            }
            if c != '\r' && c != '\n' && c != ' ' {
                let cell = if c == '-' {
                    Cell::Blank
                } else if c == 'X' {
                    Cell::X
                } else if c == 'O' {
                    Cell::O
                } else {
                    proof {
                        body.lemma_filter_contains(kept, i - start);
                    }
                    return Err(INVALID_CHARACTER);
                };
                cells.push(cell);
            }
        }
        proof {
            assert(body.take(end - start) =~= body);
        }
        if dim < MIN_DIM || dim > MAX_DIM {
            return Err(INVALID_DIMENSION);
        }
        assert(dim * dim <= 900) by (nonlinear_arith)
            requires
                dim <= 30,
        ;
        if cells.len() != dim * dim {
            return Err(WRONG_CELL_COUNT);
        }
        Ok(Board::from_cells(dim, cells, human_uses))
    }

    /// The board in the notation that `from_string` reads: a character for
    /// each cell, each row on a line of its own.
    pub fn notation(&self) -> (text: String)
        requires
            self.wf(),
        ensures
            text@ == notation_text(self@.cells, self@.dim as int),
    {
        let dim = self.dim();
        let cells = self.cells();
        let ghost d = dim as int;
        let mut text = String::new();
        for i in 0..cells.len()
            invariant
                d == dim,
                dim >= 2,
                text@ == notation_text(cells@.take(i as int), d),
        {
            proof {
                reveal_strlit("X");
                reveal_strlit("O");
                reveal_strlit("-");
                reveal_strlit("\n");
                assert(cells@.take(i + 1).drop_last() =~= cells@.take(i as int));
            }
            if i > 0 && i % dim == 0 {
                text.append("\n");
            }
            let glyph = match cells[i] {
                Cell::X => "X",
                Cell::O => "O",
                Cell::Blank => "-",
            };
            text.append(glyph);
        }
        assert(cells@.take(cells@.len() as int) =~= cells@);
        text
    }

    /// The board as it is shown to a player: the cells between borders, row
    /// after row, a blank cell as a space.
    pub fn to_string(&self) -> (text: String)
        requires
            self.wf(),
        ensures
            text@ == grid_text(self@.cells, self@.dim as int),
    {
        let dim = self.dim();
        let ghost d = dim as int;
        let ghost cells = self@.cells;
        proof {
            reveal_strlit("+");
            reveal_strlit("\n");
        }
        let mut sep = String::new();
        for x in 0..dim
            invariant
                sep@ == border_cells(x as int),
        {
            proof {
                reveal_strlit("+---");
            }
            sep.append("+---");
        }
        sep.append("+");
        let mut text = String::new();
        text.append(sep.as_str());
        text.append("\n");
        for y in 0..dim
            invariant
                self.wf(),
                d == dim,
                dim == self@.dim,
                cells == self@.cells,
                sep@ == border(d),
                text@ == border(d) + seq!['\n'] + grid_rows(cells, d, y as int),
        {
            let ghost above = text@;
            for x in 0..dim
                invariant
                    self.wf(),
                    d == dim,
                    dim == self@.dim,
                    cells == self@.cells,
                    y < dim,
                    text@ == above + row_cells(cells, d, y as int, x as int),
            {
                proof {
                    reveal_strlit("| ");
                    reveal_strlit(" ");
                }
                text.append("| ");
                text.append(self.get_cell(x, y).as_str());
                text.append(" ");
            }
            proof {
                reveal_strlit("|\n");
                reveal_strlit("\n");
            }
            text.append("|\n");
            text.append(sep.as_str());
            text.append("\n");
        }
        text
    }
}

} // verus!
