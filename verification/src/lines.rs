//! The geometry of the grid: how a cell's coordinates map to its place in the
//! flat cell sequence, and the lines along which a game is won.
//!
//! A board of dimension `d` has `2 * d + 2` winning lines, numbered in the
//! order in which they are scanned: the `d` columns from left to right, the
//! `d` rows from top to bottom, the main diagonal and the anti-diagonal.

use vstd::prelude::*;

verus! {

/// The place of the cell in column `x` and row `y` in the flat cell sequence.
pub open spec fn cell_index(dim: int, x: int, y: int) -> int {
    x + y * dim
}

/// The number of winning lines of a board of dimension `dim`.
pub open spec fn line_count(dim: int) -> int {
    2 * dim + 2
}

/// The column of the `i`-th cell of line `k`.
pub open spec fn line_x(dim: int, k: int, i: int) -> int {
    if k < dim {
        k
    } else {
        i
    }
}

/// The row of the `i`-th cell of line `k`.
pub open spec fn line_y(dim: int, k: int, i: int) -> int {
    if k < dim {
        i
    } else if k < 2 * dim {
        k - dim
    } else if k == 2 * dim {
        i
    } else {
        dim - 1 - i
    }
}

/// Line `k` of a board of dimension `dim`, as the indices of its cells.
pub open spec fn win_line(dim: int, k: int) -> Seq<int> {
    Seq::new(dim as nat, |i: int| cell_index(dim, line_x(dim, k, i), line_y(dim, k, i)))
}

/// All winning lines of a board of dimension `dim`, in scanning order.
pub open spec fn win_lines(dim: int) -> Seq<Seq<int>> {
    Seq::new(line_count(dim) as nat, |k: int| win_line(dim, k))
}

/// Whether `lines` holds exactly the winning lines of dimension `dim`.
pub open spec fn holds_win_lines(lines: Seq<Vec<usize>>, dim: int) -> bool {
    &&& lines.len() == line_count(dim)
    &&& forall|k: int| 0 <= k < lines.len() ==> (#[trigger] lines[k])@.len() == dim
    &&& forall|k: int, i: int|
        0 <= k < lines.len() && 0 <= i < dim ==> (#[trigger] lines[k]@[i]) as int == win_line(
            dim,
            k,
        )[i]
}

/// The indices held in `v`, as mathematical integers.
pub open spec fn as_ints(v: Seq<usize>) -> Seq<int> {
    v.map_values(|idx: usize| idx as int)
}

/// A cell inside the grid has an index inside the cell sequence.
pub proof fn lemma_cell_index_in_range(dim: int, x: int, y: int)
    requires
        0 <= x < dim,
        0 <= y < dim,
    ensures
        0 <= cell_index(dim, x, y) < dim * dim,
{
    assert(0 <= y * dim <= (dim - 1) * dim) by (nonlinear_arith)
        requires
            0 <= y < dim,
    ;
    assert((dim - 1) * dim + dim == dim * dim) by (nonlinear_arith);
}

/// The index of a cell determines its coordinates.
pub proof fn lemma_cell_index_coordinates(dim: int, x: int, y: int)
    requires
        0 <= x < dim,
        0 <= y < dim,
    ensures
        cell_index(dim, x, y) % dim == x,
        cell_index(dim, x, y) / dim == y,
{
    vstd::arithmetic::div_mod::lemma_fundamental_div_mod_converse(cell_index(dim, x, y), dim, y, x);
}

/// Two cells inside the grid with the same index are the same cell.
pub proof fn lemma_cell_index_injective(dim: int, x1: int, y1: int, x2: int, y2: int)
    requires
        0 <= x1 < dim,
        0 <= y1 < dim,
        0 <= x2 < dim,
        0 <= y2 < dim,
        cell_index(dim, x1, y1) == cell_index(dim, x2, y2),
    ensures
        x1 == x2,
        y1 == y2,
{
    lemma_cell_index_coordinates(dim, x1, y1);
    lemma_cell_index_coordinates(dim, x2, y2);
}

/// Every index inside the cell sequence belongs to a cell inside the grid.
pub proof fn lemma_index_has_coordinates(dim: int, idx: int)
    requires
        0 < dim,
        0 <= idx < dim * dim,
    ensures
        0 <= idx % dim < dim,
        0 <= idx / dim < dim,
        cell_index(dim, idx % dim, idx / dim) == idx,
{
    vstd::arithmetic::div_mod::lemma_fundamental_div_mod(idx, dim);
    assert(0 <= idx / dim < dim) by (nonlinear_arith)
        requires
            0 < dim,
            0 <= idx < dim * dim,
            idx == dim * (idx / dim) + idx % dim,
            0 <= idx % dim < dim,
    ;
    assert(dim * (idx / dim) == (idx / dim) * dim) by (nonlinear_arith);
}

/// The cells of a winning line lie inside the grid.
pub proof fn lemma_line_inside(dim: int, k: int, i: int)
    requires
        0 <= k < line_count(dim),
        0 <= i < dim,
    ensures
        0 <= line_x(dim, k, i) < dim,
        0 <= line_y(dim, k, i) < dim,
        0 <= win_line(dim, k)[i] < dim * dim,
{
    lemma_cell_index_in_range(dim, line_x(dim, k, i), line_y(dim, k, i));
}

/// A winning line visits no cell twice.
pub proof fn lemma_line_distinct(dim: int, k: int, i: int, j: int)
    requires
        0 <= k < line_count(dim),
        0 <= i < dim,
        0 <= j < dim,
        i != j,
    ensures
        win_line(dim, k)[i] != win_line(dim, k)[j],
{
    if win_line(dim, k)[i] == win_line(dim, k)[j] {
        lemma_cell_index_injective(
            dim,
            line_x(dim, k, i),
            line_y(dim, k, i),
            line_x(dim, k, j),
            line_y(dim, k, j),
        );
    }
}

/// There are `2 * dim + 2` winning lines, each of `dim` cells inside the grid.
pub proof fn lemma_win_lines_shape(dim: int)
    requires
        0 <= dim,
    ensures
        win_lines(dim).len() == 2 * dim + 2,
        forall|k: int| 0 <= k < 2 * dim + 2 ==> (#[trigger] win_lines(dim)[k]).len() == dim,
        forall|k: int, i: int|
            0 <= k < 2 * dim + 2 && 0 <= i < dim ==> 0 <= #[trigger] win_lines(dim)[k][i] < dim
                * dim,
{
    assert forall|k: int, i: int| 0 <= k < 2 * dim + 2 && 0 <= i < dim implies 0
        <= #[trigger] win_lines(dim)[k][i] < dim * dim by {
        lemma_line_inside(dim, k, i);
    }
}

/// Where `lines` holds the winning lines of dimension `dim`, its entry `k`
/// holds the cells of line `k`, each inside the grid and none twice.
pub proof fn lemma_stored_line(lines: Seq<Vec<usize>>, dim: int, k: int)
    requires
        holds_win_lines(lines, dim),
        0 <= k < lines.len(),
    ensures
        as_ints(lines[k]@) == win_line(dim, k),
        win_line(dim, k).no_duplicates(),
        forall|i: int| 0 <= i < dim ==> 0 <= #[trigger] win_line(dim, k)[i] < dim * dim,
        forall|i: int| 0 <= i < dim ==> 0 <= #[trigger] lines[k]@[i] < dim * dim,
{
    let line = win_line(dim, k);
    assert forall|i: int, j: int| 0 <= i < dim && 0 <= j < dim && i != j implies line[i]
        != line[j] by {
        lemma_line_distinct(dim, k, i, j);
    }
    assert forall|i: int| 0 <= i < dim implies 0 <= #[trigger] line[i] < dim * dim by {
        lemma_line_inside(dim, k, i);
    }
}

} // verus!
