//! The choice of the automated player's next move.
//!
//! Three rules are tried in order. A line that the mover completes with one
//! more mark is completed. Failing that, a line that the other player would
//! complete with one more mark is blocked. Failing that, every blank cell is
//! scored by the lines through it that the mover can still complete, and the
//! first cell with the highest score is taken.

use vstd::prelude::*;
use crate::board::{lemma_valid_bounds, Board};
use crate::cell::{opponent_of, Cell};
use crate::outcome::{completed_through, completes_line};
use crate::lines::{
    as_ints, cell_index, holds_win_lines, lemma_index_has_coordinates, lemma_line_inside,
    lemma_stored_line, line_count, win_line,
};

verus! {

/// Whether some cell of `line` holds `mark`.
pub open spec fn line_has(cells: Seq<Cell>, line: Seq<int>, mark: Cell) -> bool {
    exists|i: int| 0 <= i < line.len() && cells[#[trigger] line[i]] == mark
}

/// The blank cells of `line`, in the order of the line.
pub open spec fn blanks_on(cells: Seq<Cell>, line: Seq<int>) -> Seq<int> {
    line.filter(|idx: int| cells[idx] == Cell::Blank)
}

/// Whether `line` holds no `excluded` mark and exactly one blank cell, so
/// that the player against `excluded` completes it with one more mark.
pub open spec fn one_short(cells: Seq<Cell>, line: Seq<int>, excluded: Cell) -> bool {
    !line_has(cells, line, excluded) && blanks_on(cells, line).len() == 1
}

/// Whether line `k` is the first line, in scanning order, that is one short.
pub open spec fn is_first_one_short(cells: Seq<Cell>, dim: int, excluded: Cell, k: int) -> bool {
    &&& 0 <= k < line_count(dim)
    &&& one_short(cells, win_line(dim, k), excluded)
    &&& forall|j: int| 0 <= j < k ==> !one_short(cells, #[trigger] win_line(dim, j), excluded)
}

/// The first line, in scanning order, that is one short, if there is one.
pub open spec fn first_one_short(cells: Seq<Cell>, dim: int, excluded: Cell) -> Option<int> {
    if exists|k: int| is_first_one_short(cells, dim, excluded, k) {
        Some(choose|k: int| is_first_one_short(cells, dim, excluded, k))
    } else {
        None
    }
}

/// What `line` adds to the score of the blank cell at `idx` when `mark` is
/// to move: nothing if the line misses the cell or holds the other player's
/// mark, else the more the fewer blank cells the line has left.
pub open spec fn line_weight(
    cells: Seq<Cell>,
    dim: int,
    mark: Cell,
    line: Seq<int>,
    idx: int,
) -> int {
    if line.contains(idx) && !line_has(cells, line, opponent_of(mark)) {
        dim + 1 - blanks_on(cells, line).len()
    } else {
        0
    }
}

/// What the first `n` lines add to the score of the blank cell at `idx`.
pub open spec fn weight_sum(cells: Seq<Cell>, dim: int, mark: Cell, idx: int, n: int) -> int
    decreases n,
{
    if n <= 0 {
        0
    } else {
        weight_sum(cells, dim, mark, idx, n - 1) + line_weight(
            cells,
            dim,
            mark,
            win_line(dim, n - 1),
            idx,
        )
    }
}

/// The score of the cell at `idx` after the first `n` lines were weighed:
/// nothing for a cell that holds a mark, else one and what the lines add.
pub open spec fn score_after(cells: Seq<Cell>, dim: int, mark: Cell, idx: int, n: int) -> int {
    if cells[idx] == Cell::Blank {
        1 + weight_sum(cells, dim, mark, idx, n)
    } else {
        0
    }
}

/// The score of every cell when `mark` is to move.
pub open spec fn scores(cells: Seq<Cell>, dim: int, mark: Cell) -> Seq<int> {
    Seq::new(cells.len(), |idx: int| score_after(cells, dim, mark, idx, line_count(dim)))
}

/// Whether `i` is the first place of the largest value of `values`.
pub open spec fn is_first_max(values: Seq<int>, i: int) -> bool {
    &&& 0 <= i < values.len()
    &&& forall|j: int| 0 <= j < values.len() ==> values[j] <= values[i]
    &&& forall|j: int| 0 <= j < i ==> values[j] < values[i]
}

/// The first place of the largest value of `values`.
pub open spec fn first_max(values: Seq<int>) -> int {
    choose|i: int| is_first_max(values, i)
}

/// The cell that `mark` plays: the blank cell of the first line that `mark`
/// completes; else the blank cell of the first line that the other player
/// would complete; else the first cell of the highest score.
pub open spec fn best_cell(cells: Seq<Cell>, dim: int, mark: Cell) -> int {
    match first_one_short(cells, dim, opponent_of(mark)) {
        Some(k) => blanks_on(cells, win_line(dim, k))[0],
        None => match first_one_short(cells, dim, mark) {
            Some(k) => blanks_on(cells, win_line(dim, k))[0],
            None => first_max(scores(cells, dim, mark)),
        },
    }
}

/// The blank cells of a line are cells of the line, are blank, are all of
/// the line's blank cells, and come up once each if the line's cells do.
pub proof fn lemma_blanks_on(cells: Seq<Cell>, line: Seq<int>)
    ensures
        blanks_on(cells, line).len() <= line.len(),
        forall|t: int|
            0 <= t < blanks_on(cells, line).len() ==> {
                &&& cells[#[trigger] blanks_on(cells, line)[t]] == Cell::Blank
                &&& line.contains(blanks_on(cells, line)[t])
            },
        forall|i: int|
            0 <= i < line.len() && cells[#[trigger] line[i]] == Cell::Blank ==> blanks_on(
                cells,
                line,
            ).contains(line[i]),
        line.no_duplicates() ==> blanks_on(cells, line).no_duplicates(),
    decreases line.len(),
{
    reveal(Seq::filter);
    let blanks = blanks_on(cells, line);
    if line.len() > 0 {
        lemma_blanks_on(cells, line.drop_last());
        assert forall|t: int| 0 <= t < blanks.len() implies {
            &&& cells[#[trigger] blanks[t]] == Cell::Blank
            &&& line.contains(blanks[t])
        } by {}
    }
}

/// The first `n` lines add between nothing and `n * (dim + 1)` to a cell's
/// score.
pub proof fn lemma_weight_sum_bounds(cells: Seq<Cell>, dim: int, mark: Cell, idx: int, n: int)
    requires
        0 <= dim,
        0 <= n,
    ensures
        0 <= weight_sum(cells, dim, mark, idx, n) <= n * (dim + 1),
    decreases n,
{
    if n > 0 {
        lemma_weight_sum_bounds(cells, dim, mark, idx, n - 1);
        assert((n - 1) * (dim + 1) + (dim + 1) == n * (dim + 1)) by (nonlinear_arith);
    }
}

/// The first line that is one short is the only line that is.
pub proof fn lemma_first_one_short(cells: Seq<Cell>, dim: int, excluded: Cell, k: int)
    requires
        is_first_one_short(cells, dim, excluded, k),
    ensures
        first_one_short(cells, dim, excluded) == Some(k),
{
}

/// Where a line is one short, there is a first such line.
pub proof fn lemma_first_one_short_exists(cells: Seq<Cell>, dim: int, excluded: Cell)
    requires
        exists|k: int|
            0 <= k < line_count(dim) && one_short(cells, #[trigger] win_line(dim, k), excluded),
    ensures
        first_one_short(cells, dim, excluded) matches Some(k) && is_first_one_short(
            cells,
            dim,
            excluded,
            k,
        ),
{
    let some = choose|k: int|
        0 <= k < line_count(dim) && one_short(cells, #[trigger] win_line(dim, k), excluded);
    lemma_first_below(cells, dim, excluded, some);
}

/// Where line `k` is one short, a line up to `k` is the first that is.
proof fn lemma_first_below(cells: Seq<Cell>, dim: int, excluded: Cell, k: int)
    requires
        0 <= k < line_count(dim),
        one_short(cells, win_line(dim, k), excluded),
    ensures
        exists|j: int| is_first_one_short(cells, dim, excluded, j),
    decreases k,
{
    if exists|j: int| 0 <= j < k && one_short(cells, #[trigger] win_line(dim, j), excluded) {
        let j = choose|j: int|
            0 <= j < k && one_short(cells, #[trigger] win_line(dim, j), excluded);
        lemma_first_below(cells, dim, excluded, j);
    } else {
        assert(is_first_one_short(cells, dim, excluded, k));
    }
}

/// The first place of the largest value is the only such place.
pub proof fn lemma_first_max(values: Seq<int>, i: int)
    requires
        is_first_max(values, i),
    ensures
        first_max(values) == i,
{
    let found = first_max(values);
    if i < found {
        assert(values[found] <= values[i]);
    }
}

/// Every sequence with a value has a first place of its largest value.
pub proof fn lemma_first_max_exists(values: Seq<int>)
    requires
        values.len() > 0,
    ensures
        is_first_max(values, first_max(values)),
    decreases values.len(),
{
    if values.len() == 1 {
        assert(is_first_max(values, 0));
    } else {
        let front = values.drop_last();
        lemma_first_max_exists(front);
        let before = first_max(front);
        if values.last() > front[before] {
            assert(is_first_max(values, values.len() - 1)) by {
                assert forall|j: int| 0 <= j < values.len() - 1 implies values[j]
                    < values.last() by {
                    assert(front[j] <= front[before]);
                }
            }
        } else {
            assert(is_first_max(values, before)) by {
                assert forall|j: int| 0 <= j < values.len() implies values[j] <= values[before] by {
                    if j < front.len() {
                        assert(front[j] <= front[before]);
                    }
                }
                assert forall|j: int| 0 <= j < before implies values[j] < values[before] by {
                    assert(front[j] < front[before]);
                }
            }
        }
    }
}

/// As long as a blank cell is left, the cell that is played is blank.
pub proof fn lemma_best_cell_is_blank(cells: Seq<Cell>, dim: int, mark: Cell)
    requires
        0 < dim,
        cells.len() == dim * dim,
        exists|i: int| 0 <= i < cells.len() && cells[i] == Cell::Blank,
    ensures
        0 <= best_cell(cells, dim, mark) < cells.len(),
        cells[best_cell(cells, dim, mark)] == Cell::Blank,
{
    let won = first_one_short(cells, dim, opponent_of(mark));
    let blocked = first_one_short(cells, dim, mark);
    if won is Some || blocked is Some {
        let k = if won is Some {
            won->0
        } else {
            blocked->0
        };
        let line = win_line(dim, k);
        lemma_blanks_on(cells, line);
        lemma_line_inside(dim, k, line.index_of(blanks_on(cells, line)[0]));
    } else {
        let values = scores(cells, dim, mark);
        lemma_first_max_exists(values);
        let best = first_max(values);
        let blank = choose|i: int| 0 <= i < cells.len() && cells[i] == Cell::Blank;
        lemma_weight_sum_bounds(cells, dim, mark, blank, line_count(dim));
        assert(values[blank] <= values[best]);
    }
}

/// A win in one move is never missed: where some line lacks one mark of
/// `mark` and holds no mark of the other player, the cell that is played
/// completes a line.
pub proof fn lemma_win_is_taken(cells: Seq<Cell>, dim: int, mark: Cell)
    requires
        0 < dim,
        cells.len() == dim * dim,
        mark != Cell::Blank,
        exists|k: int|
            0 <= k < line_count(dim) && one_short(
                cells,
                #[trigger] win_line(dim, k),
                opponent_of(mark),
            ),
    ensures
        cells[best_cell(cells, dim, mark)] == Cell::Blank,
        completes_line(
            cells.update(best_cell(cells, dim, mark), mark),
            dim,
            best_cell(cells, dim, mark),
            mark,
        ),
{
    lemma_first_one_short_exists(cells, dim, opponent_of(mark));
    let k = first_one_short(cells, dim, opponent_of(mark))->0;
    let line = win_line(dim, k);
    let target = best_cell(cells, dim, mark);
    let after = cells.update(target, mark);
    lemma_blanks_on(cells, line);
    lemma_line_inside(dim, k, line.index_of(target));
    assert forall|i: int| 0 <= i < line.len() implies after[#[trigger] line[i]] == mark by {
        lemma_line_inside(dim, k, i);
    }
    assert(completed_through(after, dim, k, target, mark));
}

/// A loss in one move is never missed: where `mark` has no win in one move
/// and some line lacks one mark of the other player and holds no mark of
/// `mark`, the cell that is played is the blank cell of such a line, which
/// holds a mark of `mark` from then on.
pub proof fn lemma_threat_is_blocked(cells: Seq<Cell>, dim: int, mark: Cell)
    requires
        0 < dim,
        cells.len() == dim * dim,
        mark != Cell::Blank,
        first_one_short(cells, dim, opponent_of(mark)) is None,
        exists|k: int|
            0 <= k < line_count(dim) && one_short(cells, #[trigger] win_line(dim, k), mark),
    ensures
        first_one_short(cells, dim, mark) matches Some(k) && {
            &&& one_short(cells, win_line(dim, k), mark)
            &&& win_line(dim, k).contains(best_cell(cells, dim, mark))
            &&& cells[best_cell(cells, dim, mark)] == Cell::Blank
            &&& line_has(cells.update(best_cell(cells, dim, mark), mark), win_line(dim, k), mark)
        },
{
    lemma_first_one_short_exists(cells, dim, mark);
    let k = first_one_short(cells, dim, mark)->0;
    let line = win_line(dim, k);
    let target = best_cell(cells, dim, mark);
    lemma_blanks_on(cells, line);
    lemma_line_inside(dim, k, line.index_of(target));
}

/// The blank cells of `line`, or `None` when the line holds `excluded`.
fn open_blanks(cells: &Vec<Cell>, line: &Vec<usize>, excluded: Cell) -> (found: Option<Vec<usize>>)
    requires
        forall|i: int| 0 <= i < line@.len() ==> #[trigger] line@[i] < cells@.len(),
    ensures
        found is None <==> line_has(cells@, as_ints(line@), excluded),
        found matches Some(blanks) ==> as_ints(blanks@) == blanks_on(cells@, as_ints(line@)),
{
    let ghost whole = as_ints(line@);
    let mut blanks: Vec<usize> = Vec::new();
    for j in 0..line.len()
        invariant
            whole == as_ints(line@),
            forall|i: int| 0 <= i < line@.len() ==> #[trigger] line@[i] < cells@.len(),
            as_ints(blanks@) == blanks_on(cells@, whole.take(j as int)),
            forall|i: int| 0 <= i < j ==> cells@[#[trigger] whole[i]] != excluded,
    {
        let idx = line[j];
        let held = cells[idx];
        if held == excluded {
            assert(cells@[whole[j as int]] == excluded);
            return None;
        }
        proof {
            assert(whole.take(j as int).push(whole[j as int]) =~= whole.take(j + 1));
            whole.take(j as int).lemma_filter_push(
                whole[j as int],
                |idx: int| cells@[idx] == Cell::Blank,
            );
        }
        if held == Cell::Blank {
            blanks.push(idx);
        }
    }
    proof {
        assert(whole.take(line@.len() as int) =~= whole);
    }
    Some(blanks)
}

impl Board {
    /// The cell that `cell` should play next, as its column and row.
    ///
    /// A line that `cell` completes with this move comes first, then a line
    /// that the other player would complete with the next move, then the
    /// first cell of the highest score. The cell is blank as long as the
    /// board has a blank cell.
    pub fn best_move(&self, cell: Cell) -> (target: (usize, usize))
        requires
            self.wf(),
            cell != Cell::Blank,
        ensures
            target.0 < self@.dim,
            target.1 < self@.dim,
            cell_index(self@.dim as int, target.0 as int, target.1 as int) == best_cell(
                self@.cells,
                self@.dim as int,
                cell,
            ),
            !self@.full() ==> self@.at(target.0 as int, target.1 as int) == Cell::Blank,
    {
        let dim = self.dim();
        let cells = self.cells();
        let lines = self.lines();
        let opponent = cell.opponent();
        let ghost d = dim as int;
        proof {
            lemma_valid_bounds(self@);
            if !self@.full() {
                lemma_best_cell_is_blank(cells@, d, cell);
            }
        }
        let mut wins: Vec<usize> = Vec::new();
        for i in 0..cells.len()
            invariant
                wins@.len() == i,
                forall|t: int|
                    0 <= t < i ==> (#[trigger] wins@[t]) as int == score_after(
                        cells@,
                        d,
                        cell,
                        t,
                        0,
                    ),
        {
            wins.push(
                if cells[i] == Cell::Blank {
                    1
                } else {
                    0
                },
            );
        }
        for k in 0..lines.len()
            invariant
                d == dim,
                2 <= dim <= 30,
                dim == self@.dim,
                cells@ == self@.cells,
                cells@.len() == d * d,
                cells@.len() <= 900,
                cell != Cell::Blank,
                opponent == opponent_of(cell),
                !self@.full() ==> cells@[best_cell(cells@, d, cell)] == Cell::Blank,
                holds_win_lines(lines@, d),
                wins@.len() == cells@.len(),
                forall|j: int|
                    0 <= j < k ==> !one_short(cells@, #[trigger] win_line(d, j), opponent),
                forall|t: int|
                    0 <= t < cells@.len() ==> (#[trigger] wins@[t]) as int == score_after(
                        cells@,
                        d,
                        cell,
                        t,
                        k as int,
                    ),
        {
            let ghost line = win_line(d, k as int);
            proof {
                lemma_stored_line(lines@, d, k as int);
                lemma_blanks_on(cells@, line);
            }
            if let Some(blanks) = open_blanks(cells, &lines[k], opponent) {
                if blanks.len() == 1 {
                    proof {
                        lemma_first_one_short(cells@, d, opponent, k as int);
                        lemma_index_has_coordinates(d, blanks@[0] as int);
                    }
                    return (blanks[0] % dim, blanks[0] / dim);
                }
                let moves = dim + 1 - blanks.len();
                let ghost before = wins@;
                for t in 0..blanks.len()
                    invariant
                        d == dim,
                        2 <= dim <= 30,
                        k < line_count(d),
                        0 < moves <= dim + 1,
                        line == win_line(d, k as int),
                        as_ints(blanks@) == blanks_on(cells@, line),
                        blanks_on(cells@, line).no_duplicates(),
                        forall|u: int|
                            0 <= u < blanks@.len() ==> {
                                &&& 0 <= #[trigger] blanks_on(cells@, line)[u] < cells@.len()
                                &&& cells@[blanks_on(cells@, line)[u]] == Cell::Blank
                            },
                        wins@.len() == cells@.len(),
                        before.len() == cells@.len(),
                        forall|i: int|
                            0 <= i < cells@.len() ==> (#[trigger] before[i]) as int
                                == score_after(cells@, d, cell, i, k as int),
                        forall|i: int|
                            0 <= i < cells@.len() ==> (#[trigger] wins@[i]) as int == before[i]
                                + if as_ints(blanks@).take(t as int).contains(i) {
                                moves as int
                            } else {
                                0
                            },
                {
                    let ghost targets = as_ints(blanks@);
                    let idx = blanks[t];
                    proof {
                        lemma_weight_sum_bounds(cells@, d, cell, idx as int, k as int);
                        assert(k * (d + 1) <= 62 * 31) by (nonlinear_arith)
                            requires
                                0 <= k < 2 * d + 2,
                                2 <= d <= 30,
                        ;
                        assert(!targets.take(t as int).contains(idx as int)) by {
                            let ghost shorter = targets.take(t as int);
                            if shorter.contains(idx as int) {
                                let w = shorter.index_of(idx as int);
                                assert(targets[w] == targets[t as int]);
                            }
                        }
                    }
                    wins.set(idx, wins[idx] + moves);
                    proof {
                        let ghost longer = targets.take(t + 1);
                        assert forall|i: int| 0 <= i < cells@.len() implies (
                        #[trigger] wins@[i]) as int == before[i] + if longer.contains(i) {
                            moves as int
                        } else {
                            0
                        } by {
                            if i == idx {
                                assert(longer[t as int] == i);
                            }
                        }
                    }
                }
                assert(as_ints(blanks@).take(blanks@.len() as int) =~= as_ints(blanks@));
            }
        }
        for k in 0..lines.len()
            invariant
                d == dim,
                2 <= dim <= 30,
                dim == self@.dim,
                cells@ == self@.cells,
                cells@.len() == d * d,
                cell != Cell::Blank,
                !self@.full() ==> cells@[best_cell(cells@, d, cell)] == Cell::Blank,
                holds_win_lines(lines@, d),
                first_one_short(cells@, d, opponent_of(cell)) is None,
                forall|j: int| 0 <= j < k ==> !one_short(cells@, #[trigger] win_line(d, j), cell),
        {
            proof {
                lemma_stored_line(lines@, d, k as int);
                lemma_blanks_on(cells@, win_line(d, k as int));
            }
            if let Some(blanks) = open_blanks(cells, &lines[k], cell) {
                if blanks.len() == 1 {
                    proof {
                        lemma_first_one_short(cells@, d, cell, k as int);
                        lemma_index_has_coordinates(d, blanks@[0] as int);
                    }
                    return (blanks[0] % dim, blanks[0] / dim);
                }
            }
        }
        let mut best: usize = 0;
        for i in 1..wins.len()
            invariant
                wins@.len() >= 4,
                best < i,
                forall|j: int| 0 <= j < i ==> wins@[j] <= wins@[best as int],
                forall|j: int| 0 <= j < best ==> wins@[j] < wins@[best as int],
        {
            if wins[i] > wins[best] {
                best = i;
            }
        }
        proof {
            let ghost values = scores(cells@, d, cell);
            assert forall|j: int| 0 <= j < values.len() implies values[j] == wins@[j] by {}
            lemma_first_max(values, best as int);
            lemma_index_has_coordinates(d, best as int);
        }
        (best % dim, best / dim)
    }
}

} // verus!
