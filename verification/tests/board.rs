use tictactoe::{Board, Cell, GameOver};

#[test]
fn tie() {
    let board = Board::from_string(
        "
            XXO
            OXX
            XOO",
        3,
        Cell::X,
    )
    .unwrap();
    assert_eq!(board.check_game_over(0, 0, Cell::X).unwrap(), GameOver::Tie);
}

#[test]
fn test_check_game_over_win() {
    let tests = [
        (
            "row 1", // name
            "
                XXX
                OXX
                XOO", // board
            (2, 0),  // last move for X
        ),
        (
            "row 2",
            "
                OXO
                XXX
                OOX",
            (0, 1),
        ),
        (
            "row 3",
            "
                OXO
                OOX
                XXX",
            (1, 2),
        ),
        (
            "col 1",
            "
                XXO
                XOX
                XOO",
            (0, 0),
        ),
        (
            "dia 1",
            "
                XXO
                OXX
                XOX",
            (0, 0),
        ),
        (
            "dia 2",
            "
                OXX
                XXO
                XOO",
            (0, 2),
        ),
    ];
    for (name, board, (x, y)) in tests {
        let board = Board::from_string(board, 3, Cell::X).unwrap();
        assert_eq!(
            board.check_game_over(x, y, Cell::X).unwrap(),
            GameOver::HumanWon,
            "test case {} failed",
            name
        );
    }
}

#[test]
fn test_best_move() {
    let tests = [
        (
            "first move center",
            // on an empty board, the best move is the center
            "
---
---
---",
            (1, 1),
        ),
        (
            "avoid loss",
            // need to avoid a loss if there is no winning move
            "
X--
XO-
---",
            (0, 2),
        ),
        (
            "win over avoid loss",
            // a winning move comes before avoiding a loss
            "
X--
XO-
-O-",
            (1, 0),
        ),
    ];
    for (name, board, (x, y)) in tests {
        let board = Board::from_string(board, 3, Cell::X).unwrap();
        assert_eq!(
            board.best_move(Cell::O),
            (x, y),
            "test case '{}' failed",
            name
        );
    }
}

#[test]
fn game_is_not_over() {
    let board = Board::from_string(
        "
            XXO
            O-X
            XOO",
        3,
        Cell::X,
    )
    .unwrap();
    assert!(board.check_game_over(0, 2, Cell::X).is_none());
}

#[test]
fn build_accepts_dimensions_from_2_to_30() {
    for dim in 2..=30 {
        let board = Board::build(dim, Cell::X).unwrap();
        assert_eq!(board.dim(), dim);
        assert_eq!(board.moves(), 0);
        assert_eq!(board.human_uses(), Cell::X);
        assert!(!board.is_full());
        for y in 0..dim {
            for x in 0..dim {
                assert_eq!(board.get_cell(x, y), Cell::Blank);
            }
        }
    }
    assert_eq!(Board::build(3, Cell::O).unwrap().human_uses(), Cell::O);
}

#[test]
fn build_rejects_other_dimensions() {
    for dim in [0, 1, 31, 32, 100, usize::MAX] {
        assert_eq!(
            Board::build(dim, Cell::X).err(),
            Some("Invalid board dimension, must be between 2 and 30")
        );
        assert!(Board::build(dim, Cell::O).is_err());
    }
}

#[test]
fn win_lines_of_dimension_3() {
    let expected: Vec<Vec<usize>> = vec![
        vec![0, 3, 6],
        vec![1, 4, 7],
        vec![2, 5, 8],
        vec![0, 1, 2],
        vec![3, 4, 5],
        vec![6, 7, 8],
        vec![0, 4, 8],
        vec![6, 4, 2],
    ];
    assert_eq!(Board::win_lines(3), expected);
}

#[test]
fn win_lines_of_dimension_2() {
    let expected: Vec<Vec<usize>> =
        vec![vec![0, 2], vec![1, 3], vec![0, 1], vec![2, 3], vec![0, 3], vec![2, 1]];
    assert_eq!(Board::win_lines(2), expected);
}

#[test]
fn win_lines_count_and_length() {
    for dim in 0..=30usize {
        let lines = Board::win_lines(dim);
        assert_eq!(lines.len(), 2 * dim + 2);
        for line in &lines {
            assert_eq!(line.len(), dim);
            for (i, idx) in line.iter().enumerate() {
                assert!(*idx < dim * dim);
                assert!(!line[..i].contains(idx));
            }
        }
    }
}

#[test]
fn win_lines_are_columns_rows_and_diagonals() {
    let dim = 5;
    let lines = Board::win_lines(dim);
    for k in 0..dim {
        for i in 0..dim {
            assert_eq!(lines[k][i], k + i * dim);
            assert_eq!(lines[dim + k][i], i + k * dim);
        }
    }
    for i in 0..dim {
        assert_eq!(lines[2 * dim][i], i + i * dim);
        assert_eq!(lines[2 * dim + 1][i], i + (dim - 1 - i) * dim);
    }
}

#[test]
fn set_cell_places_a_mark_once() {
    let mut board = Board::build(3, Cell::X).unwrap();
    assert_eq!(board.set_cell(2, 1, Cell::X), Ok(()));
    assert_eq!(board.get_cell(2, 1), Cell::X);
    assert_eq!(board.moves(), 1);
    assert_eq!(board.set_cell(2, 1, Cell::O), Err("Cell already taken"));
    assert_eq!(board.set_cell(2, 1, Cell::X), Err("Cell already taken"));
    assert_eq!(board.get_cell(2, 1), Cell::X);
    assert_eq!(board.moves(), 1);
    assert_eq!(board.set_cell(1, 2, Cell::O), Ok(()));
    assert_eq!(board.get_cell(1, 2), Cell::O);
    assert_eq!(board.moves(), 2);
    for y in 0..3 {
        for x in 0..3 {
            if (x, y) != (2, 1) && (x, y) != (1, 2) {
                assert_eq!(board.get_cell(x, y), Cell::Blank);
            }
        }
    }
}

#[test]
fn moves_count_the_marks() {
    let mut board = Board::build(2, Cell::O).unwrap();
    let order = [(0, 0), (1, 1), (1, 0), (0, 1)];
    for (n, (x, y)) in order.iter().enumerate() {
        assert_eq!(board.moves(), n);
        assert!(!board.is_full());
        let mark = if n % 2 == 0 { Cell::O } else { Cell::X };
        board.set_cell(*x, *y, mark).unwrap();
    }
    assert_eq!(board.moves(), 4);
    assert!(board.is_full());
}

#[test]
fn cells_are_indexed_by_column_then_row() {
    let board = Board::from_string("XO-\n---\n-XO", 3, Cell::X).unwrap();
    assert_eq!(board.get_cell(0, 0), Cell::X);
    assert_eq!(board.get_cell(1, 0), Cell::O);
    assert_eq!(board.get_cell(2, 0), Cell::Blank);
    assert_eq!(board.get_cell(0, 2), Cell::Blank);
    assert_eq!(board.get_cell(1, 2), Cell::X);
    assert_eq!(board.get_cell(2, 2), Cell::O);
}

#[test]
fn opponent_is_the_other_mark() {
    assert_eq!(Cell::X.opponent(), Cell::O);
    assert_eq!(Cell::O.opponent(), Cell::X);
}

#[test]
fn won_names_the_winner() {
    let human_x = Board::build(3, Cell::X).unwrap();
    assert_eq!(human_x.won(Cell::X), Some(GameOver::HumanWon));
    assert_eq!(human_x.won(Cell::O), Some(GameOver::ComputerWon));
    let human_o = Board::build(3, Cell::O).unwrap();
    assert_eq!(human_o.won(Cell::O), Some(GameOver::HumanWon));
    assert_eq!(human_o.won(Cell::X), Some(GameOver::ComputerWon));
}

#[test]
fn full_board_without_a_line_is_a_tie_wherever_the_last_move_was() {
    let board = Board::from_string("XXO\nOXX\nXOO", 3, Cell::X).unwrap();
    for y in 0..3 {
        for x in 0..3 {
            let mark = board.get_cell(x, y);
            assert_eq!(board.check_game_over(x, y, mark), Some(GameOver::Tie));
        }
    }
}

#[test]
fn every_completed_line_wins_from_each_of_its_cells() {
    for dim in 2..=5usize {
        let lines = Board::win_lines(dim);
        for line in &lines {
            for (mark, human, expected) in [
                (Cell::X, Cell::X, GameOver::HumanWon),
                (Cell::O, Cell::X, GameOver::ComputerWon),
                (Cell::O, Cell::O, GameOver::HumanWon),
                (Cell::X, Cell::O, GameOver::ComputerWon),
            ] {
                let mut board = Board::build(dim, human).unwrap();
                for idx in line {
                    board.set_cell(idx % dim, idx / dim, mark).unwrap();
                }
                for idx in line {
                    assert_eq!(board.check_game_over(idx % dim, idx / dim, mark), Some(expected));
                }
            }
        }
    }
}

#[test]
fn a_line_that_misses_the_last_move_is_not_looked_at() {
    let board = Board::from_string("XXX\nOO-\n---", 3, Cell::X).unwrap();
    assert_eq!(board.check_game_over(2, 0, Cell::X), Some(GameOver::HumanWon));
    assert_eq!(board.check_game_over(0, 1, Cell::O), None);
    assert_eq!(board.check_game_over(0, 1, Cell::X), None);
}

#[test]
fn an_unfinished_line_does_not_end_the_game() {
    let board = Board::from_string("XX-\nOO-\n---", 3, Cell::X).unwrap();
    for y in 0..3 {
        for x in 0..3 {
            assert_eq!(board.check_game_over(x, y, Cell::X), None);
            assert_eq!(board.check_game_over(x, y, Cell::O), None);
        }
    }
}

#[test]
fn computer_wins_when_its_mark_completes_a_line() {
    let board = Board::from_string("OXX\nXOX\nXOO", 3, Cell::X).unwrap();
    assert_eq!(board.check_game_over(2, 2, Cell::O), Some(GameOver::ComputerWon));
    let board = Board::from_string("OXX\nXOX\nXOO", 3, Cell::O).unwrap();
    assert_eq!(board.check_game_over(2, 2, Cell::O), Some(GameOver::HumanWon));
}

#[test]
fn a_win_on_the_last_cell_is_no_tie() {
    let board = Board::from_string("XOX\nOXO\nOXX", 3, Cell::X).unwrap();
    assert!(board.is_full());
    assert_eq!(board.check_game_over(2, 2, Cell::X), Some(GameOver::HumanWon));
    assert_eq!(board.check_game_over(1, 0, Cell::O), Some(GameOver::Tie));
}

#[test]
fn every_board_has_the_lines_of_its_dimension() {
    for dim in 2..=30usize {
        let board = Board::build(dim, Cell::X).unwrap();
        assert_eq!(board.lines().len(), 2 * dim + 2);
        for line in board.lines() {
            assert_eq!(line.len(), dim);
        }
        assert_eq!(*board.lines(), Board::win_lines(dim));
    }
    let mut board = Board::from_string("X--\nXO-\n---", 3, Cell::X).unwrap();
    assert_eq!(*board.lines(), Board::win_lines(3));
    board.set_cell(2, 2, Cell::O).unwrap();
    assert_eq!(*board.lines(), Board::win_lines(3));
}
