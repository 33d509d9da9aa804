use tictactoe::{Board, Cell, GameOver};

#[test]
fn from_string_reads_rows_of_marks() {
    let board = Board::from_string("X--\nXO-\n---", 3, Cell::X).unwrap();
    assert_eq!(board.dim(), 3);
    assert_eq!(board.moves(), 3);
    assert_eq!(board.human_uses(), Cell::X);
    let expected = [
        [Cell::X, Cell::Blank, Cell::Blank],
        [Cell::X, Cell::O, Cell::Blank],
        [Cell::Blank, Cell::Blank, Cell::Blank],
    ];
    for y in 0..3 {
        for x in 0..3 {
            assert_eq!(board.get_cell(x, y), expected[y][x]);
        }
    }
}

#[test]
fn from_string_passes_over_layout() {
    let plain = Board::from_string("XO-OX-X-O", 3, Cell::X).unwrap();
    for text in [
        "XO-\nOX-\nX-O",
        "XO-\r\nOX-\r\nX-O\r\n",
        "\n\n   XO-\n\n   OX-\n   X-O\n\n",
        "X O - O X - X - O",
        "\t XO-OX-X-O \t",
        "\u{a0}XO-OX-X-O\u{3000}",
    ] {
        let board = Board::from_string(text, 3, Cell::X).unwrap();
        assert_eq!(board.notation(), plain.notation());
        assert_eq!(board.moves(), 6);
    }
}

#[test]
fn from_string_rejects_other_characters() {
    for text in ["XO-\nOX-\nX-o", "XO-OX-X-O.", "XO-\tOX-X-O", "x--------", "XO-|OX-|X-O"] {
        assert_eq!(
            Board::from_string(text, 3, Cell::X).err(),
            Some("Invalid character in board string")
        );
    }
}

#[test]
fn from_string_rejects_dimensions_out_of_range() {
    for (text, dim) in [("-", 1), ("", 0), ("---\n---\n---", 31)] {
        assert_eq!(
            Board::from_string(text, dim, Cell::X).err(),
            Some("Invalid board dimension, must be between 2 and 30")
        );
    }
}

#[test]
fn from_string_rejects_a_wrong_number_of_cells() {
    for (text, dim) in [("---\n---\n--", 3), ("---\n---\n----", 3), ("", 2), ("---\n---\n---", 2)] {
        assert_eq!(
            Board::from_string(text, dim, Cell::X).err(),
            Some("Board string does not match the board dimension")
        );
    }
}

#[test]
fn from_string_looks_at_the_characters_first() {
    assert_eq!(
        Board::from_string("?", 1, Cell::X).err(),
        Some("Invalid character in board string")
    );
    assert_eq!(
        Board::from_string("----?", 2, Cell::X).err(),
        Some("Invalid character in board string")
    );
}

#[test]
fn from_string_reads_the_largest_board() {
    let row = "XO".repeat(15);
    let text = vec![row; 30].join("\n");
    let board = Board::from_string(&text, 30, Cell::O).unwrap();
    assert_eq!(board.dim(), 30);
    assert_eq!(board.moves(), 900);
    assert!(board.is_full());
    assert_eq!(board.get_cell(29, 29), Cell::O);
    assert_eq!(board.notation(), text);
}

#[test]
fn notation_writes_each_row_on_a_line() {
    let mut board = Board::build(3, Cell::X).unwrap();
    assert_eq!(board.notation(), "---\n---\n---");
    board.set_cell(0, 0, Cell::X).unwrap();
    board.set_cell(1, 1, Cell::O).unwrap();
    board.set_cell(0, 1, Cell::X).unwrap();
    assert_eq!(board.notation(), "X--\nXO-\n---");
    let small = Board::from_string("XO-X", 2, Cell::X).unwrap();
    assert_eq!(small.notation(), "XO\n-X");
}

#[test]
fn notation_reads_back_as_the_same_board() {
    for text in
        ["---\n---\n---", "XXO\nOXX\nXOO", "X--\nXO-\n-O-", "XO\n-X", "X---\n-O--\n--X-\n---O"]
    {
        let dim = text.lines().count();
        for human in [Cell::X, Cell::O] {
            let board = Board::from_string(text, dim, human).unwrap();
            let again =
                Board::from_string(&board.notation(), board.dim(), board.human_uses()).unwrap();
            assert_eq!(again.dim(), board.dim());
            assert_eq!(again.moves(), board.moves());
            assert_eq!(again.human_uses(), board.human_uses());
            for y in 0..dim {
                for x in 0..dim {
                    assert_eq!(again.get_cell(x, y), board.get_cell(x, y));
                }
            }
            assert_eq!(again.notation(), text);
        }
    }
}

#[test]
fn notation_reads_back_all_through_a_game() {
    let mut board = Board::build(4, Cell::X).unwrap();
    let mut mark = Cell::X;
    loop {
        let again = Board::from_string(&board.notation(), 4, Cell::X).unwrap();
        assert_eq!(again.moves(), board.moves());
        assert_eq!(again.notation(), board.notation());
        let (x, y) = board.best_move(mark);
        board.set_cell(x, y, mark).unwrap();
        if board.check_game_over(x, y, mark).is_some() {
            break;
        }
        mark = mark.opponent();
    }
}

#[test]
fn grid_of_an_empty_board() {
    let board = Board::build(2, Cell::X).unwrap();
    assert_eq!(board.to_string(), "+---+---+\n|   |   |\n+---+---+\n|   |   |\n+---+---+\n");
}

#[test]
fn grid_shows_the_marks_between_borders() {
    let board = Board::from_string("X--\nXO-\n-O-", 3, Cell::X).unwrap();
    let expected = "\
+---+---+---+
| X |   |   |
+---+---+---+
| X | O |   |
+---+---+---+
|   | O |   |
+---+---+---+
";
    assert_eq!(board.to_string(), expected);
}

#[test]
fn grid_has_a_line_for_each_row_and_border() {
    for dim in 2..=30usize {
        let text = Board::build(dim, Cell::O).unwrap().to_string();
        let lines: Vec<&str> = text.lines().collect();
        assert_eq!(lines.len(), 2 * dim + 1);
        for (n, line) in lines.iter().enumerate() {
            assert_eq!(line.len(), 4 * dim + 1);
            if n % 2 == 0 {
                assert_eq!(*line, format!("{}+", "+---".repeat(dim)));
            } else {
                assert_eq!(*line, format!("{}|", "|   ".repeat(dim)));
            }
        }
        assert!(text.ends_with('\n'));
    }
}

#[test]
fn cells_are_shown_as_their_mark() {
    assert_eq!(Cell::X.to_string(), "X");
    assert_eq!(Cell::O.to_string(), "O");
    assert_eq!(Cell::Blank.to_string(), " ");
    assert_eq!(Cell::X.as_str(), "X");
    assert_eq!(Cell::O.as_str(), "O");
    assert_eq!(Cell::Blank.as_str(), " ");
}

#[test]
fn outcomes_are_told_in_words() {
    assert_eq!(GameOver::HumanWon.to_string(), "You won!");
    assert_eq!(GameOver::ComputerWon.to_string(), "Computer won!");
    assert_eq!(GameOver::Tie.to_string(), "It's a tie!");
}

#[test]
fn from_string_trims_what_the_standard_library_trims() {
    for code in 0..0x3200u32 {
        let Some(c) = char::from_u32(code) else {
            continue;
        };
        if c == 'X' || c == 'O' || c == '-' {
            continue;
        }
        let front = format!("{}XO-X", c);
        let back = format!("XO-X{}", c);
        let both = format!("{}{}XO-X{}", c, c, c);
        for text in [front, back, both] {
            let read = Board::from_string(&text, 2, Cell::X);
            assert_eq!(read.is_ok(), c.is_whitespace(), "character {:?}", c);
            if let Ok(board) = read {
                assert_eq!(board.notation(), "XO\n-X");
            }
        }
        let inside = format!("XO{}-X", c);
        let read = Board::from_string(&inside, 2, Cell::X);
        assert_eq!(read.is_ok(), c == ' ' || c == '\r' || c == '\n', "character {:?}", c);
    }
}
