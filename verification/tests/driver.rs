use tictactoe::{Board, Cell, Game, GameOver, Turn};

#[test]
fn first_turn_is_the_humans_unless_the_computer_begins() {
    assert_eq!(Turn::first(false), Turn::AwaitingHumanMove);
    assert_eq!(Turn::first(true), Turn::AwaitingComputerMove);
}

#[test]
fn turns_alternate_until_the_game_is_over() {
    assert_eq!(Turn::AwaitingHumanMove.next(None), Turn::AwaitingComputerMove);
    assert_eq!(Turn::AwaitingComputerMove.next(None), Turn::AwaitingHumanMove);
    for over in [GameOver::HumanWon, GameOver::ComputerWon, GameOver::Tie] {
        assert_eq!(Turn::AwaitingHumanMove.next(Some(over)), Turn::GameOver(over));
        assert_eq!(Turn::AwaitingComputerMove.next(Some(over)), Turn::GameOver(over));
        assert_eq!(Turn::GameOver(over).next(None), Turn::GameOver(over));
    }
}

#[test]
fn game_starts_on_an_empty_board() {
    let game = Game::build(3, Cell::X, false).unwrap();
    assert_eq!(game.turn(), Turn::AwaitingHumanMove);
    assert_eq!(game.board().moves(), 0);
    assert_eq!(game.board().dim(), 3);
    assert_eq!(game.board().human_uses(), Cell::X);
    let game = Game::build(4, Cell::O, true).unwrap();
    assert_eq!(game.turn(), Turn::AwaitingComputerMove);
    assert_eq!(game.board().notation(), "----\n----\n----\n----");
}

#[test]
fn game_rejects_dimensions_out_of_range() {
    for dim in [0, 1, 31] {
        for computer_begins in [false, true] {
            assert_eq!(
                Game::build(dim, Cell::X, computer_begins).err(),
                Some("Invalid board dimension, must be between 2 and 30")
            );
        }
    }
}

#[test]
fn game_passes_the_turn_after_each_move() {
    let mut game = Game::build(3, Cell::X, false).unwrap();
    assert_eq!(game.user_move(0, 0), Ok(()));
    assert_eq!(game.turn(), Turn::AwaitingComputerMove);
    assert_eq!(game.board().get_cell(0, 0), Cell::X);
    game.computer_move();
    assert_eq!(game.turn(), Turn::AwaitingHumanMove);
    assert_eq!(game.board().get_cell(1, 1), Cell::O);
    assert_eq!(game.board().moves(), 2);
}

#[test]
fn game_keeps_the_turn_when_the_cell_is_taken() {
    let mut game = Game::build(3, Cell::X, true).unwrap();
    game.computer_move();
    assert_eq!(game.board().get_cell(1, 1), Cell::O);
    assert_eq!(game.user_move(1, 1), Err("Cell already taken"));
    assert_eq!(game.turn(), Turn::AwaitingHumanMove);
    assert_eq!(game.board().moves(), 1);
    assert_eq!(game.user_move(0, 0), Ok(()));
    assert_eq!(game.turn(), Turn::AwaitingComputerMove);
}

#[test]
fn game_ends_when_the_computer_wins() {
    // The human plays along the top row but leaves the computer its line.
    let mut game = Game::build(3, Cell::X, false).unwrap();
    game.user_move(0, 0).unwrap();
    game.computer_move();
    assert_eq!(game.board().notation(), "X--\n-O-\n---");
    game.user_move(0, 1).unwrap();
    game.computer_move();
    assert_eq!(game.board().notation(), "X--\nXO-\nO--");
    game.user_move(1, 0).unwrap();
    game.computer_move();
    assert_eq!(game.board().notation(), "XXO\nXO-\nO--");
    assert_eq!(game.turn(), Turn::GameOver(GameOver::ComputerWon));
}

#[test]
fn game_ends_when_the_human_wins() {
    let mut game = Game::build(2, Cell::O, false).unwrap();
    game.user_move(0, 0).unwrap();
    assert_eq!(game.turn(), Turn::AwaitingComputerMove);
    game.computer_move();
    assert_eq!(game.turn(), Turn::AwaitingHumanMove);
    let (x, y) = game.board().best_move(Cell::O);
    game.user_move(x, y).unwrap();
    assert_eq!(game.turn(), Turn::GameOver(GameOver::HumanWon));
}

#[test]
fn game_between_two_engines_always_ends() {
    for dim in 2..=8usize {
        for computer_begins in [false, true] {
            let mut game = Game::build(dim, Cell::X, computer_begins).unwrap();
            let mut moves = 0;
            let mut expected = Turn::first(computer_begins);
            let over = loop {
                assert_eq!(game.board().moves(), moves);
                match game.turn() {
                    Turn::AwaitingHumanMove => {
                        assert_eq!(expected, Turn::AwaitingHumanMove);
                        assert!(!game.board().is_full());
                        let (x, y) = game.board().best_move(Cell::X);
                        game.user_move(x, y).unwrap();
                        expected = Turn::AwaitingComputerMove;
                    }
                    Turn::AwaitingComputerMove => {
                        assert_eq!(expected, Turn::AwaitingComputerMove);
                        assert!(!game.board().is_full());
                        game.computer_move();
                        expected = Turn::AwaitingHumanMove;
                    }
                    Turn::GameOver(over) => break over,
                }
                moves += 1;
                assert!(moves <= dim * dim);
            };
            if over == GameOver::Tie {
                assert!(game.board().is_full());
            }
        }
    }
}

#[test]
fn game_on_a_full_board_is_tied() {
    let mut game = Game::build(3, Cell::X, false).unwrap();
    for (n, (x, y)) in [(0, 0), (1, 0), (0, 2), (2, 1), (2, 2)].into_iter().enumerate() {
        assert_eq!(game.turn(), Turn::AwaitingHumanMove);
        game.user_move(x, y).unwrap();
        if n < 4 {
            assert_eq!(game.turn(), Turn::AwaitingComputerMove);
            game.computer_move();
        }
    }
    assert_eq!(game.board().notation(), "XXO\nOOX\nXOX");
    assert!(game.board().is_full());
    assert_eq!(game.turn(), Turn::GameOver(GameOver::Tie));
}

#[test]
fn game_ends_when_the_human_completes_a_row() {
    let mut game = Game::build(3, Cell::X, false).unwrap();
    for (x, y) in [(0, 0), (2, 1), (2, 0)] {
        game.user_move(x, y).unwrap();
        game.computer_move();
    }
    game.user_move(1, 0).unwrap();
    assert_eq!(game.board().notation(), "XXX\n-OX\nO-O");
    assert_eq!(game.turn(), Turn::GameOver(GameOver::HumanWon));
}

#[test]
fn board_of_a_game_is_the_board_that_was_played_on() {
    let mut game = Game::build(3, Cell::O, true).unwrap();
    let mut board = Board::build(3, Cell::O).unwrap();
    game.computer_move();
    board.computer_move();
    assert_eq!(game.board().notation(), board.notation());
    game.user_move(2, 2).unwrap();
    board.user_move(2, 2).unwrap();
    assert_eq!(game.board().notation(), board.notation());
    assert_eq!(game.board().moves(), 2);
}
