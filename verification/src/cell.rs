//! The marks that occupy a cell and the ways a game can end.

use vstd::prelude::*;
use vstd::string::StringExecFns;

verus! {

/// What is said when the human has won.
pub const YOU_WON: &'static str = "You won!";

/// What is said when the automated player has won.
pub const COMPUTER_WON: &'static str = "Computer won!";

/// What is said when the board is full and nobody has won.
pub const TIE: &'static str = "It's a tie!";

/// The content of one cell of the grid.
#[derive(Debug, PartialEq, Eq, Clone, Copy, Structural)]
pub enum Cell {
    X,
    O,
    Blank,
}

/// How a finished game ended.
#[derive(Debug, PartialEq, Eq, Clone, Copy, Structural)]
pub enum GameOver {
    HumanWon,
    ComputerWon,
    Tie,
}

/// The mark that plays against `mark`. Only the two marks have an opponent;
/// on `Blank` the value carries no meaning.
pub open spec fn opponent_of(mark: Cell) -> Cell
    recommends
        mark != Cell::Blank,
{
    match mark {
        Cell::X => Cell::O,
        Cell::O => Cell::X,
        Cell::Blank => Cell::Blank,
    }
}

/// The character that shows `cell` to a player.
pub open spec fn shown_as(cell: Cell) -> char {
    match cell {
        Cell::X => 'X',
        Cell::O => 'O',
        Cell::Blank => ' ',
    }
}

/// What is said at the end `over` of a game.
pub open spec fn outcome_text(over: GameOver) -> Seq<char> {
    match over {
        GameOver::HumanWon => YOU_WON@,
        GameOver::ComputerWon => COMPUTER_WON@,
        GameOver::Tie => TIE@,
    }
}

impl Cell {
    /// The other player's mark.
    pub fn opponent(&self) -> (other: Cell)
        requires
            *self != Cell::Blank,
        ensures
            other == opponent_of(*self),
            other != Cell::Blank,
            other != *self,
    {
        match self {
            Cell::X => Cell::O,
            _ => Cell::X,
        }
    }

    /// The cell as it is shown to a player: `X`, `O` or a space.
    pub fn as_str(&self) -> (text: &'static str)
        ensures
            text@ == seq![shown_as(*self)],
    {
        proof {
            reveal_strlit("X");
            reveal_strlit("O");
            reveal_strlit(" ");
        }
        match self {
            Cell::X => "X",
            Cell::O => "O",
            Cell::Blank => " ",
        }
    }

    /// The cell as it is shown to a player, as a string of its own.
    pub fn to_string(&self) -> (text: String)
        ensures
            text@ == seq![shown_as(*self)],
    {
        String::from_str(self.as_str())
    }
}

impl GameOver {
    /// What is said to the human at this end of a game.
    pub fn to_string(&self) -> (text: String)
        ensures
            text@ == outcome_text(*self),
    {
        match self {
            GameOver::HumanWon => String::from_str(YOU_WON),
            GameOver::ComputerWon => String::from_str(COMPUTER_WON),
            GameOver::Tie => String::from_str(TIE),
        }
    }
}

} // verus!
