//! The human's move, read from a line of text.
//!
//! A line names a cell by two numbers at its start, the column and then the
//! row, counted from one and set apart by one space. What follows the two
//! numbers is not looked at.

use vstd::prelude::*;
use crate::board::Board;

verus! {

/// Why a line of input names no cell of the board.
#[derive(Debug, PartialEq, Eq, Clone, Copy, Structural)]
pub enum InputError {
    /// The line does not start with two numbers set apart by one space.
    Malformed,
    /// A number is less than one or greater than the board's dimension.
    OutOfRange,
}

/// The pattern that a line of input is held against: a number, one space
/// and another number at the start of the line.
pub const MOVE_PATTERN: &'static str = r"^(\d+) (\d+)";

/// The texts of the first and the second group of the first match of the
/// regular expression `pattern` in `input`, where the regex crate compiles
/// the pattern, finds a match and both groups took part in it.
pub uninterp spec fn captured_pair(
    pattern: Seq<char>,
    input: Seq<char>,
) -> Option<(Seq<char>, Seq<char>)>;

/// Compiles `pattern` with `Regex::new` of the regex crate, searches `input`
/// with `Regex::captures` and hands out the texts of the groups 1 and 2 of
/// the match, which `Captures::get` and `Match::as_str` give. The contract
/// only names what comes back: that the same pattern and input give the same
/// texts. Nothing is claimed of what the texts hold.
#[verifier::external_body]
fn capture_pair(pattern: &str, input: &str) -> (found: Option<(String, String)>)
    ensures
        captured_pair(pattern@, input@) == match found {
            Some((first, second)) => Some((first@, second@)),
            None => None,
        },
{
    let compiled = regex::Regex::new(pattern).ok()?;
    let groups = compiled.captures(input)?;
    Some((groups.get(1)?.as_str().to_string(), groups.get(2)?.as_str().to_string()))
}

/// Whether `c` is one of the digits `0` to `9`.
pub open spec fn is_digit(c: char) -> bool {
    0x30 <= c as u32 <= 0x39
}

/// Whether `text` is a number written in the digits `0` to `9`.
pub open spec fn is_number(text: Seq<char>) -> bool {
    text.len() > 0 && forall|i: int| 0 <= i < text.len() ==> is_digit(#[trigger] text[i])
}

/// The number that the digits of `text` write in base ten.
pub open spec fn number_value(text: Seq<char>) -> nat
    decreases text.len(),
{
    if text.len() == 0 {
        0
    } else {
        number_value(text.drop_last()) * 10 + (text.last() as u32 - 0x30) as nat
    }
}

/// The texts of the two groups of a match.
pub open spec fn texts_of(found: Option<(&str, &str)>) -> Option<(Seq<char>, Seq<char>)> {
    match found {
        Some((first, second)) => Some((first@, second@)),
        None => None,
    }
}

/// The cell that the two numbers name on a board of dimension `dim`, as its
/// column and row counted from zero, or the reason why they name none:
/// malformed where there are no two numbers in the digits `0` to `9`, out of
/// range where one of them is not between one and `dim`.
pub open spec fn coordinates(found: Option<(Seq<char>, Seq<char>)>, dim: nat) -> Result<
    (usize, usize),
    InputError,
> {
    match found {
        None => Err(InputError::Malformed),
        Some((first, second)) => if !is_number(first) || !is_number(second) {
            Err(InputError::Malformed)
        } else if 1 <= number_value(first) <= dim && 1 <= number_value(second) <= dim {
            Ok(((number_value(first) - 1) as usize, (number_value(second) - 1) as usize))
        } else {
            Err(InputError::OutOfRange)
        },
    }
}

/// The number that `text` writes, if it is one and at most `limit`.
fn read_number(text: &str, limit: usize) -> (read: Result<usize, InputError>)
    requires
        limit * 10 + 9 <= usize::MAX,
    ensures
        read == if !is_number(text@) {
            Err::<usize, InputError>(InputError::Malformed)
        } else if number_value(text@) <= limit {
            Ok(number_value(text@) as usize)
        } else {
            Err(InputError::OutOfRange)
        },
{
    let mut value: usize = 0;
    let mut over = false;
    let mut empty = true;
    for c in it: text.chars()
        invariant
            it.seq() == text@,
            limit * 10 + 9 <= usize::MAX,
            empty == (it.index() == 0),
            forall|i: int| 0 <= i < it.index() ==> is_digit(#[trigger] text@[i]),
            !over ==> value == number_value(text@.take(it.index() as int)) && value <= limit,
            over ==> number_value(text@.take(it.index() as int)) > limit,
    {
        let code = c as u32;
        if code < 0x30 || code > 0x39 {
            return Err(InputError::Malformed);
        }
        proof {
            assert(text@.take(it.index() + 1).drop_last() =~= text@.take(it.index() as int));
        }
        if !over {
            let next = value * 10 + (code - 0x30) as usize;
            if next > limit {
                over = true;
            } else {
                value = next;
            }
        }
        empty = false;
    }
    proof {
        assert(text@.take(text@.len() as int) =~= text@);
    }
    if empty {
        Err(InputError::Malformed)
    } else if over {
        Err(InputError::OutOfRange)
    } else {
        Ok(value)
    }
}

impl Board {
    /// The cell that a line of input names, as its column and row counted
    /// from zero, or the reason to ask for another line.
    ///
    /// The line is held against `MOVE_PATTERN`. What the pattern takes for
    /// a number is then read as one in the digits `0` to `9`.
    pub fn accept_input(&self, input: &str) -> (accepted: Result<(usize, usize), InputError>)
        requires
            self.wf(),
        ensures
            accepted == coordinates(captured_pair(MOVE_PATTERN@, input@), self@.dim),
            accepted matches Ok(cell) ==> cell.0 < self@.dim && cell.1 < self@.dim,
    {
        match capture_pair(MOVE_PATTERN, input) {
            Some((first, second)) => self.accept_numbers(Some((first.as_str(), second.as_str()))),
            None => self.accept_numbers(None),
        }
    }

    /// The cell that the two numbers found at the start of a line name, as
    /// its column and row counted from zero, or the reason to ask for
    /// another line.
    pub fn accept_numbers(&self, found: Option<(&str, &str)>) -> (accepted: Result<
        (usize, usize),
        InputError,
    >)
        requires
            self.wf(),
        ensures
            accepted == coordinates(texts_of(found), self@.dim),
            accepted matches Ok(cell) ==> cell.0 < self@.dim && cell.1 < self@.dim,
    {
        let dim = self.dim();
        match found {
            None => Err(InputError::Malformed),
            Some((first, second)) => {
                let column = read_number(first, dim);
                let row = read_number(second, dim);
                match (column, row) {
                    (Err(InputError::Malformed), _) => Err(InputError::Malformed),
                    (_, Err(InputError::Malformed)) => Err(InputError::Malformed),
                    (Ok(column), Ok(row)) => {
                        if column < 1 || row < 1 {
                            Err(InputError::OutOfRange)
                        } else {
                            Ok((column - 1, row - 1))
                        }
                    },
                    _ => Err(InputError::OutOfRange),
                }
            },
        }
    }
}

} // verus!
