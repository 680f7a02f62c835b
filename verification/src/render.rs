//! The board and the errors of a move as text.

use crate::board::{BoardView, GameState};
use crate::field::GameError;
use vstd::prelude::*;
use vstd::string::StringExecFns;

verus! {

/// The character of the decimal digit `d`.
pub open spec fn digit(d: int) -> char {
    (48 + d) as char
}

/// The decimal numeral of `n`, without leading zeros.
pub open spec fn decimal(n: nat) -> Seq<char>
    decreases n,
{
    if n < 10 {
        seq![digit(n as int)]
    } else {
        decimal(n / 10).push(digit((n % 10) as int))
    }
}

/// The numerals of `values`, each but the first after a comma and a blank.
pub open spec fn joined(values: Seq<u8>) -> Seq<char>
    decreases values.len(),
{
    if values.len() == 0 {
        Seq::empty()
    } else if values.len() == 1 {
        decimal(values[0] as nat)
    } else {
        joined(values.drop_last()) + ", "@ + decimal(values.last() as nat)
    }
}

/// A list of numbers as text: the numerals between square brackets.
pub open spec fn listing(values: Seq<u8>) -> Seq<char> {
    "["@ + joined(values) + "]"@
}

/// `true` or `false`.
pub open spec fn truth(b: bool) -> Seq<char> {
    if b {
        "true"@
    } else {
        "false"@
    }
}

/// The board as text: a line of figures on the state of the game, then the row of
/// player 1 in two lines, the far half above the near half, a rule, and the row of
/// player 0 in two lines, the near half above the far half. The far halves are
/// listed from the last pit down, so that a pit stands over the pit it mirrors.
pub open spec fn board_text(b: BoardView) -> Seq<char> {
    "Current player: "@ + decimal(b.curr_player as nat) + ", stones removed in last move: "@
        + decimal(b.move_statistic.stones_of_opponent_removed as nat) + ", game over: "@ + truth(
        b.game_over,
    ) + ", player 1 stones: "@ + decimal(b.fields[0].total() as nat) + ", player 2 stones: "@
        + decimal(b.fields[1].total() as nat) + "\n"@ + listing(
        b.fields[1].pits.subrange(8, 16).reverse(),
    ) + "\n"@ + listing(b.fields[1].pits.subrange(0, 8)) + " Player 2\n------------------------------\n"@
        + listing(b.fields[0].pits.subrange(0, 8)) + "  Player 1\n"@ + listing(
        b.fields[0].pits.subrange(8, 16).reverse(),
    )
}

impl GameError {
    /// The name of the error.
    pub open spec fn name(self) -> Seq<char> {
        match self {
            GameError::PositionOutsideField => "PositionOutsideField"@,
            GameError::CellEmpty => "CellEmpty"@,
            GameError::NoMoveFound => "NoMoveFound"@,
            GameError::RepeatingPosition => "RepeatingPosition"@,
        }
    }

    /// What is reported where a move fails with this error.
    pub open spec fn message(self) -> Seq<char> {
        "Error while doing a move: "@ + self.name()
    }

    /// The name of the error.
    pub fn to_str(&self) -> (r: &'static str)
        ensures
            r@ == self.name(),
    {
        match self {
            GameError::PositionOutsideField => "PositionOutsideField",
            GameError::CellEmpty => "CellEmpty",
            GameError::NoMoveFound => "NoMoveFound",
            GameError::RepeatingPosition => "RepeatingPosition",
        }
    }

    /// What is reported where a move fails with this error.
    pub fn to_message(&self) -> (r: String)
        ensures
            r@ == self.message(),
    {
        let mut text = String::from_str("Error while doing a move: ");
        text.append(self.to_str());
        text
    }
}

fn digit_str(d: u32) -> (r: &'static str)
    requires
        d < 10,
    ensures
        r@ == seq![digit(d as int)],
{
    proof {
        reveal_strlit("0");
        reveal_strlit("1");
        reveal_strlit("2");
        reveal_strlit("3");
        reveal_strlit("4");
        reveal_strlit("5");
        reveal_strlit("6");
        reveal_strlit("7");
        reveal_strlit("8");
        reveal_strlit("9");
    }
    let r = match d {
        0 => "0",
        1 => "1",
        2 => "2",
        3 => "3",
        4 => "4",
        5 => "5",
        6 => "6",
        7 => "7",
        8 => "8",
        _ => "9",
    };
    assert(r@ =~= seq![digit(d as int)]);
    r
}

/// The decimal numeral of `n`.
pub fn decimal_string(n: u32) -> (r: String)
    ensures
        r@ == decimal(n as nat),
    decreases n,
{
    if n < 10 {
        String::from_str(digit_str(n))
    } else {
        let mut text = decimal_string(n / 10);
        text.append(digit_str(n % 10));
        assert(text@ =~= decimal(n as nat));
        text
    }
}

/// The pits `from..to` of a row as a list, from the last down where `reversed`.
fn listing_string(cells: &[u8; 16], from: usize, to: usize, reversed: bool) -> (r: String)
    requires
        from <= to <= 16,
    ensures
        r@ == listing(
            if reversed {
                cells@.subrange(from as int, to as int).reverse()
            } else {
                cells@.subrange(from as int, to as int)
            },
        ),
{
    let ghost values = if reversed {
        cells@.subrange(from as int, to as int).reverse()
    } else {
        cells@.subrange(from as int, to as int)
    };
    let mut text = String::from_str("[");
    let mut k: usize = 0;
    while k < to - from
        invariant
            from <= to <= 16,
            k <= to - from,
            values == if reversed {
                cells@.subrange(from as int, to as int).reverse()
            } else {
                cells@.subrange(from as int, to as int)
            },
            text@ == "["@ + joined(values.take(k as int)),
        decreases to - from - k,
    {
        let value = if reversed {
            cells[to - 1 - k]
        } else {
            cells[from + k]
        };
        assert(value == values[k as int]);
        assert(values.take(k + 1).drop_last() =~= values.take(k as int));
        if k > 0 {
            text.append(", ");
        }
        let numeral = decimal_string(value as u32);
        text.append(numeral.as_str());
        assert(text@ =~= "["@ + joined(values.take(k + 1)));
        k = k + 1;
    }
    assert(values.take(k as int) =~= values);
    text.append("]");
    text
}

impl GameState {
    /// The board as text.
    pub fn render(&self) -> (r: String)
        ensures
            r@ == board_text(self@),
    {
        let mut text = String::from_str("Current player: ");
        text.append(decimal_string(self.curr_player as u32).as_str());
        text.append(", stones removed in last move: ");
        text.append(decimal_string(self.move_statistic.stones_of_opponent_removed as u32).as_str());
        text.append(", game over: ");
        text.append(if self.game_over { "true" } else { "false" });
        text.append(", player 1 stones: ");
        text.append(decimal_string(self.fields_of_players[0].stones()).as_str());
        text.append(", player 2 stones: ");
        text.append(decimal_string(self.fields_of_players[1].stones()).as_str());
        text.append("\n");
        text.append(listing_string(&self.fields_of_players[1].cells, 8, 16, true).as_str());
        text.append("\n");
        text.append(listing_string(&self.fields_of_players[1].cells, 0, 8, false).as_str());
        text.append(" Player 2\n------------------------------\n");
        text.append(listing_string(&self.fields_of_players[0].cells, 0, 8, false).as_str());
        text.append("  Player 1\n");
        text.append(listing_string(&self.fields_of_players[0].cells, 8, 16, true).as_str());
        assert(text@ =~= board_text(self@));
        text
    }

    /// Makes a move as `make_move` does, for a caller that takes errors as text.
    /// A position beyond the field is reported without a move being tried.
    pub fn make_move_wasm(&self, position: usize) -> (r: Result<GameState, String>)
        requires
            self@.wf(),
        ensures
            match self@.make_move(position as int) {
                Ok(next) => r matches Ok(g) && g@ == next,
                Err(e) => r matches Err(text) && text@ == if position >= 16 {
                    "Position outside of field"@
                } else {
                    e.message()
                },
            },
            r matches Ok(g) ==> g@.wf(),
    {
        if position >= 2 * crate::field::LENGTH_OF_FIELD {
            return Err(String::from_str("Position outside of field"));
        }
        let new_state = self.make_move(position);
        match new_state {
            Ok(state) => Ok(state),
            Err(e) => Err(e.to_message()),
        }
    }

    /// Makes move using row and column notation, for a caller that takes errors as
    /// text. Row and column are always relative to the player to move: the bottom
    /// row is row 0, the top row is row 1, and the columns are counted from left to
    /// right.
    pub fn make_move_via_row_col_wasm(&self, row: usize, col: usize) -> (r: Result<
        GameState,
        String,
    >)
        requires
            self@.wf(),
        ensures
            match (if col >= 8 {
                Err(GameError::PositionOutsideField)
            } else {
                self@.make_move(
                    crate::board::position_of(self.curr_player as int, row as int, col as int),
                )
            }) {
                Ok(next) => r matches Ok(g) && g@ == next,
                Err(e) => r matches Err(text) && text@ == e.message(),
            },
            r matches Ok(g) ==> g@.wf(),
    {
        let new_state = self.make_move_via_row_col(row, col);
        match new_state {
            Ok(state) => Ok(state),
            Err(e) => Err(e.to_message()),
        }
    }
}

} // verus!
