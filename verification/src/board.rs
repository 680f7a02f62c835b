//! The position of a game: both rows, whose turn it is, and how a move changes it.

use crate::field::{total, Direction, FieldView, GameError, OnePlayersField, LENGTH_OF_FIELD};
use crate::laws::{game_over_after_move, lemma_after_capture, move_accounts_for_stones};
use vstd::prelude::*;

verus! {

/// What the last move did.
#[derive(Debug, Clone, Copy)]
pub struct MoveStatistic {
    /// The pit the last stone fell into.
    pub last_move_position: usize,
    /// Stones taken from the opponent.
    pub stones_of_opponent_removed: u8,
}

impl Default for MoveStatistic {
    fn default() -> (r: Self)
        ensures
            r.last_move_position == 0,
            r.stones_of_opponent_removed == 0,
    {
        MoveStatistic { last_move_position: 0, stones_of_opponent_removed: 0 }
    }
}

/// State of the game.
#[derive(Debug, Clone, Copy)]
pub struct GameState {
    /// The rows of the two players.
    pub fields_of_players: [OnePlayersField; 2],
    /// The player to move: 0 or 1.
    pub curr_player: u8,
    /// Whether the move that led here ended the game.
    pub game_over: bool,
    /// What the move that led here did.
    pub move_statistic: MoveStatistic,
}

/// A position as contracts see it.
pub struct BoardView {
    pub fields: Seq<FieldView>,
    pub curr_player: u8,
    pub game_over: bool,
    pub move_statistic: MoveStatistic,
}

impl FieldView {
    /// Whether a last stone of the opponent at `last` takes stones from this row:
    /// it does in the near half of the row, from a pit that holds stones.
    pub open spec fn hit_at(self, last: int) -> bool {
        0 <= last < 8 && self.pits[last] > 0
    }

    /// The stones that a last stone of the opponent at `last` takes from this row:
    /// those of the pit at `last` and of the pit that mirrors it.
    pub open spec fn taken_at(self, last: int) -> int {
        if self.hit_at(last) {
            self.pits[last] + self.pits[15 - last]
        } else {
            0
        }
    }

    /// This row after a last stone of the opponent at `last`.
    pub open spec fn after_capture(self, last: int) -> FieldView {
        if self.hit_at(last) {
            FieldView {
                direction: self.direction,
                pits: self.pits.update(last, 0u8).update(15 - last, 0u8),
            }
        } else {
            self
        }
    }
}

impl BoardView {
    /// Two rows in order and a player to move.
    pub open spec fn wf(self) -> bool {
        &&& self.fields.len() == 2
        &&& self.curr_player < 2
        &&& self.fields[0].wf()
        &&& self.fields[1].wf()
    }

    /// Stones in play.
    pub open spec fn stones(self) -> int {
        self.fields[0].total() + self.fields[1].total()
    }

    /// The player who has won: the one whose opponent has no stone left.
    pub open spec fn winner(self) -> Option<u8> {
        if self.fields[0].total() == 0 {
            Some(1u8)
        } else if self.fields[1].total() == 0 {
            Some(0u8)
        } else {
            None
        }
    }

    /// The position after the player to move has sown from the pit at `position`,
    /// or the reason why there is no such move.
    pub open spec fn make_move(self, position: int) -> Result<BoardView, GameError> {
        let mover = self.curr_player as int;
        let other = 1 - mover;
        match self.fields[mover].sow(position) {
            Err(e) => Err(e),
            Ok((sown, last)) => {
                let rest = self.fields[other].after_capture(last);
                Ok(
                    BoardView {
                        fields: self.fields.update(mover, sown).update(other, rest),
                        curr_player: other as u8,
                        game_over: sown.total() == 0 || rest.total() == 0,
                        move_statistic: MoveStatistic {
                            last_move_position: last as usize,
                            stones_of_opponent_removed: self.fields[other].taken_at(last) as u8,
                        },
                    },
                )
            },
        }
    }
}

/// The pit that `row` and `col` name for `player`: rows are counted from the
/// player's side, columns from the player's left.
pub open spec fn position_of(player: int, row: int, col: int) -> int {
    if player == 0 {
        row * 8 + (7 - col)
    } else {
        row * 8 + col
    }
}

impl View for GameState {
    type V = BoardView;

    open spec fn view(&self) -> BoardView {
        BoardView {
            fields: Seq::new(2, |i: int| self.fields_of_players[i]@),
            curr_player: self.curr_player,
            game_over: self.game_over,
            move_statistic: self.move_statistic,
        }
    }
}

impl Default for GameState {
    /// The start of a game: two stones in every pit, player 0 to move.
    fn default() -> (r: Self)
        ensures
            r@.wf(),
            r@ == GameState::default_view(),
    {
        let r = GameState {
            fields_of_players: [
                OnePlayersField::new(Direction::Left),
                OnePlayersField::new(Direction::Right),
            ],
            curr_player: 0,
            game_over: false,
            move_statistic: MoveStatistic::default(),
        };
        proof {
            reveal_with_fuel(total, 17);
            assert(r@.fields[0].pits =~= Seq::new(16, |i: int| 2u8));
            assert(r@.fields[1].pits =~= Seq::new(16, |i: int| 2u8));
            assert(r@.fields =~= GameState::default_view().fields);
        }
        r
    }
}

impl GameState {
    /// The start of a game.
    pub fn new() -> (r: GameState)
        ensures
            r@.wf(),
            r@ == GameState::default_view(),
    {
        GameState::default()
    }

    /// The position at the start of a game: two stones in every pit, player 0,
    /// who sows to the left, to move.
    pub open spec fn default_view() -> BoardView {
        BoardView {
            fields: seq![
                FieldView { direction: Direction::Left, pits: Seq::new(16, |i: int| 2u8) },
                FieldView { direction: Direction::Right, pits: Seq::new(16, |i: int| 2u8) },
            ],
            curr_player: 0,
            game_over: false,
            move_statistic: MoveStatistic { last_move_position: 0, stones_of_opponent_removed: 0 },
        }
    }

    /// Whether a move can be asked for: the player to move is 0 or 1, and the
    /// stones of each row together fit one pit.
    pub fn well_formed(&self) -> (r: bool)
        ensures
            r == self@.wf(),
    {
        self.curr_player < 2 && self.fields_of_players[0].well_formed()
            && self.fields_of_players[1].well_formed()
    }

    fn game_over_internal(&self, fields: &[OnePlayersField; 2]) -> (r: bool)
        ensures
            r == (fields[0]@.total() == 0 || fields[1]@.total() == 0),
    {
        fields[0].stones() == 0 || fields[1].stones() == 0
    }

    /// Whether a player has won.
    pub fn game_over(&self) -> (r: bool)
        ensures
            r == self@.winner().is_some(),
            r == (self@.fields[0].total() == 0 || self@.fields[1].total() == 0),
    {
        self.winner().is_some()
    }

    /// The player who has won, if any: player 1 where player 0 has no stone left,
    /// player 0 where player 1 has none.
    pub fn winner(&self) -> (r: Option<u8>)
        ensures
            r == self@.winner(),
    {
        if self.fields_of_players[0].stones() == 0 {
            Some(1)
        } else if self.fields_of_players[1].stones() == 0 {
            Some(0)
        } else {
            None
        }
    }

    /// Makes a move for the player to move and returns the new state: the stones of
    /// the pit at `position` are sown along the mover's row; a last stone in the near
    /// half of the row, opposite a pit of the opponent that holds stones, takes those
    /// stones and the stones of the mirroring pit out of play. The turn passes to
    /// the other player, and the game is over once a row is empty.
    ///
    /// The player to move must be 0 or 1, and no row may hold more than 255 stones.
    pub fn make_move(&self, position: usize) -> (r: Result<GameState, GameError>)
        requires
            self@.wf(),
        ensures
            match self@.make_move(position as int) {
                Ok(next) => r matches Ok(g) && g@ == next,
                Err(e) => r matches Err(x) && x == e,
            },
            r matches Ok(g) ==> {
                &&& g@.wf()
                &&& g.curr_player == 1 - self.curr_player
                &&& g.move_statistic.last_move_position < 16
                &&& g@.stones() == self@.stones() - g.move_statistic.stones_of_opponent_removed
                &&& g@.fields[self.curr_player as int].total() > 0
                &&& g.game_over <==> g@.winner() is Some
                &&& g.game_over <==> (g@.fields[0].total() == 0) != (g@.fields[1].total() == 0)
            },
    {
        let other_player: usize = (self.curr_player as usize + 1) % 2;
        let curr_player: usize = self.curr_player as usize;
        let ghost other_view = self@.fields[other_player as int];
        let new_field_state_of_current_player = self.fields_of_players[curr_player].make_move_from(
            position,
        );
        match new_field_state_of_current_player {
            Err(e) => Err(e),
            Ok((new_field, last)) => {
                // Now, remove stones from the other player if needed
                let mut other_player_field = self.fields_of_players[other_player];
                let mut removed_stones_of_opponent: u8 = 0;
                if last < LENGTH_OF_FIELD {
                    if self.fields_of_players[other_player].cells[last] > 0 {
                        proof {
                            lemma_after_capture(other_view, last as int);
                        }
                        removed_stones_of_opponent = other_player_field.cells[last]
                            + other_player_field.cells[2 * LENGTH_OF_FIELD - last - 1];
                        let mut cells = other_player_field.cells;
                        cells[last] = 0;
                        cells[2 * LENGTH_OF_FIELD - last - 1] = 0;
                        other_player_field =
                        OnePlayersField { direction: other_player_field.direction, cells };
                    }
                }
                assert(other_player_field@ == other_view.after_capture(last as int));
                assert(removed_stones_of_opponent == other_view.taken_at(last as int));
                let fields_of_both_players = if curr_player == 0 {
                    [new_field, other_player_field]
                } else {
                    [other_player_field, new_field]
                };
                let move_statistic = MoveStatistic {
                    stones_of_opponent_removed: removed_stones_of_opponent,
                    last_move_position: last,
                };
                let game_over = self.game_over_internal(&fields_of_both_players);
                let next = GameState {
                    curr_player: other_player as u8,
                    fields_of_players: fields_of_both_players,
                    game_over,
                    move_statistic,
                };
                proof {
                    let want = self@.make_move(position as int)->Ok_0;
                    assert(next@.fields =~= want.fields);
                    assert(next@ == want);
                    move_accounts_for_stones(self@, position as int);
                    game_over_after_move(self@, position as int);
                }
                Ok(next)
            },
        }
    }

    /// Returns the number of stones at the specified position of a player's row.
    pub fn get_number_stones_at(&self, player: usize, position: usize) -> (r: Result<u8, GameError>)
        requires
            position < 16,
            player < 2,
        ensures
            r == Ok::<u8, GameError>(self@.fields[player as int].pits[position as int]),
    {
        Ok(self.fields_of_players[player].cells[position])
    }

    /// The pit that `row` and `col` name for `player`.
    pub fn get_position_from_row_col(&self, player: usize, row: usize, col: usize) -> (r: usize)
        requires
            player == 0 ==> col < 8,
            position_of(player as int, row as int, col as int) <= usize::MAX,
        ensures
            r == position_of(player as int, row as int, col as int),
    {
        let position = if player == 0 {
            row * LENGTH_OF_FIELD + (LENGTH_OF_FIELD - 1 - col)
        } else {
            row * LENGTH_OF_FIELD + (col)
        };
        position
    }

    /// Makes a move from the pit that `row` and `col` name for the player to move.
    /// A column outside the row's half is no pit.
    pub fn make_move_via_row_col(&self, row: usize, col: usize) -> (r: Result<
        GameState,
        GameError,
    >)
        requires
            self@.wf(),
        ensures
            match (if col >= 8 {
                Err(GameError::PositionOutsideField)
            } else {
                self@.make_move(position_of(self.curr_player as int, row as int, col as int))
            }) {
                Ok(next) => r matches Ok(g) && g@ == next,
                Err(e) => r matches Err(x) && x == e,
            },
            r matches Ok(g) ==> g@.wf(),
    {
        if col >= LENGTH_OF_FIELD {
            return Err(GameError::PositionOutsideField);
        }
        if row >= 2 {
            // every pit of such a row lies beyond the field
            return Err(GameError::PositionOutsideField);
        }
        let position = self.get_position_from_row_col(self.curr_player as usize, row, col);
        self.make_move(position)
    }
}

} // verus!
