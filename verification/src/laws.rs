//! What holds of every move and of every position.

use crate::board::BoardView;
use crate::field::{FieldView, GameError};
use crate::sowing::{lemma_sow_ok, lemma_total_bounds, lemma_total_update};
use vstd::prelude::*;

verus! {

/// Sowing neither adds nor removes a stone: the row after a move that succeeds
/// holds as many stones as the row before it.
pub proof fn sow_conserves_stones(f: FieldView, position: int)
    requires
        f.wf(),
        f.sow(position) is Ok,
    ensures
        f.sow(position)->Ok_0.0.total() == f.total(),
{
    lemma_sow_ok(f, position);
}

/// A row that has lost the stones an opponent's last stone takes holds as many
/// stones as before, less those taken, and both pits that were hit are empty.
pub proof fn lemma_after_capture(f: FieldView, last: int)
    requires
        f.wf(),
        0 <= last < 16,
    ensures
        f.after_capture(last).wf(),
        f.after_capture(last).total() == f.total() - f.taken_at(last),
        0 <= f.taken_at(last) <= 255,
        f.hit_at(last) ==> f.after_capture(last).pits[last] == 0 && f.after_capture(last).pits[15
            - last] == 0,
{
    if f.hit_at(last) {
        lemma_total_update(f.pits, last, 0u8);
        lemma_total_bounds(f.pits.update(last, 0u8), 15 - last);
        lemma_total_update(f.pits.update(last, 0u8), 15 - last, 0u8);
    }
}

/// A move takes out of play exactly the stones it reports as taken from the
/// opponent, leaves stones in the mover's row, and hands the turn over.
pub proof fn move_accounts_for_stones(b: BoardView, position: int)
    requires
        b.wf(),
        b.make_move(position) is Ok,
    ensures
        ({
            let next = b.make_move(position)->Ok_0;
            &&& next.wf()
            &&& next.curr_player == 1 - b.curr_player
            &&& next.stones() == b.stones() - next.move_statistic.stones_of_opponent_removed
            &&& next.fields[b.curr_player as int].total() == b.fields[b.curr_player as int].total()
            &&& next.fields[b.curr_player as int].total() > 0
            &&& next.move_statistic.last_move_position < 16
        }),
{
    let mover = b.curr_player as int;
    let other = 1 - mover;
    lemma_sow_ok(b.fields[mover], position);
    let last = b.fields[mover].sow(position)->Ok_0.1;
    lemma_after_capture(b.fields[other], last);
    lemma_total_bounds(b.fields[mover].pits, position);
}

/// Where the mover's last stone falls in the near half of the row, opposite a pit
/// of the opponent that holds `k > 0` stones, with `m` stones in the mirroring pit:
/// after the move both those pits are empty, the move reports `k + m` stones as
/// taken, and `k + m` fewer stones are in play.
pub proof fn capture_takes_both_pits(b: BoardView, position: int, k: int, m: int)
    requires
        b.wf(),
        b.make_move(position) is Ok,
        ({
            let last = b.fields[b.curr_player as int].sow(position)->Ok_0.1;
            &&& last < 8
            &&& b.fields[1 - b.curr_player].pits[last] == k
            &&& b.fields[1 - b.curr_player].pits[15 - last] == m
        }),
        k > 0,
    ensures
        ({
            let next = b.make_move(position)->Ok_0;
            let last = next.move_statistic.last_move_position as int;
            &&& last == b.fields[b.curr_player as int].sow(position)->Ok_0.1
            &&& next.fields[1 - b.curr_player].pits[last] == 0
            &&& next.fields[1 - b.curr_player].pits[15 - last] == 0
            &&& next.move_statistic.stones_of_opponent_removed == k + m
            &&& next.stones() == b.stones() - (k + m)
        }),
{
    let mover = b.curr_player as int;
    let other = 1 - mover;
    lemma_sow_ok(b.fields[mover], position);
    let last = b.fields[mover].sow(position)->Ok_0.1;
    lemma_after_capture(b.fields[other], last);
    move_accounts_for_stones(b, position);
}

/// Where the mover's last stone falls in the far half of the row, or opposite an
/// empty pit, the opponent's row stays as it is and no stone leaves play.
pub proof fn no_capture_keeps_stones(b: BoardView, position: int)
    requires
        b.wf(),
        b.make_move(position) is Ok,
        !b.fields[1 - b.curr_player].hit_at(b.fields[b.curr_player as int].sow(position)->Ok_0.1),
    ensures
        ({
            let next = b.make_move(position)->Ok_0;
            &&& next.fields[1 - b.curr_player] == b.fields[1 - b.curr_player]
            &&& next.move_statistic.stones_of_opponent_removed == 0
            &&& next.stones() == b.stones()
        }),
{
    move_accounts_for_stones(b, position);
}

/// A player has won exactly where a row is empty. Unless both rows are empty,
/// that is where exactly one row is empty.
pub proof fn winner_iff_row_empty(b: BoardView)
    ensures
        b.winner() is Some <==> (b.fields[0].total() == 0 || b.fields[1].total() == 0),
        !(b.fields[0].total() == 0 && b.fields[1].total() == 0) ==> (b.winner() is Some <==> (
        b.fields[0].total() == 0) != (b.fields[1].total() == 0)),
        b.winner() == Some(0u8) ==> b.fields[1].total() == 0,
        b.winner() == Some(1u8) ==> b.fields[0].total() == 0,
        b.winner() matches Some(w) ==> w < 2,
{
}

/// After a move the game is flagged as over exactly where exactly one row is
/// empty, and where it is flagged as over a player has won.
pub proof fn game_over_after_move(b: BoardView, position: int)
    requires
        b.wf(),
        b.make_move(position) is Ok,
    ensures
        ({
            let next = b.make_move(position)->Ok_0;
            &&& !(next.fields[0].total() == 0 && next.fields[1].total() == 0)
            &&& next.game_over <==> (next.fields[0].total() == 0) != (next.fields[1].total() == 0)
            &&& next.game_over <==> next.winner() is Some
            &&& next.game_over ==> next.winner() == Some(b.curr_player)
        }),
{
    move_accounts_for_stones(b, position);
}

/// The position with the two players exchanged: each has the other's row, and
/// the turn is the other's.
pub open spec fn mirrored(b: BoardView) -> BoardView {
    BoardView {
        fields: seq![b.fields[1], b.fields[0]],
        curr_player: (1 - b.curr_player) as u8,
        game_over: b.game_over,
        move_statistic: b.move_statistic,
    }
}

/// The player that `w` is after the two players are exchanged.
pub open spec fn mirrored_winner(w: Option<u8>) -> Option<u8> {
    match w {
        Some(p) => Some((1 - p) as u8),
        None => None,
    }
}

/// Moves and wins do not depend on which player is which: a move on the position
/// with the players exchanged gives the result of the move with the players
/// exchanged. Unless both rows are empty, the winner there is the other player.
pub proof fn move_commutes_with_mirror(b: BoardView, position: int)
    requires
        b.wf(),
    ensures
        mirrored(b).wf(),
        mirrored(b).make_move(position) == match b.make_move(position) {
            Ok(next) => Ok::<BoardView, GameError>(mirrored(next)),
            Err(e) => Err::<BoardView, GameError>(e),
        },
        !(b.fields[0].total() == 0 && b.fields[1].total() == 0) ==> mirrored(b).winner()
            == mirrored_winner(b.winner()),
{
    let mover = b.curr_player as int;
    let other = 1 - mover;
    let mb = mirrored(b);
    assert(mb.fields[other] == b.fields[mover]);
    assert(mb.fields[mover] == b.fields[other]);
    match b.make_move(position) {
        Ok(next) => {
            let got = mb.make_move(position)->Ok_0;
            assert(got.fields =~= mirrored(next).fields);
        },
        Err(e) => {},
    }
}

} // verus!
