//! Random playouts and the evaluation of moves by playing them out.

use crate::board::{BoardView, GameState};
use crate::field::{occupied, GameError};
use crate::sowing::{lemma_occupied, lemma_total_nonnegative};
use vstd::prelude::*;

verus! {

/// Moves after which a playout that has not ended is given up.
pub const PLAYOUT_MOVE_LIMIT: u32 = 100000;

/// Rounds played where neither a number of rounds nor a time is given.
pub const DEFAULT_ROUNDS: u32 = 100;

/// Rounds after which an evaluation ends whatever the time: every score fits `i32`.
pub const MAX_ROUNDS: u32 = 0x7fff_ffff;

/// Pit indices that an evaluation tries: twice the pits of a row. Those beyond the
/// row are never a move, and count nothing.
pub const MOVES: usize = 32;

/// The clock's type, `std::time::Instant`: a moment, of which nothing is known.
#[verifier::external_type_specification]
#[verifier::external_body]
pub struct ExInstant(std::time::Instant);

/// `std::time::Instant::now`: the moment of the call. Nothing is claimed of it.
#[verifier::external_body]
fn clock_now() -> std::time::Instant {
    std::time::Instant::now()
}

/// `std::time::Instant::elapsed`: the time since `start`. Nothing is claimed of it.
#[verifier::external_body]
fn clock_elapsed(start: &std::time::Instant) -> core::time::Duration {
    start.elapsed()
}

/// `core::time::Duration::as_millis`: the whole milliseconds of a duration.
/// Nothing is claimed of the number.
pub assume_specification[ core::time::Duration::as_millis ](d: &core::time::Duration) -> (ms: u128);

/// A number drawn at random from `from..to`, by `rand::Rng::gen_range` on the
/// generator of `rand::thread_rng`. Only the range is claimed: `gen_range`
/// returns a value that is at least `from` and less than `to`, and panics
/// unless `from < to`.
#[verifier::external_body]
pub fn get_random_number(from: usize, to: usize) -> (r: usize)
    requires
        from < to,
    ensures
        from <= r < to,
{
    rand::Rng::gen_range(&mut rand::thread_rng(), from, to)
}

/// Whether the player to move in `b` may sow from `pit`: nobody has won, and the
/// pit is one of the mover's and holds stones.
pub open spec fn may_sow(b: BoardView, pit: int) -> bool {
    &&& b.winner() is None
    &&& 0 <= pit < 16
    &&& b.fields[b.curr_player as int].pits[pit] > 0
}

/// The position that the moves from the pits `moves` lead to from `b`; `None`
/// where one of them may not be sown from or is refused.
pub open spec fn play(b: BoardView, moves: Seq<int>) -> Option<BoardView>
    decreases moves.len(),
{
    if moves.len() == 0 {
        Some(b)
    } else {
        match play(b, moves.drop_last()) {
            Some(mid) => if may_sow(mid, moves.last()) {
                match mid.make_move(moves.last()) {
                    Ok(next) => Some(next),
                    Err(_) => None,
                }
            } else {
                None
            },
            None => None,
        }
    }
}

/// Whether `moves` lead from `b` to a position in which `w` has won.
pub open spec fn won_after(b: BoardView, moves: Seq<int>, w: u8) -> bool {
    play(b, moves) matches Some(end) && end.winner() == Some(w)
}

/// Whether `moves` lead from `b` to a position in which the move from `pit` is
/// refused because it would repeat the mover's row.
pub open spec fn stuck_after(b: BoardView, moves: Seq<int>, pit: int) -> bool {
    play(b, moves) matches Some(mid) && may_sow(mid, pit) && mid.make_move(pit) == Err::<
        BoardView,
        GameError,
    >(GameError::RepeatingPosition)
}

/// The move that a draw picks: the move from the pit that stands at place `draw`
/// among the mover's pits with stones, in the order of the row.
pub open spec fn drawn_move(b: BoardView, draw: int) -> Result<BoardView, GameError> {
    b.make_move(occupied(b.fields[b.curr_player as int].pits)[draw] as int)
}

/// Makes the move that `draw` picks among the pits from which the player to move
/// can sow.
pub fn make_drawn_move(state: &GameState, draw: usize) -> (r: Result<GameState, GameError>)
    requires
        state@.wf(),
        draw < occupied(state@.fields[state.curr_player as int].pits).len(),
    ensures
        match drawn_move(state@, draw as int) {
            Ok(next) => r matches Ok(g) && g@ == next,
            Err(e) => r matches Err(x) && x == e,
        },
        r matches Ok(g) ==> g@.wf(),
        r matches Err(e) ==> e == GameError::RepeatingPosition,
{
    let field_from_which_to_make_next_step = &state.fields_of_players[state.curr_player as usize];
    let non_empty_cell_ids = field_from_which_to_make_next_step.non_empty_cells();
    proof {
        lemma_occupied(state@.fields[state.curr_player as int].pits);
    }
    state.make_move(non_empty_cell_ids[draw])
}

/// Plays a random game from `state`: as long as nobody has won, the player to
/// move sows from a pit drawn at random among the pits of the row that hold
/// stones. Returns the winner. A move that is refused ends the playout with the
/// error of the move, and a playout of `PLAYOUT_MOVE_LIMIT` moves is given up
/// with `NoMoveFound`.
pub fn random_playout(state: GameState) -> (r: Result<u8, GameError>)
    requires
        state@.wf(),
    ensures
        state@.winner() matches Some(w) ==> r == Ok::<u8, GameError>(w),
        match r {
            Ok(w) => w < 2 && exists|moves: Seq<int>|
                moves.len() < PLAYOUT_MOVE_LIMIT && #[trigger] won_after(state@, moves, w),
            Err(GameError::RepeatingPosition) => exists|moves: Seq<int>, pit: int|
                moves.len() < PLAYOUT_MOVE_LIMIT && #[trigger] stuck_after(state@, moves, pit),
            Err(GameError::NoMoveFound) => exists|moves: Seq<int>|
                moves.len() == PLAYOUT_MOVE_LIMIT && (#[trigger] play(state@, moves)) is Some,
            Err(_) => false,
        },
{
    let mut newstate: GameState = state;
    let mut abort_counter: u32 = PLAYOUT_MOVE_LIMIT;
    let ghost mut moves: Seq<int> = Seq::empty();
    while abort_counter > 0
        invariant
            state@.wf(),
            newstate@.wf(),
            abort_counter <= PLAYOUT_MOVE_LIMIT,
            moves.len() == PLAYOUT_MOVE_LIMIT - abort_counter,
            play(state@, moves) == Some(newstate@),
            moves.len() > 0 ==> state@.winner() is None,
        decreases abort_counter,
    {
        abort_counter = abort_counter - 1;
        if let Some(winner) = newstate.winner() {
            assert(winner < 2);
            assert(moves.len() < PLAYOUT_MOVE_LIMIT && won_after(state@, moves, winner));
            assert(exists|line: Seq<int>|
                line.len() < PLAYOUT_MOVE_LIMIT && #[trigger] won_after(state@, line, winner));
            return Ok(winner);
        }
        let ghost mover_pits = newstate@.fields[newstate.curr_player as int].pits;
        let non_empty_cell_ids = newstate.fields_of_players[newstate.curr_player as usize].non_empty_cells();
        proof {
            lemma_total_nonnegative(mover_pits);
            lemma_occupied(mover_pits);
        }
        let random_move_id = if non_empty_cell_ids.len() > 1 {
            get_random_number(0, non_empty_cell_ids.len())
        } else {
            0
        };
        let ghost pit = non_empty_cell_ids@[random_move_id as int] as int;
        let newstate_result = make_drawn_move(&newstate, random_move_id);
        match newstate_result {
            Ok(next) => {
                proof {
                    let longer = moves.push(pit);
                    assert(longer.drop_last() =~= moves);
                    assert(play(state@, longer) == Some(next@));
                    moves = longer;
                }
                newstate = next;
            },
            Err(error) => {
                assert(moves.len() < PLAYOUT_MOVE_LIMIT && stuck_after(state@, moves, pit));
                assert(exists|line: Seq<int>, from: int|
                    line.len() < PLAYOUT_MOVE_LIMIT && #[trigger] stuck_after(state@, line, from));
                return Err(error);
            },
        }
    }
    assert(moves.len() == PLAYOUT_MOVE_LIMIT && play(state@, moves) is Some);
    Err(GameError::NoMoveFound)
}

/// The tally with one more win for `winner`: player 0 counts first, player 1 second.
pub open spec fn with_win(tally: (u32, u32), winner: u8) -> (int, int) {
    if winner == 0 {
        (tally.0 + 1, tally.1 as int)
    } else {
        (tally.0 as int, tally.1 + 1)
    }
}

/// Adds a win for `winner` to a tally of wins of player 0 and of player 1.
pub fn record_win(tally: (u32, u32), winner: u8) -> (r: (u32, u32))
    requires
        with_win(tally, winner).0 <= u32::MAX,
        with_win(tally, winner).1 <= u32::MAX,
    ensures
        (r.0 as int, r.1 as int) == with_win(tally, winner),
{
    if winner == 0 {
        (tally.0 + 1, tally.1)
    } else {
        (tally.0, tally.1 + 1)
    }
}

/// Whether some line of play leads from `b` to a position in which `w` has won.
pub open spec fn can_win(b: BoardView, w: u8) -> bool {
    exists|moves: Seq<int>| #[trigger] won_after(b, moves, w)
}

/// Whether `tally` can be the count for the move from `pit` after `rounds` rounds:
/// a move that is refused counts nothing, a move that wins at once counts every
/// round for its winner, and any other move counts at most one win a round, and
/// wins only for a player who can win after it.
pub open spec fn tally_fits(b: BoardView, pit: int, tally: (u32, u32), rounds: nat) -> bool {
    match b.make_move(pit) {
        Err(_) => tally.0 == 0 && tally.1 == 0,
        Ok(next) => match next.winner() {
            Some(w) => (tally.0 as int, tally.1 as int) == if w == 0 {
                (rounds as int, 0int)
            } else {
                (0int, rounds as int)
            },
            None => {
                &&& tally.0 + tally.1 <= rounds
                &&& tally.0 > 0 ==> can_win(next, 0)
                &&& tally.1 > 0 ==> can_win(next, 1)
            },
        },
    }
}

/// Whether `tallies` can be the counts for the moves from the pit indices below
/// `MOVES` after `rounds` rounds.
pub open spec fn tallied(b: BoardView, tallies: Seq<(u32, u32)>, rounds: nat) -> bool {
    &&& tallies.len() == 32
    &&& forall|pit: int| 0 <= pit < 32 ==> tally_fits(b, pit, #[trigger] tallies[pit], rounds)
}

/// The most rounds an evaluation plays: the number given, else the default where
/// no time is given either, else as many as a counter holds.
pub open spec fn round_limit(num_rounds: Option<u32>, max_time_in_millis: Option<u128>) -> nat {
    match num_rounds {
        Some(n) => n as nat,
        None => if max_time_in_millis is Some {
            u32::MAX as nat
        } else {
            DEFAULT_ROUNDS as nat
        },
    }
}

/// Whether an evaluation may have played `rounds` rounds: never more than the
/// limit; all of them where no time is given; at least one where a time is given
/// and the limit allows one.
pub open spec fn rounds_fit(
    rounds: nat,
    num_rounds: Option<u32>,
    max_time_in_millis: Option<u128>,
) -> bool {
    let limit = round_limit(num_rounds, max_time_in_millis);
    &&& rounds <= limit
    &&& max_time_in_millis is None ==> rounds == limit
    &&& limit > 0 ==> rounds > 0
}

/// Plays one round: for every pit index the move from it, if there is one, is made
/// and, unless it wins at once, played out at random; each win is added to the
/// tally of the index.
fn play_round(state: &GameState, wins_losses: [(u32, u32); 32], Ghost(rounds): Ghost<nat>) -> (r: [(
    u32,
    u32,
); 32])
    requires
        state@.wf(),
        tallied(state@, wins_losses@, rounds),
        rounds < u32::MAX,
    ensures
        tallied(state@, r@, rounds + 1),
{
    let mut wins_losses = wins_losses;
    let mut pos_on_board: usize = 0;
    while pos_on_board < MOVES
        invariant
            state@.wf(),
            pos_on_board <= 32,
            rounds < u32::MAX,
            wins_losses@.len() == 32,
            forall|pit: int|
                0 <= pit < pos_on_board ==> tally_fits(
                    state@,
                    pit,
                    #[trigger] wins_losses@[pit],
                    rounds + 1,
                ),
            forall|pit: int|
                pos_on_board <= pit < 32 ==> tally_fits(
                    state@,
                    pit,
                    #[trigger] wins_losses@[pit],
                    rounds,
                ),
        decreases 32 - pos_on_board,
    {
        let ghost before = wins_losses@;
        assert(tally_fits(state@, pos_on_board as int, before[pos_on_board as int], rounds));
        if let Ok(newstate) = state.make_move(pos_on_board) {
            if let Some(winnerid) = newstate.winner() {
                wins_losses[pos_on_board] = record_win(wins_losses[pos_on_board], winnerid);
            } else {
                let winner = random_playout(newstate);
                if let Ok(winnerid) = winner {
                    wins_losses[pos_on_board] = record_win(wins_losses[pos_on_board], winnerid);
                }
            }
        }
        assert(tally_fits(state@, pos_on_board as int, wins_losses@[pos_on_board as int], rounds + 1));
        assert forall|pit: int| 0 <= pit < pos_on_board implies tally_fits(
            state@,
            pit,
            #[trigger] wins_losses@[pit],
            rounds + 1,
        ) by {
            assert(wins_losses@[pit] == before[pit]);
        }
        assert forall|pit: int| pos_on_board < pit < 32 implies tally_fits(
            state@,
            pit,
            #[trigger] wins_losses@[pit],
            rounds,
        ) by {
            assert(wins_losses@[pit] == before[pit]);
        }
        pos_on_board = pos_on_board + 1;
    }
    wins_losses
}

/// Evaluates the moves of the player to move by playing them out: a round makes
/// the move from each pit index below `MOVES` once, where there is such a move,
/// and plays the game on at random to its end. For each index the wins of player 0
/// and of player 1 are counted over the rounds. With `num_rounds` that many rounds
/// are played, and without it `DEFAULT_ROUNDS`; with `max_time_in_millis` the clock
/// is read after every round, and the rounds end once more than that time has gone
/// by.
pub fn game_playout(
    state: GameState,
    num_rounds: Option<u32>,
    max_time_in_millis: Option<u128>,
) -> (r: Result<[(u32, u32); 32], GameError>)
    requires
        state@.wf(),
    ensures
        r matches Ok(wins_losses) && exists|rounds: nat| #[trigger]
            tallied(state@, wins_losses@, rounds) && rounds_fit(
                rounds,
                num_rounds,
                max_time_in_millis,
            ),
{
    let limit: u32 = match num_rounds {
        Some(n) => n,
        None => if max_time_in_millis.is_some() {
            u32::MAX
        } else {
            DEFAULT_ROUNDS
        },
    };
    let starttime: Option<std::time::Instant> = if max_time_in_millis.is_some() {
        Some(clock_now())
    } else {
        None
    };
    let mut wins_losses: [(u32, u32); 32] = [(0, 0);32];
    let mut rounds_counter: u32 = 0;
    assert(tallied(state@, wins_losses@, 0));
    while rounds_counter < limit
        invariant
            state@.wf(),
            limit == round_limit(num_rounds, max_time_in_millis),
            rounds_counter <= limit,
            tallied(state@, wins_losses@, rounds_counter as nat),
        ensures
            tallied(state@, wins_losses@, rounds_counter as nat),
            rounds_fit(rounds_counter as nat, num_rounds, max_time_in_millis),
        decreases limit - rounds_counter,
    {
        wins_losses = play_round(&state, wins_losses, Ghost(rounds_counter as nat));
        rounds_counter = rounds_counter + 1;
        if deadline_passed(&starttime, max_time_in_millis) {
            break ;
        }
    }
    let r: Result<[(u32, u32); 32], GameError> = Ok(wins_losses);
    assert(r matches Ok(t) && tallied(state@, t@, rounds_counter as nat) && rounds_fit(
        rounds_counter as nat,
        num_rounds,
        max_time_in_millis,
    ));
    r
}

/// Whether the time for thinking is over once `elapsed_millis` have gone by: it is
/// where more than `max_time_in_millis` have.
pub fn time_is_up(elapsed_millis: u128, max_time_in_millis: u128) -> (r: bool)
    ensures
        r == (elapsed_millis > max_time_in_millis),
{
    elapsed_millis > max_time_in_millis
}

/// Reads the clock and tells whether more than `max_time_in_millis` has gone by
/// since `starttime`. Without a time to keep, or a start to measure from, no
/// deadline passes.
fn deadline_passed(starttime: &Option<std::time::Instant>, max_time_in_millis: Option<u128>) -> (r:
    bool)
    ensures
        r ==> starttime is Some && max_time_in_millis is Some,
{
    match (starttime, max_time_in_millis) {
        (Some(start), Some(max_time)) => {
            let elapsed = clock_elapsed(start);
            time_is_up(elapsed.as_millis(), max_time)
        },
        _ => false,
    }
}

/// The score of a move for `curr_player`: the player's wins less the opponent's.
pub open spec fn score_of(curr_player: u8, tally: (u32, u32)) -> int {
    if curr_player == 0 {
        tally.0 - tally.1
    } else {
        tally.1 - tally.0
    }
}

/// The scores of the moves for `curr_player`, one for each pit index below `MOVES`.
pub open spec fn scores_of(curr_player: u8, tallies: Seq<(u32, u32)>) -> Seq<int> {
    Seq::new(32, |pit: int| score_of(curr_player, tallies[pit]))
}

/// Whether every count of `tallies` fits a score.
pub open spec fn countable(tallies: Seq<(u32, u32)>) -> bool {
    forall|pit: int|
        0 <= pit < tallies.len() ==> (#[trigger] tallies[pit]).0 <= MAX_ROUNDS && tallies[pit].1
            <= MAX_ROUNDS
}

/// Turns the tallies of wins into scores for `curr_player`: for each move the
/// player's wins less the opponent's. The higher, the better the move.
pub fn scores(curr_player: u8, wins_losses: &[(u32, u32); 32]) -> (r: Vec<i32>)
    requires
        countable(wins_losses@),
    ensures
        r@.map_values(|s: i32| s as int) == scores_of(curr_player, wins_losses@),
{
    let mut wins_of_curr_player: Vec<i32> = Vec::new();
    let mut pit: usize = 0;
    while pit < MOVES
        invariant
            pit <= 32,
            countable(wins_losses@),
            wins_of_curr_player@.len() == pit,
            forall|k: int|
                0 <= k < pit ==> (#[trigger] wins_of_curr_player@[k]) as int == score_of(
                    curr_player,
                    wins_losses@[k],
                ),
        decreases 32 - pit,
    {
        let v = wins_losses[pit];
        assert(v == wins_losses@[pit as int]);
        let score = if curr_player == 0 {
            v.0 as i32 - v.1 as i32
        } else {
            v.1 as i32 - v.0 as i32
        };
        wins_of_curr_player.push(score);
        pit = pit + 1;
    }
    assert(wins_of_curr_player@.map_values(|s: i32| s as int) =~= scores_of(
        curr_player,
        wins_losses@,
    ));
    wins_of_curr_player
}

/// The budget of an evaluation: a number of rounds where one is given; else a time
/// where one is given, with the rounds bounded so that every score fits; else the
/// default number of rounds.
pub open spec fn budget_of(num_rounds: i32, max_time_to_think_in_millis: u32) -> (
    Option<u32>,
    Option<u128>,
) {
    if num_rounds > 0 {
        (Some(num_rounds as u32), None)
    } else if max_time_to_think_in_millis > 0 {
        (Some(MAX_ROUNDS), Some(max_time_to_think_in_millis as u128))
    } else {
        (Some(DEFAULT_ROUNDS), None)
    }
}

/// Chooses the budget of an evaluation from what the caller gave.
pub fn budget(num_rounds: i32, max_time_to_think_in_millis: u32) -> (r: (Option<u32>, Option<u128>))
    ensures
        r == budget_of(num_rounds, max_time_to_think_in_millis),
{
    if num_rounds > 0 {
        (Some(num_rounds as u32), None)
    } else if max_time_to_think_in_millis > 0 {
        (Some(MAX_ROUNDS), Some(max_time_to_think_in_millis as u128))
    } else {
        (Some(DEFAULT_ROUNDS), None)
    }
}

/// The move evaluator.
pub struct AI {}

impl AI {
    /// An evaluator. It keeps nothing between evaluations.
    pub fn new() -> AI {
        AI {  }
    }

    /// Check for best move: scores the move from each pit index below `MOVES` by the
    /// wins of the player to move less the opponent's over rounds of random playouts.
    /// `num_rounds`, if above 0, is the number of rounds. Else
    /// `max_time_to_think_in_millis`, if above 0, is the time after which no new
    /// round is begun. If neither is given, `DEFAULT_ROUNDS` rounds are played.
    pub fn evaluate_state_for_next_move(
        &self,
        state: &GameState,
        num_rounds: i32,
        max_time_to_think_in_millis: u32,
    ) -> (r: Result<Vec<i32>, GameError>)
        requires
            state@.wf(),
        ensures
            r matches Ok(v) && exists|tallies: Seq<(u32, u32)>, rounds: nat| #[trigger]
                tallied(state@, tallies, rounds) && rounds_fit(
                    rounds,
                    budget_of(num_rounds, max_time_to_think_in_millis).0,
                    budget_of(num_rounds, max_time_to_think_in_millis).1,
                ) && v@.map_values(|s: i32| s as int) == scores_of(state.curr_player, tallies),
    {
        let curr_player = state.curr_player;
        let (rounds, time) = budget(num_rounds, max_time_to_think_in_millis);
        let result = game_playout(*state, rounds, time);
        match result {
            Ok(wins_losses) => {
                proof {
                    let n = choose|n: nat| #[trigger]
                        tallied(state@, wins_losses@, n) && rounds_fit(n, rounds, time);
                    assert forall|pit: int| 0 <= pit < 32 implies (#[trigger] wins_losses@[pit]).0
                        <= MAX_ROUNDS && wins_losses@[pit].1 <= MAX_ROUNDS by {
                        assert(tally_fits(state@, pit, wins_losses@[pit], n));
                    }
                }
                Ok(scores(curr_player, &wins_losses))
            },
            Err(e) => Err(e),
        }
    }
}

} // verus!
