use boa::ai::{budget, make_drawn_move, record_win, scores, time_is_up};
use boa::{
    game_playout, get_random_number, random_playout, Direction, GameError, GameState,
    MoveStatistic, OnePlayersField, AI,
};

fn board(curr_player: u8, first: [u8; 16], second: [u8; 16]) -> GameState {
    GameState {
        game_over: false,
        move_statistic: MoveStatistic::default(),
        curr_player,
        fields_of_players: [
            OnePlayersField {
                direction: Direction::Right,
                cells: first,
            },
            OnePlayersField {
                direction: Direction::Left,
                cells: second,
            },
        ],
    }
}

fn one_stone_at(pit: usize) -> [u8; 16] {
    let mut cells = [0u8; 16];
    cells[pit] = 1;
    cells
}

/// Player 0 can move from pit 3 only, and wins with that move.
fn won_in_one() -> GameState {
    board(0, one_stone_at(3), one_stone_at(4))
}

fn exchanged(g: &GameState) -> GameState {
    GameState {
        fields_of_players: [g.fields_of_players[1], g.fields_of_players[0]],
        curr_player: 1 - g.curr_player,
        game_over: g.game_over,
        move_statistic: g.move_statistic,
    }
}

#[test]
fn random_numbers_stay_in_their_range() {
    for _ in 0..1000 {
        let n = get_random_number(3, 7);
        assert!(3 <= n && n < 7);
    }
    for _ in 0..100 {
        assert_eq!(get_random_number(5, 6), 5);
    }
}

#[test]
fn random_numbers_differ() {
    let first = get_random_number(0, 1000);
    let mut other = false;
    for _ in 0..200 {
        if get_random_number(0, 1000) != first {
            other = true;
        }
    }
    assert!(other);
}

#[test]
fn playout_of_a_finished_game_names_its_winner() {
    assert_eq!(random_playout(board(0, one_stone_at(3), [0; 16])), Ok(0));
    assert_eq!(random_playout(board(1, one_stone_at(3), [0; 16])), Ok(0));
    assert_eq!(random_playout(board(0, [0; 16], one_stone_at(3))), Ok(1));
}

#[test]
fn playout_with_one_line_of_play_follows_it() {
    // the only move of player 0 takes the only stone of player 1
    assert_eq!(random_playout(won_in_one()), Ok(0));
    // the only move of player 1 takes the only stone of player 0
    assert_eq!(
        random_playout(board(1, one_stone_at(3), one_stone_at(4))),
        Ok(1)
    );
}

#[test]
fn playout_stops_at_a_move_that_repeats_the_row() {
    let mut cycling = [0u8; 16];
    cycling[0] = 2;
    cycling[8] = 2;
    for pit in [1, 3, 5, 7, 10, 12, 14].iter() {
        cycling[*pit] = 1;
    }
    // every draw of player 0 among its pits is tried until one is refused or the game ends
    let g = board(0, cycling, [2; 16]);
    for _ in 0..20 {
        match random_playout(g) {
            Ok(w) => assert!(w < 2),
            Err(e) => assert!(
                e == GameError::RepeatingPosition || e == GameError::NoMoveFound
            ),
        }
    }
}

#[test]
fn playout_from_the_start_ends() {
    for _ in 0..20 {
        match random_playout(GameState::default()) {
            Ok(w) => assert!(w < 2),
            Err(e) => assert!(
                e == GameError::RepeatingPosition || e == GameError::NoMoveFound
            ),
        }
    }
}

#[test]
fn drawn_move_is_the_move_from_the_drawn_pit() {
    let first = [0, 2, 0, 1, 0, 0, 5, 0, 0, 0, 1, 0, 0, 0, 0, 0];
    let g = board(0, first, [2; 16]);
    let pits = [1usize, 3, 6, 10];
    for (draw, pit) in pits.iter().enumerate() {
        match (make_drawn_move(&g, draw), g.make_move(*pit)) {
            (Ok(a), Ok(b)) => {
                assert_eq!(a.fields_of_players[0].cells, b.fields_of_players[0].cells);
                assert_eq!(a.fields_of_players[1].cells, b.fields_of_players[1].cells);
                assert_eq!(
                    a.move_statistic.last_move_position,
                    b.move_statistic.last_move_position
                );
            }
            (Err(a), Err(b)) => assert_eq!(a, b),
            (a, b) => panic!("{:?} and {:?}", a, b),
        }
    }
}

#[test]
fn wins_are_added_to_the_winner() {
    assert_eq!(record_win((0, 0), 0), (1, 0));
    assert_eq!(record_win((0, 0), 1), (0, 1));
    assert_eq!(record_win((3, 4), 0), (4, 4));
    assert_eq!(record_win((3, 4), 1), (3, 5));
    assert_eq!(record_win((u32::MAX - 1, 0), 0), (u32::MAX, 0));
}

#[test]
fn time_is_up_after_the_time_only() {
    assert!(!time_is_up(0, 0));
    assert!(time_is_up(1, 0));
    assert!(!time_is_up(999, 1000));
    assert!(!time_is_up(1000, 1000));
    assert!(time_is_up(1001, 1000));
}

#[test]
fn budget_is_rounds_then_time_then_default() {
    assert_eq!(budget(5, 0), (Some(5), None));
    assert_eq!(budget(5, 100), (Some(5), None));
    assert_eq!(budget(i32::MAX, 1), (Some(i32::MAX as u32), None));
    assert_eq!(budget(0, 100), (Some(i32::MAX as u32), Some(100)));
    assert_eq!(budget(-1, 100), (Some(i32::MAX as u32), Some(100)));
    assert_eq!(budget(0, 0), (Some(100), None));
    assert_eq!(budget(-7, 0), (Some(100), None));
}

#[test]
fn scores_are_wins_less_losses_of_the_player() {
    let mut tallies = [(0u32, 0u32); 32];
    tallies[0] = (3, 1);
    tallies[1] = (1, 3);
    tallies[2] = (7, 7);
    tallies[15] = (i32::MAX as u32, 0);
    tallies[14] = (0, i32::MAX as u32);
    tallies[31] = (5, 9);
    let mut want = vec![0i32; 32];
    want[0] = 2;
    want[1] = -2;
    want[14] = -i32::MAX;
    want[15] = i32::MAX;
    want[31] = -4;
    assert_eq!(scores(0, &tallies), want);
    let opposite: Vec<i32> = want.iter().map(|score| -score).collect();
    assert_eq!(scores(1, &tallies), opposite);
}

#[test]
fn every_round_counts_a_move_that_wins_at_once() {
    let distr = game_playout(won_in_one(), Some(3), None).unwrap();
    let mut want = [(0u32, 0u32); 32];
    want[3] = (3, 0);
    assert_eq!(distr, want);

    let distr = game_playout(board(1, one_stone_at(3), one_stone_at(4)), Some(5), None).unwrap();
    let mut want = [(0u32, 0u32); 32];
    want[4] = (0, 5);
    assert_eq!(distr, want);
}

#[test]
fn no_round_counts_nothing() {
    let distr = game_playout(won_in_one(), Some(0), None).unwrap();
    assert_eq!(distr, [(0u32, 0u32); 32]);
    let distr = game_playout(GameState::default(), Some(0), None).unwrap();
    assert_eq!(distr, [(0u32, 0u32); 32]);
}

#[test]
fn a_hundred_rounds_are_played_without_a_budget() {
    let distr = game_playout(won_in_one(), None, None).unwrap();
    let mut want = [(0u32, 0u32); 32];
    want[3] = (100, 0);
    assert_eq!(distr, want);
}

#[test]
fn rounds_end_when_the_time_is_over() {
    let distr = game_playout(won_in_one(), None, Some(5)).unwrap();
    assert!(distr[3].0 >= 1);
    assert_eq!(distr[3].1, 0);
    for pit in 0..32 {
        if pit != 3 {
            assert_eq!(distr[pit], (0, 0));
        }
    }
}

#[test]
fn rounds_end_with_the_rounds_before_the_time() {
    let distr = game_playout(won_in_one(), Some(2), Some(3_600_000)).unwrap();
    let mut want = [(0u32, 0u32); 32];
    want[3] = (2, 0);
    assert_eq!(distr, want);
}

#[test]
fn every_playout_of_a_round_counts_at_most_once() {
    let rounds = 7;
    let distr = game_playout(GameState::default(), Some(rounds), None).unwrap();
    for pit in 0..16 {
        assert!(distr[pit].0 + distr[pit].1 <= rounds);
    }
    // an index beyond the row is no move
    for pit in 16..32 {
        assert_eq!(distr[pit], (0, 0));
    }
}

#[test]
fn moves_that_cannot_be_made_score_nothing() {
    let first = [0, 2, 0, 1, 0, 0, 5, 0, 0, 0, 1, 0, 0, 0, 0, 0];
    let g = board(0, first, [2; 16]);
    let distr = game_playout(g, Some(4), None).unwrap();
    for pit in 0..32 {
        if pit >= 16 || first[pit] == 0 {
            assert_eq!(distr[pit], (0, 0));
        } else {
            assert!(distr[pit].0 + distr[pit].1 <= 4);
        }
    }
}

#[test]
fn evaluation_scores_for_the_player_to_move() {
    let ai = AI::new();
    let v = ai
        .evaluate_state_for_next_move(&won_in_one(), 4, 0)
        .unwrap();
    let mut want = vec![0i32; 32];
    want[3] = 4;
    assert_eq!(v, want);

    // player 1 wins with the move from pit 4: a win of player 1 counts for player 1
    let g = board(1, one_stone_at(3), one_stone_at(4));
    let v = ai.evaluate_state_for_next_move(&g, 6, 1000).unwrap();
    let mut want = vec![0i32; 32];
    want[4] = 6;
    assert_eq!(v, want);
}

#[test]
fn evaluation_plays_a_hundred_rounds_by_default() {
    let ai = AI::new();
    let mut want = vec![0i32; 32];
    want[3] = 100;
    assert_eq!(
        ai.evaluate_state_for_next_move(&won_in_one(), -1, 0).unwrap(),
        want
    );
    assert_eq!(
        ai.evaluate_state_for_next_move(&won_in_one(), 0, 0).unwrap(),
        want
    );
}

#[test]
fn evaluation_keeps_to_the_time() {
    let ai = AI::new();
    let v = ai
        .evaluate_state_for_next_move(&won_in_one(), -1, 3)
        .unwrap();
    assert_eq!(v.len(), 32);
    assert!(v[3] >= 1);
    for pit in 0..32 {
        if pit != 3 {
            assert_eq!(v[pit], 0);
        }
    }
}

#[test]
fn evaluation_of_the_start_scores_every_index() {
    let ai = AI::new();
    let v = ai
        .evaluate_state_for_next_move(&GameState::default(), 1, 0)
        .unwrap();
    assert_eq!(v.len(), 32);
    for score in v.iter() {
        assert!(-1 <= *score && *score <= 1);
    }
}

#[test]
fn exchanged_players_exchange_the_tallies_of_sure_moves() {
    let g = won_in_one();
    let a = game_playout(g, Some(9), None).unwrap();
    let b = game_playout(exchanged(&g), Some(9), None).unwrap();
    for pit in 0..32 {
        assert_eq!(a[pit].0, b[pit].1);
        assert_eq!(a[pit].1, b[pit].0);
        let margin_a = a[pit].0 as i64 - a[pit].1 as i64;
        let margin_b = b[pit].0 as i64 - b[pit].1 as i64;
        assert_eq!(margin_a, -margin_b);
    }
}

#[test]
fn exchanged_players_give_opposite_margins() {
    // player 1 is far ahead: whatever player 0 moves, player 1 mostly wins
    let mut first = [0u8; 16];
    first[2] = 1;
    first[5] = 2;
    let g = GameState {
        game_over: false,
        move_statistic: MoveStatistic::default(),
        curr_player: 0,
        fields_of_players: [
            OnePlayersField {
                direction: Direction::Left,
                cells: first,
            },
            OnePlayersField {
                direction: Direction::Right,
                cells: [3; 16],
            },
        ],
    };
    let rounds = 200;
    let a = game_playout(g, Some(rounds), None).unwrap();
    let b = game_playout(exchanged(&g), Some(rounds), None).unwrap();
    for pit in 0..32 {
        let margin_a = a[pit].0 as i64 - a[pit].1 as i64;
        let margin_b = b[pit].0 as i64 - b[pit].1 as i64;
        assert!((margin_a + margin_b).abs() <= 120, "{:?} {:?}", a, b);
    }
    // the margins are far from zero, so that they are opposite says something
    assert!(a[2].0 as i64 - (a[2].1 as i64) < -60, "{:?}", a);
    assert!(b[2].0 as i64 - b[2].1 as i64 > 60, "{:?}", b);
}
