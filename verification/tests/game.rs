use boa::{game_playout, Direction, GameState, MoveStatistic, OnePlayersField};

#[test]
fn it_works() {
    assert_eq!(2 + 2, 4);
}

#[test]
fn move_statistic_is_correct() {
    let gamestate1 = GameState {
        game_over: false,
        move_statistic: MoveStatistic::default(),
        curr_player: 0,
        fields_of_players: [
            OnePlayersField {
                // Player 1, moves to the right
                direction: Direction::Right,
                cells: [
                    0, 0, 0, 1, 0, 0, 0, 0, // 0   1  2  3  4  5 6 7
                    0, 0, 0, 0, 0, 0, 0,
                    0, // 15 14 13 12 11 10 9 8 // corresponds to "0,0,0,0,1,0,0,0" when reversed
                ],
            },
            OnePlayersField {
                // Player 2, moves to the left
                direction: Direction::Left,
                cells: [
                    1, 0, 0, 0, 1, 0, 0, 0, // 15 14 13 12 11 10 9 8
                    0, 0, 0, 0, 0, 0, 0,
                    0, // 0   1  2  3  4  5 6 7   // corresponds to "0,0,0,1,0,0,0,0" when reversed
                ],
            },
        ],
    };

    let new_state = gamestate1.make_move(3);

    assert!(new_state.is_ok(), "Could not make a move :(");
    let new_state = new_state.ok().unwrap();
    assert_eq!(new_state.move_statistic.last_move_position, 4);
    assert_eq!(new_state.move_statistic.stones_of_opponent_removed, 1);

    let state_after_second_move = new_state.make_move(0);
    assert!(state_after_second_move.is_ok(), "Could not make a move :(");
    let state_after_second_move = state_after_second_move.ok().unwrap();
    assert_eq!(
        state_after_second_move.move_statistic.last_move_position,
        15
    );
    assert_eq!(
        state_after_second_move
            .move_statistic
            .stones_of_opponent_removed,
        0
    );
}

#[test]
fn game_over_works() {
    let gamestate1 = GameState {
        game_over: false,
        move_statistic: MoveStatistic::default(),
        curr_player: 0,
        fields_of_players: [
            OnePlayersField {
                // Player 1, moves to the right
                direction: Direction::Right,
                cells: [
                    0, 0, 0, 1, 0, 0, 0, 0, // 0   1  2  3  4  5 6 7
                    0, 0, 0, 1, 0, 0, 0, 0,
                ], // 15 14 13 12 11 10 9 8 // corresponds to "0,0,0,0,1,0,0,0" when reversed
            },
            OnePlayersField {
                // Player 2, moves to the left
                direction: Direction::Left,
                cells: [
                    0, 0, 0, 0, 0, 0, 0, 0, // 15 14 13 12 11 10 9 8
                    0, 0, 0, 0, 0, 0, 0, 0,
                ], // 0   1  2  3  4  5 6 7   // corresponds to "0,0,0,1,0,0,0,0" when reversed
            },
        ],
    };

    let gamestate2 = GameState {
        game_over: false,
        move_statistic: MoveStatistic::default(),
        curr_player: 0,
        fields_of_players: [
            OnePlayersField {
                // Player 1, moves to the right
                direction: Direction::Right,
                cells: [
                    0, 0, 0, 0, 0, 0, 0, 0, // 0   1  2  3  4  5 6 7
                    0, 0, 0, 0, 0, 0, 0, 0,
                ], // 15 14 13 12 11 10 9 8
            },
            OnePlayersField {
                // Player 2, moves to the left
                direction: Direction::Left,
                cells: [
                    0, 0, 0, 1, 0, 0, 0, 0, // 15 14 13 12 11 10 9 8
                    0, 0, 0, 0, 0, 0, 0, 0,
                ], // 0   1  2  3  4  5 6 7
            },
        ],
    };

    let gamestate3 = GameState {
        game_over: false,
        move_statistic: MoveStatistic::default(),
        curr_player: 0,
        fields_of_players: [
            OnePlayersField {
                // Player 1, moves to the right
                direction: Direction::Right,
                cells: [
                    0, 1, 0, 0, 0, 0, 0, 0, // 0   1  2  3  4  5 6 7
                    0, 0, 0, 0, 0, 0, 0, 0,
                ], // 15 14 13 12 11 10 9 8
            },
            OnePlayersField {
                // Player 2, moves to the left
                direction: Direction::Left,
                cells: [
                    0, 0, 0, 1, 0, 0, 0, 0, // 15 14 13 12 11 10 9 8
                    0, 0, 0, 0, 0, 0, 0, 0,
                ], // 0   1  2  3  4  5 6 7
            },
        ],
    };

    assert_eq!(gamestate1.game_over(), true);
    assert_eq!(gamestate2.game_over(), true);
    assert_eq!(gamestate3.game_over(), false);
}

#[test]
fn test_move_deletes_stone_of_opposite() {
    let gamestate = GameState {
        game_over: false,
        move_statistic: MoveStatistic::default(),
        curr_player: 0,
        fields_of_players: [
            OnePlayersField {
                // Player 1, moves to the right
                direction: Direction::Right,
                cells: [
                    0, 0, 0, 1, 0, 0, 0, 0, // 0   1  2  3  4  5 6 7
                    0, 0, 0, 1, 0, 0, 0, 0,
                ], // 15 14 13 12 11 10 9 8 // corresponds to "0,0,0,0,1,0,0,0" when reversed
            },
            OnePlayersField {
                // Player 2, moves to the left
                direction: Direction::Left,
                cells: [
                    0, 0, 0, 0, 1, 0, 0, 0, // 15 14 13 12 11 10 9 8
                    0, 0, 0, 0, 1, 0, 0, 0,
                ], // 0   1  2  3  4  5 6 7   // corresponds to "0,0,0,1,0,0,0,0" when reversed
            },
        ],
    };
    let new_state = gamestate.make_move(3);
    assert_eq!(
        new_state.is_ok(),
        true,
        "{}",
        format!("{:?}", new_state.err().unwrap()).as_str()
    );
    let new_state = new_state.ok().unwrap();
    assert_eq!(new_state.fields_of_players[0].cells[4], 1);
    assert_eq!(
        new_state.fields_of_players[1].cells.iter().sum::<u8>(),
        1,
        "{}",
        format!(
            "Old state: {}\n New state: {}",
            gamestate.render(),
            new_state.render()
        )
        .as_str()
    );
}

#[test]
fn test_game_stops_when_game_over() {
    let mut game = GameState::default(); // beginning of the game
    let mut counter: usize = 0;
    let mut abort_counter = 1000;
    for _ in 0..1000 {
        loop {
            while game.make_move(counter).is_err() && !game.game_over() && abort_counter > 0 {
                counter = game.fields_of_players[game.curr_player as usize]
                    .cells
                    .iter()
                    .enumerate()
                    .filter(|v| *v.1 > 0u8)
                    .map(|v| v.0)
                    .collect::<Vec<usize>>()[0];
                abort_counter -= 1;
            }
            if game.game_over || abort_counter == 0 {
                break;
            }

            game = game.make_move(counter).ok().unwrap();

            abort_counter -= 1;
        }
        assert!(abort_counter > 0);
        assert!(game.game_over(), "Game should be over.");
    }
}

#[test]
fn test_game_playout_distribution() {
    let gamestate = GameState {
        game_over: false,
        move_statistic: MoveStatistic::default(),
        curr_player: 0,
        fields_of_players: [
            OnePlayersField {
                // Player 1, moves to the right
                direction: Direction::Right,
                cells: [
                    0, 0, 0, 1, 0, 0, 0, 0, // 0   1  2  3  4  5 6 7
                    0, 0, 0, 0, 0, 0, 0, 0, // 15 14 13 12 11 10 9 8
                ],
            },
            OnePlayersField {
                // Player 2, moves to the left
                direction: Direction::Left,
                cells: [
                    0, 0, 0, 0, 1, 0, 0, 0, // 15 14 13 12 11 10 9 8
                    0, 0, 0, 0, 0, 0, 0, 0, // 0   1  2  3  4  5 6 7
                ],
            },
        ],
    };

    let res = game_playout(gamestate, Some(1), None);
    assert!(res.is_ok());
    let distr = res.unwrap();
    assert!(distr[3].0 > 0, "{:?}", distr);
}

#[test]
fn test_full_playout() {
    let game = GameState::default(); // beginning of the game
    let winner = game_playout(game, Some(1), None);
    assert!(winner.is_ok());
}

#[test]
fn test_full_playout_100_times() {
    for _ in 0..100 {
        let game = GameState::default(); // beginning of the game
        let winner = game_playout(game, Some(1), None);
        assert!(winner.is_ok());
    }
}
