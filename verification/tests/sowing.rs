use boa::{Direction, GameError, OnePlayersField};

fn row(direction: Direction, cells: [u8; 16]) -> OnePlayersField {
    OnePlayersField { direction, cells }
}

fn sum(cells: &[u8; 16]) -> u32 {
    cells.iter().map(|v| *v as u32).sum()
}

#[test]
fn new_row_has_two_stones_in_every_pit() {
    let f = OnePlayersField::new(Direction::Left);
    assert_eq!(f.direction, Direction::Left);
    assert_eq!(f.cells, [2u8; 16]);
    assert_eq!(f.stones(), 32);
    assert!(f.well_formed());
}

#[test]
fn single_stone_sown_right_lands_in_next_pit() {
    let f = row(
        Direction::Right,
        [0, 0, 0, 1, 0, 0, 0, 0, 0, 0, 0, 0, 0, 0, 0, 0],
    );
    let (g, last) = f.make_move_from(3).unwrap();
    assert_eq!(last, 4);
    assert_eq!(g.cells, [0, 0, 0, 0, 1, 0, 0, 0, 0, 0, 0, 0, 0, 0, 0, 0]);
    assert_eq!(g.direction, Direction::Right);
}

#[test]
fn single_stone_sown_left_lands_in_previous_pit() {
    let f = row(
        Direction::Left,
        [0, 0, 0, 1, 0, 0, 0, 0, 0, 0, 0, 0, 0, 0, 0, 0],
    );
    let (g, last) = f.make_move_from(3).unwrap();
    assert_eq!(last, 2);
    assert_eq!(g.cells, [0, 0, 1, 0, 0, 0, 0, 0, 0, 0, 0, 0, 0, 0, 0, 0]);
    assert_eq!(g.direction, Direction::Left);
}

#[test]
fn sowing_goes_round_the_end_of_the_row() {
    let mut cells = [0u8; 16];
    cells[15] = 1;
    let (g, last) = row(Direction::Right, cells).make_move_from(15).unwrap();
    assert_eq!(last, 0);
    assert_eq!(g.cells[0], 1);
    assert_eq!(g.cells[15], 0);

    let mut cells = [0u8; 16];
    cells[0] = 1;
    let (g, last) = row(Direction::Left, cells).make_move_from(0).unwrap();
    assert_eq!(last, 15);
    assert_eq!(g.cells[15], 1);
    assert_eq!(g.cells[0], 0);
}

#[test]
fn three_stones_fall_into_three_pits() {
    let mut cells = [0u8; 16];
    cells[0] = 3;
    let (g, last) = row(Direction::Right, cells).make_move_from(0).unwrap();
    assert_eq!(last, 3);
    assert_eq!(g.cells, [0, 1, 1, 1, 0, 0, 0, 0, 0, 0, 0, 0, 0, 0, 0, 0]);
}

#[test]
fn last_stone_among_others_is_sown_on() {
    let (g, last) = row(Direction::Right, [2; 16]).make_move_from(0).unwrap();
    assert_eq!(last, 5);
    assert_eq!(g.cells, [1, 0, 1, 4, 4, 1, 3, 3, 0, 3, 3, 0, 3, 3, 0, 3]);

    let (g, last) = row(Direction::Left, [2; 16]).make_move_from(0).unwrap();
    assert_eq!(last, 11);
    assert_eq!(g.cells, [1, 3, 0, 3, 3, 0, 3, 3, 0, 3, 3, 1, 4, 4, 1, 0]);

    let (g, last) = row(Direction::Right, [2; 16]).make_move_from(5).unwrap();
    assert_eq!(last, 10);
    assert_eq!(g.cells, [0, 3, 3, 0, 3, 1, 0, 1, 4, 4, 1, 3, 3, 0, 3, 3]);
}

#[test]
fn a_hand_of_more_stones_than_pits_passes_its_own_pit() {
    let mut cells = [0u8; 16];
    cells[2] = 20;
    let (g, last) = row(Direction::Right, cells).make_move_from(2).unwrap();
    assert_eq!(last, 10);
    assert_eq!(g.cells, [0, 2, 0, 3, 0, 3, 1, 0, 1, 3, 1, 2, 0, 2, 0, 2]);
}

#[test]
fn sowing_keeps_the_stones_of_the_row() {
    let rows: [[u8; 16]; 4] = [
        [2; 16],
        [0, 0, 20, 0, 0, 0, 0, 0, 0, 0, 0, 0, 0, 0, 0, 0],
        [1, 0, 2, 1, 0, 1, 0, 3, 2, 0, 1, 0, 1, 0, 1, 3],
        [15, 0, 0, 0, 9, 0, 0, 1, 0, 0, 7, 0, 0, 0, 0, 1],
    ];
    for cells in rows.iter() {
        for direction in [Direction::Left, Direction::Right].iter() {
            for position in 0..16 {
                let f = row(*direction, *cells);
                if let Ok((g, last)) = f.make_move_from(position) {
                    assert_eq!(sum(&g.cells), sum(cells));
                    assert_eq!(g.stones(), f.stones());
                    assert!(last < 16);
                    assert_eq!(g.cells[last], 1);
                    assert_eq!(g.direction, *direction);
                }
            }
        }
    }
}

#[test]
fn position_beyond_the_row_is_refused() {
    let f = row(Direction::Right, [2; 16]);
    assert!(matches!(
        f.make_move_from(16),
        Err(GameError::PositionOutsideField)
    ));
    assert!(matches!(
        f.make_move_from(17),
        Err(GameError::PositionOutsideField)
    ));
    assert!(matches!(
        f.make_move_from(usize::MAX),
        Err(GameError::PositionOutsideField)
    ));
    assert!(f.make_move_from(15).is_ok());
}

#[test]
fn empty_pit_is_refused() {
    let f = row(
        Direction::Right,
        [0, 0, 0, 1, 0, 0, 0, 0, 0, 0, 0, 0, 0, 0, 0, 0],
    );
    assert!(matches!(f.make_move_from(0), Err(GameError::CellEmpty)));
    assert!(matches!(f.make_move_from(15), Err(GameError::CellEmpty)));
}

#[test]
fn move_that_repeats_the_row_is_refused() {
    let cells = [2, 1, 0, 1, 0, 1, 0, 1, 2, 0, 1, 0, 1, 0, 1, 0];
    let f = row(Direction::Right, cells);
    let r = f.make_move_from(8);
    assert!(matches!(r, Err(GameError::RepeatingPosition)));
    // the row is as it was
    assert_eq!(f.cells, cells);
    assert_eq!(f.direction, Direction::Right);
    // another pit of the same row can be sown from
    assert!(f.make_move_from(1).is_ok());
}

#[test]
fn pits_with_stones_are_listed_in_order() {
    let f = row(
        Direction::Right,
        [0, 3, 0, 1, 0, 0, 0, 0, 9, 0, 0, 0, 0, 0, 0, 2],
    );
    assert_eq!(f.non_empty_cells(), vec![1, 3, 8, 15]);
    assert_eq!(row(Direction::Left, [0; 16]).non_empty_cells(), Vec::<usize>::new());
    assert_eq!(
        row(Direction::Left, [2; 16]).non_empty_cells(),
        (0..16).collect::<Vec<usize>>()
    );
}

#[test]
fn stones_counts_beyond_one_pit() {
    let f = row(Direction::Right, [255; 16]);
    assert_eq!(f.stones(), 4080);
    assert!(!f.well_formed());
    let mut cells = [0u8; 16];
    cells[0] = 255;
    assert!(row(Direction::Right, cells).well_formed());
    cells[1] = 1;
    assert!(!row(Direction::Right, cells).well_formed());
}
