use battleship::board::{GameBoard, GridState, StrikeError, StrikeOutcome};
use battleship::ship::{Point, Ship, ShipDirection, ShipKind};

fn make_board() -> GameBoard {
    let ships = vec![
        Ship::build(ShipKind::Carrier, 3, 1, ShipDirection::Up).unwrap(),
        Ship::build(ShipKind::Battleship, 0, 0, ShipDirection::Up).unwrap(),
        Ship::build(ShipKind::Cruiser, 1, 0, ShipDirection::Up).unwrap(),
        Ship::build(ShipKind::Submarine, 5, 5, ShipDirection::Up).unwrap(),
        Ship::build(ShipKind::Destroyer, 9, 9, ShipDirection::Down).unwrap(),
    ];
    GameBoard::build(ships)
}

#[test]
fn new_board_is_untouched() {
    let board = make_board();
    assert_eq!(board.ships_left, 5);
    assert_eq!(board.ships.len(), 5);
    for x in 0..10u8 {
        for y in 0..10u8 {
            assert_eq!(board.cell_at(&Point(x, y)), GridState::Blank);
        }
    }
}

#[test]
fn carrier_scenario_hit_by_hit() {
    let mut board = make_board();
    // The Carrier anchored at (3,1) facing Up occupies (3,1) through (3,5).
    assert_eq!(board.resolve_strike(&Point(3, 0)), Ok(StrikeOutcome::Miss));
    assert_eq!(
        board.resolve_strike(&Point(3, 1)),
        Ok(StrikeOutcome::Hit(ShipKind::Carrier))
    );
    assert_eq!(
        board.resolve_strike(&Point(3, 2)),
        Ok(StrikeOutcome::Hit(ShipKind::Carrier))
    );
    assert_eq!(
        board.resolve_strike(&Point(3, 3)),
        Ok(StrikeOutcome::Hit(ShipKind::Carrier))
    );
    assert_eq!(
        board.resolve_strike(&Point(3, 4)),
        Ok(StrikeOutcome::Hit(ShipKind::Carrier))
    );
    assert!(!board.ships[0].is_sunk());
    assert_eq!(
        board.resolve_strike(&Point(3, 5)),
        Ok(StrikeOutcome::Sunk(ShipKind::Carrier))
    );
    assert!(board.ships[0].is_sunk());
    assert_eq!(board.ships_left, 4);
    assert_eq!(board.cell_at(&Point(3, 0)), GridState::Miss);
    assert_eq!(board.cell_at(&Point(3, 3)), GridState::Hit);
}

#[test]
fn restriking_a_resolved_cell_changes_nothing() {
    let mut board = make_board();
    assert_eq!(
        board.resolve_strike(&Point(9, 9)),
        Ok(StrikeOutcome::Hit(ShipKind::Destroyer))
    );
    let hits_before = board.ships[4].hit_points.len();
    let left_before = board.ships_left;
    assert_eq!(
        board.resolve_strike(&Point(9, 9)),
        Err(StrikeError::InvalidStrike)
    );
    assert_eq!(board.ships[4].hit_points.len(), hits_before);
    assert_eq!(board.ships_left, left_before);
    assert_eq!(board.cell_at(&Point(9, 9)), GridState::Hit);

    // The same holds for a missed cell.
    assert_eq!(board.resolve_strike(&Point(7, 7)), Ok(StrikeOutcome::Miss));
    assert_eq!(
        board.resolve_strike(&Point(7, 7)),
        Err(StrikeError::InvalidStrike)
    );
    assert_eq!(board.cell_at(&Point(7, 7)), GridState::Miss);
    assert_eq!(board.ships_left, left_before);
}

#[test]
fn sinking_every_ship_ends_the_game() {
    let mut board = make_board();
    let mut last: Result<StrikeOutcome, StrikeError> = Ok(StrikeOutcome::Miss);
    for x in 0..10u8 {
        for y in 0..10u8 {
            let r = board.resolve_strike(&Point(x, y));
            assert!(r.is_ok());
            if let Ok(outcome) = r {
                if !matches!(outcome, StrikeOutcome::Miss) {
                    last = Ok(outcome);
                }
            }
        }
    }
    assert_eq!(board.ships_left, 0);
    // The very last sinking reported the end of the game.
    assert_eq!(last, Ok(StrikeOutcome::GameOver(ShipKind::Destroyer)));
    for i in 0..5 {
        assert!(board.ships[i].is_sunk());
    }
}
