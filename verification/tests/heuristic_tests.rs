use battleship::board::{GameBoard, GridState};
use battleship::heuristic::{gen_bot_target, TargetError};
use battleship::ship::{Point, Ship, ShipDirection, ShipKind};

fn make_board() -> GameBoard {
    let ships = vec![
        Ship::build(ShipKind::Carrier, 3, 1, ShipDirection::Up).unwrap(),
        Ship::build(ShipKind::Battleship, 0, 0, ShipDirection::Up).unwrap(),
        Ship::build(ShipKind::Cruiser, 1, 0, ShipDirection::Up).unwrap(),
        Ship::build(ShipKind::Submarine, 5, 5, ShipDirection::Up).unwrap(),
        Ship::build(ShipKind::Destroyer, 9, 9, ShipDirection::Down).unwrap(),
    ];
    GameBoard::build(ships)
}

#[test]
fn chosen_targets_are_untouched_and_on_the_grid() {
    let mut board = make_board();
    // Resolve a few strikes, then ask for targets repeatedly: every choice
    // must name an untouched cell of the grid.
    board.resolve_strike(&Point(0, 9)).unwrap();
    board.resolve_strike(&Point(9, 0)).unwrap();
    for _ in 0..50 {
        let p = gen_bot_target(&board).unwrap();
        assert!(p.0 <= 9 && p.1 <= 9);
        assert_eq!(board.cell_at(&p), GridState::Blank);
    }
}

#[test]
fn targets_near_a_live_hit_are_preferred() {
    let mut board = make_board();
    // Hit the Carrier at (3,2); it stays afloat, so the heuristic must pick
    // one of the untouched orthogonal neighbours of that hit.
    board.resolve_strike(&Point(3, 2)).unwrap();
    for _ in 0..50 {
        let p = gen_bot_target(&board).unwrap();
        let c = (p.0, p.1);
        assert!(c == (3, 1) || c == (3, 3) || c == (2, 2) || c == (4, 2));
    }
}

#[test]
fn hits_on_sunk_ships_draw_no_preference() {
    let mut board = make_board();
    // Sink the Destroyer at (9,8) and (9,9).
    board.resolve_strike(&Point(9, 8)).unwrap();
    board.resolve_strike(&Point(9, 9)).unwrap();
    // Its hits are dead: over many draws the chosen cells must not all
    // cluster on the two cells next to the sunk ship.
    let mut all_neighbours = true;
    for _ in 0..50 {
        let p = gen_bot_target(&board).unwrap();
        assert_eq!(board.cell_at(&p), GridState::Blank);
        let c = (p.0, p.1);
        if !(c == (8, 8) || c == (8, 9) || c == (9, 7)) {
            all_neighbours = false;
        }
    }
    assert!(!all_neighbours);
}

#[test]
fn a_fully_struck_board_has_no_target() {
    let mut board = make_board();
    for x in 0..10u8 {
        for y in 0..10u8 {
            board.resolve_strike(&Point(x, y)).unwrap();
        }
    }
    assert_eq!(gen_bot_target(&board), Err(TargetError::NoUntouchedCells));
}
