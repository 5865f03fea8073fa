use battleship::generate::generate_game_board;
use battleship::board::GridState;
use battleship::ship::{Point, Ship, ShipKind};

#[test]
fn generated_boards_hold_five_legal_ships() {
    // Board generation is randomized; check the promised shape many times.
    for _ in 0..25 {
        let board = generate_game_board().unwrap();
        assert_eq!(board.ships.len(), 5);
        assert_eq!(board.ships_left, 5);
        assert!(matches!(board.ships[0].kind, ShipKind::Carrier));
        assert!(matches!(board.ships[1].kind, ShipKind::Battleship));
        assert!(matches!(board.ships[2].kind, ShipKind::Cruiser));
        assert!(matches!(board.ships[3].kind, ShipKind::Submarine));
        assert!(matches!(board.ships[4].kind, ShipKind::Destroyer));
        for ship in board.ships.iter() {
            // Every ship is in bounds at its recorded anchor and direction.
            assert!(Ship::can_exist(&ship.kind, ship.x, ship.y, &ship.direction));
            assert_eq!(ship.hit_points.len(), 0);
            assert_eq!(ship.points.len(), ship.kind.get_len() as usize);
            for p in ship.points.iter() {
                assert!(p.0 <= 9 && p.1 <= 9);
            }
        }
        // No two ships share a cell.
        for i in 0..5 {
            for j in 0..5 {
                if i != j {
                    assert!(!board.ships[i].does_intercept(&board.ships[j]));
                }
            }
        }
        // No cell of a generated board has been struck.
        for x in 0..10u8 {
            for y in 0..10u8 {
                assert_eq!(board.cell_at(&Point(x, y)), GridState::Blank);
            }
        }
    }
}
