use battleship::ship::{Point, Ship, ShipDirection, ShipKind};

#[test]
fn can_make_ships_at_boundaries() {
    // Top left corner
    Ship::build(ShipKind::Destroyer, 1, 1, ShipDirection::Down).unwrap();
    Ship::build(ShipKind::Destroyer, 1, 1, ShipDirection::Left).unwrap();
    Ship::build(ShipKind::Destroyer, 0, 0, ShipDirection::Up).unwrap();
    Ship::build(ShipKind::Destroyer, 0, 0, ShipDirection::Left).unwrap();

    // Bottom right corner
    Ship::build(ShipKind::Destroyer, 8, 8, ShipDirection::Up).unwrap();
    Ship::build(ShipKind::Destroyer, 8, 8, ShipDirection::Right).unwrap();
    Ship::build(ShipKind::Destroyer, 9, 9, ShipDirection::Down).unwrap();
    Ship::build(ShipKind::Destroyer, 9, 9, ShipDirection::Right).unwrap();
}

#[test]
fn ships_intercepts() {
    let ship1 = Ship::build(ShipKind::Carrier, 3, 1, ShipDirection::Up).unwrap();
    let ship2 = Ship::build(ShipKind::Battleship, 2, 3, ShipDirection::Left).unwrap();
    let ship3 = Ship::build(ShipKind::Destroyer, 2, 4, ShipDirection::Down).unwrap();
    let ship4 = Ship::build(ShipKind::Submarine, 3, 3, ShipDirection::Right).unwrap();

    assert!(ship1.does_intercept(&ship2));
    assert!(ship1.does_intercept(&ship4));
    assert!(ship2.does_intercept(&ship3));
    assert!(ship2.does_intercept(&ship4));
    assert!(ship3.does_intercept(&ship4));

    // And this should not intercept
    assert!(!ship1.does_intercept(&ship3));
}

#[test]
fn ships_get_hit() {
    let mut ship1 = Ship::build(ShipKind::Carrier, 3, 1, ShipDirection::Up).unwrap();
    // No hits
    assert!(!ship1.is_hit_by(&Point(3, 0)));
    assert!(!ship1.is_hit_by(&Point(3, 6)));
    assert!(!ship1.is_hit_by(&Point(2, 3)));
    assert!(!ship1.is_hit_by(&Point(4, 3)));

    // Real hits
    assert!(ship1.is_hit_by(&Point(3, 1)));
    ship1.hit(Point(3, 1));
    assert!(!ship1.is_sunk());
    assert!(ship1.is_hit_by(&Point(3, 2)));
    ship1.hit(Point(3, 2));
    assert!(!ship1.is_sunk());
    assert!(ship1.is_hit_by(&Point(3, 3)));
    ship1.hit(Point(3, 3));
    assert!(!ship1.is_sunk());
    assert!(ship1.is_hit_by(&Point(3, 4)));
    ship1.hit(Point(3, 4));
    assert!(!ship1.is_sunk());
    assert!(ship1.is_hit_by(&Point(3, 5)));
    ship1.hit(Point(3, 5));
    assert!(ship1.is_sunk());
}

#[test]
fn repeated_hits_on_one_cell_never_sink() {
    let mut ship = Ship::build(ShipKind::Destroyer, 0, 0, ShipDirection::Up).unwrap();
    for _ in 0..10 {
        ship.hit(Point(0, 0));
        assert!(!ship.is_sunk());
    }
    assert_eq!(ship.hit_points.len(), 1);
    ship.hit(Point(0, 1));
    assert!(ship.is_sunk());
    assert_eq!(ship.hit_points.len(), 2);
}

#[test]
fn hits_outside_footprint_are_ignored() {
    let mut ship = Ship::build(ShipKind::Destroyer, 5, 5, ShipDirection::Up).unwrap();
    ship.hit(Point(4, 5));
    ship.hit(Point(9, 9));
    assert_eq!(ship.hit_points.len(), 0);
    assert!(!ship.is_sunk());
}

#[test]
fn kind_lengths_and_names() {
    assert_eq!(ShipKind::Carrier.get_len(), 5);
    assert_eq!(ShipKind::Battleship.get_len(), 4);
    assert_eq!(ShipKind::Cruiser.get_len(), 3);
    assert_eq!(ShipKind::Submarine.get_len(), 3);
    assert_eq!(ShipKind::Destroyer.get_len(), 2);
    assert_eq!(ShipKind::Carrier.get_name(), "Carrier");
    assert_eq!(ShipKind::Battleship.get_name(), "Battleship");
    assert_eq!(ShipKind::Cruiser.get_name(), "Cruiser");
    assert_eq!(ShipKind::Submarine.get_name(), "Submarine");
    assert_eq!(ShipKind::Destroyer.get_name(), "Destroyer");
}

#[test]
fn destroyer_placement_at_corners() {
    // A Destroyer at (0,0) facing Left occupies (0,0) and (1,0): legal.
    assert!(Ship::can_exist(&ShipKind::Destroyer, 0, 0, &ShipDirection::Left));
    // At (9,9) facing Left its tail would sit at column 10: rejected.
    assert!(!Ship::can_exist(&ShipKind::Destroyer, 9, 9, &ShipDirection::Left));
    let e = Ship::build(ShipKind::Destroyer, 9, 9, ShipDirection::Left).unwrap_err();
    assert_eq!(e, "Out of bounds.");
}

#[test]
fn carrier_footprint_from_anchor_up() {
    let ship = Ship::build(ShipKind::Carrier, 3, 1, ShipDirection::Up).unwrap();
    let mut cells: Vec<(u8, u8)> = ship.points.iter().map(|p| (p.0, p.1)).collect();
    cells.sort();
    assert_eq!(cells, vec![(3, 1), (3, 2), (3, 3), (3, 4), (3, 5)]);
}

#[test]
fn rejected_moves_leave_the_ship_in_place() {
    let mut ship = Ship::build(ShipKind::Destroyer, 0, 0, ShipDirection::Up).unwrap();
    ship.move_up();
    assert_eq!((ship.x, ship.y), (0, 0));
    ship.move_left();
    assert_eq!((ship.x, ship.y), (0, 0));
    ship.move_down();
    assert_eq!((ship.x, ship.y), (0, 1));
    ship.move_right();
    assert_eq!((ship.x, ship.y), (1, 1));
    ship.move_up();
    assert_eq!((ship.x, ship.y), (1, 0));
}

#[test]
fn rotate_cycles_clockwise_and_skips_illegal_turns() {
    // At (5,5) every orientation is legal for a Destroyer.
    let mut ship = Ship::build(ShipKind::Destroyer, 5, 5, ShipDirection::Down).unwrap();
    ship.rotate();
    assert!(matches!(ship.direction, ShipDirection::Left));
    ship.rotate();
    assert!(matches!(ship.direction, ShipDirection::Up));
    ship.rotate();
    assert!(matches!(ship.direction, ShipDirection::Right));
    ship.rotate();
    assert!(matches!(ship.direction, ShipDirection::Down));

    // A Carrier at (0,0) facing Up cannot rotate to Right (tail at column -4).
    let mut carrier = Ship::build(ShipKind::Carrier, 0, 0, ShipDirection::Up).unwrap();
    carrier.rotate();
    assert!(matches!(carrier.direction, ShipDirection::Up));
}
