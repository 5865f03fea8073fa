use battleship::input::{parse_target, TargetParseError};
use battleship::ship::{placement_conflicts, Point, Ship, ShipDirection, ShipKind};

fn chars(s: &str) -> Vec<char> {
    s.chars().collect()
}

#[test]
fn coordinates_parse_to_column_and_row() {
    assert_eq!(parse_target(&chars("B4")), Ok(Point(3, 1)));
    assert_eq!(parse_target(&chars("a1")), Ok(Point(0, 0)));
    assert_eq!(parse_target(&chars("J10")), Ok(Point(9, 9)));
    assert_eq!(parse_target(&chars("10c")), Ok(Point(9, 2)));
    // Other characters are ignored wherever they stand.
    assert_eq!(parse_target(&chars(" d, 7 ")), Ok(Point(6, 3)));
}

#[test]
fn bad_coordinates_are_rejected() {
    assert_eq!(
        parse_target(&chars("AB1")),
        Err(TargetParseError::MultipleLetterCoordinates)
    );
    assert_eq!(
        parse_target(&chars("A12")),
        Err(TargetParseError::MultipleNumericCoordinates)
    );
    assert_eq!(
        parse_target(&chars("A0")),
        Err(TargetParseError::MultipleNumericCoordinates)
    );
    assert_eq!(
        parse_target(&chars("77")),
        Err(TargetParseError::MultipleNumericCoordinates)
    );
    assert_eq!(
        parse_target(&chars("33")),
        Err(TargetParseError::MultipleNumericCoordinates)
    );
    assert_eq!(
        parse_target(&chars("5")),
        Err(TargetParseError::NoLetterCoordinates)
    );
    assert_eq!(
        parse_target(&chars("k5")),
        Err(TargetParseError::NoLetterCoordinates)
    );
    assert_eq!(
        parse_target(&chars("c")),
        Err(TargetParseError::NoNumericCoordinates)
    );
    assert_eq!(
        parse_target(&chars("")),
        Err(TargetParseError::NoLetterCoordinates)
    );
}

#[test]
fn confirmation_is_blocked_exactly_on_overlap() {
    let mut ships = vec![
        Ship::build(ShipKind::Carrier, 3, 1, ShipDirection::Up).unwrap(),
        Ship::build(ShipKind::Battleship, 2, 3, ShipDirection::Left).unwrap(),
    ];
    // The Battleship crosses the Carrier, so confirming it is blocked.
    assert!(placement_conflicts(&ships, 1));
    // The Carrier is equally in conflict, seen from its own slot.
    assert!(placement_conflicts(&ships, 0));
    ships.pop();
    ships.push(Ship::build(ShipKind::Battleship, 6, 3, ShipDirection::Left).unwrap());
    assert!(!placement_conflicts(&ships, 1));
}
