//! Randomized board generation: places one ship of each kind, in the fixed
//! order, at a position drawn from the legal candidates for a randomly
//! chosen orientation.

use vstd::prelude::*;

use crate::board::{kind_at, kind_of_index, GameBoard};
use crate::rng::random_below;
use crate::ship::{
    can_exist_spec, cells_disjoint, footprint_cells, footprints_disjoint,
    lemma_cells_disjoint_symmetric, Point, Ship, ShipDirection,
};

verus! {

/// Randomized placement found no legal cell for some ship kind.
#[derive(PartialEq, Eq, Structural, Debug, Clone, Copy)]
pub enum BoardGenError {
    ExhaustedCandidates,
}

/// Creates a random ship layout: for each kind in the fixed order, an
/// orientation is drawn, every anchor whose footprint stays on the grid and
/// clear of the ships already placed is collected, and one such anchor is
/// drawn. A board is returned only if every kind found a legal cell; it then
/// holds five non-overlapping, in-bounds ships, one of each kind, on a board
/// with no strikes resolved.
#[verifier::loop_isolation(false)]
pub fn generate_game_board() -> (r: Result<GameBoard, BoardGenError>)
    ensures
        r matches Ok(b) ==> b.wf() && b.fresh() && b.ships_left == 5,
{
    let mut ships: Vec<Ship> = Vec::new();
    let mut k: usize = 0;
    while k < 5
        invariant
            k <= 5,
            ships@.len() == k as int,
            forall|i: int| 0 <= i < k as int ==> (#[trigger] ships@[i]).wf(),
            forall|i: int| 0 <= i < k as int ==> (#[trigger] ships@[i]).hit_points@.len() == 0,
            forall|i: int| 0 <= i < k as int ==> (#[trigger] ships@[i]).kind == kind_at(i),
            forall|i: int, j: int|
                0 <= i < k as int && 0 <= j < k as int && i != j ==> footprints_disjoint(
                    #[trigger] ships@[i],
                    #[trigger] ships@[j],
                ),
        decreases 5 - k,
    {
        let kind = kind_of_index(k);
        let dr = random_below(4);
        let direction = if dr == 0 {
            ShipDirection::Down
        } else if dr == 1 {
            ShipDirection::Up
        } else if dr == 3 {
            ShipDirection::Left
        } else {
            ShipDirection::Right
        };
        let mut candidates: Vec<Point> = Vec::new();
        let mut x: u8 = 0;
        while x < 10
            invariant
                x <= 10,
                forall|c: int|
                    0 <= c < candidates@.len() ==> candidate_ok(
                        ships@,
                        kind_at(k as int),
                        #[trigger] candidates@[c]@,
                        direction,
                    ),
            decreases 10 - x,
        {
            let mut y: u8 = 0;
            while y < 10
                invariant
                    y <= 10,
                    forall|c: int|
                        0 <= c < candidates@.len() ==> candidate_ok(
                            ships@,
                            kind_at(k as int),
                            #[trigger] candidates@[c]@,
                            direction,
                        ),
                decreases 10 - y,
            {
                if Ship::can_exist(&kind, x, y, &direction) {
                    let new_ship = Ship::build(kind, x, y, direction).unwrap();
                    let mut overlaps = false;
                    let mut j: usize = 0;
                    while j < ships.len()
                        invariant
                            j <= ships@.len(),
                            new_ship.wf(),
                            new_ship.kind == kind_at(k as int),
                            new_ship.x == x,
                            new_ship.y == y,
                            new_ship.direction == direction,
                            overlaps == !(forall|t: int|
                                0 <= t < j as int ==> footprints_disjoint(
                                    #[trigger] ships@[t],
                                    new_ship,
                                )),
                        decreases ships@.len() - j,
                    {
                        if ships[j].does_intercept(&new_ship) {
                            proof {
                                crate::ship::lemma_intercepts_iff_not_disjoint(
                                    ships@[j as int],
                                    new_ship,
                                );
                            }
                            overlaps = true;
                        } else {
                            proof {
                                crate::ship::lemma_intercepts_iff_not_disjoint(
                                    ships@[j as int],
                                    new_ship,
                                );
                            }
                        }
                        j = j + 1;
                    }
                    if !overlaps {
                        candidates.push(Point(x, y));
                    }
                }
                y = y + 1;
            }
            x = x + 1;
        }
        if candidates.len() == 0 {
            return Err(BoardGenError::ExhaustedCandidates);
        }
        let pick = random_below(candidates.len());
        let position = candidates[pick];
        proof {
            assert(candidate_ok(ships@, kind_at(k as int), candidates@[pick as int]@, direction));
        }
        let ship = Ship::build(kind, position.0, position.1, direction).unwrap();
        proof {
            assert forall|t: int| 0 <= t < ships@.len() implies footprints_disjoint(
                ship,
                #[trigger] ships@[t],
            ) && footprints_disjoint(ships@[t], ship) by {
                assert(cells_disjoint(ships@[t].footprint(), ship.footprint()));
                lemma_cells_disjoint_symmetric(ships@[t].footprint(), ship.footprint());
            }
        }
        ships.push(ship);
        k = k + 1;
    }
    proof {
        assert forall|i: int| 0 <= i < 5 implies (#[trigger] ships@[i]).placed() by {
            assert(ships@[i].wf());
        }
    }
    Ok(GameBoard::build(ships))
}

/// An anchor is a legal candidate for a kind and direction against the ships
/// already placed: its footprint stays on the grid and shares no cell with
/// any of them.
pub open spec fn candidate_ok(
    ships: Seq<Ship>,
    kind: crate::ship::ShipKind,
    p: (int, int),
    direction: ShipDirection,
) -> bool {
    &&& can_exist_spec(kind, p.0, p.1, direction)
    &&& forall|t: int|
        0 <= t < ships.len() ==> cells_disjoint(
            (#[trigger] ships[t]).footprint(),
            footprint_cells(kind, p.0, p.1, direction),
        )
}

} // verus!
