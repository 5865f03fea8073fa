//! Ship geometry: kinds, orientations, footprints, placement bounds,
//! overlap tests and per-ship hit bookkeeping.

use vstd::prelude::*;

verus! {

/// A cell coordinate on the grid: column first, then row.
#[derive(PartialEq, Eq, Structural, Debug, Clone, Copy)]
pub struct Point(pub u8, pub u8);

impl View for Point {
    type V = (int, int);

    open spec fn view(&self) -> (int, int) {
        (self.0 as int, self.1 as int)
    }
}

/// The direction from a ship's anchor (its head) toward its tail.
///
/// Up and Down extend along the row axis toward larger and smaller rows;
/// Left extends toward larger columns and Right toward smaller ones. The
/// Left/Right naming is deliberately kept this way round: the interactive
/// controls and the random generator both depend on it.
#[derive(PartialEq, Eq, Structural, Debug, Clone, Copy)]
pub enum ShipDirection {
    Up,
    Down,
    Left,
    Right,
}

/// The type of ship; each kind has a fixed length and display name.
#[derive(PartialEq, Eq, Structural, Debug, Clone, Copy)]
pub enum ShipKind {
    Carrier,
    Battleship,
    Cruiser,
    Submarine,
    Destroyer,
}

/// Number of cells a ship of this kind occupies.
pub open spec fn kind_length(kind: ShipKind) -> int {
    match kind {
        ShipKind::Carrier => 5,
        ShipKind::Battleship => 4,
        ShipKind::Cruiser => 3,
        ShipKind::Submarine => 3,
        ShipKind::Destroyer => 2,
    }
}

/// The display name of a ship kind.
pub open spec fn kind_name(kind: ShipKind) -> Seq<char> {
    match kind {
        ShipKind::Carrier => "Carrier"@,
        ShipKind::Battleship => "Battleship"@,
        ShipKind::Cruiser => "Cruiser"@,
        ShipKind::Submarine => "Submarine"@,
        ShipKind::Destroyer => "Destroyer"@,
    }
}

/// A cell lies on the 10 x 10 grid.
pub open spec fn valid_cell(c: (int, int)) -> bool {
    0 <= c.0 <= 9 && 0 <= c.1 <= 9
}

/// Whether a ship of this kind, anchored at (x, y) with its tail extending
/// toward `direction`, lies entirely on the grid.
pub open spec fn can_exist_spec(kind: ShipKind, x: int, y: int, direction: ShipDirection) -> bool {
    let l = kind_length(kind) - 1;
    &&& 0 <= x <= 9
    &&& 0 <= y <= 9
    &&& match direction {
        ShipDirection::Down => y >= l,
        ShipDirection::Up => y + l <= 9,
        ShipDirection::Left => x + l <= 9,
        ShipDirection::Right => x >= l,
    }
}

/// The cells occupied by a ship of this kind anchored at (x, y) toward
/// `direction`, enumerated in increasing coordinate order along its axis.
pub open spec fn footprint_cells(
    kind: ShipKind,
    x: int,
    y: int,
    direction: ShipDirection,
) -> Seq<(int, int)> {
    let l = kind_length(kind) - 1;
    match direction {
        ShipDirection::Down => Seq::new((l + 1) as nat, |i: int| (x, y - l + i)),
        ShipDirection::Up => Seq::new((l + 1) as nat, |i: int| (x, y + i)),
        ShipDirection::Left => Seq::new((l + 1) as nat, |i: int| (x + i, y)),
        ShipDirection::Right => Seq::new((l + 1) as nat, |i: int| (x - l + i, y)),
    }
}

/// The cells named by a sequence of points.
pub open spec fn view_seq(pts: Seq<Point>) -> Seq<(int, int)> {
    pts.map_values(|p: Point| p@)
}

/// A sequence of points names the cell `c`.
pub open spec fn pts_contains(pts: Seq<Point>, c: (int, int)) -> bool {
    exists|k: int| 0 <= k < pts.len() && pts[k]@ == c
}

/// The stored points name exactly the given cells, in order.
pub open spec fn points_match(pts: Seq<Point>, cells: Seq<(int, int)>) -> bool {
    &&& pts.len() == cells.len()
    &&& forall|i: int| 0 <= i < pts.len() ==> #[trigger] pts[i]@ == cells[i]
}

impl ShipKind {
    /// Length of the ship.
    pub fn get_len(&self) -> (r: u8)
        ensures
            r as int == kind_length(*self),
    {
        match self {
            ShipKind::Carrier => 5,
            ShipKind::Battleship => 4,
            ShipKind::Cruiser => 3,
            ShipKind::Submarine => 3,
            ShipKind::Destroyer => 2,
        }
    }

    /// Name of the ship.
    pub fn get_name(&self) -> (r: &'static str)
        ensures
            r@ == kind_name(*self),
    {
        match self {
            ShipKind::Carrier => "Carrier",
            ShipKind::Battleship => "Battleship",
            ShipKind::Cruiser => "Cruiser",
            ShipKind::Submarine => "Submarine",
            ShipKind::Destroyer => "Destroyer",
        }
    }
}

/// Two ships occupy some common cell.
pub open spec fn intercepts(a: Ship, b: Ship) -> bool {
    exists|c: (int, int)| a.footprint().contains(c) && b.footprint().contains(c)
}

/// Two cell sequences share no cell.
pub open spec fn cells_disjoint(a: Seq<(int, int)>, b: Seq<(int, int)>) -> bool {
    forall|c: (int, int)| #[trigger] a.contains(c) ==> !b.contains(c)
}

/// Two ships occupy no common cell.
pub open spec fn footprints_disjoint(a: Ship, b: Ship) -> bool {
    cells_disjoint(a.footprint(), b.footprint())
}

/// Sharing no cell does not depend on the order of the two sequences.
pub proof fn lemma_cells_disjoint_symmetric(a: Seq<(int, int)>, b: Seq<(int, int)>)
    ensures
        cells_disjoint(a, b) <==> cells_disjoint(b, a),
{
    if cells_disjoint(a, b) && !cells_disjoint(b, a) {
        let c = choose|c: (int, int)| #[trigger] b.contains(c) && a.contains(c);
        assert(a.contains(c));
    }
    if cells_disjoint(b, a) && !cells_disjoint(a, b) {
        let c = choose|c: (int, int)| #[trigger] a.contains(c) && b.contains(c);
        assert(b.contains(c));
    }
}

/// The next direction in the clockwise rotation cycle.
pub open spec fn clockwise(d: ShipDirection) -> ShipDirection {
    match d {
        ShipDirection::Down => ShipDirection::Left,
        ShipDirection::Left => ShipDirection::Up,
        ShipDirection::Up => ShipDirection::Right,
        ShipDirection::Right => ShipDirection::Down,
    }
}

/// A ship: kind, anchor, direction, its cached footprint cells, and the
/// distinct cells on which it has been hit.
#[derive(Debug)]
pub struct Ship {
    pub x: u8,
    pub y: u8,
    pub direction: ShipDirection,
    pub kind: ShipKind,
    pub points: Vec<Point>,
    pub hit_points: Vec<Point>,
}

impl Ship {
    /// The cells this ship occupies, derived from its anchor and direction.
    pub open spec fn footprint(self) -> Seq<(int, int)> {
        footprint_cells(self.kind, self.x as int, self.y as int, self.direction)
    }

    /// The cells on which this ship has been hit.
    pub open spec fn hit_cells(self) -> Seq<(int, int)> {
        view_seq(self.hit_points@)
    }

    /// The ship lies on the grid and its cached points are its footprint.
    pub open spec fn placed(self) -> bool {
        &&& can_exist_spec(self.kind, self.x as int, self.y as int, self.direction)
        &&& points_match(self.points@, self.footprint())
    }

    /// Placed, and the recorded hits are distinct cells of the footprint.
    pub open spec fn wf(self) -> bool {
        &&& self.placed()
        &&& self.hit_cells().no_duplicates()
        &&& forall|k: int|
            0 <= k < self.hit_cells().len() ==> self.footprint().contains(
                #[trigger] self.hit_cells()[k],
            )
    }

    /// Anchor, direction, kind and cached footprint agree with `other`.
    pub open spec fn same_placement(self, other: Ship) -> bool {
        &&& self.x == other.x
        &&& self.y == other.y
        &&& self.direction == other.direction
        &&& self.kind == other.kind
        &&& self.points@ == other.points@
    }

    /// The ship has been hit on at least as many cells as it has.
    pub open spec fn is_sunk_spec(self) -> bool {
        self.hit_cells().len() >= kind_length(self.kind)
    }

    /// Check if a ship can be created from the parameters.
    pub fn can_exist(kind: &ShipKind, x: u8, y: u8, direction: &ShipDirection) -> (r: bool)
        ensures
            r == can_exist_spec(*kind, x as int, y as int, *direction),
    {
        if x > 9 || y > 9 {
            return false;
        }
        let l = kind.get_len() - 1;
        match direction {
            ShipDirection::Down => y >= l,
            ShipDirection::Up => l <= 9 - y,
            ShipDirection::Left => l <= 9 - x,
            ShipDirection::Right => x >= l,
        }
    }

    /// Recomputes the cached footprint from the anchor and direction.
    /// When the ship would not fit on the grid the cache is left alone.
    pub fn reset_points(&mut self)
        ensures
            final(self).x == old(self).x,
            final(self).y == old(self).y,
            final(self).direction == old(self).direction,
            final(self).kind == old(self).kind,
            final(self).hit_points@ == old(self).hit_points@,
            can_exist_spec(
                old(self).kind,
                old(self).x as int,
                old(self).y as int,
                old(self).direction,
            ) ==> final(self).placed(),
            !can_exist_spec(
                old(self).kind,
                old(self).x as int,
                old(self).y as int,
                old(self).direction,
            ) ==> final(self).points@ == old(self).points@,
    {
        if !Self::can_exist(&self.kind, self.x, self.y, &self.direction) {
            return;
        }
        let x = self.x;
        let y = self.y;
        let direction = self.direction;
        let kind = self.kind;
        let l = kind.get_len() - 1;
        let ghost cells = footprint_cells(kind, x as int, y as int, direction);
        let mut pts: Vec<Point> = Vec::new();
        let mut i: u8 = 0;
        while i <= l
            invariant
                can_exist_spec(kind, x as int, y as int, direction),
                l as int == kind_length(kind) - 1,
                cells == footprint_cells(kind, x as int, y as int, direction),
                i <= l + 1,
                pts@.len() == i as int,
                forall|k: int| 0 <= k < i as int ==> #[trigger] pts@[k]@ == cells[k],
            decreases l + 1 - i,
        {
            let p = match direction {
                ShipDirection::Down => Point(x, y - l + i),
                ShipDirection::Up => Point(x, y + i),
                ShipDirection::Left => Point(x + i, y),
                ShipDirection::Right => Point(x - l + i, y),
            };
            pts.push(p);
            i = i + 1;
        }
        self.points = pts;
    }

    /// Try to create a ship; rejected when its footprint would leave the grid.
    pub fn build(kind: ShipKind, x: u8, y: u8, direction: ShipDirection) -> (r: Result<
        Ship,
        &'static str,
    >)
        ensures
            can_exist_spec(kind, x as int, y as int, direction) <==> r is Ok,
            r matches Ok(s) ==> s.wf() && s.kind == kind && s.x == x && s.y == y && s.direction
                == direction && s.hit_points@.len() == 0,
    {
        if Self::can_exist(&kind, x, y, &direction) {
            let mut ship = Ship {
                x,
                y,
                direction,
                kind,
                points: Vec::new(),
                hit_points: Vec::new(),
            };
            ship.reset_points();
            Ok(ship)
        } else {
            Err("Out of bounds.")
        }
    }

    /// Check whether the given cell is part of this ship's footprint.
    pub fn is_hit_by(&self, point: &Point) -> (r: bool)
        requires
            self.placed(),
        ensures
            r == self.footprint().contains(point@),
    {
        proof {
            lemma_points_match_contains(self.points@, self.footprint(), point@);
        }
        contains_cell(&self.points, point)
    }

    /// Check whether two ships intercept.
    pub fn does_intercept(&self, ship: &Ship) -> (r: bool)
        requires
            self.placed(),
            ship.placed(),
        ensures
            r == intercepts(*self, *ship),
    {
        let n = self.points.len();
        let mut i: usize = 0;
        while i < n
            invariant
                n == self.points@.len(),
                i <= n,
                self.placed(),
                ship.placed(),
                forall|k: int|
                    0 <= k < i as int ==> !ship.footprint().contains(#[trigger] self.points@[k]@),
            decreases n - i,
        {
            if ship.is_hit_by(&self.points[i]) {
                proof {
                    assert(self.footprint().contains(self.points@[i as int]@));
                }
                return true;
            }
            i = i + 1;
        }
        proof {
            if intercepts(*self, *ship) {
                let c = choose|c: (int, int)|
                    self.footprint().contains(c) && ship.footprint().contains(c);
                let k = choose|k: int| 0 <= k < self.footprint().len() && self.footprint()[k] == c;
                assert(self.points@[k]@ == c);
            }
        }
        false
    }

    /// Records a hit on the ship. A cell outside the footprint, or one that
    /// was already recorded, changes nothing: a strike is never counted twice.
    pub fn hit(&mut self, point: Point)
        requires
            old(self).wf(),
        ensures
            final(self).wf(),
            final(self).same_placement(*old(self)),
            old(self).footprint().contains(point@) && !old(self).hit_cells().contains(point@)
                ==> final(self).hit_cells() =~= old(self).hit_cells().push(point@),
            !(old(self).footprint().contains(point@) && !old(self).hit_cells().contains(point@))
                ==> final(self).hit_points@ == old(self).hit_points@,
    {
        proof {
            lemma_points_match_contains(self.points@, self.footprint(), point@);
            lemma_view_seq_contains(self.hit_points@, point@);
        }
        if contains_cell(&self.points, &point) && !contains_cell(&self.hit_points, &point) {
            self.hit_points.push(point);
            proof {
                assert(final(self).hit_cells() =~= old(self).hit_cells().push(point@));
            }
        }
    }

    /// Rotates the ship clockwise; a rotation that would leave the grid is a
    /// no-op, never an error.
    pub fn rotate(&mut self)
        requires
            old(self).placed(),
        ensures
            final(self).x == old(self).x,
            final(self).y == old(self).y,
            final(self).kind == old(self).kind,
            final(self).hit_points@ == old(self).hit_points@,
            final(self).placed(),
            can_exist_spec(
                old(self).kind,
                old(self).x as int,
                old(self).y as int,
                clockwise(old(self).direction),
            ) ==> final(self).direction == clockwise(old(self).direction),
            !can_exist_spec(
                old(self).kind,
                old(self).x as int,
                old(self).y as int,
                clockwise(old(self).direction),
            ) ==> *final(self) == *old(self),
    {
        let new_direction = match self.direction {
            ShipDirection::Down => ShipDirection::Left,
            ShipDirection::Left => ShipDirection::Up,
            ShipDirection::Up => ShipDirection::Right,
            ShipDirection::Right => ShipDirection::Down,
        };
        if Ship::can_exist(&self.kind, self.x, self.y, &new_direction) {
            self.direction = new_direction;
            self.reset_points();
        }
    }

    /// Moves the ship one row up if the new position stays on the grid.
    pub fn move_up(&mut self)
        requires
            old(self).placed(),
        ensures
            final(self).kind == old(self).kind,
            final(self).direction == old(self).direction,
            final(self).x == old(self).x,
            final(self).hit_points@ == old(self).hit_points@,
            final(self).placed(),
            old(self).y > 0 && can_exist_spec(
                old(self).kind,
                old(self).x as int,
                old(self).y - 1,
                old(self).direction,
            ) ==> final(self).y == old(self).y - 1,
            !(old(self).y > 0 && can_exist_spec(
                old(self).kind,
                old(self).x as int,
                old(self).y - 1,
                old(self).direction,
            )) ==> *final(self) == *old(self),
    {
        if self.y == 0 {
            return;
        }
        if Ship::can_exist(&self.kind, self.x, self.y - 1, &self.direction) {
            self.y = self.y - 1;
            self.reset_points();
        }
    }

    /// Moves the ship one row down if the new position stays on the grid.
    pub fn move_down(&mut self)
        requires
            old(self).placed(),
        ensures
            final(self).kind == old(self).kind,
            final(self).direction == old(self).direction,
            final(self).x == old(self).x,
            final(self).hit_points@ == old(self).hit_points@,
            final(self).placed(),
            can_exist_spec(
                old(self).kind,
                old(self).x as int,
                old(self).y + 1,
                old(self).direction,
            ) ==> final(self).y == old(self).y + 1,
            !can_exist_spec(
                old(self).kind,
                old(self).x as int,
                old(self).y + 1,
                old(self).direction,
            ) ==> *final(self) == *old(self),
    {
        if Ship::can_exist(&self.kind, self.x, self.y + 1, &self.direction) {
            self.y = self.y + 1;
            self.reset_points();
        }
    }

    /// Moves the ship one column left if the new position stays on the grid.
    pub fn move_left(&mut self)
        requires
            old(self).placed(),
        ensures
            final(self).kind == old(self).kind,
            final(self).direction == old(self).direction,
            final(self).y == old(self).y,
            final(self).hit_points@ == old(self).hit_points@,
            final(self).placed(),
            old(self).x > 0 && can_exist_spec(
                old(self).kind,
                old(self).x - 1,
                old(self).y as int,
                old(self).direction,
            ) ==> final(self).x == old(self).x - 1,
            !(old(self).x > 0 && can_exist_spec(
                old(self).kind,
                old(self).x - 1,
                old(self).y as int,
                old(self).direction,
            )) ==> *final(self) == *old(self),
    {
        if self.x == 0 {
            return;
        }
        if Ship::can_exist(&self.kind, self.x - 1, self.y, &self.direction) {
            self.x = self.x - 1;
            self.reset_points();
        }
    }

    /// Moves the ship one column right if the new position stays on the grid.
    pub fn move_right(&mut self)
        requires
            old(self).placed(),
        ensures
            final(self).kind == old(self).kind,
            final(self).direction == old(self).direction,
            final(self).y == old(self).y,
            final(self).hit_points@ == old(self).hit_points@,
            final(self).placed(),
            can_exist_spec(
                old(self).kind,
                old(self).x + 1,
                old(self).y as int,
                old(self).direction,
            ) ==> final(self).x == old(self).x + 1,
            !can_exist_spec(
                old(self).kind,
                old(self).x + 1,
                old(self).y as int,
                old(self).direction,
            ) ==> *final(self) == *old(self),
    {
        if Ship::can_exist(&self.kind, self.x + 1, self.y, &self.direction) {
            self.x = self.x + 1;
            self.reset_points();
        }
    }

    /// Checks whether the ship is sunk.
    pub fn is_sunk(&self) -> (r: bool)
        ensures
            r == self.is_sunk_spec(),
    {
        self.hit_points.len() >= self.kind.get_len() as usize
    }
}

/// Check whether some point of `pts` names the same cell as `target`.
fn contains_cell(pts: &Vec<Point>, target: &Point) -> (r: bool)
    ensures
        r == pts_contains(pts@, target@),
{
    let n = pts.len();
    let mut i: usize = 0;
    while i < n
        invariant
            n == pts@.len(),
            i <= n,
            forall|k: int| 0 <= k < i as int ==> #[trigger] pts@[k]@ != target@,
        decreases n - i,
    {
        if pts[i] == *target {
            return true;
        }
        i = i + 1;
    }
    false
}

/// During interactive placement, whether the ship at slot `idx` (the one
/// being placed) overlaps any other ship of the list. Only confirmation of a
/// placement is blocked on overlap; free movement is not.
pub fn placement_conflicts(ships: &Vec<Ship>, idx: usize) -> (r: bool)
    requires
        idx < ships@.len(),
        forall|i: int| 0 <= i < ships@.len() ==> (#[trigger] ships@[i]).placed(),
    ensures
        r == exists|j: int|
            0 <= j < ships@.len() && j != idx as int && intercepts(
                #[trigger] ships@[j],
                ships@[idx as int],
            ),
{
    let n = ships.len();
    let mut j: usize = 0;
    while j < n
        invariant
            n == ships@.len(),
            idx < n,
            j <= n,
            forall|i: int| 0 <= i < ships@.len() ==> (#[trigger] ships@[i]).placed(),
            forall|t: int|
                0 <= t < j as int && t != idx as int ==> !intercepts(
                    #[trigger] ships@[t],
                    ships@[idx as int],
                ),
        decreases n - j,
    {
        if j != idx {
            if ships[j].does_intercept(&ships[idx]) {
                return true;
            }
        }
        j = j + 1;
    }
    false
}

/// A ship fits on the grid exactly when every cell of its footprint has both
/// coordinates on the grid.
pub proof fn lemma_can_exist_iff_footprint_in_bounds(
    kind: ShipKind,
    x: int,
    y: int,
    direction: ShipDirection,
)
    ensures
        can_exist_spec(kind, x, y, direction) <==> (forall|i: int|
            0 <= i < footprint_cells(kind, x, y, direction).len() ==> valid_cell(
                #[trigger] footprint_cells(kind, x, y, direction)[i],
            )),
{
    let cells = footprint_cells(kind, x, y, direction);
    let l = kind_length(kind) - 1;
    if forall|i: int| 0 <= i < cells.len() ==> valid_cell(#[trigger] cells[i]) {
        assert(valid_cell(cells[0]));
        assert(valid_cell(cells[l]));
    }
}

/// Every cell of a placed ship's footprint lies on the grid.
pub proof fn lemma_footprint_in_bounds(s: Ship, c: (int, int))
    requires
        s.placed(),
        s.footprint().contains(c),
    ensures
        valid_cell(c),
{
    lemma_can_exist_iff_footprint_in_bounds(s.kind, s.x as int, s.y as int, s.direction);
}

/// Interception is symmetric: two ships intercept each other or neither does.
pub proof fn lemma_intercepts_symmetric(a: Ship, b: Ship)
    ensures
        intercepts(a, b) == intercepts(b, a),
{
    if intercepts(a, b) {
        let c = choose|c: (int, int)| a.footprint().contains(c) && b.footprint().contains(c);
        assert(b.footprint().contains(c) && a.footprint().contains(c));
    }
    if intercepts(b, a) {
        let c = choose|c: (int, int)| b.footprint().contains(c) && a.footprint().contains(c);
        assert(a.footprint().contains(c) && b.footprint().contains(c));
    }
}

/// Two ships intercept exactly when their footprints are not disjoint.
pub proof fn lemma_intercepts_iff_not_disjoint(a: Ship, b: Ship)
    ensures
        intercepts(a, b) <==> !footprints_disjoint(a, b),
{
    if !footprints_disjoint(a, b) {
        let c = choose|c: (int, int)|
            #[trigger] a.footprint().contains(c) && b.footprint().contains(c);
        assert(intercepts(a, b));
    }
}

/// A footprint never names the same cell twice.
pub proof fn lemma_footprint_no_duplicates(kind: ShipKind, x: int, y: int, direction: ShipDirection)
    ensures
        footprint_cells(kind, x, y, direction).no_duplicates(),
{
    let cells = footprint_cells(kind, x, y, direction);
    assert forall|i: int, j: int|
        0 <= i < cells.len() && 0 <= j < cells.len() && i != j implies cells[i] != cells[j] by {
        match direction {
            ShipDirection::Down => assert(cells[i].1 != cells[j].1),
            ShipDirection::Up => assert(cells[i].1 != cells[j].1),
            ShipDirection::Left => assert(cells[i].0 != cells[j].0),
            ShipDirection::Right => assert(cells[i].0 != cells[j].0),
        }
    }
}

/// A ship is never hit on more cells than it has: its distinct recorded hits
/// number at most its kind's length.
pub proof fn lemma_hit_count_bounded(s: Ship)
    requires
        s.wf(),
    ensures
        s.hit_cells().len() <= kind_length(s.kind),
{
    broadcast use vstd::set::group_set_axioms;

    let hits = s.hit_cells();
    let fp = s.footprint();
    lemma_footprint_no_duplicates(s.kind, s.x as int, s.y as int, s.direction);
    hits.unique_seq_to_set();
    fp.unique_seq_to_set();
    vstd::seq_lib::seq_to_set_is_finite::<(int, int)>(fp);
    assert forall|c: (int, int)| hits.to_set().contains(c) implies fp.to_set().contains(c) by {
        let k = choose|k: int| 0 <= k < hits.len() && hits[k] == c;
        assert(fp.contains(hits[k]));
    }
    vstd::set_lib::lemma_len_subset(hits.to_set(), fp.to_set());
}

/// A placed ship with an unhit footprint cell is not yet sunk.
pub proof fn lemma_unhit_cell_means_afloat(s: Ship, c: (int, int))
    requires
        s.wf(),
        s.footprint().contains(c),
        !s.hit_cells().contains(c),
    ensures
        s.hit_cells().len() < kind_length(s.kind),
{
    broadcast use vstd::set::group_set_axioms;

    let hits = s.hit_cells();
    let fp = s.footprint();
    lemma_footprint_no_duplicates(s.kind, s.x as int, s.y as int, s.direction);
    hits.unique_seq_to_set();
    fp.unique_seq_to_set();
    vstd::seq_lib::seq_to_set_is_finite::<(int, int)>(fp);
    assert forall|d: (int, int)| hits.to_set().contains(d) implies fp.to_set().remove(c).contains(
        d,
    ) by {
        let k = choose|k: int| 0 <= k < hits.len() && hits[k] == d;
        assert(fp.contains(hits[k]));
    }
    assert(fp.to_set().contains(c));
    vstd::set_lib::lemma_len_subset(hits.to_set(), fp.to_set().remove(c));
}

/// A ship becomes sunk exactly when its distinct hit count reaches its
/// kind's length, never before.
pub proof fn lemma_sunk_exactly_at_full_count(s: Ship)
    requires
        s.wf(),
    ensures
        s.is_sunk_spec() <==> s.hit_cells().len() == kind_length(s.kind),
{
    lemma_hit_count_bounded(s);
}

/// Matching point and cell sequences name the same cells.
proof fn lemma_points_match_contains(pts: Seq<Point>, cells: Seq<(int, int)>, c: (int, int))
    requires
        points_match(pts, cells),
    ensures
        pts_contains(pts, c) <==> cells.contains(c),
{
    if pts_contains(pts, c) {
        let k = choose|k: int| 0 <= k < pts.len() && pts[k]@ == c;
        assert(cells[k] == c);
    }
    if cells.contains(c) {
        let k = choose|k: int| 0 <= k < cells.len() && cells[k] == c;
        assert(pts[k]@ == c);
    }
}

/// A point sequence names a cell exactly when its cell sequence contains it.
proof fn lemma_view_seq_contains(pts: Seq<Point>, c: (int, int))
    ensures
        pts_contains(pts, c) <==> view_seq(pts).contains(c),
{
    if pts_contains(pts, c) {
        let k = choose|k: int| 0 <= k < pts.len() && pts[k]@ == c;
        assert(view_seq(pts)[k] == c);
    }
    if view_seq(pts).contains(c) {
        let k = choose|k: int| 0 <= k < view_seq(pts).len() && view_seq(pts)[k] == c;
        assert(pts[k]@ == c);
    }
}

} // verus!
