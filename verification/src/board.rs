//! The game board: a 10 x 10 grid of cell states, the five placed ships,
//! the count of ships still afloat, and strike resolution.

use vstd::prelude::*;

use crate::ship::{
    footprints_disjoint, kind_length, lemma_footprint_in_bounds, lemma_unhit_cell_means_afloat,
    valid_cell, Point, Ship, ShipKind,
};

verus! {

/// The state of one grid cell. A cell moves from Blank to Hit or Miss at
/// most once; strikes on a resolved cell are rejected.
#[derive(PartialEq, Eq, Structural, Debug, Clone, Copy)]
pub enum GridState {
    Blank,
    Hit,
    Miss,
}

/// The ship kind placed at each slot of a board, in the fixed order in which
/// every board is set up.
pub open spec fn kind_at(i: int) -> ShipKind {
    if i == 0 {
        ShipKind::Carrier
    } else if i == 1 {
        ShipKind::Battleship
    } else if i == 2 {
        ShipKind::Cruiser
    } else if i == 3 {
        ShipKind::Submarine
    } else {
        ShipKind::Destroyer
    }
}

/// The ship kind for a board slot.
pub fn kind_of_index(i: usize) -> (r: ShipKind)
    requires
        i < 5,
    ensures
        r == kind_at(i as int),
{
    if i == 0 {
        ShipKind::Carrier
    } else if i == 1 {
        ShipKind::Battleship
    } else if i == 2 {
        ShipKind::Cruiser
    } else if i == 3 {
        ShipKind::Submarine
    } else {
        ShipKind::Destroyer
    }
}

/// How many of the given ships are still afloat (not sunk).
pub open spec fn afloat_count(ships: Seq<Ship>) -> int
    decreases ships.len(),
{
    if ships.len() == 0 {
        0
    } else {
        afloat_count(ships.drop_last()) + if ships.last().is_sunk_spec() {
            0int
        } else {
            1int
        }
    }
}

/// With no ship sunk, every ship counts as afloat.
proof fn lemma_afloat_count_all_afloat(ships: Seq<Ship>)
    requires
        forall|i: int| 0 <= i < ships.len() ==> !(#[trigger] ships[i]).is_sunk_spec(),
    ensures
        afloat_count(ships) == ships.len(),
    decreases ships.len(),
{
    if ships.len() > 0 {
        lemma_afloat_count_all_afloat(ships.drop_last());
    }
}

/// A ship that is not sunk keeps the afloat count at one or more.
proof fn lemma_afloat_count_positive(ships: Seq<Ship>, i: int)
    requires
        0 <= i < ships.len(),
        !ships[i].is_sunk_spec(),
    ensures
        afloat_count(ships) >= 1,
    decreases ships.len(),
{
    lemma_afloat_count_nonneg(ships);
    if i < ships.len() - 1 {
        lemma_afloat_count_positive(ships.drop_last(), i);
    } else {
        lemma_afloat_count_nonneg(ships.drop_last());
    }
}

/// The afloat count is never negative.
proof fn lemma_afloat_count_nonneg(ships: Seq<Ship>)
    ensures
        afloat_count(ships) >= 0,
    decreases ships.len(),
{
    if ships.len() > 0 {
        lemma_afloat_count_nonneg(ships.drop_last());
    }
}

/// Changing one ship changes the afloat count by that ship's contribution.
proof fn lemma_afloat_count_update(s1: Seq<Ship>, s2: Seq<Ship>, i: int)
    requires
        s1.len() == s2.len(),
        0 <= i < s1.len(),
        forall|j: int| 0 <= j < s1.len() && j != i ==> s1[j] == s2[j],
    ensures
        afloat_count(s2) == afloat_count(s1) - (if s1[i].is_sunk_spec() {
            0int
        } else {
            1int
        }) + (if s2[i].is_sunk_spec() {
            0int
        } else {
            1int
        }),
    decreases s1.len(),
{
    if i == s1.len() - 1 {
        assert(s1.drop_last() =~= s2.drop_last());
    } else {
        lemma_afloat_count_update(s1.drop_last(), s2.drop_last(), i);
    }
}

/// No ship of a list counts as afloat exactly when every ship is sunk.
proof fn lemma_afloat_count_zero_iff_all_sunk(ships: Seq<Ship>)
    ensures
        afloat_count(ships) == 0 <==> (forall|i: int|
            0 <= i < ships.len() ==> (#[trigger] ships[i]).is_sunk_spec()),
    decreases ships.len(),
{
    if ships.len() > 0 {
        lemma_afloat_count_zero_iff_all_sunk(ships.drop_last());
        lemma_afloat_count_nonneg(ships.drop_last());
        if afloat_count(ships) == 0 {
            assert forall|i: int| 0 <= i < ships.len() implies (
            #[trigger] ships[i]).is_sunk_spec() by {
                if i < ships.len() - 1 {
                    assert(ships.drop_last()[i] == ships[i]);
                }
            }
        }
        if forall|i: int| 0 <= i < ships.len() ==> (#[trigger] ships[i]).is_sunk_spec() {
            assert forall|i: int| 0 <= i < ships.drop_last().len() implies (
            #[trigger] ships.drop_last()[i]).is_sunk_spec() by {
                assert(ships.drop_last()[i] == ships[i]);
            }
        }
    }
}

/// A board runs out of afloat ships exactly when all five of its ships are
/// sunk.
pub proof fn lemma_board_finished_iff_all_sunk(b: GameBoard)
    requires
        b.wf(),
    ensures
        b.ships_left == 0 <==> (forall|i: int|
            0 <= i < 5 ==> (#[trigger] b.ships@[i]).is_sunk_spec()),
{
    lemma_afloat_count_zero_iff_all_sunk(b.ships@);
}

/// A 10 x 10 grid of cell states (stored row by row), the five ships placed
/// on it, and the number of those ships still afloat.
pub struct GameBoard {
    pub board: Vec<GridState>,
    pub ships: Vec<Ship>,
    pub ships_left: u8,
}

impl GameBoard {
    /// The state of the grid cell `c`.
    pub open spec fn cell(self, c: (int, int)) -> GridState {
        self.board@[c.1 * 10 + c.0]
    }

    /// Every recorded hit of `s` is marked Hit on the grid.
    pub open spec fn ship_hits_marked(self, s: Ship) -> bool {
        forall|k: int|
            0 <= k < s.hit_cells().len() ==> self.cell(#[trigger] s.hit_cells()[k])
                == GridState::Hit
    }

    /// Board invariant: the grid has 100 cells; there are exactly five
    /// well-formed ships, one of each kind in the fixed order, with pairwise
    /// disjoint footprints; every recorded hit is marked on the grid; and
    /// `ships_left` counts the ships not yet sunk.
    pub open spec fn wf(self) -> bool {
        &&& self.board@.len() == 100
        &&& self.ships@.len() == 5
        &&& forall|i: int| 0 <= i < 5 ==> (#[trigger] self.ships@[i]).wf()
        &&& forall|i: int| 0 <= i < 5 ==> (#[trigger] self.ships@[i]).kind == kind_at(i)
        &&& forall|i: int, j: int|
            0 <= i < 5 && 0 <= j < 5 && i != j ==> footprints_disjoint(
                #[trigger] self.ships@[i],
                #[trigger] self.ships@[j],
            )
        &&& forall|i: int| 0 <= i < 5 ==> self.ship_hits_marked(#[trigger] self.ships@[i])
        &&& self.ships_left as int == afloat_count(self.ships@)
    }

    /// No cell of the board has been struck and no ship has been hit.
    pub open spec fn fresh(self) -> bool {
        &&& forall|c: (int, int)| valid_cell(c) ==> #[trigger] self.cell(c) == GridState::Blank
        &&& forall|i: int|
            0 <= i < self.ships@.len() ==> (#[trigger] self.ships@[i]).hit_points@.len() == 0
    }

    /// Some ship of the board occupies the cell `c`.
    pub open spec fn ship_occupies(self, c: (int, int)) -> bool {
        exists|i: int| 0 <= i < self.ships@.len() && (#[trigger] self.ships@[i]).footprint().contains(c)
    }

    /// Assembles a board from five freshly placed ships, one of each kind in
    /// the fixed order, with pairwise disjoint footprints. Every cell starts
    /// Blank and all five ships are afloat.
    pub fn build(ships: Vec<Ship>) -> (b: GameBoard)
        requires
            ships@.len() == 5,
            forall|i: int| 0 <= i < 5 ==> (#[trigger] ships@[i]).placed(),
            forall|i: int| 0 <= i < 5 ==> (#[trigger] ships@[i]).hit_points@.len() == 0,
            forall|i: int| 0 <= i < 5 ==> (#[trigger] ships@[i]).kind == kind_at(i),
            forall|i: int, j: int|
                0 <= i < 5 && 0 <= j < 5 && i != j ==> footprints_disjoint(
                    #[trigger] ships@[i],
                    #[trigger] ships@[j],
                ),
        ensures
            b.wf(),
            b.fresh(),
            b.ships@ == ships@,
            b.ships_left == 5,
    {
        let mut board: Vec<GridState> = Vec::new();
        let mut i: usize = 0;
        while i < 100
            invariant
                i <= 100,
                board@.len() == i as int,
                forall|k: int| 0 <= k < i as int ==> #[trigger] board@[k] == GridState::Blank,
            decreases 100 - i,
        {
            board.push(GridState::Blank);
            i = i + 1;
        }
        proof {
            assert forall|k: int| 0 <= k < ships@.len() implies (#[trigger] ships@[k]).wf()
                && !ships@[k].is_sunk_spec() by {
                assert(ships@[k].hit_cells().len() == 0);
                assert(kind_length(ships@[k].kind) >= 2);
            }
            lemma_afloat_count_all_afloat(ships@);
        }
        let b = GameBoard { board, ships, ships_left: 5 };
        proof {
            assert forall|i: int| 0 <= i < 5 implies b.ship_hits_marked(#[trigger] b.ships@[i]) by {
                assert(b.ships@[i].hit_cells().len() == 0);
            }
        }
        b
    }

    /// The slot of the ship whose footprint holds `target`, if any.
    fn find_ship_at(&self, target: &Point) -> (r: Option<usize>)
        requires
            forall|i: int| 0 <= i < self.ships@.len() ==> (#[trigger] self.ships@[i]).placed(),
        ensures
            r matches Some(i) ==> i < self.ships@.len() && self.ships@[i as int].footprint().contains(
                target@,
            ),
            r is None ==> forall|i: int|
                0 <= i < self.ships@.len() ==> !(#[trigger] self.ships@[i]).footprint().contains(
                    target@,
                ),
    {
        let n = self.ships.len();
        let mut i: usize = 0;
        while i < n
            invariant
                n == self.ships@.len(),
                i <= n,
                forall|k: int| 0 <= k < self.ships@.len() ==> (#[trigger] self.ships@[k]).placed(),
                forall|k: int|
                    0 <= k < i as int ==> !(#[trigger] self.ships@[k]).footprint().contains(
                        target@,
                    ),
            decreases n - i,
        {
            if self.ships[i].is_hit_by(target) {
                return Some(i);
            }
            i = i + 1;
        }
        None
    }

    /// The state of the cell at `point`.
    pub fn cell_at(&self, point: &Point) -> (r: GridState)
        requires
            self.board@.len() == 100,
            point.0 <= 9,
            point.1 <= 9,
        ensures
            r == self.cell(point@),
    {
        self.board[point.1 as usize * 10 + point.0 as usize]
    }
    /// Resolves a strike on the cell at `target`.
    ///
    /// A strike on a cell that was already resolved is rejected unchanged: it
    /// never alters the grid, a ship's hits, or the afloat count. On a Blank
    /// cell the strike marks the cell, and when a ship occupies it, records
    /// one new hit on that ship; the outcome reports a plain hit, the sinking
    /// of the ship, or, when the last afloat ship sinks, the end of the game.
    pub fn resolve_strike(&mut self, target: &Point) -> (r: Result<StrikeOutcome, StrikeError>)
        requires
            old(self).wf(),
            target.0 <= 9,
            target.1 <= 9,
        ensures
            final(self).wf(),
            strike_post(*old(self), *final(self), target@, r),
    {
        let idx = target.1 as usize * 10 + target.0 as usize;
        match self.board[idx] {
            GridState::Blank => {},
            _ => {
                return Err(StrikeError::InvalidStrike);
            },
        }
        let found = self.find_ship_at(target);
        match found {
            None => {
                self.board[idx] = GridState::Miss;
                proof {
                    lemma_resolved_cell_states(*old(self), *self, target@);
                }
                Ok(StrikeOutcome::Miss)
            },
            Some(i) => {
                self.board[idx] = GridState::Hit;
                let kind = self.ships[i].kind;
                proof {
                    // The target cell was Blank, so it is not among the
                    // recorded hits of the struck ship.
                    if old(self).ships@[i as int].hit_cells().contains(target@) {
                        let k = choose|k: int|
                            0 <= k < old(self).ships@[i as int].hit_cells().len() && old(
                                self,
                            ).ships@[i as int].hit_cells()[k] == target@;
                        assert(old(self).cell(target@) == GridState::Hit);
                    }
                }
                self.ships[i].hit(*target);
                let now_sunk = self.ships[i].is_sunk();
                proof {
                    lemma_resolved_cell_states(*old(self), *self, target@);
                    lemma_unhit_cell_means_afloat(
                        old(self).ships@[i as int],
                        target@,
                    );
                    lemma_afloat_count_update(old(self).ships@, self.ships@, i as int);
                    if now_sunk {
                        lemma_afloat_count_positive(old(self).ships@, i as int);
                    }
                    lemma_strike_wf(*old(self), *self, target@, i as int);
                }
                if now_sunk {
                    self.ships_left = self.ships_left - 1;
                    if self.ships_left == 0 {
                        Ok(StrikeOutcome::GameOver(kind))
                    } else {
                        Ok(StrikeOutcome::Sunk(kind))
                    }
                } else {
                    Ok(StrikeOutcome::Hit(kind))
                }
            },
        }
    }
}

/// The outcome of a resolved strike: a miss, a hit on a ship, the sinking of
/// a ship, or the sinking of the last afloat ship, which ends the game.
#[derive(PartialEq, Eq, Structural, Debug, Clone, Copy)]
pub enum StrikeOutcome {
    Miss,
    Hit(ShipKind),
    Sunk(ShipKind),
    GameOver(ShipKind),
}

/// Why a strike was rejected: the cell was already resolved, or the game on
/// this board had already ended.
#[derive(PartialEq, Eq, Structural, Debug, Clone, Copy)]
pub enum StrikeError {
    InvalidStrike,
    GameAlreadyOver,
}

/// Everything a resolved strike does, relating the board before (`pre`) and
/// after (`post`) a strike on the cell `t` that returned `r`.
pub open spec fn strike_post(
    pre: GameBoard,
    post: GameBoard,
    t: (int, int),
    r: Result<StrikeOutcome, StrikeError>,
) -> bool {
    &&& post.ships@.len() == pre.ships@.len()
    &&& (pre.cell(t) != GridState::Blank ==> {
        &&& r == Err::<StrikeOutcome, StrikeError>(StrikeError::InvalidStrike)
        &&& post.board@ == pre.board@
        &&& post.ships@ == pre.ships@
        &&& post.ships_left == pre.ships_left
    })
    &&& (pre.cell(t) == GridState::Blank ==> {
        &&& post.board@ == pre.board@.update(
            t.1 * 10 + t.0,
            if pre.ship_occupies(t) {
                GridState::Hit
            } else {
                GridState::Miss
            },
        )
        &&& (!pre.ship_occupies(t) ==> {
            &&& r == Ok::<StrikeOutcome, StrikeError>(StrikeOutcome::Miss)
            &&& post.ships@ == pre.ships@
            &&& post.ships_left == pre.ships_left
        })
        &&& (forall|i: int|
            0 <= i < pre.ships@.len() && !(#[trigger] pre.ships@[i]).footprint().contains(t)
                ==> post.ships@[i] == pre.ships@[i])
        &&& (forall|i: int|
            0 <= i < pre.ships@.len() && (#[trigger] pre.ships@[i]).footprint().contains(t) ==> {
                let kind = pre.ships@[i].kind;
                &&& post.ships@[i].same_placement(pre.ships@[i])
                &&& post.ships@[i].hit_cells() == pre.ships@[i].hit_cells().push(t)
                &&& (!post.ships@[i].is_sunk_spec() ==> {
                    &&& r == Ok::<StrikeOutcome, StrikeError>(StrikeOutcome::Hit(kind))
                    &&& post.ships_left == pre.ships_left
                })
                &&& (post.ships@[i].is_sunk_spec() ==> {
                    &&& post.ships_left == pre.ships_left - 1
                    &&& (pre.ships_left > 1 ==> r == Ok::<StrikeOutcome, StrikeError>(
                        StrikeOutcome::Sunk(kind),
                    ))
                    &&& (pre.ships_left == 1 ==> r == Ok::<StrikeOutcome, StrikeError>(
                        StrikeOutcome::GameOver(kind),
                    ))
                })
            })
    })
}

/// Distinct grid cells live at distinct indices of the stored grid.
proof fn lemma_cell_index_injective(a: (int, int), b: (int, int))
    requires
        valid_cell(a),
        valid_cell(b),
        a != b,
    ensures
        a.1 * 10 + a.0 != b.1 * 10 + b.0,
{
}

/// After updating only the target cell's entry, every other valid cell keeps
/// its state.
proof fn lemma_resolved_cell_states(pre: GameBoard, post: GameBoard, t: (int, int))
    requires
        pre.board@.len() == 100,
        valid_cell(t),
        post.board@ == pre.board@.update(t.1 * 10 + t.0, post.cell(t)),
    ensures
        forall|c: (int, int)| valid_cell(c) && c != t ==> post.cell(c) == pre.cell(c),
{
    assert forall|c: (int, int)| valid_cell(c) && c != t implies post.cell(c) == pre.cell(c) by {
        lemma_cell_index_injective(c, t);
    }
}

/// A strike on the Blank cell `t` of the ship in slot `i` preserves the
/// board invariant, before the afloat count is adjusted.
proof fn lemma_strike_wf(pre: GameBoard, post: GameBoard, t: (int, int), i: int)
    requires
        pre.wf(),
        valid_cell(t),
        pre.cell(t) == GridState::Blank,
        0 <= i < 5,
        post.board@ == pre.board@.update(t.1 * 10 + t.0, GridState::Hit),
        post.ships@.len() == 5,
        forall|j: int| 0 <= j < 5 && j != i ==> post.ships@[j] == pre.ships@[j],
        post.ships@[i].wf(),
        post.ships@[i].same_placement(pre.ships@[i]),
        post.ships@[i].hit_cells() == pre.ships@[i].hit_cells().push(t),
    ensures
        forall|j: int| 0 <= j < 5 ==> (#[trigger] post.ships@[j]).wf(),
        forall|j: int| 0 <= j < 5 ==> (#[trigger] post.ships@[j]).kind == kind_at(j),
        forall|j: int, k: int|
            0 <= j < 5 && 0 <= k < 5 && j != k ==> footprints_disjoint(
                #[trigger] post.ships@[j],
                #[trigger] post.ships@[k],
            ),
        forall|j: int| 0 <= j < 5 ==> post.ship_hits_marked(#[trigger] post.ships@[j]),
        post.cell(t) == GridState::Hit,
{
    assert(post.ships@[i].footprint() == pre.ships@[i].footprint());
    assert forall|j: int, k: int|
        0 <= j < 5 && 0 <= k < 5 && j != k implies footprints_disjoint(
        #[trigger] post.ships@[j],
        #[trigger] post.ships@[k],
    ) by {
        assert(post.ships@[j].footprint() == pre.ships@[j].footprint());
        assert(post.ships@[k].footprint() == pre.ships@[k].footprint());
    }
    lemma_resolved_cell_states(pre, post, t);
    assert(post.cell(t) == GridState::Hit);
    assert forall|j: int| 0 <= j < 5 implies post.ship_hits_marked(#[trigger] post.ships@[j]) by {
        assert forall|k: int| 0 <= k < post.ships@[j].hit_cells().len() implies post.cell(
            #[trigger] post.ships@[j].hit_cells()[k],
        ) == GridState::Hit by {
            let c = post.ships@[j].hit_cells()[k];
            if j == i && k == post.ships@[j].hit_cells().len() - 1 {
                assert(c == t);
            } else {
                assert(pre.ships@[j].hit_cells()[k] == c);
                assert(pre.cell(c) == GridState::Hit);
                assert(pre.ships@[j].footprint().contains(c));
                lemma_footprint_in_bounds(pre.ships@[j], c);
                if c != t {
                    lemma_cell_index_injective(c, t);
                }
            }
        }
    }
}

} // verus!
