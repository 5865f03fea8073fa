//! The opponent's targeting heuristic: strike an untouched cell, preferring
//! cells next to a hit on a ship that is still afloat.

use vstd::prelude::*;

use crate::board::{GameBoard, GridState};
use crate::rng::random_below;
use crate::ship::{pts_contains, valid_cell, Point};

verus! {

/// The board has no untouched cell left to strike.
#[derive(PartialEq, Eq, Structural, Debug, Clone, Copy)]
pub enum TargetError {
    NoUntouchedCells,
}

/// Two cells are orthogonal neighbours.
pub open spec fn adjacent(p: (int, int), q: (int, int)) -> bool {
    ||| p.0 == q.0 && (p.1 == q.1 + 1 || p.1 == q.1 - 1)
    ||| p.1 == q.1 && (p.0 == q.0 + 1 || p.0 == q.0 - 1)
}

/// Some still-afloat ship of the board occupies the cell `q`.
pub open spec fn live_hit(b: GameBoard, q: (int, int)) -> bool {
    exists|i: int|
        0 <= i < b.ships@.len() && (#[trigger] b.ships@[i]).footprint().contains(q)
            && !b.ships@[i].is_sunk_spec()
}

/// An untouched cell orthogonally adjacent to a hit on a still-afloat ship:
/// the cells the heuristic prefers.
pub open spec fn is_priority_cell(b: GameBoard, p: (int, int)) -> bool {
    &&& valid_cell(p)
    &&& b.cell(p) == GridState::Blank
    &&& exists|q: (int, int)|
        valid_cell(q) && adjacent(p, q) && (#[trigger] b.cell(q)) == GridState::Hit && live_hit(
            b,
            q,
        )
}

/// Some cell of the board is a priority cell.
pub open spec fn has_priority_cell(b: GameBoard) -> bool {
    exists|p: (int, int)| #[trigger] is_priority_cell(b, p)
}

/// Some cell of the board is still untouched.
pub open spec fn has_blank_cell(b: GameBoard) -> bool {
    exists|p: (int, int)| valid_cell(p) && (#[trigger] b.cell(p)) == GridState::Blank
}

/// The cell `c` was already visited by a scan that walks columns outward and
/// rows within a column, and stands at column `x`, row `y`.
pub open spec fn before(c: (int, int), x: int, y: int) -> bool {
    c.0 < x || (c.0 == x && c.1 < y)
}

/// A sequence keeps naming every cell it named after a push.
proof fn lemma_pts_contains_push(pts: Seq<Point>, p: Point, c: (int, int))
    ensures
        pts_contains(pts, c) ==> pts_contains(pts.push(p), c),
        pts_contains(pts.push(p), p@),
{
    if pts_contains(pts, c) {
        let k = choose|k: int| 0 <= k < pts.len() && pts[k]@ == c;
        assert(pts.push(p)[k]@ == c);
    }
    assert(pts.push(p)[pts.len() as int]@ == p@);
}

/// Does some still-afloat ship of the board occupy the cell at `point`?
fn live_ship_at(board: &GameBoard, point: &Point) -> (r: bool)
    requires
        forall|i: int| 0 <= i < board.ships@.len() ==> (#[trigger] board.ships@[i]).placed(),
    ensures
        r == live_hit(*board, point@),
{
    let n = board.ships.len();
    let mut i: usize = 0;
    while i < n
        invariant
            n == board.ships@.len(),
            i <= n,
            forall|k: int| 0 <= k < board.ships@.len() ==> (#[trigger] board.ships@[k]).placed(),
            forall|k: int|
                0 <= k < i as int ==> !((#[trigger] board.ships@[k]).footprint().contains(point@)
                    && !board.ships@[k].is_sunk_spec()),
        decreases n - i,
    {
        if board.ships[i].is_hit_by(point) && !board.ships[i].is_sunk() {
            return true;
        }
        i = i + 1;
    }
    false
}

/// Appends `p` to the priority pool when its cell is still untouched.
fn consider_neighbor(rec: &mut Vec<Point>, board: &GameBoard, p: Point)
    requires
        board.board@.len() == 100,
        p.0 <= 9,
        p.1 <= 9,
    ensures
        forall|c: (int, int)| pts_contains(old(rec)@, c) ==> pts_contains(final(rec)@, c),
        board.cell(p@) == GridState::Blank ==> pts_contains(final(rec)@, p@),
        forall|k: int|
            0 <= k < final(rec)@.len() ==> pts_contains(old(rec)@, #[trigger] final(rec)@[k]@) || (
            final(rec)@[k]@ == p@ && board.cell(p@) == GridState::Blank),
{
    if board.cell_at(&p) == GridState::Blank {
        let ghost prior = rec@;
        rec.push(p);
        proof {
            assert forall|c: (int, int)| pts_contains(prior, c) implies pts_contains(
                rec@,
                c,
            ) by {
                lemma_pts_contains_push(prior, p, c);
            }
            lemma_pts_contains_push(prior, p, p@);
            assert forall|k: int| 0 <= k < rec@.len() implies pts_contains(
                prior,
                #[trigger] rec@[k]@,
            ) || rec@[k]@ == p@ by {
                if k < prior.len() {
                    assert(prior[k]@ == rec@[k]@);
                }
            }
        }
    } else {
        proof {
            assert forall|k: int| 0 <= k < rec@.len() implies pts_contains(
                rec@,
                #[trigger] rec@[k]@,
            ) by {
                assert(rec@[k]@ == rec@[k]@);
            }
        }
    }
}

/// Chooses the opponent's next target on `target_board`.
///
/// Every untouched cell is a candidate; untouched cells next to a hit on a
/// still-afloat ship form the priority pool. A cell is drawn at random from
/// the priority pool when it is non-empty, otherwise from the untouched
/// cells. The chosen cell is always on the grid and untouched; the heuristic
/// fails exactly when no untouched cell remains.
#[verifier::loop_isolation(false)]
pub fn gen_bot_target(target_board: &GameBoard) -> (r: Result<Point, TargetError>)
    requires
        target_board.wf(),
    ensures
        r matches Ok(p) ==> p.0 <= 9 && p.1 <= 9 && target_board.cell(p@) == GridState::Blank,
        has_priority_cell(*target_board) ==> (r matches Ok(p) && is_priority_cell(
            *target_board,
            p@,
        )),
        r is Err <==> !has_blank_cell(*target_board),
{
    let mut possible: Vec<Point> = Vec::new();
    let mut recommended: Vec<Point> = Vec::new();
    let mut x: u8 = 0;
    while x < 10
        invariant
            x <= 10,
            forall|k: int|
                0 <= k < possible@.len() ==> valid_cell(#[trigger] possible@[k]@)
                    && target_board.cell(possible@[k]@) == GridState::Blank,
            forall|c: (int, int)|
                valid_cell(c) && before(c, x as int, 0) && (#[trigger] target_board.cell(c))
                    == GridState::Blank ==> pts_contains(possible@, c),
            forall|k: int|
                0 <= k < recommended@.len() ==> is_priority_cell(
                    *target_board,
                    #[trigger] recommended@[k]@,
                ),
            forall|p: (int, int), q: (int, int)|
                valid_cell(p) && valid_cell(q) && before(q, x as int, 0) && adjacent(p, q) && (
                #[trigger] target_board.cell(q)) == GridState::Hit && live_hit(*target_board, q)
                    && (#[trigger] target_board.cell(p)) == GridState::Blank ==> pts_contains(
                    recommended@,
                    p,
                ),
        decreases 10 - x,
    {
        let mut y: u8 = 0;
        while y < 10
            invariant
                y <= 10,
                forall|k: int|
                    0 <= k < possible@.len() ==> valid_cell(#[trigger] possible@[k]@)
                        && target_board.cell(possible@[k]@) == GridState::Blank,
                forall|c: (int, int)|
                    valid_cell(c) && before(c, x as int, y as int) && (
                    #[trigger] target_board.cell(c)) == GridState::Blank ==> pts_contains(
                        possible@,
                        c,
                    ),
                forall|k: int|
                    0 <= k < recommended@.len() ==> is_priority_cell(
                        *target_board,
                        #[trigger] recommended@[k]@,
                    ),
                forall|p: (int, int), q: (int, int)|
                    valid_cell(p) && valid_cell(q) && before(q, x as int, y as int) && adjacent(
                        p,
                        q,
                    ) && (#[trigger] target_board.cell(q)) == GridState::Hit && live_hit(
                        *target_board,
                        q,
                    ) && (#[trigger] target_board.cell(p)) == GridState::Blank ==> pts_contains(
                        recommended@,
                        p,
                    ),
            decreases 10 - y,
        {
            let here = Point(x, y);
            let state = target_board.cell_at(&here);
            if state == GridState::Blank {
                let ghost prior = possible@;
                possible.push(here);
                proof {
                    assert forall|c: (int, int)|
                        valid_cell(c) && before(c, x as int, y as int + 1) && (
                        #[trigger] target_board.cell(c)) == GridState::Blank implies pts_contains(
                        possible@,
                        c,
                    ) by {
                        if c == here@ {
                            lemma_pts_contains_push(prior, here, here@);
                        } else {
                            assert(before(c, x as int, y as int));
                            lemma_pts_contains_push(prior, here, c);
                        }
                    }
                    assert forall|k: int| 0 <= k < possible@.len() implies valid_cell(
                        #[trigger] possible@[k]@,
                    ) && target_board.cell(possible@[k]@) == GridState::Blank by {
                        if k < prior.len() {
                            assert(prior[k]@ == possible@[k]@);
                        }
                    }
                }
            } else if state == GridState::Hit {
                if live_ship_at(target_board, &here) {
                    let ghost entering = recommended@;
                    if y > 0 {
                        consider_neighbor(&mut recommended, target_board, Point(x, y - 1));
                    }
                    if y < 9 {
                        consider_neighbor(&mut recommended, target_board, Point(x, y + 1));
                    }
                    if x > 0 {
                        consider_neighbor(&mut recommended, target_board, Point(x - 1, y));
                    }
                    if x < 9 {
                        consider_neighbor(&mut recommended, target_board, Point(x + 1, y));
                    }
                    proof {
                        assert forall|k: int| 0 <= k < recommended@.len() implies is_priority_cell(
                            *target_board,
                            #[trigger] recommended@[k]@,
                        ) by {
                            let c = recommended@[k]@;
                            if !pts_contains(entering, c) {
                                // Newly added this round: a Blank neighbour of
                                // the live hit at `here`.
                                assert(adjacent(c, here@));
                                assert(target_board.cell(here@) == GridState::Hit);
                            } else {
                                let t = choose|t: int|
                                    0 <= t < entering.len() && entering[t]@ == c;
                                assert(is_priority_cell(*target_board, entering[t]@));
                            }
                        }
                        assert forall|p: (int, int), q: (int, int)|
                            valid_cell(p) && valid_cell(q) && before(q, x as int, y as int + 1)
                                && adjacent(p, q) && (#[trigger] target_board.cell(q))
                                == GridState::Hit && live_hit(*target_board, q) && (
                            #[trigger] target_board.cell(p)) == GridState::Blank implies
                            pts_contains(recommended@, p) by {
                            if q == here@ {
                                assert(p == (here@.0, here@.1 - 1) || p == (here@.0, here@.1 + 1)
                                    || p == (here@.0 - 1, here@.1) || p == (here@.0 + 1, here@.1));
                            } else {
                                assert(before(q, x as int, y as int));
                            }
                        }
                    }
                } else {
                    proof {
                        assert forall|p: (int, int), q: (int, int)|
                            valid_cell(p) && valid_cell(q) && before(q, x as int, y as int + 1)
                                && adjacent(p, q) && (#[trigger] target_board.cell(q))
                                == GridState::Hit && live_hit(*target_board, q) && (
                            #[trigger] target_board.cell(p)) == GridState::Blank implies
                            pts_contains(recommended@, p) by {
                            if q != here@ {
                                assert(before(q, x as int, y as int));
                            }
                        }
                    }
                }
            }
            y = y + 1;
        }
        x = x + 1;
    }
    if recommended.len() > 0 {
        let i = random_below(recommended.len());
        let p = recommended[i];
        proof {
            assert(is_priority_cell(*target_board, p@));
        }
        Ok(p)
    } else if possible.len() > 0 {
        let i = random_below(possible.len());
        let p = possible[i];
        proof {
            if has_priority_cell(*target_board) {
                let pc = choose|pc: (int, int)| is_priority_cell(*target_board, pc);
                assert(pts_contains(recommended@, pc));
            }
        }
        Ok(p)
    } else {
        proof {
            assert forall|c: (int, int)|
                valid_cell(c) implies (#[trigger] target_board.cell(c)) != GridState::Blank by {
                if target_board.cell(c) == GridState::Blank {
                    assert(before(c, 10, 0));
                    assert(pts_contains(possible@, c));
                }
            }
            if has_priority_cell(*target_board) {
                let pc = choose|pc: (int, int)| is_priority_cell(*target_board, pc);
                assert(target_board.cell(pc) == GridState::Blank);
            }
        }
        Err(TargetError::NoUntouchedCells)
    }
}

} // verus!
