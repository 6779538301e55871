use vstd::prelude::*;
use crate::board::{Board, Cell, Coord, in_bounds_spec, index_of};

verus! {

/// The outcome of a shot.
#[derive(Clone, Copy, Debug, PartialEq, Eq, Structural)]
pub enum ShotResult {
    Hit,
    Miss,
}

/// The outcome of a shot at (row, col) and the cells afterwards: a concealed
/// ship cell is hit and becomes a collision marker; anything else is a miss
/// and nothing changes.
pub open spec fn shot_spec(b: Seq<Cell>, row: int, col: int) -> (ShotResult, Seq<Cell>) {
    if b[index_of(row, col)] == Cell::ShipHidden {
        (ShotResult::Hit, b.update(index_of(row, col), Cell::ShipCollision))
    } else {
        (ShotResult::Miss, b)
    }
}

/// Fires at `c` on `b`.
pub fn resolve_shot(b: &mut Board, c: Coord) -> (r: ShotResult)
    requires
        in_bounds_spec(c.row as int, c.col as int),
    ensures
        (r, final(b)@) == shot_spec(old(b)@, c.row as int, c.col as int),
{
    if b.get(c) == Cell::ShipHidden {
        b.set(c, Cell::ShipCollision);
        ShotResult::Hit
    } else {
        ShotResult::Miss
    }
}

/// A shot at a concealed ship cell hits and changes that cell; a second shot
/// at the same cell misses.
pub proof fn lemma_second_shot_misses(b: Seq<Cell>, row: int, col: int)
    requires
        b.len() == 100,
        in_bounds_spec(row, col),
        b[index_of(row, col)] == Cell::ShipHidden,
    ensures
        shot_spec(b, row, col).0 == ShotResult::Hit,
        shot_spec(b, row, col).1[index_of(row, col)] != b[index_of(row, col)],
        shot_spec(shot_spec(b, row, col).1, row, col).0 == ShotResult::Miss,
{
}

} // verus!
