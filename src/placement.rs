use vstd::prelude::*;
use crate::board::{Board, Cell, Coord, in_bounds, in_bounds_spec, is_ship};
use crate::piece::{Piece, PieceCell};

verus! {

/// (r1, c1) and (r2, c2) are the same cell or touch, diagonals included.
pub open spec fn near(r1: int, c1: int, r2: int, c2: int) -> bool {
    -1 <= r1 - r2 <= 1 && -1 <= c1 - c2 <= 1
}

/// Some ship cell of `b` lies in the 3×3 zone around (row, col).
pub open spec fn touches_ship(b: Board, row: int, col: int) -> bool {
    exists|r: int, c: int|
        in_bounds_spec(r, c) && near(row, col, r, c) && is_ship(#[trigger] b.cell(r, c))
}

/// No cell of `p` touches a ship of `b`.
pub open spec fn clear_of_ships(b: Board, p: Piece) -> bool {
    forall|i: int|
        0 <= i < p.cells@.len() ==> !#[trigger] touches_ship(b, p.abs_row(i), p.abs_col(i))
}

/// The state a piece cell shown as `prev` at (row, col) gets from validation.
pub open spec fn marked(b: Board, row: int, col: int, prev: Cell) -> Cell {
    if touches_ship(b, row, col) {
        Cell::ShipCollision
    } else if b.cell(row, col) == Cell::Empty {
        Cell::ShipVisible
    } else {
        prev
    }
}

/// The cells of `p` as validation against `b` annotates them.
pub open spec fn validated(b: Board, p: Piece) -> Seq<PieceCell> {
    Seq::new(
        p.cells@.len(),
        |i: int|
            PieceCell {
                offset: p.cells@[i].offset,
                state: marked(b, p.abs_row(i), p.abs_col(i), p.cells@[i].state),
            },
    )
}

/// Whether (row, col) is on the board and holds a ship cell.
fn ship_at(b: &Board, row: i32, col: i32) -> (r: bool)
    ensures
        r == (in_bounds_spec(row as int, col as int) && is_ship(b.cell(row as int, col as int))),
{
    let c = Coord { row, col };
    if in_bounds(c) {
        let v = b.get(c);
        v == Cell::ShipVisible || v == Cell::ShipHidden
    } else {
        false
    }
}

/// Whether a ship cell lies at (row, col) or at one of its up to eight
/// neighbours.
pub fn has_neighbours(b: &Board, row: i32, col: i32) -> (r: bool)
    requires
        in_bounds_spec(row as int, col as int),
    ensures
        r == touches_ship(*b, row as int, col as int),
{
    let found = ship_at(b, row - 1, col - 1) || ship_at(b, row - 1, col) || ship_at(
        b,
        row - 1,
        col + 1,
    ) || ship_at(b, row, col - 1) || ship_at(b, row, col) || ship_at(b, row, col + 1) || ship_at(
        b,
        row + 1,
        col - 1,
    ) || ship_at(b, row + 1, col) || ship_at(b, row + 1, col + 1);
    if !found {
        assert forall|r: int, c: int|
            in_bounds_spec(r, c) && near(row as int, col as int, r, c) implies !is_ship(
                #[trigger] b.cell(r, c),
            ) by {
            assert(r == row - 1 || r == row || r == row + 1);
            assert(c == col - 1 || c == col || c == col + 1);
        }
    }
    found
}

/// Validates `p` against the ships of `b` and returns whether some cell of
/// `p` is off the board. If one is, `p` is only marked unplaceable.
/// Otherwise each cell touching a ship is marked as a collision, each other
/// cell over an empty board cell as a visible ship, and `p` is placeable
/// exactly when no cell touches a ship.
pub fn validate(b: &Board, p: &mut Piece) -> (out_of_bounds: bool)
    ensures
        out_of_bounds == !old(p).fits(),
        final(p).anchor == old(p).anchor,
        out_of_bounds ==> final(p).cells@ == old(p).cells@ && !final(p).placeable,
        !out_of_bounds ==> final(p).cells@ == validated(*b, *old(p)),
        !out_of_bounds ==> final(p).placeable == clear_of_ships(*b, *old(p)),
{
    let n = p.cells.len();
    let mut i: usize = 0;
    while i < n
        invariant
            *p == *old(p),
            n == p.cells@.len(),
            i <= n,
            forall|k: int| 0 <= k < i ==> #[trigger] in_bounds_spec(p.abs_row(k), p.abs_col(k)),
        decreases n - i,
    {
        let row = p.anchor.row as i64 + p.cells[i].offset.row as i64;
        let col = p.anchor.col as i64 + p.cells[i].offset.col as i64;
        if row < 0 || row >= 10 || col < 0 || col >= 10 {
            assert(!in_bounds_spec(p.abs_row(i as int), p.abs_col(i as int)));
            p.placeable = false;
            return true;
        }
        i = i + 1;
    }
    let ghost start = *p;
    let mut clear = true;
    let mut i: usize = 0;
    while i < n
        invariant
            start == *old(p),
            start.fits(),
            n == start.cells@.len(),
            i <= n,
            p.anchor == start.anchor,
            p.cells@ == validated(*b, start).take(i as int).add(start.cells@.skip(i as int)),
            clear == (forall|k: int|
                0 <= k < i ==> !#[trigger] touches_ship(*b, start.abs_row(k), start.abs_col(k))),
        decreases n - i,
    {
        let pc = p.cells[i];
        assert(in_bounds_spec(start.abs_row(i as int), start.abs_col(i as int)));
        let row = p.anchor.row + pc.offset.row;
        let col = p.anchor.col + pc.offset.col;
        let state = if has_neighbours(b, row, col) {
            clear = false;
            Cell::ShipCollision
        } else if b.get(Coord { row, col }) == Cell::Empty {
            Cell::ShipVisible
        } else {
            pc.state
        };
        p.cells[i] = PieceCell { offset: pc.offset, state };
        i = i + 1;
        assert(p.cells@ =~= validated(*b, start).take(i as int).add(start.cells@.skip(i as int)));
    }
    assert(p.cells@ =~= validated(*b, start));
    p.placeable = clear;
    false
}

/// Validating a piece again against the same board changes nothing: its
/// cells keep their states, and it fits and is clear exactly as before.
pub proof fn lemma_validated_again(b: Board, p0: Piece, p: Piece)
    requires
        p.anchor == p0.anchor,
        p.cells@ == validated(b, p0),
    ensures
        validated(b, p) == p.cells@,
        clear_of_ships(b, p) == clear_of_ships(b, p0),
        p.fits() == p0.fits(),
{
    assert forall|i: int| 0 <= i < p.cells@.len() implies p.abs_row(i) == p0.abs_row(i)
        && p.abs_col(i) == p0.abs_col(i) by {
        assert(p.cells@[i] == validated(b, p0)[i]);
    }
    assert(validated(b, p) =~= p.cells@);
    assert(clear_of_ships(b, p) == clear_of_ships(b, p0));
    assert(p.fits() == p0.fits());
}

} // verus!
