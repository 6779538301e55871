use vstd::prelude::*;
use crate::board::{Cell, Coord, in_bounds_spec};

verus! {

/// One cell of a piece: its offset from the anchor and the state it is shown in.
#[derive(Clone, Copy, Debug, PartialEq, Eq, Structural)]
pub struct PieceCell {
    pub offset: Coord,
    pub state: Cell,
}

/// A movable, rotatable ship: an anchor plus cell offsets relative to it,
/// and whether its last validation found it placeable.
#[derive(Debug)]
pub struct Piece {
    pub anchor: Coord,
    pub cells: Vec<PieceCell>,
    pub placeable: bool,
}

/// Row offset of the first cell of a straight piece of `size` cells.
pub open spec fn first_offset(size: int) -> int {
    if size >= 3 { -1 } else { 0 }
}

/// The cells of a vertical piece of `size` cells, each shown as a visible ship.
pub open spec fn vertical_cells(size: int) -> Seq<PieceCell> {
    Seq::new(
        size as nat,
        |i: int|
            PieceCell {
                offset: Coord { row: (first_offset(size) + i) as i32, col: 0 },
                state: Cell::ShipVisible,
            },
    )
}

/// The same cells with the row and column of every offset swapped.
pub open spec fn transposed(s: Seq<PieceCell>) -> Seq<PieceCell> {
    s.map_values(
        |pc: PieceCell|
            PieceCell { offset: Coord { row: pc.offset.col, col: pc.offset.row }, state: pc.state },
    )
}

impl Piece {
    /// Absolute row of cell `i`.
    pub open spec fn abs_row(&self, i: int) -> int {
        self.anchor.row + self.cells@[i].offset.row
    }

    /// Absolute column of cell `i`.
    pub open spec fn abs_col(&self, i: int) -> int {
        self.anchor.col + self.cells@[i].offset.col
    }

    /// Every absolute cell of the piece lies on the board.
    pub open spec fn fits(&self) -> bool {
        forall|i: int|
            0 <= i < self.cells@.len() ==> #[trigger] in_bounds_spec(
                self.abs_row(i),
                self.abs_col(i),
            )
    }

    /// Every cell of the piece, moved by (dr, dc), lies on the board.
    pub open spec fn fits_shifted(&self, dr: int, dc: int) -> bool {
        forall|i: int|
            0 <= i < self.cells@.len() ==> #[trigger] in_bounds_spec(
                self.abs_row(i) + dr,
                self.abs_col(i) + dc,
            )
    }

    /// Every cell of the piece, with row and column of its offset swapped,
    /// lies on the board.
    pub open spec fn fits_transposed(&self) -> bool {
        forall|i: int|
            0 <= i < self.cells@.len() ==> #[trigger] in_bounds_spec(
                self.anchor.row + self.cells@[i].offset.col,
                self.anchor.col + self.cells@[i].offset.row,
            )
    }

    /// Whether the piece, moved by (dr, dc), would lie on the board.
    pub fn fits_moved(&self, dr: i32, dc: i32) -> (r: bool)
        ensures
            r == self.fits_shifted(dr as int, dc as int),
    {
        let n = self.cells.len();
        let mut i: usize = 0;
        while i < n
            invariant
                n == self.cells@.len(),
                i <= n,
                forall|k: int|
                    0 <= k < i ==> #[trigger] in_bounds_spec(
                        self.abs_row(k) + dr,
                        self.abs_col(k) + dc,
                    ),
            decreases n - i,
        {
            let row = self.anchor.row as i64 + self.cells[i].offset.row as i64 + dr as i64;
            let col = self.anchor.col as i64 + self.cells[i].offset.col as i64 + dc as i64;
            if row < 0 || row >= 10 || col < 0 || col >= 10 {
                assert(!in_bounds_spec(self.abs_row(i as int) + dr, self.abs_col(i as int) + dc));
                return false;
            }
            i = i + 1;
        }
        true
    }

    /// Whether the piece, rotated, would lie on the board.
    pub fn fits_rotated(&self) -> (r: bool)
        ensures
            r == self.fits_transposed(),
    {
        let n = self.cells.len();
        let mut i: usize = 0;
        while i < n
            invariant
                n == self.cells@.len(),
                i <= n,
                forall|k: int|
                    0 <= k < i ==> #[trigger] in_bounds_spec(
                        self.anchor.row + self.cells@[k].offset.col,
                        self.anchor.col + self.cells@[k].offset.row,
                    ),
            decreases n - i,
        {
            let row = self.anchor.row as i64 + self.cells[i].offset.col as i64;
            let col = self.anchor.col as i64 + self.cells[i].offset.row as i64;
            if row < 0 || row >= 10 || col < 0 || col >= 10 {
                assert(!in_bounds_spec(
                    self.anchor.row + self.cells@[i as int].offset.col,
                    self.anchor.col + self.cells@[i as int].offset.row,
                ));
                return false;
            }
            i = i + 1;
        }
        true
    }

    /// A straight vertical piece of `size` cells at `anchor`; rotate it to
    /// make it horizontal.
    pub fn ship(size: usize, anchor: Coord) -> (p: Piece)
        requires
            1 <= size <= 4,
        ensures
            p.anchor == anchor,
            p.cells@ == vertical_cells(size as int),
            p.placeable,
    {
        let first: i32 = if size >= 3 { -1 } else { 0 };
        let mut cells: Vec<PieceCell> = Vec::new();
        let mut i: usize = 0;
        while i < size
            invariant
                i <= size <= 4,
                first == first_offset(size as int),
                cells@ == vertical_cells(size as int).take(i as int),
            decreases size - i,
        {
            cells.push(
                PieceCell {
                    offset: Coord { row: first + i as i32, col: 0 },
                    state: Cell::ShipVisible,
                },
            );
            i = i + 1;
            assert(cells@ =~= vertical_cells(size as int).take(i as int));
        }
        assert(cells@ =~= vertical_cells(size as int));
        Piece { anchor, cells, placeable: true }
    }

    /// Swaps the row and column of every offset: a vertical piece becomes
    /// horizontal and back.
    pub fn rotate(&mut self)
        ensures
            final(self).cells@ == transposed(old(self).cells@),
            final(self).anchor == old(self).anchor,
            final(self).placeable == old(self).placeable,
    {
        let n = self.cells.len();
        let mut i: usize = 0;
        while i < n
            invariant
                n == old(self).cells@.len(),
                i <= n,
                self.anchor == old(self).anchor,
                self.placeable == old(self).placeable,
                self.cells@ == transposed(old(self).cells@).take(i as int).add(
                    old(self).cells@.skip(i as int),
                ),
            decreases n - i,
        {
            let pc = self.cells[i];
            self.cells[i] = PieceCell {
                offset: Coord { row: pc.offset.col, col: pc.offset.row },
                state: pc.state,
            };
            i = i + 1;
            assert(self.cells@ =~= transposed(old(self).cells@).take(i as int).add(
                old(self).cells@.skip(i as int),
            ));
        }
        assert(self.cells@ =~= transposed(old(self).cells@));
    }
}

/// Rotating twice gives back the original offsets and states.
pub proof fn lemma_rotate_twice(s: Seq<PieceCell>)
    ensures
        transposed(transposed(s)) == s,
{
    assert(transposed(transposed(s)) =~= s);
}

} // verus!
