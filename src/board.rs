use vstd::prelude::*;

verus! {

/// Side length of the square board.
pub const SIDE: i32 = 10;

/// Number of cells on a board.
pub const CELLS: usize = 100;

/// The state of a single board cell.
#[derive(Clone, Copy, Debug, PartialEq, Eq, Structural)]
pub enum Cell {
    Empty,
    /// A miss marker.
    Shot,
    ShipVisible,
    /// A ship cell in a conflicting position, or a ship cell that was hit.
    ShipCollision,
    /// A placed ship cell that is concealed from the other side.
    ShipHidden,
    /// The aiming cursor.
    ShotTarget,
}

/// A (row, column) pair: an absolute board address or a relative offset.
#[derive(Clone, Copy, Debug, PartialEq, Eq, Structural)]
pub struct Coord {
    pub row: i32,
    pub col: i32,
}

pub open spec fn in_bounds_spec(row: int, col: int) -> bool {
    0 <= row < 10 && 0 <= col < 10
}

/// Position of (row, col) in the row-major cell array.
pub open spec fn index_of(row: int, col: int) -> int {
    row * 10 + col
}

/// A cell that belongs to a ship, revealed or concealed.
pub open spec fn is_ship(c: Cell) -> bool {
    c == Cell::ShipVisible || c == Cell::ShipHidden
}

/// Every one of the 100 cells is empty.
pub open spec fn all_empty(s: Seq<Cell>) -> bool {
    &&& s.len() == 100
    &&& forall|q: int| 0 <= q < 100 ==> #[trigger] s[q] == Cell::Empty
}

/// A visible ship cell becomes concealed; every other cell stays.
pub open spec fn concealed(c: Cell) -> Cell {
    if c == Cell::ShipVisible { Cell::ShipHidden } else { c }
}

/// Whether both components of `c` lie in [0, 9].
pub fn in_bounds(c: Coord) -> (r: bool)
    ensures
        r == in_bounds_spec(c.row as int, c.col as int),
{
    0 <= c.row && c.row < SIDE && 0 <= c.col && c.col < SIDE
}

/// A 10×10 grid of cells, stored row by row.
#[derive(Clone, Copy, Debug)]
pub struct Board {
    pub cells: [Cell; 100],
}

impl View for Board {
    type V = Seq<Cell>;

    open spec fn view(&self) -> Seq<Cell> {
        self.cells@
    }
}

impl Board {
    /// The cell at (row, col).
    pub open spec fn cell(self, row: int, col: int) -> Cell {
        self@[index_of(row, col)]
    }

    /// A board whose cells are all empty.
    pub fn new() -> (b: Board)
        ensures
            all_empty(b@),
    {
        Board { cells: [Cell::Empty; 100] }
    }

    /// The cell at `c`.
    pub fn get(&self, c: Coord) -> (r: Cell)
        requires
            in_bounds_spec(c.row as int, c.col as int),
        ensures
            r == self.cell(c.row as int, c.col as int),
    {
        self.cells[(c.row * SIDE + c.col) as usize]
    }

    /// Conceals every visible ship cell.
    pub fn hide_ships(&mut self)
        ensures
            final(self)@ == old(self)@.map_values(|c: Cell| concealed(c)),
    {
        let mut i: usize = 0;
        while i < CELLS
            invariant
                i <= CELLS,
                forall|k: int| 0 <= k < i ==> self@[k] == concealed(#[trigger] old(self)@[k]),
                forall|k: int| i <= k < CELLS ==> #[trigger] self@[k] == old(self)@[k],
            decreases CELLS - i,
        {
            if self.cells[i] == Cell::ShipVisible {
                self.cells[i] = Cell::ShipHidden;
            }
            i = i + 1;
        }
        assert(self@ =~= old(self)@.map_values(|c: Cell| concealed(c)));
    }

    /// Replaces the cell at `c` with `v`.
    pub fn set(&mut self, c: Coord, v: Cell)
        requires
            in_bounds_spec(c.row as int, c.col as int),
        ensures
            final(self)@ == old(self)@.update(index_of(c.row as int, c.col as int), v),
    {
        self.cells[(c.row * SIDE + c.col) as usize] = v;
    }
}

} // verus!
