use vstd::prelude::*;
use crate::board::{Board, Cell, Coord, in_bounds_spec, index_of};
use crate::piece::Piece;

verus! {

/// A board cell remembered before a piece was drawn over it.
#[derive(Clone, Copy, Debug, PartialEq, Eq, Structural)]
pub struct SavedCell {
    pub at: Coord,
    pub cell: Cell,
}

/// Board index of cell `i` of `p`.
pub open spec fn piece_index(p: Piece, i: int) -> int {
    index_of(p.abs_row(i), p.abs_col(i))
}

/// `b` with the first `n` cells of `p` drawn over it, in order.
pub open spec fn overlay_prefix(b: Seq<Cell>, p: Piece, n: int) -> Seq<Cell>
    decreases n,
{
    if n <= 0 {
        b
    } else {
        overlay_prefix(b, p, n - 1).update(piece_index(p, n - 1), p.cells@[n - 1].state)
    }
}

/// `b` with every cell of `p` drawn over it.
pub open spec fn overlay(b: Seq<Cell>, p: Piece) -> Seq<Cell> {
    overlay_prefix(b, p, p.cells@.len() as int)
}

/// The board cells under each cell of `p`.
pub open spec fn snapshot(b: Board, p: Piece) -> Seq<SavedCell> {
    Seq::new(
        p.cells@.len(),
        |i: int|
            SavedCell {
                at: Coord { row: p.abs_row(i) as i32, col: p.abs_col(i) as i32 },
                cell: b.cell(p.abs_row(i), p.abs_col(i)),
            },
    )
}

/// Board index of saved cell `j`.
pub open spec fn saved_index(s: Seq<SavedCell>, j: int) -> int {
    index_of(s[j].at.row as int, s[j].at.col as int)
}

/// `b` with the first `n` saved cells written back, in order.
pub open spec fn restore_prefix(b: Seq<Cell>, s: Seq<SavedCell>, n: int) -> Seq<Cell>
    decreases n,
{
    if n <= 0 {
        b
    } else {
        restore_prefix(b, s, n - 1).update(saved_index(s, n - 1), s[n - 1].cell)
    }
}

/// `b` with every saved cell written back.
pub open spec fn restore(b: Seq<Cell>, s: Seq<SavedCell>) -> Seq<Cell> {
    restore_prefix(b, s, s.len() as int)
}

/// Every saved cell lies on the board.
pub open spec fn saved_in_bounds(s: Seq<SavedCell>) -> bool {
    forall|j: int|
        0 <= j < s.len() ==> #[trigger] in_bounds_spec(s[j].at.row as int, s[j].at.col as int)
}

/// Drawing cells never changes the length of the board.
pub proof fn lemma_overlay_len(b: Seq<Cell>, p: Piece, n: int)
    requires
        b.len() == 100,
        p.fits(),
        n <= p.cells@.len(),
    ensures
        overlay_prefix(b, p, n).len() == b.len(),
    decreases n,
{
    if n > 0 {
        lemma_overlay_len(b, p, n - 1);
        assert(in_bounds_spec(p.abs_row(n - 1), p.abs_col(n - 1)));
    }
}

/// A board index that none of the first `n` cells of `p` covers keeps its cell.
pub proof fn lemma_overlay_outside(b: Seq<Cell>, p: Piece, n: int, q: int)
    requires
        b.len() == 100,
        p.fits(),
        n <= p.cells@.len(),
        0 <= q < 100,
        forall|i: int| 0 <= i < n ==> #[trigger] piece_index(p, i) != q,
    ensures
        overlay_prefix(b, p, n)[q] == b[q],
    decreases n,
{
    if n > 0 {
        lemma_overlay_outside(b, p, n - 1, q);
        lemma_overlay_len(b, p, n - 1);
        assert(in_bounds_spec(p.abs_row(n - 1), p.abs_col(n - 1)));
    }
}

/// Writing back saved cells that all agree with `base` gives `base` at every
/// index they cover, and leaves the other indices alone.
pub proof fn lemma_restore_at(x: Seq<Cell>, s: Seq<SavedCell>, n: int, base: Seq<Cell>, q: int)
    requires
        x.len() == 100,
        0 <= q < 100,
        n <= s.len(),
        saved_in_bounds(s),
        forall|j: int| 0 <= j < n ==> #[trigger] s[j].cell == base[saved_index(s, j)],
    ensures
        restore_prefix(x, s, n).len() == x.len(),
        restore_prefix(x, s, n)[q] == if exists|j: int| 0 <= j < n && #[trigger] saved_index(s, j) == q {
            base[q]
        } else {
            x[q]
        },
    decreases n,
{
    if n > 0 {
        lemma_restore_at(x, s, n - 1, base, q);
        assert(in_bounds_spec(s[n - 1].at.row as int, s[n - 1].at.col as int));
        if saved_index(s, n - 1) == q {
            assert(s[n - 1].cell == base[saved_index(s, n - 1)]);
        } else if exists|j: int| 0 <= j < n && #[trigger] saved_index(s, j) == q {
            let j = choose|j: int| 0 <= j < n && #[trigger] saved_index(s, j) == q;
            assert(0 <= j < n - 1);
        }
    }
}

/// The cells remembered under a piece that fits lie on the board.
pub proof fn lemma_snapshot_in_bounds(b: Board, p: Piece)
    requires
        p.fits(),
    ensures
        saved_in_bounds(snapshot(b, p)),
{
    let s = snapshot(b, p);
    assert forall|j: int| 0 <= j < s.len() implies #[trigger] in_bounds_spec(
        s[j].at.row as int,
        s[j].at.col as int,
    ) by {
        assert(in_bounds_spec(p.abs_row(j), p.abs_col(j)));
    }
}

/// Writing back the cells remembered under a piece undoes drawing it.
pub proof fn lemma_restore_undoes_overlay(base: Board, p: Piece)
    requires
        p.fits(),
        base@.len() == 100,
    ensures
        restore(overlay(base@, p), snapshot(base, p)) == base@,
{
    let s = snapshot(base, p);
    let n = p.cells@.len() as int;
    let drawn = overlay(base@, p);
    lemma_overlay_len(base@, p, n);
    lemma_snapshot_in_bounds(base, p);
    assert forall|j: int| 0 <= j < n implies #[trigger] saved_index(s, j) == piece_index(p, j) by {
        assert(in_bounds_spec(p.abs_row(j), p.abs_col(j)));
    }
    assert forall|q: int| 0 <= q < 100 implies #[trigger] restore(drawn, s)[q] == base@[q] by {
        lemma_restore_at(drawn, s, n, base@, q);
        if !(exists|j: int| 0 <= j < n && #[trigger] saved_index(s, j) == q) {
            assert forall|i: int| 0 <= i < n implies #[trigger] piece_index(p, i) != q by {
                assert(saved_index(s, i) == piece_index(p, i));
            }
            lemma_overlay_outside(base@, p, n, q);
        }
    }
    lemma_restore_at(drawn, s, n, base@, 0);
    assert(restore(drawn, s) =~= base@);
}

/// Draws every cell of `p` onto the board in its current state.
pub fn add_piece(b: &mut Board, p: &Piece)
    requires
        p.fits(),
    ensures
        final(b)@ == overlay(old(b)@, *p),
{
    let n = p.cells.len();
    let mut i: usize = 0;
    while i < n
        invariant
            p.fits(),
            n == p.cells@.len(),
            i <= n,
            b@ == overlay_prefix(old(b)@, *p, i as int),
        decreases n - i,
    {
        assert(in_bounds_spec(p.abs_row(i as int), p.abs_col(i as int)));
        let pc = p.cells[i];
        b.set(Coord { row: p.anchor.row + pc.offset.row, col: p.anchor.col + pc.offset.col }, pc.state);
        i = i + 1;
    }
}

/// Remembers the board cells that `p` is about to cover.
pub fn remember_before(b: &Board, p: &Piece) -> (s: Vec<SavedCell>)
    requires
        p.fits(),
    ensures
        s@ == snapshot(*b, *p),
{
    let n = p.cells.len();
    let mut s: Vec<SavedCell> = Vec::new();
    let mut i: usize = 0;
    while i < n
        invariant
            p.fits(),
            n == p.cells@.len(),
            i <= n,
            s@ == snapshot(*b, *p).take(i as int),
        decreases n - i,
    {
        assert(in_bounds_spec(p.abs_row(i as int), p.abs_col(i as int)));
        let pc = p.cells[i];
        let at = Coord { row: p.anchor.row + pc.offset.row, col: p.anchor.col + pc.offset.col };
        s.push(SavedCell { at, cell: b.get(at) });
        i = i + 1;
        assert(s@ =~= snapshot(*b, *p).take(i as int));
    }
    assert(s@ =~= snapshot(*b, *p));
    s
}

/// Writes every saved cell back onto the board.
pub fn place_before(b: &mut Board, s: &Vec<SavedCell>)
    requires
        saved_in_bounds(s@),
    ensures
        final(b)@ == restore(old(b)@, s@),
{
    let n = s.len();
    let mut j: usize = 0;
    while j < n
        invariant
            saved_in_bounds(s@),
            n == s@.len(),
            j <= n,
            b@ == restore_prefix(old(b)@, s@, j as int),
        decreases n - j,
    {
        assert(in_bounds_spec(s@[j as int].at.row as int, s@[j as int].at.col as int));
        b.set(s[j].at, s[j].cell);
        j = j + 1;
    }
}

} // verus!
