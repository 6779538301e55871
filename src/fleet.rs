use vstd::prelude::*;
use rand::Rng;
use crate::board::{Board, Cell, Coord, all_empty, in_bounds_spec, index_of, is_ship};
use crate::piece::{Piece, PieceCell, transposed, vertical_cells};
use crate::placement::{clear_of_ships, near, touches_ship, validate};
use crate::preview::{add_piece, overlay, overlay_prefix, piece_index};

verus! {

/// Number of pieces in a fleet.
pub const FLEET_PIECES: usize = 10;

/// Size of piece `k` of a fleet, placed in the order 4, 3, 3, 2, 2, 2, 1, 1, 1, 1.
pub open spec fn fleet_size(k: int) -> int {
    if k == 0 {
        4
    } else if k <= 2 {
        3
    } else if k <= 5 {
        2
    } else {
        1
    }
}

/// Size of piece `k` of a fleet.
pub fn piece_size(k: usize) -> (r: usize)
    requires
        k < FLEET_PIECES,
    ensures
        r == fleet_size(k as int),
{
    if k == 0 {
        4
    } else if k <= 2 {
        3
    } else if k <= 5 {
        2
    } else {
        1
    }
}

/// The cells of a straight piece of `size` cells, vertical or rotated.
pub open spec fn shape(size: int, rotated: bool) -> Seq<PieceCell> {
    if rotated {
        transposed(vertical_cells(size))
    } else {
        vertical_cells(size)
    }
}

/// The offsets of `p` are those of a straight piece of `size` cells.
pub open spec fn has_shape(p: Piece, size: int, rotated: bool) -> bool {
    &&& p.cells@.len() == size
    &&& forall|i: int|
        0 <= i < size ==> #[trigger] p.cells@[i].offset == shape(size, rotated)[i].offset
}

/// Every cell of `p` is shown as a visible ship.
pub open spec fn all_visible(p: Piece) -> bool {
    forall|i: int| 0 <= i < p.cells@.len() ==> #[trigger] p.cells@[i].state == Cell::ShipVisible
}

/// Number of ship cells in `s`.
pub open spec fn ship_count(s: Seq<Cell>) -> int
    decreases s.len(),
{
    if s.len() == 0 {
        0
    } else {
        ship_count(s.drop_last()) + if is_ship(s.last()) {
            1int
        } else {
            0int
        }
    }
}

/// Total number of cells of the first `k` pieces of a fleet.
pub open spec fn fleet_cells(k: int) -> int
    decreases k,
{
    if k <= 0 {
        0
    } else {
        fleet_cells(k - 1) + fleet_size(k - 1)
    }
}

/// Some cell of some piece of `f` lies at board index `q`.
pub open spec fn covered(f: Seq<Piece>, q: int) -> bool {
    exists|j: int, i: int|
        0 <= j < f.len() && 0 <= i < f[j].cells@.len() && #[trigger] piece_index(f[j], i) == q
}

/// `b` shows exactly the cells of `f`, as visible ships, and is empty elsewhere.
pub open spec fn holds_fleet(b: Seq<Cell>, f: Seq<Piece>) -> bool {
    &&& b.len() == 100
    &&& forall|q: int|
        0 <= q < 100 ==> #[trigger] b[q] == if covered(f, q) {
            Cell::ShipVisible
        } else {
            Cell::Empty
        }
}

/// No cell of `p1` is at or next to a cell of `p2`, diagonals included.
pub open spec fn apart(p1: Piece, p2: Piece) -> bool {
    forall|i1: int, i2: int|
        0 <= i1 < p1.cells@.len() && 0 <= i2 < p2.cells@.len() ==> !near(
            #[trigger] p1.abs_row(i1),
            p1.abs_col(i1),
            #[trigger] p2.abs_row(i2),
            p2.abs_col(i2),
        )
}

/// `p` is a committed straight piece of `size` cells on the board.
pub open spec fn fleet_piece(p: Piece, size: int) -> bool {
    &&& p.fits()
    &&& all_visible(p)
    &&& (has_shape(p, size, false) || has_shape(p, size, true))
}

/// The pieces of `f` follow the fleet's sizes in order, and no two of them
/// overlap or touch.
pub open spec fn fleet_prefix(f: Seq<Piece>) -> bool {
    &&& f.len() <= 10
    &&& forall|j: int| 0 <= j < f.len() ==> fleet_piece(#[trigger] f[j], fleet_size(j))
    &&& forall|j1: int, j2: int|
        0 <= j1 < f.len() && 0 <= j2 < f.len() && j1 != j2 ==> apart(#[trigger] f[j1], #[trigger] f[j2])
}

/// A whole fleet: ten pieces of sizes 4, 3, 3, 2, 2, 2, 1, 1, 1, 1, none of
/// them overlapping or touching another.
pub open spec fn valid_fleet(f: Seq<Piece>) -> bool {
    f.len() == 10 && fleet_prefix(f)
}

/// Turning a non-ship cell into a ship cell adds one ship cell.
pub proof fn lemma_count_update(s: Seq<Cell>, q: int, v: Cell)
    requires
        0 <= q < s.len(),
        !is_ship(s[q]),
        is_ship(v),
    ensures
        ship_count(s.update(q, v)) == ship_count(s) + 1,
    decreases s.len(),
{
    let t = s.update(q, v);
    if q == s.len() - 1 {
        assert(t.drop_last() =~= s.drop_last());
    } else {
        assert(t.drop_last() =~= s.drop_last().update(q, v));
        lemma_count_update(s.drop_last(), q, v);
    }
}

/// A board of empty cells has no ship cell.
pub proof fn lemma_count_empty(n: nat)
    ensures
        ship_count(Seq::new(n, |_i: int| Cell::Empty)) == 0,
    decreases n,
{
    if n > 0 {
        assert(Seq::new(n, |_i: int| Cell::Empty).drop_last() =~= Seq::new(
            (n - 1) as nat,
            |_i: int| Cell::Empty,
        ));
        lemma_count_empty((n - 1) as nat);
    }
}

/// The cells of a straight piece that fits lie at pairwise distinct board indices.
pub proof fn lemma_shape_distinct(p: Piece, size: int, rotated: bool)
    requires
        1 <= size <= 4,
        p.fits(),
        has_shape(p, size, rotated),
    ensures
        forall|i: int, j: int|
            0 <= i < size && 0 <= j < size && i != j ==> #[trigger] piece_index(p, i)
                != #[trigger] piece_index(p, j),
{
    assert forall|i: int, j: int|
        0 <= i < size && 0 <= j < size && i != j implies #[trigger] piece_index(p, i)
            != #[trigger] piece_index(p, j) by {
        assert(in_bounds_spec(p.abs_row(i), p.abs_col(i)));
        assert(in_bounds_spec(p.abs_row(j), p.abs_col(j)));
        assert(p.cells@[i].offset == shape(size, rotated)[i].offset);
        assert(p.cells@[j].offset == shape(size, rotated)[j].offset);
    }
}

/// Drawing a piece whose cells are all visible ships shows a visible ship at
/// every index it covers.
pub proof fn lemma_overlay_inside(b: Seq<Cell>, p: Piece, n: int, i: int)
    requires
        b.len() == 100,
        p.fits(),
        all_visible(p),
        0 <= i < n <= p.cells@.len(),
    ensures
        overlay_prefix(b, p, n)[piece_index(p, i)] == Cell::ShipVisible,
    decreases n,
{
    crate::preview::lemma_overlay_len(b, p, n - 1);
    assert(in_bounds_spec(p.abs_row(n - 1), p.abs_col(n - 1)));
    assert(in_bounds_spec(p.abs_row(i), p.abs_col(i)));
    if i < n - 1 && piece_index(p, i) != piece_index(p, n - 1) {
        lemma_overlay_inside(b, p, n - 1, i);
    }
}

/// Drawing a piece onto distinct non-ship cells adds one ship cell per piece cell.
pub proof fn lemma_overlay_count(b: Seq<Cell>, p: Piece, n: int)
    requires
        b.len() == 100,
        p.fits(),
        all_visible(p),
        0 <= n <= p.cells@.len(),
        forall|i: int| 0 <= i < p.cells@.len() ==> !is_ship(#[trigger] b[piece_index(p, i)]),
        forall|i: int, j: int|
            0 <= i < p.cells@.len() && 0 <= j < p.cells@.len() && i != j ==> #[trigger] piece_index(p, i)
                != #[trigger] piece_index(p, j),
    ensures
        ship_count(overlay_prefix(b, p, n)) == ship_count(b) + n,
    decreases n,
{
    if n > 0 {
        lemma_overlay_count(b, p, n - 1);
        crate::preview::lemma_overlay_len(b, p, n - 1);
        assert(in_bounds_spec(p.abs_row(n - 1), p.abs_col(n - 1)));
        assert forall|i: int| 0 <= i < n - 1 implies #[trigger] piece_index(p, i) != piece_index(
            p,
            n - 1,
        ) by {}
        crate::preview::lemma_overlay_outside(b, p, n - 1, piece_index(p, n - 1));
        lemma_count_update(
            overlay_prefix(b, p, n - 1),
            piece_index(p, n - 1),
            p.cells@[n - 1].state,
        );
    }
}

/// A cell of a piece that touches no ship is not itself a ship cell.
pub proof fn lemma_clear_cells(b: Board, p: Piece)
    requires
        p.fits(),
        clear_of_ships(b, p),
    ensures
        forall|i: int| 0 <= i < p.cells@.len() ==> !is_ship(#[trigger] b@[piece_index(p, i)]),
{
    assert forall|i: int| 0 <= i < p.cells@.len() implies !is_ship(#[trigger] b@[piece_index(p, i)]) by {
        assert(!touches_ship(b, p.abs_row(i), p.abs_col(i)));
        assert(in_bounds_spec(p.abs_row(i), p.abs_col(i)));
        assert(near(p.abs_row(i), p.abs_col(i), p.abs_row(i), p.abs_col(i)));
        assert(b.cell(p.abs_row(i), p.abs_col(i)) == b@[piece_index(p, i)]);
    }
}

/// A piece that touches no ship of a board showing a fleet stays apart from
/// every piece of that fleet.
pub proof fn lemma_clear_apart(b: Board, f: Seq<Piece>, p: Piece, j: int)
    requires
        holds_fleet(b@, f),
        fleet_prefix(f),
        0 <= j < f.len(),
        clear_of_ships(b, p),
    ensures
        apart(p, f[j]),
        apart(f[j], p),
{
    let g = f[j];
    assert(fleet_piece(g, fleet_size(j)));
    assert forall|i1: int, i2: int|
        0 <= i1 < p.cells@.len() && 0 <= i2 < g.cells@.len() implies !near(
        #[trigger] p.abs_row(i1),
        p.abs_col(i1),
        #[trigger] g.abs_row(i2),
        g.abs_col(i2),
    ) by {
        assert(in_bounds_spec(g.abs_row(i2), g.abs_col(i2)));
        let q = piece_index(g, i2);
        assert(covered(f, q));
        assert(b@[q] == Cell::ShipVisible);
        assert(b.cell(g.abs_row(i2), g.abs_col(i2)) == b@[q]);
        assert(!touches_ship(b, p.abs_row(i1), p.abs_col(i1)));
    }
    assert forall|i1: int, i2: int|
        0 <= i1 < g.cells@.len() && 0 <= i2 < p.cells@.len() implies !near(
        #[trigger] g.abs_row(i1),
        g.abs_col(i1),
        #[trigger] p.abs_row(i2),
        p.abs_col(i2),
    ) by {
        assert(!near(p.abs_row(i2), p.abs_col(i2), g.abs_row(i1), g.abs_col(i1)));
    }
}

/// Committing a piece that touches no ship to a board showing a fleet gives
/// a board showing the fleet with that piece added, with its cells counted.
pub proof fn lemma_commit(b: Board, f: Seq<Piece>, p: Piece)
    requires
        holds_fleet(b@, f),
        fleet_prefix(f),
        f.len() < 10,
        fleet_piece(p, fleet_size(f.len() as int)),
        clear_of_ships(b, p),
        ship_count(b@) == fleet_cells(f.len() as int),
    ensures
        holds_fleet(overlay(b@, p), f.push(p)),
        fleet_prefix(f.push(p)),
        ship_count(overlay(b@, p)) == fleet_cells(f.len() + 1int),
{
    let k = f.len() as int;
    let g = f.push(p);
    let n = p.cells@.len() as int;
    let drawn = overlay(b@, p);
    if has_shape(p, fleet_size(k), false) {
        lemma_shape_distinct(p, fleet_size(k), false);
    } else {
        lemma_shape_distinct(p, fleet_size(k), true);
    }
    lemma_clear_cells(b, p);
    lemma_overlay_count(b@, p, n);
    crate::preview::lemma_overlay_len(b@, p, n);
    assert forall|j: int| 0 <= j < k implies apart(p, f[j]) && apart(f[j], p) by {
        lemma_clear_apart(b, f, p, j);
    }
    assert forall|j: int| 0 <= j < g.len() implies fleet_piece(#[trigger] g[j], fleet_size(j)) by {
        if j < k {
            assert(g[j] == f[j]);
        }
    }
    assert forall|j1: int, j2: int|
        0 <= j1 < g.len() && 0 <= j2 < g.len() && j1 != j2 implies apart(
        #[trigger] g[j1],
        #[trigger] g[j2],
    ) by {
        if j1 < k && j2 < k {
            assert(g[j1] == f[j1] && g[j2] == f[j2]);
        } else if j1 == k {
            assert(apart(p, f[j2]));
        } else {
            assert(apart(f[j1], p));
        }
    }
    assert forall|q: int| 0 <= q < 100 implies #[trigger] drawn[q] == if covered(g, q) {
        Cell::ShipVisible
    } else {
        Cell::Empty
    } by {
        if exists|i: int| 0 <= i < n && #[trigger] piece_index(p, i) == q {
            let i = choose|i: int| 0 <= i < n && #[trigger] piece_index(p, i) == q;
            lemma_overlay_inside(b@, p, n, i);
            assert(g[k] == p);
            assert(piece_index(g[k], i) == q);
        } else {
            crate::preview::lemma_overlay_outside(b@, p, n, q);
            if covered(g, q) {
                let (j, i) = choose|j: int, i: int|
                    0 <= j < g.len() && 0 <= i < g[j].cells@.len() && #[trigger] piece_index(g[j], i)
                        == q;
                assert(j < k);
                assert(g[j] == f[j]);
                assert(covered(f, q));
            } else {
                assert forall|j: int, i: int|
                    0 <= j < k && 0 <= i < f[j].cells@.len() implies #[trigger] piece_index(f[j], i)
                    != q by {
                    assert(g[j] == f[j]);
                }
            }
        }
    }
}

/// Builds a straight piece of `size` cells at `anchor`, rotated or not, and
/// commits it to `b` if it fits on the board and touches no ship there.
/// Returns whether it was committed, and the piece.
pub fn try_place(b: &mut Board, size: usize, anchor: Coord, rotated: bool) -> (r: (bool, Piece))
    requires
        1 <= size <= 4,
    ensures
        r.1.anchor == anchor,
        has_shape(r.1, size as int, rotated),
        r.0 == (r.1.fits() && clear_of_ships(*old(b), r.1)),
        r.0 ==> r.1.placeable && all_visible(r.1) && final(b)@ == overlay(old(b)@, r.1),
        !r.0 ==> final(b)@ == old(b)@,
{
    let mut p = Piece::ship(size, anchor);
    if rotated {
        p.rotate();
    }
    let ghost drawn = p;
    let out_of_bounds = validate(b, &mut p);
    assert forall|i: int| 0 <= i < size implies #[trigger] p.cells@[i].offset == shape(
        size as int,
        rotated,
    )[i].offset by {
        if !out_of_bounds {
            assert(p.cells@[i] == crate::placement::validated(*b, drawn)[i]);
        }
    }
    assert forall|i: int| 0 <= i < size implies p.abs_row(i) == drawn.abs_row(i) && p.abs_col(i)
        == drawn.abs_col(i) by {}
    assert(p.fits() == drawn.fits());
    assert(clear_of_ships(*b, p) == clear_of_ships(*b, drawn));
    if out_of_bounds || !p.placeable {
        (false, p)
    } else {
        add_piece(b, &p);
        (true, p)
    }
}

/// Cell (row, col) is off the board or touches a ship of `b`.
pub open spec fn cell_blocked(b: Board, row: int, col: int) -> bool {
    !in_bounds_spec(row, col) || touches_ship(b, row, col)
}

/// Some cell of a straight piece of `size` cells anchored at (row, col) is
/// off the board or touches a ship of `b`.
pub open spec fn blocked_at(b: Board, size: int, row: int, col: int, rotated: bool) -> bool {
    exists|i: int|
        0 <= i < size && #[trigger] cell_blocked(
            b,
            row + shape(size, rotated)[i].offset.row,
            col + shape(size, rotated)[i].offset.col,
        )
}

/// `p` is a straight piece of `size` cells, committed to a board that was `b`
/// and is now `after`, where it fits and touches no ship of `b`.
pub open spec fn committed(b: Board, after: Seq<Cell>, p: Piece, size: int) -> bool {
    &&& fleet_piece(p, size)
    &&& clear_of_ships(b, p)
    &&& after == overlay(b@, p)
}

/// A straight piece fits and touches no ship exactly when its anchor is not
/// blocked.
pub proof fn lemma_blocked_iff(b: Board, p: Piece, size: int, rotated: bool)
    requires
        has_shape(p, size, rotated),
    ensures
        (p.fits() && clear_of_ships(b, p)) == !blocked_at(
            b,
            size,
            p.anchor.row as int,
            p.anchor.col as int,
            rotated,
        ),
{
    let row = p.anchor.row as int;
    let col = p.anchor.col as int;
    assert forall|i: int| 0 <= i < size implies p.abs_row(i) == row + shape(size, rotated)[i].offset.row
        && p.abs_col(i) == col + shape(size, rotated)[i].offset.col by {
        assert(p.cells@[i].offset == shape(size, rotated)[i].offset);
    }
    if p.fits() && clear_of_ships(b, p) {
        assert forall|i: int| 0 <= i < size implies !#[trigger] cell_blocked(
            b,
            row + shape(size, rotated)[i].offset.row,
            col + shape(size, rotated)[i].offset.col,
        ) by {
            assert(in_bounds_spec(p.abs_row(i), p.abs_col(i)));
            assert(!touches_ship(b, p.abs_row(i), p.abs_col(i)));
        }
    }
    if !blocked_at(b, size, row, col, rotated) {
        assert forall|i: int| 0 <= i < p.cells@.len() implies #[trigger] in_bounds_spec(
            p.abs_row(i),
            p.abs_col(i),
        ) by {
            assert(!cell_blocked(
                b,
                row + shape(size, rotated)[i].offset.row,
                col + shape(size, rotated)[i].offset.col,
            ));
        }
        assert forall|i: int| 0 <= i < p.cells@.len() implies !#[trigger] touches_ship(
            b,
            p.abs_row(i),
            p.abs_col(i),
        ) by {
            assert(!cell_blocked(
                b,
                row + shape(size, rotated)[i].offset.row,
                col + shape(size, rotated)[i].offset.col,
            ));
        }
    }
}

/// Anchor row, anchor column and orientation of candidate `t` of an
/// in-order search: all anchors of the vertical piece, then of the rotated one.
pub open spec fn candidate(t: int) -> (int, int, bool) {
    let u = if t >= 100 { t - 100 } else { t };
    (u / 10, u % 10, t >= 100)
}

/// Candidate `t` takes a straight piece of `size` cells on `b`.
pub open spec fn free_candidate(b: Board, size: int, t: int) -> bool {
    !blocked_at(b, size, candidate(t).0, candidate(t).1, candidate(t).2)
}

/// Candidate `t` is the first one that takes a straight piece of `size`
/// cells on `b`.
pub open spec fn first_free(b: Board, size: int, t: int) -> bool {
    &&& 0 <= t < 200
    &&& free_candidate(b, size, t)
    &&& forall|s: int| 0 <= s < t ==> !#[trigger] free_candidate(b, size, s)
}

/// `p` stands at candidate `t`.
pub open spec fn at_candidate(p: Piece, size: int, t: int) -> bool {
    &&& p.anchor.row == candidate(t).0
    &&& p.anchor.col == candidate(t).1
    &&& has_shape(p, size, candidate(t).2)
}

/// Commits a piece of `size` cells at the first candidate anchor, vertical
/// before rotated and in row-major order, where it fits and touches no ship.
/// Some candidate must take the piece.
pub fn place_first_fit(b: &mut Board, size: usize) -> (p: Piece)
    requires
        1 <= size <= 4,
        exists|t: int| 0 <= t < 200 && #[trigger] free_candidate(*old(b), size as int, t),
    ensures
        committed(*old(b), final(b)@, p, size as int),
        exists|t: int| #[trigger] first_free(*old(b), size as int, t) && at_candidate(p, size as int, t),
{
    let ghost target = choose|t: int| 0 <= t < 200 && #[trigger] free_candidate(*b, size as int, t);
    let mut t: usize = 0;
    loop
        invariant
            1 <= size <= 4,
            0 <= t <= target < 200,
            free_candidate(*b, size as int, target),
            *b == *old(b),
            forall|s: int| 0 <= s < t ==> !#[trigger] free_candidate(*b, size as int, s),
        decreases 200 - t,
    {
        let rotated = t >= 100;
        let u = if rotated { t - 100 } else { t };
        let anchor = Coord { row: (u / 10) as i32, col: (u % 10) as i32 };
        let ghost before = *b;
        let (placed, p) = try_place(b, size, anchor, rotated);
        proof {
            lemma_blocked_iff(before, p, size as int, rotated);
        }
        if placed {
            assert(first_free(before, size as int, t as int) && at_candidate(p, size as int, t as int));
            return p;
        }
        assert(b.cells =~= before.cells);
        assert(!free_candidate(*b, size as int, t as int));
        t = t + 1;
    }
}

/// Random draws allowed for one piece before the board is searched in order.
pub const MAX_DRAWS: u32 = 100000;

/// Relies on rand::Rng::gen_range over the thread-local generator, for a
/// number drawn uniformly below `bound`.
#[verifier::external_body]
fn random_below(bound: u32) -> (r: u32)
    requires
        0 < bound,
    ensures
        r < bound,
{
    rand::thread_rng().gen_range(0..bound)
}

/// Commits a piece of `size` cells at a random anchor and orientation where
/// it fits and touches no ship, drawing again after each failure; after
/// `MAX_DRAWS` failures the candidates are searched in order. Some candidate
/// must take the piece.
pub fn place_randomly(b: &mut Board, size: usize) -> (p: Piece)
    requires
        1 <= size <= 4,
        exists|t: int| 0 <= t < 200 && #[trigger] free_candidate(*old(b), size as int, t),
    ensures
        committed(*old(b), final(b)@, p, size as int),
{
    let mut draws: u32 = 0;
    while draws < MAX_DRAWS
        invariant
            1 <= size <= 4,
            *b == *old(b),
        decreases MAX_DRAWS - draws,
    {
        let col = random_below(10) as i32;
        let row = random_below(10) as i32;
        let rotated = random_below(2) == 1;
        let ghost before = *b;
        let (placed, p) = try_place(b, size, Coord { row, col }, rotated);
        if placed {
            return p;
        }
        assert(b.cells =~= before.cells);
        draws = draws + 1;
    }
    place_first_fit(b, size)
}

/// The fleet has twenty cells in all.
pub proof fn lemma_fleet_cells()
    ensures
        fleet_cells(10) == 20,
{
    assert(fleet_cells(0) == 0);
    assert(fleet_cells(1) == 4);
    assert(fleet_cells(2) == 7);
    assert(fleet_cells(3) == 10);
    assert(fleet_cells(4) == 12);
    assert(fleet_cells(5) == 14);
    assert(fleet_cells(6) == 16);
    assert(fleet_cells(7) == 17);
    assert(fleet_cells(8) == 18);
    assert(fleet_cells(9) == 19);
}

/// Places a whole fleet on an empty board, piece by piece in the fleet's
/// order of sizes, each at a random anchor and orientation where it fits and
/// touches no ship already placed. Such an anchor always exists.
pub fn generate_fleet(b: &mut Board) -> (f: Vec<Piece>)
    requires
        all_empty(old(b)@),
    ensures
        valid_fleet(f@),
        holds_fleet(final(b)@, f@),
        ship_count(final(b)@) == 20,
{
    let mut fleet: Vec<Piece> = Vec::new();
    proof {
        assert(b@ =~= Seq::new(100, |_i: int| Cell::Empty));
        lemma_count_empty(100);
        assert(holds_fleet(b@, fleet@));
    }
    let mut k: usize = 0;
    while k < FLEET_PIECES
        invariant
            k <= FLEET_PIECES,
            fleet@.len() == k,
            fleet_prefix(fleet@),
            holds_fleet(b@, fleet@),
            ship_count(b@) == fleet_cells(k as int),
        decreases FLEET_PIECES - k,
    {
        let ghost before = *b;
        let size = piece_size(k);
        proof {
            crate::room::lemma_room(*b, fleet@);
        }
        let p = place_randomly(b, size);
        proof {
            lemma_commit(before, fleet@, p);
        }
        fleet.push(p);
        k = k + 1;
    }
    proof {
        lemma_fleet_cells();
    }
    fleet
}

} // verus!
