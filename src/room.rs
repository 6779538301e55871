//! Why a fleet always fits: while the fleet is placed largest piece first,
//! some anchor on the board always takes the next piece.
//!
//! For a piece of `s` cells (s <= 3) a family of vertical candidate
//! placements is fixed: their columns are 3 apart and their rows `s + 2`
//! apart. A ship already placed can touch at most two of them, and a
//! one-cell ship at most one, so the pieces placed before the next one
//! touch fewer candidates than there are.

use vstd::prelude::*;
use crate::board::{Board, Cell, in_bounds_spec, is_ship};
use crate::fleet::{
    candidate, cell_blocked, covered, fleet_piece, fleet_prefix, fleet_size, free_candidate,
    has_shape, holds_fleet, shape,
};
use crate::piece::{Piece, first_offset};
use crate::placement::{near, touches_ship};
use crate::preview::piece_index;

verus! {

/// Number of j in [0, n) that satisfy `pred`.
pub open spec fn count_where(n: int, pred: spec_fn(int) -> bool) -> int
    decreases n,
{
    if n <= 0 {
        0
    } else {
        count_where(n - 1, pred) + if pred(n - 1) {
            1int
        } else {
            0int
        }
    }
}

/// What satisfies `p` satisfies `q` or `r`, so it is counted at most once in each.
pub proof fn lemma_count_split(
    n: int,
    p: spec_fn(int) -> bool,
    q: spec_fn(int) -> bool,
    r: spec_fn(int) -> bool,
)
    requires
        forall|j: int| 0 <= j < n && #[trigger] p(j) ==> q(j) || r(j),
    ensures
        count_where(n, p) <= count_where(n, q) + count_where(n, r),
    decreases n,
{
    if n > 0 {
        lemma_count_split(n - 1, p, q, r);
    }
}

/// A predicate that holds of `a` alone counts at most one.
pub proof fn lemma_count_single(n: int, p: spec_fn(int) -> bool, a: int)
    requires
        forall|j: int| 0 <= j < n && #[trigger] p(j) ==> j == a,
    ensures
        count_where(n, p) <= if 0 <= a < n {
            1int
        } else {
            0int
        },
    decreases n,
{
    if n > 0 {
        lemma_count_single(n - 1, p, a);
    }
}

/// A predicate that holds of fewer than `n` values misses one of them.
pub proof fn lemma_count_free(n: int, p: spec_fn(int) -> bool)
    requires
        count_where(n, p) < n,
    ensures
        exists|j: int| 0 <= j < n && !#[trigger] p(j),
    decreases n,
{
    if n > 0 && p(n - 1) {
        lemma_count_free(n - 1, p);
    }
}

/// Top row of candidate `j` for a vertical piece of `s` cells.
pub open spec fn cand_row(s: int, j: int) -> int {
    if s == 1 {
        3 * (j / 4)
    } else if s == 2 {
        4 * (j / 4)
    } else {
        5 * (j / 4)
    }
}

/// Column of candidate `j`.
pub open spec fn cand_col(j: int) -> int {
    3 * (j % 4)
}

/// Number of candidates for a piece of `s` cells.
pub open spec fn cand_count(s: int) -> int {
    if s == 1 {
        16
    } else if s == 2 {
        12
    } else {
        8
    }
}

/// Cell `i` of candidate `j` is at or next to cell `k` of `p`.
pub open spec fn cand_touches(p: Piece, s: int, j: int, i: int, k: int) -> bool {
    near(cand_row(s, j) + i, cand_col(j), p.abs_row(k), p.abs_col(k))
}

/// Some cell of candidate `j` is at or next to some cell of `p`.
pub open spec fn blocks(p: Piece, s: int, j: int) -> bool {
    exists|i: int, k: int|
        0 <= i < s && 0 <= k < p.cells@.len() && #[trigger] cand_touches(p, s, j, i, k)
}

pub open spec fn one_blocks(p: Piece, s: int) -> spec_fn(int) -> bool {
    |j: int| blocks(p, s, j)
}

/// Some of the first `m` pieces of `f` blocks candidate `j`.
pub open spec fn any_blocks(f: Seq<Piece>, m: int, s: int) -> spec_fn(int) -> bool {
    |j: int| exists|x: int| 0 <= x < m && #[trigger] blocks(f[x], s, j)
}

/// Most candidates a piece of `len` cells can block.
pub open spec fn block_bound(len: int) -> int {
    if len == 1 {
        1
    } else {
        2
    }
}

/// Most candidates the first `k` pieces of a fleet can block.
pub open spec fn bound_sum(k: int) -> int
    decreases k,
{
    if k <= 0 {
        0
    } else {
        bound_sum(k - 1) + block_bound(fleet_size(k - 1))
    }
}

proof fn lemma_bound_sum()
    ensures
        bound_sum(1) == 2,
        bound_sum(2) == 4,
        bound_sum(3) == 6,
        bound_sum(4) == 8,
        bound_sum(5) == 10,
        bound_sum(6) == 12,
        bound_sum(7) == 13,
        bound_sum(8) == 14,
        bound_sum(9) == 15,
{
    assert(bound_sum(0) == 0);
    assert(bound_sum(1) == 2);
    assert(bound_sum(2) == 4);
    assert(bound_sum(3) == 6);
    assert(bound_sum(4) == 8);
    assert(bound_sum(5) == 10);
    assert(bound_sum(6) == 12);
    assert(bound_sum(7) == 13);
    assert(bound_sum(8) == 14);
}

/// A straight piece of `len` cells on the board blocks at most
/// `block_bound(len)` candidates.
proof fn lemma_one_piece(p: Piece, len: int, s: int, n: int)
    requires
        1 <= len <= 4,
        1 <= s <= 3,
        fleet_piece(p, len),
    ensures
        count_where(n, one_blocks(p, s)) <= block_bound(len),
{
    let vertical = has_shape(p, len, false);
    let first = first_offset(len);
    let r0 = p.abs_row(0);
    let c0 = p.abs_col(0);
    assert(in_bounds_spec(p.abs_row(0), p.abs_col(0)));
    assert forall|k: int| 0 <= k < len implies if vertical {
        p.abs_row(k) == r0 + k && p.abs_col(k) == c0
    } else {
        p.abs_row(k) == r0 && p.abs_col(k) == c0 + k
    } by {
        if vertical {
            assert(p.cells@[k].offset == shape(len, false)[k].offset);
            assert(p.cells@[0].offset == shape(len, false)[0].offset);
        } else {
            assert(p.cells@[k].offset == shape(len, true)[k].offset);
            assert(p.cells@[0].offset == shape(len, true)[0].offset);
        }
    }
    let h0 = if s == 1 {
        (r0 + 1) / 3
    } else if s == 2 {
        (r0 + 1) / 4
    } else {
        (r0 + 1) / 5
    };
    let g0 = (c0 + 1) / 3;
    let a = 4 * h0 + g0;
    let a2 = if vertical { a + 4 } else { a + 1 };
    let pred = one_blocks(p, s);
    assert forall|j: int| 0 <= j < n && #[trigger] pred(j) implies j == a || (len > 1 && j == a2) by {
        let (i, k) = choose|i: int, k: int|
            0 <= i < s && 0 <= k < p.cells@.len() && #[trigger] cand_touches(p, s, j, i, k);
        let x = j / 4;
        let y = j % 4;
        assert(j == 4 * x + y);
        if vertical {
            assert(p.abs_row(k) == r0 + k && p.abs_col(k) == c0);
        } else {
            assert(p.abs_row(k) == r0 && p.abs_col(k) == c0 + k);
        }
    }
    if len == 1 {
        lemma_count_single(n, pred, a);
    } else {
        let qa = |j: int| pred(j) && j == a;
        let qb = |j: int| pred(j) && j == a2;
        lemma_count_split(n, pred, qa, qb);
        lemma_count_single(n, qa, a);
        lemma_count_single(n, qb, a2);
    }
}

/// The first `m` pieces of a fleet block at most `bound_sum(m)` candidates.
proof fn lemma_any_bound(f: Seq<Piece>, m: int, s: int, n: int)
    requires
        0 <= m <= f.len(),
        1 <= s <= 3,
        fleet_prefix(f),
    ensures
        count_where(n, any_blocks(f, m, s)) <= bound_sum(m),
    decreases m,
{
    if m == 0 {
        lemma_count_single(n, any_blocks(f, 0, s), -1);
    } else {
        lemma_any_bound(f, m - 1, s, n);
        assert(fleet_piece(f[m - 1], fleet_size(m - 1)));
        lemma_one_piece(f[m - 1], fleet_size(m - 1), s, n);
        assert forall|j: int| 0 <= j < n && #[trigger] any_blocks(f, m, s)(j) implies any_blocks(
            f,
            m - 1,
            s,
        )(j) || one_blocks(f[m - 1], s)(j) by {
            let x = choose|x: int| 0 <= x < m && #[trigger] blocks(f[x], s, j);
            if x < m - 1 {
                assert(blocks(f[x], s, j));
            }
        }
        lemma_count_split(n, any_blocks(f, m, s), any_blocks(f, m - 1, s), one_blocks(f[m - 1], s));
    }
}

/// A cell on the board that no piece of the fleet comes near touches no ship.
proof fn lemma_not_touching(b: Board, f: Seq<Piece>, row: int, col: int)
    requires
        holds_fleet(b@, f),
        fleet_prefix(f),
        forall|x: int, k: int|
            0 <= x < f.len() && 0 <= k < f[x].cells@.len() ==> !#[trigger] near(
                row,
                col,
                f[x].abs_row(k),
                f[x].abs_col(k),
            ),
    ensures
        !touches_ship(b, row, col),
{
    if touches_ship(b, row, col) {
        let (r, c) = choose|r: int, c: int|
            in_bounds_spec(r, c) && near(row, col, r, c) && is_ship(#[trigger] b.cell(r, c));
        let q = r * 10 + c;
        assert(b@[q] != Cell::Empty);
        assert(covered(f, q));
        let (x, k) = choose|x: int, k: int|
            0 <= x < f.len() && 0 <= k < f[x].cells@.len() && #[trigger] piece_index(f[x], k) == q;
        assert(fleet_piece(f[x], fleet_size(x)));
        assert(in_bounds_spec(f[x].abs_row(k), f[x].abs_col(k)));
        assert(f[x].abs_row(k) == r && f[x].abs_col(k) == c);
        assert(near(row, col, f[x].abs_row(k), f[x].abs_col(k)));
    }
}

/// While a fleet is placed in its order of sizes, some candidate anchor on
/// the board takes the next piece.
pub proof fn lemma_room(b: Board, f: Seq<Piece>)
    requires
        holds_fleet(b@, f),
        fleet_prefix(f),
        f.len() < 10,
    ensures
        exists|t: int| 0 <= t < 200 && #[trigger] free_candidate(b, fleet_size(f.len() as int), t),
{
    let k = f.len() as int;
    let s = fleet_size(k);
    if k == 0 {
        assert forall|i: int| 0 <= i < 4 implies !#[trigger] cell_blocked(
            b,
            1 + shape(4, false)[i].offset.row,
            0 + shape(4, false)[i].offset.col,
        ) by {
            lemma_not_touching(b, f, i, 0);
        }
        assert(candidate(10) == (1int, 0int, false));
        assert(free_candidate(b, 4, 10));
    } else {
        let n = cand_count(s);
        lemma_any_bound(f, k, s, n);
        lemma_bound_sum();
        lemma_count_free(n, any_blocks(f, k, s));
        let j = choose|j: int| 0 <= j < n && !#[trigger] any_blocks(f, k, s)(j);
        let arow = cand_row(s, j) - first_offset(s);
        let col = cand_col(j);
        assert forall|i: int| 0 <= i < s implies !#[trigger] cell_blocked(
            b,
            arow + shape(s, false)[i].offset.row,
            col + shape(s, false)[i].offset.col,
        ) by {
            assert(arow + shape(s, false)[i].offset.row == cand_row(s, j) + i);
            assert forall|x: int, kk: int|
                0 <= x < f.len() && 0 <= kk < f[x].cells@.len() implies !#[trigger] near(
                cand_row(s, j) + i,
                col,
                f[x].abs_row(kk),
                f[x].abs_col(kk),
            ) by {
                if near(cand_row(s, j) + i, col, f[x].abs_row(kk), f[x].abs_col(kk)) {
                    assert(cand_touches(f[x], s, j, i, kk));
                    assert(blocks(f[x], s, j));
                }
            }
            lemma_not_touching(b, f, cand_row(s, j) + i, col);
        }
        let t = 10 * arow + col;
        assert(t / 10 == arow && t % 10 == col);
        assert(candidate(t) == (arow, col, false));
        assert(free_candidate(b, s, t));
    }
}

} // verus!
