use battleship::board::{Board, Cell, Coord};
use battleship::piece::Piece;
use battleship::placement::{has_neighbours, validate};
use battleship::preview::{add_piece, place_before, remember_before};

fn at(row: i32, col: i32) -> Coord {
    Coord { row, col }
}

fn offsets(p: &Piece) -> Vec<(i32, i32)> {
    p.cells.iter().map(|c| (c.offset.row, c.offset.col)).collect()
}

#[test]
fn ship_shapes_are_vertical() {
    assert_eq!(offsets(&Piece::ship(4, at(1, 0))), vec![(-1, 0), (0, 0), (1, 0), (2, 0)]);
    assert_eq!(offsets(&Piece::ship(3, at(1, 0))), vec![(-1, 0), (0, 0), (1, 0)]);
    assert_eq!(offsets(&Piece::ship(2, at(0, 0))), vec![(0, 0), (1, 0)]);
    assert_eq!(offsets(&Piece::ship(1, at(0, 0))), vec![(0, 0)]);
    let p = Piece::ship(3, at(4, 5));
    assert_eq!(p.anchor, at(4, 5));
    assert!(p.placeable);
    assert!(p.cells.iter().all(|c| c.state == Cell::ShipVisible));
}

#[test]
fn rotate_swaps_offsets_and_twice_restores_them() {
    let mut p = Piece::ship(4, at(5, 5));
    let original = offsets(&p);
    p.rotate();
    assert_eq!(offsets(&p), vec![(0, -1), (0, 0), (0, 1), (0, 2)]);
    assert_eq!(p.anchor, at(5, 5));
    p.rotate();
    assert_eq!(offsets(&p), original);
}

#[test]
fn out_of_bounds_piece_is_rejected_and_board_untouched() {
    let mut b = Board::new();
    b.set(at(5, 5), Cell::ShipVisible);
    let before = b.cells;
    let mut p = Piece::ship(4, at(0, 0));
    assert!(validate(&b, &mut p));
    assert!(!p.placeable);
    assert!(p.cells.iter().all(|c| c.state == Cell::ShipVisible));
    assert_eq!(b.cells, before);

    let mut q = Piece::ship(2, at(9, 3));
    assert!(validate(&b, &mut q));
    assert!(!q.placeable);
    let mut r = Piece::ship(2, at(3, 9));
    r.rotate();
    assert!(validate(&b, &mut r));
    assert!(!r.placeable);
}

#[test]
fn adjacent_single_cells_conflict() {
    let mut b = Board::new();
    let mut first = Piece::ship(1, at(0, 0));
    assert!(!validate(&b, &mut first));
    assert!(first.placeable);
    add_piece(&mut b, &first);

    let mut next = Piece::ship(1, at(0, 1));
    assert!(!validate(&b, &mut next));
    assert!(!next.placeable);
    assert_eq!(next.cells[0].state, Cell::ShipCollision);

    let mut apart = Piece::ship(1, at(0, 2));
    assert!(!validate(&b, &mut apart));
    assert!(apart.placeable);
    assert_eq!(apart.cells[0].state, Cell::ShipVisible);
}

#[test]
fn diagonal_neighbour_conflicts() {
    let mut b = Board::new();
    b.set(at(4, 4), Cell::ShipVisible);
    let mut p = Piece::ship(1, at(5, 5));
    assert!(!validate(&b, &mut p));
    assert!(!p.placeable);
    let mut q = Piece::ship(1, at(6, 6));
    assert!(!validate(&b, &mut q));
    assert!(q.placeable);
}

#[test]
fn commit_then_adjacent_piece_scenario() {
    let mut b = Board::new();
    let mut p = Piece::ship(1, at(5, 5));
    assert!(!validate(&b, &mut p));
    assert!(p.placeable);
    add_piece(&mut b, &p);
    assert_eq!(b.get(at(5, 5)), Cell::ShipVisible);

    let mut q = Piece::ship(1, at(5, 6));
    assert!(!validate(&b, &mut q));
    assert!(!q.placeable);
    add_piece(&mut b, &q);
    assert_eq!(b.get(at(5, 6)), Cell::ShipCollision);
}

#[test]
fn one_conflicting_cell_makes_piece_unplaceable() {
    let mut b = Board::new();
    b.set(at(0, 9), Cell::ShipVisible);
    let mut p = Piece::ship(4, at(1, 8));
    assert!(!validate(&b, &mut p));
    assert!(!p.placeable);
    let states: Vec<Cell> = p.cells.iter().map(|c| c.state).collect();
    assert_eq!(
        states,
        vec![Cell::ShipCollision, Cell::ShipCollision, Cell::ShipVisible, Cell::ShipVisible]
    );
}

#[test]
fn neighbours_are_clipped_at_edges() {
    let mut b = Board::new();
    assert!(!has_neighbours(&b, 0, 0));
    assert!(!has_neighbours(&b, 9, 9));
    b.set(at(9, 8), Cell::ShipHidden);
    assert!(has_neighbours(&b, 9, 9));
    assert!(has_neighbours(&b, 8, 7));
    assert!(has_neighbours(&b, 9, 8));
    assert!(!has_neighbours(&b, 7, 8));
    assert!(!has_neighbours(&b, 9, 6));
    b.set(at(0, 0), Cell::Shot);
    assert!(!has_neighbours(&b, 0, 1));
}

#[test]
fn fit_checks_follow_moves_and_rotation() {
    let p = Piece::ship(4, at(1, 0));
    assert!(!p.fits_moved(0, -1));
    assert!(p.fits_moved(0, 1));
    assert!(!p.fits_moved(-1, 0));
    assert!(p.fits_moved(1, 0));
    assert!(!p.fits_rotated());
    let q = Piece::ship(4, at(1, 1));
    assert!(q.fits_rotated());
}

#[test]
fn snapshot_restores_cells_under_piece() {
    let mut b = Board::new();
    b.set(at(2, 3), Cell::ShipVisible);
    let original = b.cells;
    let mut p = Piece::ship(3, at(2, 3));
    validate(&b, &mut p);
    let saved = remember_before(&b, &p);
    assert_eq!(saved.len(), 3);
    assert_eq!(saved[1].at, at(2, 3));
    assert_eq!(saved[1].cell, Cell::ShipVisible);
    add_piece(&mut b, &p);
    assert_eq!(b.get(at(1, 3)), Cell::ShipCollision);
    assert_eq!(b.get(at(3, 3)), Cell::ShipCollision);
    place_before(&mut b, &saved);
    assert_eq!(b.cells, original);
}
