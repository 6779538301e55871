use battleship::board::{Board, Cell, Coord};
use battleship::fleet::{generate_fleet, piece_size, place_first_fit, place_randomly, try_place};
use battleship::piece::Piece;

fn at(row: i32, col: i32) -> Coord {
    Coord { row, col }
}

fn cells_of(p: &Piece) -> Vec<(i32, i32)> {
    p.cells
        .iter()
        .map(|c| (p.anchor.row + c.offset.row, p.anchor.col + c.offset.col))
        .collect()
}

fn ship_cells(b: &Board) -> usize {
    b.cells.iter().filter(|c| **c == Cell::ShipVisible).count()
}

#[test]
fn fleet_sizes_follow_the_composition() {
    let sizes: Vec<usize> = (0..10).map(piece_size).collect();
    assert_eq!(sizes, vec![4, 3, 3, 2, 2, 2, 1, 1, 1, 1]);
}

#[test]
fn generated_fleet_is_complete_and_apart() {
    for _ in 0..200 {
        let mut b = Board::new();
        let fleet = generate_fleet(&mut b);
        assert_eq!(fleet.len(), 10);
        let sizes: Vec<usize> = fleet.iter().map(|p| p.cells.len()).collect();
        assert_eq!(sizes, vec![4, 3, 3, 2, 2, 2, 1, 1, 1, 1]);
        assert_eq!(ship_cells(&b), 20);
        for (j, p) in fleet.iter().enumerate() {
            for (r, c) in cells_of(p) {
                assert!((0..10).contains(&r) && (0..10).contains(&c));
                assert_eq!(b.get(at(r, c)), Cell::ShipVisible);
            }
            for (k, q) in fleet.iter().enumerate() {
                if j == k {
                    continue;
                }
                for (r1, c1) in cells_of(p) {
                    for (r2, c2) in cells_of(q) {
                        assert!((r1 - r2).abs() > 1 || (c1 - c2).abs() > 1);
                    }
                }
            }
        }
        let rows: Vec<i32> = fleet[0].cells.iter().map(|c| c.offset.row).collect();
        let cols: Vec<i32> = fleet[0].cells.iter().map(|c| c.offset.col).collect();
        assert!(rows == vec![-1, 0, 1, 2] && cols == vec![0; 4] || cols == vec![-1, 0, 1, 2] && rows == vec![0; 4]);
    }
}

#[test]
fn try_place_commits_a_clear_piece() {
    let mut b = Board::new();
    let (placed, p) = try_place(&mut b, 3, at(4, 4), true);
    assert!(placed);
    assert!(p.placeable);
    assert_eq!(cells_of(&p), vec![(4, 3), (4, 4), (4, 5)]);
    assert_eq!(b.get(at(4, 3)), Cell::ShipVisible);
    assert_eq!(b.get(at(4, 5)), Cell::ShipVisible);
    assert_eq!(ship_cells(&b), 3);
}

#[test]
fn try_place_leaves_board_on_conflict_or_overflow() {
    let mut b = Board::new();
    b.set(at(0, 0), Cell::ShipVisible);
    let before = b.cells;
    let (placed, p) = try_place(&mut b, 2, at(1, 1), false);
    assert!(!placed);
    assert!(!p.placeable);
    assert_eq!(b.cells, before);
    let (placed, _) = try_place(&mut b, 4, at(8, 5), false);
    assert!(!placed);
    assert_eq!(b.cells, before);
}

#[test]
fn first_fit_takes_the_first_anchor_in_order() {
    let mut b = Board::new();
    let p = place_first_fit(&mut b, 4);
    assert_eq!(p.anchor, at(1, 0));
    assert_eq!(cells_of(&p), vec![(0, 0), (1, 0), (2, 0), (3, 0)]);
    let q = place_first_fit(&mut b, 1);
    assert_eq!(q.anchor, at(0, 2));
}

#[test]
fn first_fit_falls_back_to_rotated_pieces() {
    // Ships in every other row leave no room for an upright piece of two
    // cells; the first rotated anchor that fits is (0, 3) on row 0.
    let mut b = Board::new();
    for col in 0..10 {
        for row in [2, 5, 8] {
            if col % 3 != 2 {
                b.set(at(row, col), Cell::ShipVisible);
            }
        }
    }
    for col in [0, 1] {
        b.set(at(0, col), Cell::ShipVisible);
    }
    let p = place_first_fit(&mut b, 2);
    let cols: Vec<i32> = p.cells.iter().map(|c| c.offset.col).collect();
    assert_eq!(cols, vec![0, 1]);
    assert_eq!(p.anchor, at(0, 3));
}

#[test]
fn random_placement_keeps_board_rule() {
    let mut b = Board::new();
    b.set(at(4, 4), Cell::ShipVisible);
    for _ in 0..20 {
        let mut c = b;
        let p = place_randomly(&mut c, 3);
        for (r, col) in cells_of(&p) {
            assert!((r - 4).abs() > 1 || (col - 4).abs() > 1);
            assert_eq!(c.get(at(r, col)), Cell::ShipVisible);
        }
        assert_eq!(ship_cells(&c), 4);
    }
}

#[test]
fn random_placement_varies() {
    let mut anchors = Vec::new();
    for _ in 0..30 {
        let mut b = Board::new();
        let p = place_randomly(&mut b, 1);
        assert_eq!(ship_cells(&b), 1);
        anchors.push((p.anchor.row, p.anchor.col));
    }
    anchors.sort();
    anchors.dedup();
    assert!(anchors.len() > 1);
}
