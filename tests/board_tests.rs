use battleship::board::{in_bounds, Board, Cell, Coord};
use battleship::shot::{resolve_shot, ShotResult};

fn at(row: i32, col: i32) -> Coord {
    Coord { row, col }
}

#[test]
fn in_bounds_accepts_exactly_the_grid() {
    for row in -3..13 {
        for col in -3..13 {
            let expected = (0..=9).contains(&row) && (0..=9).contains(&col);
            assert_eq!(in_bounds(at(row, col)), expected, "({}, {})", row, col);
        }
    }
    assert!(in_bounds(at(0, 0)));
    assert!(in_bounds(at(9, 9)));
    assert!(!in_bounds(at(-1, 0)));
    assert!(!in_bounds(at(0, 10)));
    assert!(!in_bounds(at(i32::MIN, i32::MAX)));
}

#[test]
fn new_board_is_empty() {
    let b = Board::new();
    for row in 0..10 {
        for col in 0..10 {
            assert_eq!(b.get(at(row, col)), Cell::Empty);
        }
    }
}

#[test]
fn set_changes_one_cell() {
    let mut b = Board::new();
    b.set(at(3, 7), Cell::Shot);
    assert_eq!(b.get(at(3, 7)), Cell::Shot);
    assert_eq!(b.cells[37], Cell::Shot);
    let shots = b.cells.iter().filter(|c| **c != Cell::Empty).count();
    assert_eq!(shots, 1);
}

#[test]
fn hide_ships_conceals_only_visible_ships() {
    let mut b = Board::new();
    b.set(at(0, 0), Cell::ShipVisible);
    b.set(at(9, 9), Cell::ShipVisible);
    b.set(at(4, 4), Cell::Shot);
    b.set(at(5, 5), Cell::ShipCollision);
    b.hide_ships();
    assert_eq!(b.get(at(0, 0)), Cell::ShipHidden);
    assert_eq!(b.get(at(9, 9)), Cell::ShipHidden);
    assert_eq!(b.get(at(4, 4)), Cell::Shot);
    assert_eq!(b.get(at(5, 5)), Cell::ShipCollision);
    assert_eq!(b.get(at(1, 1)), Cell::Empty);
}

#[test]
fn shot_at_hidden_ship_hits_then_misses() {
    let mut b = Board::new();
    b.set(at(3, 4), Cell::ShipHidden);
    assert_eq!(resolve_shot(&mut b, at(3, 4)), ShotResult::Hit);
    assert_eq!(b.get(at(3, 4)), Cell::ShipCollision);
    assert_eq!(resolve_shot(&mut b, at(3, 4)), ShotResult::Miss);
    assert_eq!(b.get(at(3, 4)), Cell::ShipCollision);
}

#[test]
fn shot_at_other_cells_misses_without_change() {
    let mut b = Board::new();
    b.set(at(1, 1), Cell::ShipVisible);
    b.set(at(2, 2), Cell::Shot);
    let before = b.cells;
    assert_eq!(resolve_shot(&mut b, at(0, 0)), ShotResult::Miss);
    assert_eq!(resolve_shot(&mut b, at(1, 1)), ShotResult::Miss);
    assert_eq!(resolve_shot(&mut b, at(2, 2)), ShotResult::Miss);
    assert_eq!(b.cells, before);
}
