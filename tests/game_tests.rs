use battleship::board::{Cell, Coord};
use battleship::game::{Command, Game, GameStatus};
use battleship::shot::ShotResult;

fn at(row: i32, col: i32) -> Coord {
    Coord { row, col }
}

fn visible_ships(g: &Game) -> usize {
    g.human.cells.iter().filter(|c| **c == Cell::ShipVisible).count()
}

fn run(g: &mut Game, cmds: &[Command]) {
    for c in cmds {
        assert_eq!(g.step(*c), None);
    }
}

fn placing_game() -> Game {
    let mut g = Game::new();
    g.step(Command::Confirm);
    assert_eq!(g.status, GameStatus::PlacingFleet);
    g
}

/// Commands that move each offered piece to a spot clear of the others.
fn moves_for(k: usize) -> Vec<Command> {
    let right = |n: usize| vec![Command::MoveRight; n];
    let down = vec![Command::MoveDown; 5];
    match k {
        0 => vec![],
        1 => right(2),
        2 => right(4),
        3 => right(6),
        4 => right(8),
        5 => down,
        _ => [down, right(2 * (k - 5))].concat(),
    }
}

#[test]
fn new_game_starts_empty() {
    let g = Game::new();
    assert_eq!(g.status, GameStatus::Start);
    assert_eq!(g.placed, 0);
    assert_eq!(g.cursor, at(0, 0));
    assert!(g.human.cells.iter().all(|c| *c == Cell::Empty));
    assert!(g.opponent.cells.iter().all(|c| *c == Cell::Empty));
}

#[test]
fn start_ignores_other_commands() {
    let mut g = Game::new();
    for c in [Command::ShowAbout, Command::MoveLeft, Command::Rotate, Command::MoveDown] {
        assert_eq!(g.step(c), None);
        assert_eq!(g.status, GameStatus::Start);
        assert!(g.human.cells.iter().all(|c| *c == Cell::Empty));
        assert!(g.opponent.cells.iter().all(|c| *c == Cell::Empty));
    }
}

#[test]
fn confirm_at_start_generates_a_concealed_fleet() {
    let g = placing_game();
    let hidden = g.opponent.cells.iter().filter(|c| **c == Cell::ShipHidden).count();
    assert_eq!(hidden, 20);
    assert!(g.opponent.cells.iter().all(|c| *c == Cell::ShipHidden || *c == Cell::Empty));
    assert_eq!(g.placed, 0);
    assert_eq!(g.piece.anchor, at(1, 0));
    assert_eq!(g.piece.cells.len(), 4);
    assert!(g.piece.placeable);
    for row in 0..4 {
        assert_eq!(g.human.get(at(row, 0)), Cell::ShipVisible);
    }
    assert_eq!(visible_ships(&g), 4);
}

#[test]
fn unplaceable_confirm_changes_nothing() {
    let mut g = placing_game();
    run(&mut g, &[Command::Confirm]);
    assert_eq!(g.placed, 1);
    assert!(!g.piece.placeable);
    let human = g.human.cells;
    let anchor = g.piece.anchor;
    let offsets: Vec<Coord> = g.piece.cells.iter().map(|c| c.offset).collect();
    run(&mut g, &[Command::Confirm]);
    assert_eq!(g.status, GameStatus::PlacingFleet);
    assert_eq!(g.placed, 1);
    assert_eq!(g.human.cells, human);
    assert_eq!(g.piece.anchor, anchor);
    assert!(!g.piece.placeable);
    assert_eq!(g.piece.cells.iter().map(|c| c.offset).collect::<Vec<_>>(), offsets);
}

#[test]
fn human_turn_begins_after_the_tenth_commit() {
    let mut g = placing_game();
    for k in 0..10 {
        run(&mut g, &moves_for(k));
        assert_eq!(g.status, GameStatus::PlacingFleet);
        assert_eq!(g.placed, k);
        assert!(g.piece.placeable, "piece {}", k);
        run(&mut g, &[Command::Confirm]);
        assert_eq!(g.placed, k + 1);
        if k < 9 {
            assert_eq!(g.status, GameStatus::PlacingFleet);
        }
    }
    assert_eq!(g.status, GameStatus::HumanTurn);
    assert_eq!(visible_ships(&g), 20);
    assert!(g.human.cells.iter().all(|c| *c == Cell::ShipVisible || *c == Cell::Empty));
}

#[test]
fn moves_off_the_board_are_rejected() {
    let mut g = placing_game();
    let human = g.human.cells;
    run(&mut g, &[Command::MoveLeft, Command::MoveUp, Command::Rotate]);
    assert_eq!(g.piece.anchor, at(1, 0));
    assert_eq!(g.human.cells, human);
    run(&mut g, &[Command::MoveRight, Command::Rotate]);
    assert_eq!(g.piece.anchor, at(1, 1));
    let cols: Vec<i32> = g.piece.cells.iter().map(|c| c.offset.col).collect();
    assert_eq!(cols, vec![-1, 0, 1, 2]);
    for col in 0..4 {
        assert_eq!(g.human.get(at(1, col)), Cell::ShipVisible);
    }
    assert_eq!(visible_ships(&g), 4);
}

#[test]
fn preview_over_a_ship_is_flagged_and_restored() {
    let mut g = placing_game();
    run(&mut g, &[Command::MoveRight, Command::MoveRight, Command::Confirm]);
    assert_eq!(g.placed, 1);
    // The next piece overlaps nothing but touches column 2 at column 1.
    run(&mut g, &[Command::MoveRight]);
    assert!(!g.piece.placeable);
    assert_eq!(g.human.get(at(0, 1)), Cell::ShipCollision);
    run(&mut g, &[Command::MoveRight]);
    assert_eq!(g.human.get(at(0, 2)), Cell::ShipCollision);
    run(&mut g, &[Command::MoveRight, Command::MoveRight]);
    assert!(g.piece.placeable);
    for row in 0..4 {
        assert_eq!(g.human.get(at(row, 2)), Cell::ShipVisible);
        assert_eq!(g.human.get(at(row, 1)), Cell::Empty);
    }
    assert_eq!(visible_ships(&g), 7);
}

fn human_turn_game() -> Game {
    let mut g = placing_game();
    for k in 0..10 {
        run(&mut g, &moves_for(k));
        run(&mut g, &[Command::Confirm]);
    }
    assert_eq!(g.status, GameStatus::HumanTurn);
    g
}

#[test]
fn cursor_stays_on_the_board() {
    let mut g = human_turn_game();
    run(&mut g, &[Command::MoveUp, Command::MoveLeft]);
    assert_eq!(g.cursor, at(0, 0));
    run(&mut g, &vec![Command::MoveDown; 12]);
    assert_eq!(g.cursor, at(9, 0));
    run(&mut g, &vec![Command::MoveRight; 12]);
    assert_eq!(g.cursor, at(9, 9));
    run(&mut g, &[Command::MoveUp, Command::MoveLeft]);
    assert_eq!(g.cursor, at(8, 8));
    assert_eq!(g.status, GameStatus::HumanTurn);
}

#[test]
fn firing_hits_then_misses_and_stays_in_turn() {
    let mut g = human_turn_game();
    let target = (0..100).find(|i| g.opponent.cells[*i] == Cell::ShipHidden).unwrap() as i32;
    let (row, col) = (target / 10, target % 10);
    run(&mut g, &vec![Command::MoveDown; row as usize]);
    run(&mut g, &vec![Command::MoveRight; col as usize]);
    assert_eq!(g.cursor, at(row, col));
    assert_eq!(g.step(Command::Confirm), Some(ShotResult::Hit));
    assert_eq!(g.opponent.get(at(row, col)), Cell::ShipCollision);
    assert_eq!(g.status, GameStatus::HumanTurn);
    assert_eq!(g.step(Command::Confirm), Some(ShotResult::Miss));
    assert_eq!(g.status, GameStatus::HumanTurn);
}

#[test]
fn firing_at_water_misses() {
    let mut g = human_turn_game();
    let target = (0..100).find(|i| g.opponent.cells[*i] == Cell::Empty).unwrap() as i32;
    run(&mut g, &vec![Command::MoveDown; (target / 10) as usize]);
    run(&mut g, &vec![Command::MoveRight; (target % 10) as usize]);
    let before = g.opponent.cells;
    assert_eq!(g.step(Command::Confirm), Some(ShotResult::Miss));
    assert_eq!(g.opponent.cells, before);
}

#[test]
fn opponent_view_marks_the_cursor() {
    let mut g = human_turn_game();
    run(&mut g, &[Command::MoveDown, Command::MoveRight, Command::MoveRight]);
    let view = g.opponent_view();
    assert_eq!(view.get(at(1, 2)), Cell::ShotTarget);
    for i in 0..100 {
        if i != 12 {
            assert_eq!(view.cells[i], g.opponent.cells[i]);
        }
    }
    assert_ne!(g.opponent.get(at(1, 2)), Cell::ShotTarget);
}

#[test]
fn automated_turn_hands_back() {
    let mut g = human_turn_game();
    g.status = GameStatus::AutomatedTurn;
    let opponent = g.opponent.cells;
    assert_eq!(g.step(Command::MoveLeft), None);
    assert_eq!(g.status, GameStatus::HumanTurn);
    assert_eq!(g.opponent.cells, opponent);
}

#[test]
fn quit_ends_every_phase() {
    let mut g = Game::new();
    g.step(Command::Quit);
    assert_eq!(g.status, GameStatus::Quit);
    g.step(Command::Confirm);
    assert_eq!(g.status, GameStatus::Quit);

    let mut g = placing_game();
    g.step(Command::Quit);
    assert_eq!(g.status, GameStatus::Quit);

    let mut g = human_turn_game();
    assert_eq!(g.step(Command::Quit), None);
    assert_eq!(g.status, GameStatus::Quit);
}
