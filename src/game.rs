use vstd::prelude::*;
use crate::board::{Board, Cell, Coord, all_empty, in_bounds_spec, index_of};
use crate::shot::{ShotResult, resolve_shot, shot_spec};
use crate::fleet::{
    covered, fleet_cells, fleet_piece, fleet_prefix, fleet_size, generate_fleet, has_shape,
    holds_fleet, piece_size, shape, ship_count, valid_fleet,
};
use crate::piece::{Piece, PieceCell, transposed};
use crate::placement::{clear_of_ships, validate, validated};
use crate::preview::{SavedCell, add_piece, overlay, remember_before, snapshot};

verus! {

/// The phase the game is in.
#[derive(Clone, Copy, Debug, PartialEq, Eq, Structural)]
pub enum GameStatus {
    Start,
    PlacingFleet,
    HumanTurn,
    /// Entered by no transition; any command other than `Quit` returns to
    /// `HumanTurn`.
    AutomatedTurn,
    Quit,
}

/// A command from the player.
#[derive(Clone, Copy, Debug, PartialEq, Eq, Structural)]
pub enum Command {
    MoveLeft,
    MoveRight,
    MoveUp,
    MoveDown,
    Rotate,
    Confirm,
    Quit,
    ShowAbout,
}

/// `b` shows the ships of `f` concealed or hit, and is empty elsewhere.
pub open spec fn conceals_fleet(b: Seq<Cell>, f: Seq<Piece>) -> bool {
    &&& b.len() == 100
    &&& forall|q: int|
        0 <= q < 100 ==> if covered(f, q) {
            #[trigger] b[q] == Cell::ShipHidden || b[q] == Cell::ShipCollision
        } else {
            b[q] == Cell::Empty
        }
}

/// The two boards, the piece being placed and the aiming cursor, driven by
/// one command at a time.
pub struct Game {
    pub status: GameStatus,
    /// The human side's board, with the piece being placed drawn over it.
    pub human: Board,
    /// The automated side's board, its ships concealed.
    pub opponent: Board,
    /// The piece being placed.
    pub piece: Piece,
    /// How many pieces the human side has committed.
    pub placed: usize,
    /// The aiming cursor on the opponent's board.
    pub cursor: Coord,
    /// The human board's cells under the piece being placed.
    pub before: Vec<SavedCell>,
    /// The human board without the piece being placed.
    pub committed: Ghost<Board>,
    /// The pieces the human side has committed.
    pub own_fleet: Ghost<Seq<Piece>>,
    /// The automated side's fleet.
    pub rival_fleet: Ghost<Seq<Piece>>,
}

/// Anchor of the first piece of `size` cells offered for placement.
pub open spec fn start_anchor(size: int) -> Coord {
    if size >= 3 {
        Coord { row: 1, col: 0 }
    } else {
        Coord { row: 0, col: 0 }
    }
}

impl Game {
    /// While a piece is being placed: the committed pieces form the start of
    /// a fleet and are all the board holds, the piece is validated against
    /// them, drawn over them, and the cells it covers are remembered.
    pub open spec fn placing(&self) -> bool {
        let c = self.committed@;
        let size = fleet_size(self.placed as int);
        &&& self.placed < 10
        &&& self.own_fleet@.len() == self.placed
        &&& fleet_prefix(self.own_fleet@)
        &&& holds_fleet(c@, self.own_fleet@)
        &&& ship_count(c@) == fleet_cells(self.placed as int)
        &&& has_shape(self.piece, size, false) || has_shape(self.piece, size, true)
        &&& self.piece.fits()
        &&& self.piece.cells@ == validated(c, self.piece)
        &&& self.piece.placeable == clear_of_ships(c, self.piece)
        &&& self.human@ == overlay(c@, self.piece)
        &&& self.before@ == snapshot(c, self.piece)
    }

    /// Both sides have a whole fleet, the automated side's concealed.
    pub open spec fn fleets_ready(&self) -> bool {
        &&& valid_fleet(self.rival_fleet@)
        &&& conceals_fleet(self.opponent@, self.rival_fleet@)
    }

    /// The game's invariant, for each phase.
    pub open spec fn wf(&self) -> bool {
        &&& in_bounds_spec(self.cursor.row as int, self.cursor.col as int)
        &&& match self.status {
            GameStatus::Start => all_empty(self.human@) && all_empty(self.opponent@)
                && self.placed == 0,
            GameStatus::PlacingFleet => self.placing() && self.fleets_ready(),
            GameStatus::HumanTurn | GameStatus::AutomatedTurn => self.fleets_ready()
                && valid_fleet(self.own_fleet@) && holds_fleet(self.human@, self.own_fleet@),
            GameStatus::Quit => true,
        }
    }

    /// A game at its start: both boards empty, the cursor at (0, 0).
    pub fn new() -> (g: Game)
        ensures
            g.wf(),
            g.status == GameStatus::Start,
            all_empty(g.human@),
            all_empty(g.opponent@),
            g.placed == 0,
            g.cursor == (Coord { row: 0, col: 0 }),
    {
        let human = Board::new();
        Game {
            status: GameStatus::Start,
            human,
            opponent: Board::new(),
            piece: Piece::ship(4, Coord { row: 1, col: 0 }),
            placed: 0,
            cursor: Coord { row: 0, col: 0 },
            before: Vec::new(),
            committed: Ghost(human),
            own_fleet: Ghost(Seq::empty()),
            rival_fleet: Ghost(Seq::empty()),
        }
    }

    /// Offers piece number `placed` at its starting anchor, validated against
    /// the committed board and drawn over it.
    fn offer_piece(&mut self)
        requires
            old(self).placed < 10,
            old(self).human == old(self).committed@,
            old(self).own_fleet@.len() == old(self).placed,
            fleet_prefix(old(self).own_fleet@),
            holds_fleet(old(self).human@, old(self).own_fleet@),
            ship_count(old(self).human@) == fleet_cells(old(self).placed as int),
        ensures
            final(self).placing(),
            final(self).piece.anchor == start_anchor(fleet_size(old(self).placed as int)),
            has_shape(final(self).piece, fleet_size(old(self).placed as int), false),
            final(self).committed@ == old(self).committed@,
            final(self).status == old(self).status,
            final(self).opponent == old(self).opponent,
            final(self).placed == old(self).placed,
            final(self).cursor == old(self).cursor,
            final(self).own_fleet@ == old(self).own_fleet@,
            final(self).rival_fleet@ == old(self).rival_fleet@,
    {
        let size = piece_size(self.placed);
        let anchor = if size >= 3 { Coord { row: 1, col: 0 } } else { Coord { row: 0, col: 0 } };
        let mut p = Piece::ship(size, anchor);
        let ghost p0 = p;
        assert(p.fits()) by {
            assert forall|i: int| 0 <= i < p.cells@.len() implies #[trigger] in_bounds_spec(
                p.abs_row(i),
                p.abs_col(i),
            ) by {
                assert(p.cells@[i] == crate::piece::vertical_cells(size as int)[i]);
            }
        }
        let out_of_bounds = validate(&self.human, &mut p);
        proof {
            crate::placement::lemma_validated_again(self.human, p0, p);
            assert forall|i: int| 0 <= i < size implies #[trigger] p.cells@[i].offset
                == crate::fleet::shape(size as int, false)[i].offset by {
                assert(p.cells@[i] == validated(self.human, p0)[i]);
            }
        }
        self.before = remember_before(&self.human, &p);
        add_piece(&mut self.human, &p);
        self.piece = p;
    }

    /// Moves the piece being placed by (dr, dc) when it stays on the board,
    /// validating it again and redrawing it; otherwise nothing changes.
    fn move_piece(&mut self, dr: i32, dc: i32)
        requires
            old(self).status == GameStatus::PlacingFleet,
            old(self).wf(),
            -1 <= dr <= 1,
            -1 <= dc <= 1,
        ensures
            final(self).wf(),
            old(self).piece.fits_shifted(dr as int, dc as int) ==> moved(
                *old(self),
                *final(self),
                dr as int,
                dc as int,
            ),
            !old(self).piece.fits_shifted(dr as int, dc as int) ==> *final(self) == *old(self),
    {
        if !self.piece.fits_moved(dr, dc) {
            return;
        }
        let ghost old_piece = self.piece;
        self.restore_committed();
        proof {
            lemma_anchor_range(self.piece);
            assert(in_bounds_spec(self.piece.abs_row(0) + dr, self.piece.abs_col(0) + dc));
        }
        self.piece.anchor = Coord { row: self.piece.anchor.row + dr, col: self.piece.anchor.col + dc };
        let ghost p0 = self.piece;
        assert(p0.fits()) by {
            assert forall|i: int| 0 <= i < p0.cells@.len() implies #[trigger] in_bounds_spec(
                p0.abs_row(i),
                p0.abs_col(i),
            ) by {
                assert(in_bounds_spec(old_piece.abs_row(i) + dr, old_piece.abs_col(i) + dc));
            }
        }
        validate(&self.human, &mut self.piece);
        proof {
            crate::placement::lemma_validated_again(self.human, p0, self.piece);
            lemma_same_offsets(p0, self.piece, self.human);
        }
        self.redraw_piece();
    }

    /// Rotates the piece being placed when it stays on the board, validating
    /// it again and redrawing it; otherwise nothing changes.
    fn rotate_piece(&mut self)
        requires
            old(self).status == GameStatus::PlacingFleet,
            old(self).wf(),
        ensures
            final(self).wf(),
            old(self).piece.fits_transposed() ==> turned(*old(self), *final(self)),
            !old(self).piece.fits_transposed() ==> *final(self) == *old(self),
    {
        if !self.piece.fits_rotated() {
            return;
        }
        let ghost old_piece = self.piece;
        self.restore_committed();
        self.piece.rotate();
        let ghost p0 = self.piece;
        proof {
            lemma_shape_flip(old_piece, p0, fleet_size(self.placed as int));
        }
        assert(p0.fits()) by {
            assert forall|i: int| 0 <= i < p0.cells@.len() implies #[trigger] in_bounds_spec(
                p0.abs_row(i),
                p0.abs_col(i),
            ) by {
                assert(in_bounds_spec(
                    old_piece.anchor.row + old_piece.cells@[i].offset.col,
                    old_piece.anchor.col + old_piece.cells@[i].offset.row,
                ));
            }
        }
        validate(&self.human, &mut self.piece);
        proof {
            crate::placement::lemma_validated_again(self.human, p0, self.piece);
            lemma_same_offsets(p0, self.piece, self.human);
        }
        self.redraw_piece();
    }

    /// Takes the piece being placed off the human board, leaving the
    /// committed board.
    fn restore_committed(&mut self)
        requires
            old(self).status == GameStatus::PlacingFleet,
            old(self).wf(),
        ensures
            final(self).human == old(self).committed@,
            final(self).committed == old(self).committed,
            final(self).piece == old(self).piece,
            final(self).status == old(self).status,
            final(self).opponent == old(self).opponent,
            final(self).placed == old(self).placed,
            final(self).cursor == old(self).cursor,
            final(self).own_fleet == old(self).own_fleet,
            final(self).rival_fleet == old(self).rival_fleet,
    {
        proof {
            crate::preview::lemma_snapshot_in_bounds(self.committed@, self.piece);
            crate::preview::lemma_restore_undoes_overlay(self.committed@, self.piece);
        }
        crate::preview::place_before(&mut self.human, &self.before);
        assert(self.human.cells =~= self.committed@.cells);
    }

    /// Draws the piece being placed over the committed board, remembering the
    /// cells it covers.
    fn redraw_piece(&mut self)
        requires
            old(self).human == old(self).committed@,
            old(self).piece.fits(),
        ensures
            final(self).human@ == overlay(old(self).human@, old(self).piece),
            final(self).before@ == snapshot(old(self).human, old(self).piece),
            final(self).committed == old(self).committed,
            final(self).piece == old(self).piece,
            final(self).status == old(self).status,
            final(self).opponent == old(self).opponent,
            final(self).placed == old(self).placed,
            final(self).cursor == old(self).cursor,
            final(self).own_fleet == old(self).own_fleet,
            final(self).rival_fleet == old(self).rival_fleet,
    {
        self.before = remember_before(&self.human, &self.piece);
        add_piece(&mut self.human, &self.piece);
    }

    /// Commits the piece being placed, which must be placeable: the human
    /// board keeps it as drawn. After the tenth piece the human turn begins;
    /// before it the next piece is offered.
    fn confirm_piece(&mut self)
        requires
            old(self).status == GameStatus::PlacingFleet,
            old(self).wf(),
            old(self).piece.placeable,
        ensures
            final(self).wf(),
            committed_piece(*old(self), *final(self)),
    {
        let ghost c = self.committed@;
        let ghost size = fleet_size(self.placed as int);
        proof {
            lemma_placeable_visible(c, self.own_fleet@, self.piece);
            crate::fleet::lemma_commit(c, self.own_fleet@, self.piece);
        }
        self.committed = Ghost(self.human);
        self.own_fleet = Ghost(self.own_fleet@.push(self.piece));
        self.placed = self.placed + 1;
        if self.placed == crate::fleet::FLEET_PIECES {
            self.status = GameStatus::HumanTurn;
        } else {
            self.offer_piece();
        }
    }

    /// Generates and conceals the automated side's fleet and offers the
    /// human side its first piece.
    fn begin_placement(&mut self)
        requires
            old(self).status == GameStatus::Start,
            old(self).wf(),
        ensures
            final(self).wf(),
            final(self).status == GameStatus::PlacingFleet,
            placement_begun(*old(self), *final(self)),
    {
        let fleet = generate_fleet(&mut self.opponent);
        self.opponent.hide_ships();
        self.rival_fleet = Ghost(fleet@);
        proof {
            assert forall|q: int| 0 <= q < 100 implies if covered(fleet@, q) {
                #[trigger] self.opponent@[q] == Cell::ShipHidden || self.opponent@[q]
                    == Cell::ShipCollision
            } else {
                self.opponent@[q] == Cell::Empty
            } by {}
            assert(self.human@ =~= Seq::new(100, |_i: int| Cell::Empty));
            crate::fleet::lemma_count_empty(100);
        }
        self.committed = Ghost(self.human);
        self.own_fleet = Ghost(Seq::empty());
        proof {
            assert(holds_fleet(self.human@, self.own_fleet@));
        }
        self.offer_piece();
        self.status = GameStatus::PlacingFleet;
    }

    /// Moves the aiming cursor one cell, staying on the board.
    fn move_cursor(&mut self, dr: i32, dc: i32)
        requires
            old(self).wf(),
            -1 <= dr <= 1,
            -1 <= dc <= 1,
        ensures
            final(self).wf(),
            final(self).cursor == (Coord {
                row: clamped(old(self).cursor.row as int, dr as int) as i32,
                col: clamped(old(self).cursor.col as int, dc as int) as i32,
            }),
            final(self).status == old(self).status,
            final(self).human == old(self).human,
            final(self).opponent == old(self).opponent,
    {
        let row = self.cursor.row + dr;
        let col = self.cursor.col + dc;
        if 0 <= row && row < 10 && 0 <= col && col < 10 {
            self.cursor = Coord { row, col };
        } else if 0 <= row && row < 10 {
            self.cursor = Coord { row, col: self.cursor.col };
        } else if 0 <= col && col < 10 {
            self.cursor = Coord { row: self.cursor.row, col };
        }
    }

    /// Fires at the cursor on the opponent's board.
    fn fire(&mut self) -> (r: ShotResult)
        requires
            old(self).status == GameStatus::HumanTurn,
            old(self).wf(),
        ensures
            final(self).wf(),
            (r, final(self).opponent@) == shot_spec(
                old(self).opponent@,
                old(self).cursor.row as int,
                old(self).cursor.col as int,
            ),
            final(self).status == old(self).status,
            final(self).human == old(self).human,
            final(self).cursor == old(self).cursor,
    {
        let r = resolve_shot(&mut self.opponent, self.cursor);
        proof {
            let i = index_of(self.cursor.row as int, self.cursor.col as int);
            assert forall|q: int| 0 <= q < 100 implies if covered(self.rival_fleet@, q) {
                #[trigger] self.opponent@[q] == Cell::ShipHidden || self.opponent@[q]
                    == Cell::ShipCollision
            } else {
                self.opponent@[q] == Cell::Empty
            } by {
                if q != i {
                    assert(self.opponent@[q] == old(self).opponent@[q]);
                }
            }
        }
        r
    }

    /// The opponent's board as shown to the human side: the cell under the
    /// aiming cursor is drawn as the cursor.
    pub fn opponent_view(&self) -> (b: Board)
        requires
            self.wf(),
        ensures
            b@ == self.opponent@.update(
                index_of(self.cursor.row as int, self.cursor.col as int),
                Cell::ShotTarget,
            ),
    {
        let mut b = self.opponent;
        b.set(self.cursor, Cell::ShotTarget);
        b
    }

    /// Handles one command and returns the outcome when it fired a shot.
    ///
    /// `Quit` ends the game from any phase. At the start, `Confirm` generates
    /// the automated side's fleet and begins placement. While placing, moves
    /// and rotations that keep the piece on the board are made and the piece
    /// is validated again; `Confirm` commits a placeable piece and is ignored
    /// otherwise. On the human turn, moves shift the cursor within the board
    /// and `Confirm` fires at it. The automated turn hands back to the human
    /// turn. Every other command changes nothing.
    pub fn step(&mut self, cmd: Command) -> (r: Option<ShotResult>)
        requires
            old(self).wf(),
        ensures
            final(self).wf(),
            step_spec(*old(self), cmd, *final(self), r),
    {
        if cmd == Command::Quit {
            self.status = GameStatus::Quit;
            return None;
        }
        match self.status {
            GameStatus::Start => {
                if cmd == Command::Confirm {
                    self.begin_placement();
                }
                None
            },
            GameStatus::PlacingFleet => {
                match cmd {
                    Command::MoveLeft => self.move_piece(0, -1),
                    Command::MoveRight => self.move_piece(0, 1),
                    Command::MoveUp => self.move_piece(-1, 0),
                    Command::MoveDown => self.move_piece(1, 0),
                    Command::Rotate => self.rotate_piece(),
                    Command::Confirm => {
                        if self.piece.placeable {
                            self.confirm_piece();
                        }
                    },
                    _ => {},
                }
                None
            },
            GameStatus::HumanTurn => {
                match cmd {
                    Command::MoveLeft => {
                        self.move_cursor(0, -1);
                        None
                    },
                    Command::MoveRight => {
                        self.move_cursor(0, 1);
                        None
                    },
                    Command::MoveUp => {
                        self.move_cursor(-1, 0);
                        None
                    },
                    Command::MoveDown => {
                        self.move_cursor(1, 0);
                        None
                    },
                    Command::Confirm => Some(self.fire()),
                    _ => None,
                }
            },
            GameStatus::AutomatedTurn => {
                self.status = GameStatus::HumanTurn;
                None
            },
            GameStatus::Quit => None,
        }
    }
}

/// Row and column change of a move command.
pub open spec fn shift(cmd: Command) -> (int, int) {
    match cmd {
        Command::MoveLeft => (0, -1),
        Command::MoveRight => (0, 1),
        Command::MoveUp => (-1, 0),
        Command::MoveDown => (1, 0),
        _ => (0, 0),
    }
}

pub open spec fn is_move(cmd: Command) -> bool {
    cmd == Command::MoveLeft || cmd == Command::MoveRight || cmd == Command::MoveUp || cmd
        == Command::MoveDown
}

/// `v` moved by `d` when that stays in [0, 9], else `v`.
pub open spec fn clamped(v: int, d: int) -> int {
    if 0 <= v + d < 10 {
        v + d
    } else {
        v
    }
}

/// `after` has just entered placement from `before`: the automated side's
/// whole fleet is concealed on its board, and the human board shows the
/// first piece, vertical at its starting anchor.
pub open spec fn placement_begun(before: Game, after: Game) -> bool {
    &&& valid_fleet(after.rival_fleet@)
    &&& conceals_fleet(after.opponent@, after.rival_fleet@)
    &&& after.placed == 0
    &&& after.piece.anchor == start_anchor(4)
    &&& has_shape(after.piece, 4, false)
    &&& after.human@ == overlay(before.human@, after.piece)
    &&& after.cursor == before.cursor
}

/// What one command does, phase by phase; `r` is the shot's outcome when one
/// was fired.
pub open spec fn step_spec(before: Game, cmd: Command, after: Game, r: Option<ShotResult>) -> bool {
    let (dr, dc) = shift(cmd);
    &&& r is Some <==> (before.status == GameStatus::HumanTurn && cmd == Command::Confirm)
    &&& cmd == Command::Quit ==> after.status == GameStatus::Quit && after.human == before.human
        && after.opponent == before.opponent
    &&& cmd != Command::Quit ==> match before.status {
        GameStatus::Start => if cmd == Command::Confirm {
            after.status == GameStatus::PlacingFleet && placement_begun(before, after)
        } else {
            after == before
        },
        GameStatus::PlacingFleet => if is_move(cmd) {
            if before.piece.fits_shifted(dr, dc) {
                moved(before, after, dr, dc)
            } else {
                after == before
            }
        } else if cmd == Command::Rotate {
            if before.piece.fits_transposed() {
                turned(before, after)
            } else {
                after == before
            }
        } else if cmd == Command::Confirm && before.piece.placeable {
            committed_piece(before, after)
        } else {
            after == before
        },
        GameStatus::HumanTurn => if is_move(cmd) {
            &&& after.cursor == (Coord {
                row: clamped(before.cursor.row as int, dr) as i32,
                col: clamped(before.cursor.col as int, dc) as i32,
            })
            &&& after.status == before.status
            &&& after.human == before.human
            &&& after.opponent == before.opponent
        } else if cmd == Command::Confirm {
            &&& (r->0, after.opponent@) == shot_spec(
                before.opponent@,
                before.cursor.row as int,
                before.cursor.col as int,
            )
            &&& after.status == before.status
            &&& after.human == before.human
            &&& after.cursor == before.cursor
        } else {
            after == before
        },
        GameStatus::AutomatedTurn => {
            &&& after.status == GameStatus::HumanTurn
            &&& after.human == before.human
            &&& after.opponent == before.opponent
            &&& after.cursor == before.cursor
        },
        GameStatus::Quit => after == before,
    }
}

/// `after` is `before` with the piece being placed moved by (dr, dc) and
/// validated again; nothing else changed but the human board, which shows
/// the moved piece over the same committed board.
pub open spec fn moved(before: Game, after: Game, dr: int, dc: int) -> bool {
    &&& after.piece.anchor == (Coord {
        row: (before.piece.anchor.row + dr) as i32,
        col: (before.piece.anchor.col + dc) as i32,
    })
    &&& offsets(after.piece.cells@) == offsets(before.piece.cells@)
    &&& same_except_piece(before, after)
}

/// `after` is `before` with the piece being placed rotated and validated
/// again; nothing else changed but the human board, which shows the rotated
/// piece over the same committed board.
pub open spec fn turned(before: Game, after: Game) -> bool {
    &&& after.piece.anchor == before.piece.anchor
    &&& offsets(after.piece.cells@) == offsets(transposed(before.piece.cells@))
    &&& same_except_piece(before, after)
}

/// Only the piece being placed and its drawing on the human board differ.
pub open spec fn same_except_piece(before: Game, after: Game) -> bool {
    &&& after.status == before.status
    &&& after.placed == before.placed
    &&& after.committed == before.committed
    &&& after.own_fleet == before.own_fleet
    &&& after.rival_fleet == before.rival_fleet
    &&& after.opponent == before.opponent
    &&& after.cursor == before.cursor
    &&& after.human@ == overlay(before.committed@@, after.piece)
}

/// `after` is `before` with its piece committed: the human board as drawn
/// becomes the committed board, and the human turn begins exactly when this
/// was the tenth piece; before that the next piece is offered.
pub open spec fn committed_piece(before: Game, after: Game) -> bool {
    &&& after.placed == before.placed + 1
    &&& after.own_fleet@ == before.own_fleet@.push(before.piece)
    &&& after.committed@ == before.human
    &&& after.rival_fleet == before.rival_fleet
    &&& after.opponent == before.opponent
    &&& after.cursor == before.cursor
    &&& (after.status == GameStatus::HumanTurn) == (after.placed == 10)
    &&& after.status == GameStatus::HumanTurn ==> after.human == before.human
    &&& after.status != GameStatus::HumanTurn ==> {
        &&& after.status == GameStatus::PlacingFleet
        &&& after.piece.anchor == start_anchor(fleet_size(after.placed as int))
        &&& has_shape(after.piece, fleet_size(after.placed as int), false)
        &&& after.human@ == overlay(before.human@, after.piece)
    }
}

/// The offsets of a piece's cells.
pub open spec fn offsets(s: Seq<PieceCell>) -> Seq<Coord> {
    s.map_values(|pc: PieceCell| pc.offset)
}

/// A straight piece that fits has its anchor within one cell of the board.
proof fn lemma_anchor_range(p: Piece)
    requires
        p.fits(),
        p.cells@.len() >= 1,
        exists|size: int, rotated: bool| 1 <= size <= 4 && #[trigger] has_shape(p, size, rotated),
    ensures
        -1 <= p.anchor.row <= 10,
        -1 <= p.anchor.col <= 10,
{
    let (size, rotated) = choose|size: int, rotated: bool|
        1 <= size <= 4 && #[trigger] has_shape(p, size, rotated);
    assert(in_bounds_spec(p.abs_row(0), p.abs_col(0)));
    assert(p.cells@[0].offset == shape(size, rotated)[0].offset);
}

/// Transposing the cells of a straight piece turns its shape over.
proof fn lemma_shape_flip(p: Piece, q: Piece, size: int)
    requires
        has_shape(p, size, false) || has_shape(p, size, true),
        q.cells@ == transposed(p.cells@),
    ensures
        has_shape(q, size, false) || has_shape(q, size, true),
{
    if has_shape(p, size, false) {
        assert forall|i: int| 0 <= i < size implies #[trigger] q.cells@[i].offset == shape(
            size,
            true,
        )[i].offset by {
            assert(p.cells@[i].offset == shape(size, false)[i].offset);
        }
        assert(has_shape(q, size, true));
    } else {
        assert forall|i: int| 0 <= i < size implies #[trigger] q.cells@[i].offset == shape(
            size,
            false,
        )[i].offset by {
            assert(p.cells@[i].offset == shape(size, true)[i].offset);
        }
        assert(has_shape(q, size, false));
    }
}

/// Validation keeps the offsets, so the shape and the fit on the board.
proof fn lemma_same_offsets(p0: Piece, p: Piece, b: Board)
    requires
        p.anchor == p0.anchor,
        p.cells@ == validated(b, p0),
    ensures
        offsets(p.cells@) == offsets(p0.cells@),
        forall|size: int, rotated: bool|
            #[trigger] has_shape(p0, size, rotated) ==> has_shape(p, size, rotated),
{
    assert forall|i: int| 0 <= i < p.cells@.len() implies #[trigger] p.cells@[i].offset
        == p0.cells@[i].offset by {
        assert(p.cells@[i] == validated(b, p0)[i]);
    }
    assert(offsets(p.cells@) =~= offsets(p0.cells@));
}

/// A placeable piece validated against a board holding a fleet shows all of
/// its cells as visible ships.
proof fn lemma_placeable_visible(c: Board, f: Seq<Piece>, p: Piece)
    requires
        holds_fleet(c@, f),
        p.fits(),
        p.cells@ == validated(c, p),
        clear_of_ships(c, p),
    ensures
        crate::fleet::all_visible(p),
{
    crate::fleet::lemma_clear_cells(c, p);
    assert forall|i: int| 0 <= i < p.cells@.len() implies #[trigger] p.cells@[i].state
        == Cell::ShipVisible by {
        assert(in_bounds_spec(p.abs_row(i), p.abs_col(i)));
        assert(!crate::placement::touches_ship(c, p.abs_row(i), p.abs_col(i)));
        assert(p.cells@[i] == validated(c, p)[i]);
        assert(c.cell(p.abs_row(i), p.abs_col(i)) == c@[crate::preview::piece_index(p, i)]);
    }
}

} // verus!
