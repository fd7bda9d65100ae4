//! Placements: where the active piece stands, how a key moves it, and the
//! field that locking it leaves.

use vstd::prelude::*;
use crate::board::{Field, cell_filled, in_grid, rows_with_cell, lemma_fill_cell};
use crate::piece::{Key, Piece, cell, piece_cell, lemma_pivot_cell};

verus! {

/// The column in which a piece's pivot enters the field.
pub const SPAWN_X: i8 = 4;

/// The row in which a piece's pivot enters the field.
pub const SPAWN_Y: i8 = 1;

/// A placement of the active piece: whether the hold was used to get it,
/// its rotation state and the cell its pivot stands on.
#[derive(Clone, Copy, Debug, PartialEq, Eq, Structural, Hash)]
pub struct Move {
    pub hold: bool,
    pub r: u8,
    pub x: i8,
    pub y: i8,
}

/// Whether a piece in rotation state `r` with its pivot on `(x, y)` lies
/// inside the grid on empty cells. Nothing fits where there is no piece.
pub open spec fn piece_fits(f: &Field, piece: Piece, r: int, x: int, y: int) -> bool {
    piece != Piece::Empty && forall|i: int|
        0 <= i < 4 ==> in_grid(x + #[trigger] cell(piece, r, i).0, y + cell(piece, r, i).1)
            && !f.filled(x + cell(piece, r, i).0, y + cell(piece, r, i).1)
}

/// Whether the piece with its pivot on `(x, y)` covers the cell `(cx, cy)`.
pub open spec fn piece_covers(piece: Piece, r: int, x: int, y: int, cx: int, cy: int) -> bool {
    piece != Piece::Empty && exists|i: int|
        0 <= i < 4 && x + #[trigger] cell(piece, r, i).0 == cx && y + cell(piece, r, i).1 == cy
}

/// A piece that fits has its pivot inside the grid.
pub proof fn lemma_fits_in_grid(f: &Field, piece: Piece, r: int, x: int, y: int)
    requires
        piece_fits(f, piece, r, x, y),
    ensures
        in_grid(x, y),
{
    lemma_pivot_cell(piece, r);
    assert(in_grid(x + cell(piece, r, 0).0, y + cell(piece, r, 0).1));
}

/// The row on which a piece comes to rest when it falls from row `y`: the
/// piece fits on every row from `y` to there, and not on the next.
pub open spec fn rest_row(f: &Field, piece: Piece, r: int, x: int, y: int) -> int
    decreases 19 - y,
{
    if 0 <= y < 19 && piece_fits(f, piece, r, x, y + 1) {
        rest_row(f, piece, r, x, y + 1)
    } else {
        y
    }
}

/// What `rest_row` finds, for a piece that fits where it starts.
pub proof fn lemma_rest_row(f: &Field, piece: Piece, r: int, x: int, y: int)
    requires
        piece_fits(f, piece, r, x, y),
    ensures
        y <= rest_row(f, piece, r, x, y) < 20,
        forall|row: int|
            y <= row <= rest_row(f, piece, r, x, y) ==> piece_fits(f, piece, r, x, row),
        !piece_fits(f, piece, r, x, rest_row(f, piece, r, x, y) + 1),
    decreases 19 - y,
{
    lemma_fits_in_grid(f, piece, r, x, y);
    if y < 19 && piece_fits(f, piece, r, x, y + 1) {
        lemma_rest_row(f, piece, r, x, y + 1);
    } else if piece_fits(f, piece, r, x, y + 1) {
        lemma_fits_in_grid(f, piece, r, x, y + 1);
    }
}

/// The rows of a field after filling the first `n` cells of a piece.
pub open spec fn rows_with_cells(rows: Seq<u16>, piece: Piece, r: int, x: int, y: int, n: int) -> Seq<
    u16,
>
    decreases n,
{
    if n <= 0 {
        rows
    } else {
        rows_with_cell(
            rows_with_cells(rows, piece, r, x, y, n - 1),
            x + cell(piece, r, n - 1).0,
            y + cell(piece, r, n - 1).1,
        )
    }
}

/// The rows of a field after locking a piece: every cell of the piece that
/// lies inside the grid is filled. Lines are not cleared.
pub open spec fn locked_rows(rows: Seq<u16>, piece: Piece, r: int, x: int, y: int) -> Seq<u16> {
    if piece == Piece::Empty {
        rows
    } else {
        rows_with_cells(rows, piece, r, x, y, 4)
    }
}

/// Locking a piece fills the cells it covers inside the grid and changes no
/// other.
pub proof fn lemma_locked_cells(rows: Seq<u16>, piece: Piece, r: int, x: int, y: int)
    requires
        rows.len() == 20,
    ensures
        locked_rows(rows, piece, r, x, y).len() == 20,
        forall|cx: int, cy: int|
            cell_filled(locked_rows(rows, piece, r, x, y), cx, cy) == (cell_filled(rows, cx, cy)
                || (in_grid(cx, cy) && piece_covers(piece, r, x, y, cx, cy))),
{
    if piece != Piece::Empty {
        lemma_cells_filled(rows, piece, r, x, y, 4);
    }
}

/// Filling the first `n` cells of a piece fills those of them that lie
/// inside the grid and changes no other cell.
proof fn lemma_cells_filled(rows: Seq<u16>, piece: Piece, r: int, x: int, y: int, n: int)
    requires
        rows.len() == 20,
        0 <= n <= 4,
    ensures
        rows_with_cells(rows, piece, r, x, y, n).len() == 20,
        forall|cx: int, cy: int|
            cell_filled(rows_with_cells(rows, piece, r, x, y, n), cx, cy) == (cell_filled(
                rows,
                cx,
                cy,
            ) || (in_grid(cx, cy) && exists|i: int|
                0 <= i < n && x + #[trigger] cell(piece, r, i).0 == cx && y + cell(piece, r, i).1
                    == cy)),
    decreases n,
{
    if n > 0 {
        lemma_cells_filled(rows, piece, r, x, y, n - 1);
        let before = rows_with_cells(rows, piece, r, x, y, n - 1);
        let nx = x + cell(piece, r, n - 1).0;
        let ny = y + cell(piece, r, n - 1).1;
        lemma_fill_cell(before, nx, ny);
        let after = rows_with_cells(rows, piece, r, x, y, n);
        assert(after == rows_with_cell(before, nx, ny));
        assert forall|cx: int, cy: int|
            cell_filled(after, cx, cy) == (cell_filled(rows, cx, cy) || (in_grid(cx, cy)
                && exists|i: int|
                0 <= i < n && x + #[trigger] cell(piece, r, i).0 == cx && y + cell(piece, r, i).1
                    == cy)) by {
            let old_hit = exists|i: int|
                0 <= i < n - 1 && x + #[trigger] cell(piece, r, i).0 == cx && y + cell(
                    piece,
                    r,
                    i,
                ).1 == cy;
            let new_hit = exists|i: int|
                0 <= i < n && x + #[trigger] cell(piece, r, i).0 == cx && y + cell(piece, r, i).1
                    == cy;
            if old_hit {
                let i = choose|i: int|
                    0 <= i < n - 1 && x + #[trigger] cell(piece, r, i).0 == cx && y + cell(
                        piece,
                        r,
                        i,
                    ).1 == cy;
                assert(0 <= i < n && x + cell(piece, r, i).0 == cx && y + cell(piece, r, i).1
                    == cy);
            }
            if nx == cx && ny == cy {
                assert(0 <= n - 1 < n && x + cell(piece, r, n - 1).0 == cx && y + cell(
                    piece,
                    r,
                    n - 1,
                ).1 == cy);
            }
            if new_hit && !old_hit {
                let i = choose|i: int|
                    0 <= i < n && x + #[trigger] cell(piece, r, i).0 == cx && y + cell(
                        piece,
                        r,
                        i,
                    ).1 == cy;
                if i < n - 1 {
                    assert(old_hit);
                }
                assert(nx == cx && ny == cy);
            }
        }
    }
}

impl Move {
    /// The placement of a piece that has just entered the field.
    pub open spec fn new_spec() -> Move {
        Move { hold: false, r: 0, x: SPAWN_X, y: SPAWN_Y }
    }

    /// The placement of a piece that has just entered the field.
    #[verifier::when_used_as_spec(new_spec)]
    pub fn new() -> (m: Move)
        ensures
            m == Move::new_spec(),
    {
        Move { hold: false, r: 0, x: SPAWN_X, y: SPAWN_Y }
    }

    /// The piece this placement puts down: the swap piece if the hold was
    /// used, the queue's first piece otherwise.
    pub open spec fn active(&self, piece: Piece, hold: Piece) -> Piece {
        if self.hold {
            hold
        } else {
            piece
        }
    }

    /// Whether the placement's piece fits on the field where it stands.
    pub open spec fn fits(&self, f: &Field, piece: Piece, hold: Piece) -> bool {
        piece_fits(f, self.active(piece, hold), self.r as int, self.x as int, self.y as int)
    }

    /// The rotation state after `quarters` clockwise quarter turns.
    pub open spec fn turned_by(&self, quarters: int) -> Move {
        Move { r: ((self.r % 4 + quarters) % 4) as u8, ..*self }
    }

    /// The placement `by` columns to the right.
    pub open spec fn shifted(&self, by: int) -> Move {
        Move { x: (self.x + by) as i8, ..*self }
    }

    /// The placement dropped to the row where the piece comes to rest.
    pub open spec fn dropped(&self, f: &Field, piece: Piece, hold: Piece) -> Move {
        Move {
            y: rest_row(
                f,
                self.active(piece, hold),
                self.r as int,
                self.x as int,
                self.y as int,
            ) as i8,
            ..*self
        }
    }

    /// Where a key would take the placement, the field permitting.
    pub open spec fn aim(&self, key: Key, f: &Field, piece: Piece, hold: Piece) -> Move {
        match key {
            Key::Left => self.shifted(-1),
            Key::Right => self.shifted(1),
            Key::Cw => self.turned_by(1),
            Key::_180 => self.turned_by(2),
            Key::Ccw => self.turned_by(3),
            Key::Hold => Move { hold: true, ..*self },
            Key::HardDrop => self.dropped(f, piece, hold),
        }
    }

    /// Whether a key has an effect. A shift or a turn needs room for the
    /// piece at its new place; a hold needs an unused hold and room for the
    /// swap piece; a hard drop needs a piece that fits and can fall.
    pub open spec fn accepts(&self, key: Key, f: &Field, piece: Piece, hold: Piece) -> bool {
        match key {
            Key::Left => piece_fits(
                f,
                self.active(piece, hold),
                self.r as int,
                self.x - 1,
                self.y as int,
            ),
            Key::Right => piece_fits(
                f,
                self.active(piece, hold),
                self.r as int,
                self.x + 1,
                self.y as int,
            ),
            Key::Cw | Key::_180 | Key::Ccw => self.aim(key, f, piece, hold).fits(f, piece, hold),
            Key::Hold => !self.hold && self.aim(key, f, piece, hold).fits(f, piece, hold),
            Key::HardDrop => self.fits(f, piece, hold) && self.aim(key, f, piece, hold) != *self,
        }
    }

    /// The placement after a key: where the key aims if it has an effect,
    /// the same placement if it has none.
    pub open spec fn after_key(&self, key: Key, f: &Field, piece: Piece, hold: Piece) -> Move {
        if self.accepts(key, f, piece, hold) {
            self.aim(key, f, piece, hold)
        } else {
            *self
        }
    }
}

impl Move {
    /// Applies one key to the placement. Where the key has an effect the
    /// placement advances and the answer is `true`; where it has none the
    /// placement stays as it is and the answer is `false`.
    pub fn apply_key(&mut self, key: &Key, field: &Field, piece: &Piece, hold: &Piece) -> (ok:
        bool)
        ensures
            ok == old(self).accepts(*key, field, *piece, *hold),
            *final(self) == old(self).after_key(*key, field, *piece, *hold),
    {
        let active: Piece = if self.hold { *hold } else { *piece };
        let x: i16 = self.x as i16;
        let y: i16 = self.y as i16;
        match key {
            Key::Left => {
                let ok = field.fits(active, self.r, x - 1, y);
                if ok {
                    proof {
                        lemma_fits_in_grid(field, active, self.r as int, x - 1, y as int);
                    }
                    self.x = self.x - 1;
                }
                ok
            },
            Key::Right => {
                let ok = field.fits(active, self.r, x + 1, y);
                if ok {
                    proof {
                        lemma_fits_in_grid(field, active, self.r as int, x + 1, y as int);
                    }
                    self.x = self.x + 1;
                }
                ok
            },
            Key::Cw => self.turn(1, field, active),
            Key::_180 => self.turn(2, field, active),
            Key::Ccw => self.turn(3, field, active),
            Key::Hold => {
                let ok = !self.hold && field.fits(*hold, self.r, x, y);
                if ok {
                    self.hold = true;
                }
                ok
            },
            Key::HardDrop => {
                if !field.fits(active, self.r, x, y) {
                    return false;
                }
                let mut row: i16 = y;
                proof {
                    lemma_fits_in_grid(field, active, self.r as int, x as int, y as int);
                }
                while field.fits(active, self.r, x, row + 1)
                    invariant
                        0 <= row < 20,
                        piece_fits(field, active, self.r as int, x as int, row as int),
                        rest_row(field, active, self.r as int, x as int, row as int) == rest_row(
                            field,
                            active,
                            self.r as int,
                            x as int,
                            y as int,
                        ),
                    decreases 20 - row,
                {
                    proof {
                        lemma_fits_in_grid(field, active, self.r as int, x as int, row + 1);
                    }
                    row += 1;
                }
                let moved: bool = row != y;
                self.y = row as i8;
                moved
            },
        }
    }

    /// Turns the placement by `quarters` clockwise quarter turns if the
    /// piece fits in its new rotation state.
    fn turn(&mut self, quarters: u8, field: &Field, active: Piece) -> (ok: bool)
        requires
            quarters < 4,
        ensures
            ok == piece_fits(
                field,
                active,
                old(self).turned_by(quarters as int).r as int,
                old(self).x as int,
                old(self).y as int,
            ),
            *final(self) == if ok {
                old(self).turned_by(quarters as int)
            } else {
                *old(self)
            },
    {
        let r: u8 = (self.r % 4 + quarters) % 4;
        let ok = field.fits(active, r, self.x as i16, self.y as i16);
        if ok {
            self.r = r;
        }
        ok
    }
}

impl Field {
    /// Whether a piece in rotation state `r` with its pivot on `(x, y)` lies
    /// inside the grid on empty cells.
    pub fn fits(&self, piece: Piece, r: u8, x: i16, y: i16) -> (ok: bool)
        ensures
            ok == piece_fits(self, piece, r as int, x as int, y as int),
    {
        if piece == Piece::Empty {
            return false;
        }
        let mut i: usize = 0;
        while i < 4
            invariant
                i <= 4,
                piece != Piece::Empty,
                forall|j: int|
                    0 <= j < i ==> in_grid(
                        x + #[trigger] cell(piece, r as int, j).0,
                        y + cell(piece, r as int, j).1,
                    ) && !self.filled(
                        x + cell(piece, r as int, j).0,
                        y + cell(piece, r as int, j).1,
                    ),
            decreases 4 - i,
        {
            let c = piece_cell(piece, r, i);
            let cx: i32 = x as i32 + c.0 as i32;
            let cy: i32 = y as i32 + c.1 as i32;
            if cx < 0 || cx >= 10 || cy < 0 || cy >= 20 {
                assert(!in_grid(x + cell(piece, r as int, i as int).0, y + cell(piece, r as int, i as int).1));
                return false;
            }
            if self.is_filled(cx as usize, cy as usize) {
                assert(self.filled(x + cell(piece, r as int, i as int).0, y + cell(piece, r as int, i as int).1));
                return false;
            }
            i += 1;
        }
        true
    }

    /// The field that locking the placement's piece leaves.
    pub fn apply_move(&self, m: &Move, piece: &Piece, hold: &Piece) -> (g: Field)
        ensures
            g@ == locked_rows(self@, m.active(*piece, *hold), m.r as int, m.x as int, m.y as int),
            forall|cx: int, cy: int|
                g.filled(cx, cy) == (self.filled(cx, cy) || (in_grid(cx, cy) && piece_covers(
                    m.active(*piece, *hold),
                    m.r as int,
                    m.x as int,
                    m.y as int,
                    cx,
                    cy,
                ))),
            self.wf() ==> g.wf(),
    {
        let active: Piece = if m.hold { *hold } else { *piece };
        let mut g: Field = *self;
        proof {
            lemma_locked_cells(self@, active, m.r as int, m.x as int, m.y as int);
        }
        if active == Piece::Empty {
            return g;
        }
        let mut i: usize = 0;
        while i < 4
            invariant
                i <= 4,
                g@ == rows_with_cells(self@, active, m.r as int, m.x as int, m.y as int, i as int),
                self.wf() ==> g.wf(),
            decreases 4 - i,
        {
            let c = piece_cell(active, m.r, i);
            let cx: i32 = m.x as i32 + c.0 as i32;
            let cy: i32 = m.y as i32 + c.1 as i32;
            if cx >= 0 && cy >= 0 {
                g.fill(cx as usize, cy as usize);
            }
            i += 1;
        }
        g
    }
}

} // verus!
