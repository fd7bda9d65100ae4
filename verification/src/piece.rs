//! Tetromino kinds and the input vocabulary.

use vstd::prelude::*;

verus! {

/// One of the seven tetrominoes, or `Empty` for an empty hold slot.
#[derive(Clone, Copy, Debug, PartialEq, Eq, Structural, Hash)]
pub enum Piece {
    I,
    O,
    T,
    S,
    Z,
    J,
    L,
    Empty,
}

/// One input symbol.
#[derive(Clone, Copy, Debug, PartialEq, Eq, Structural, Hash)]
pub enum Key {
    Left,
    Right,
    Cw,
    Ccw,
    _180,
    Hold,
    HardDrop,
}

/// Cell `i` of a piece before any turn, as a column and a row offset from
/// the piece's pivot. Rows grow downwards. Cell 0 is the pivot itself; every
/// index from 3 on names the last cell.
pub open spec fn base_cell(piece: Piece, i: int) -> (int, int) {
    match piece {
        Piece::I => if i <= 0 {
            (0int, 0int)
        } else if i == 1 {
            (-1int, 0int)
        } else if i == 2 {
            (1int, 0int)
        } else {
            (2int, 0int)
        },
        Piece::O => if i <= 0 {
            (0int, 0int)
        } else if i == 1 {
            (1int, 0int)
        } else if i == 2 {
            (0int, -1int)
        } else {
            (1int, -1int)
        },
        Piece::T => if i <= 0 {
            (0int, 0int)
        } else if i == 1 {
            (-1int, 0int)
        } else if i == 2 {
            (1int, 0int)
        } else {
            (0int, -1int)
        },
        Piece::S => if i <= 0 {
            (0int, 0int)
        } else if i == 1 {
            (-1int, 0int)
        } else if i == 2 {
            (0int, -1int)
        } else {
            (1int, -1int)
        },
        Piece::Z => if i <= 0 {
            (0int, 0int)
        } else if i == 1 {
            (1int, 0int)
        } else if i == 2 {
            (0int, -1int)
        } else {
            (-1int, -1int)
        },
        Piece::J => if i <= 0 {
            (0int, 0int)
        } else if i == 1 {
            (-1int, 0int)
        } else if i == 2 {
            (1int, 0int)
        } else {
            (-1int, -1int)
        },
        Piece::L => if i <= 0 {
            (0int, 0int)
        } else if i == 1 {
            (-1int, 0int)
        } else if i == 2 {
            (1int, 0int)
        } else {
            (1int, -1int)
        },
        Piece::Empty => (0int, 0int),
    }
}

/// An offset after `r` clockwise quarter turns about the pivot.
pub open spec fn turned(c: (int, int), r: int) -> (int, int) {
    if r % 4 == 0 {
        c
    } else if r % 4 == 1 {
        (-c.1, c.0)
    } else if r % 4 == 2 {
        (-c.0, -c.1)
    } else {
        (c.1, -c.0)
    }
}

/// Cell `i` of a piece in rotation state `r`. The square does not turn.
pub open spec fn cell(piece: Piece, r: int, i: int) -> (int, int) {
    if piece == Piece::O {
        base_cell(piece, i)
    } else {
        turned(base_cell(piece, i), r)
    }
}

/// The pivot is a cell of every piece, in every rotation state.
pub proof fn lemma_pivot_cell(piece: Piece, r: int)
    ensures
        cell(piece, r, 0) == (0int, 0int),
{
}

/// Cell `i` of a piece before any turn.
fn base_cell_of(piece: Piece, i: usize) -> (c: (i8, i8))
    ensures
        c.0 == base_cell(piece, i as int).0,
        c.1 == base_cell(piece, i as int).1,
{
    match piece {
        Piece::I => if i == 0 {
            (0, 0)
        } else if i == 1 {
            (-1, 0)
        } else if i == 2 {
            (1, 0)
        } else {
            (2, 0)
        },
        Piece::O => if i == 0 {
            (0, 0)
        } else if i == 1 {
            (1, 0)
        } else if i == 2 {
            (0, -1)
        } else {
            (1, -1)
        },
        Piece::T => if i == 0 {
            (0, 0)
        } else if i == 1 {
            (-1, 0)
        } else if i == 2 {
            (1, 0)
        } else {
            (0, -1)
        },
        Piece::S => if i == 0 {
            (0, 0)
        } else if i == 1 {
            (-1, 0)
        } else if i == 2 {
            (0, -1)
        } else {
            (1, -1)
        },
        Piece::Z => if i == 0 {
            (0, 0)
        } else if i == 1 {
            (1, 0)
        } else if i == 2 {
            (0, -1)
        } else {
            (-1, -1)
        },
        Piece::J => if i == 0 {
            (0, 0)
        } else if i == 1 {
            (-1, 0)
        } else if i == 2 {
            (1, 0)
        } else {
            (-1, -1)
        },
        Piece::L => if i == 0 {
            (0, 0)
        } else if i == 1 {
            (-1, 0)
        } else if i == 2 {
            (1, 0)
        } else {
            (1, -1)
        },
        Piece::Empty => (0, 0),
    }
}

/// Cell `i` of a piece in rotation state `r`, as offsets from the pivot.
pub fn piece_cell(piece: Piece, r: u8, i: usize) -> (c: (i8, i8))
    ensures
        c.0 == cell(piece, r as int, i as int).0,
        c.1 == cell(piece, r as int, i as int).1,
{
    let b = base_cell_of(piece, i);
    if piece == Piece::O {
        return b;
    }
    let quarter: u8 = r % 4;
    if quarter == 0 {
        b
    } else if quarter == 1 {
        (-b.1, b.0)
    } else if quarter == 2 {
        (-b.0, -b.1)
    } else {
        (b.1, -b.0)
    }
}

} // verus!
