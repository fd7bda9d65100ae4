//! The state a decision is made on: field, piece queue, hold slot and the
//! clear statistics gathered so far.

use std::collections::VecDeque;
use vstd::prelude::*;
use crate::board::Field;
use crate::piece::Piece;

verus! {

/// Attack and downstack counters of the last placement and of the game so
/// far.
#[derive(Clone, Copy, Debug, PartialEq, Eq, Structural, Hash)]
pub struct Props {
    /// Cumulative attack sent.
    pub sum_atk: u8,
    /// Cumulative garbage absorbed.
    pub sum_ds: u8,
    /// Attack sent by the last placement.
    pub atk: u8,
    /// Garbage absorbed by the last placement.
    pub ds: u8,
    /// Back-to-back counter.
    pub b2b: u8,
    /// Combo counter.
    pub combo: u8,
}

impl Props {
    /// All counters at zero.
    pub fn new() -> (p: Props)
        ensures
            p == (Props { sum_atk: 0, sum_ds: 0, atk: 0, ds: 0, b2b: 0, combo: 0 }),
    {
        Props { sum_atk: 0, sum_ds: 0, atk: 0, ds: 0, b2b: 0, combo: 0 }
    }
}

/// Everything a decision reads. `pieces[0]` is the active piece.
pub struct State {
    pub field: Field,
    pub pieces: VecDeque<Piece>,
    pub hold: Piece,
    pub props: Props,
}

impl State {
    /// The piece that a hold brings into play: the held piece, or the
    /// second piece of the queue where nothing is held. Where nothing is
    /// held and the queue has no second piece there is none.
    pub open spec fn swap_piece(&self) -> Piece {
        if self.hold != Piece::Empty {
            self.hold
        } else if self.pieces@.len() >= 2 {
            self.pieces@[1]
        } else {
            Piece::Empty
        }
    }

    /// An empty field, an empty queue, nothing held, all counters at zero.
    pub fn new() -> (s: State)
        ensures
            s.field@ == Seq::new(20, |y: int| 0u16),
            forall|x: int, y: int| !s.field.filled(x, y),
            s.pieces@.len() == 0,
            s.hold == Piece::Empty,
            s.props == (Props { sum_atk: 0, sum_ds: 0, atk: 0, ds: 0, b2b: 0, combo: 0 }),
    {
        State { field: Field::new(), pieces: VecDeque::new(), hold: Piece::Empty, props: Props::new() }
    }
}

} // verus!
