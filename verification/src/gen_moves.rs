//! The placement enumerator: every field that the active piece can leave
//! when it is held or not, turned once, slid to one side and dropped.

use vstd::prelude::*;
use crate::board::Field;
use crate::move_map::{
    MoveMap, Outcome, absorb, first_wins, has_board, is_first, lemma_absorb_concat,
    lemma_absorb_first, lemma_absorb_keys,
};
use crate::piece::{Key, Piece};
use crate::placement::{Move, lemma_fits_in_grid, lemma_rest_row, locked_rows, piece_fits};
use crate::state::State;

verus! {

/// The most shifts to one side that can succeed in a row.
pub const MAX_SHIFTS: usize = 10;

/// The most entries an enumeration can have: hold or not, four rotation
/// states, two sides, ten shifts.
pub const MAX_OUTCOMES: usize = 160;

/// The step of a shift key along the columns.
pub open spec fn direction(key: Key) -> int {
    if key == Key::Left {
        -1
    } else {
        1
    }
}

/// How many shifts in a row succeed from column `x` towards `dir`: the
/// number of neighbouring columns on that side, counted from `x`, on which
/// the piece fits one after the other.
pub open spec fn slide_reach(f: &Field, piece: Piece, r: int, x: int, y: int, dir: int) -> nat
    decreases
            (if dir < 0 {
                x
            } else {
                10 - x
            }),
{
    if (dir == 1 || dir == -1) && 0 <= x + dir < 10 && piece_fits(f, piece, r, x + dir, y) {
        1 + slide_reach(f, piece, r, x + dir, y, dir)
    } else {
        0
    }
}

/// No slide is longer than the field is wide.
pub proof fn lemma_slide_reach_bound(f: &Field, piece: Piece, r: int, x: int, y: int, dir: int)
    ensures
        slide_reach(f, piece, r, x, y, dir) <= 10,
        dir < 0 && x <= 10 ==> slide_reach(f, piece, r, x, y, dir) <= x || x < 0,
        dir > 0 && x >= -1 ==> slide_reach(f, piece, r, x, y, dir) <= 9 - x || x > 9,
    decreases
            (if dir < 0 {
                x
            } else {
                10 - x
            }),
{
    if (dir == 1 || dir == -1) && 0 <= x + dir < 10 && piece_fits(f, piece, r, x + dir, y) {
        lemma_slide_reach_bound(f, piece, r, x + dir, y, dir);
    }
}

/// A field's rows after locking a placement's piece, with the placement.
pub open spec fn outcome_of(f: &Field, piece: Piece, hold: Piece, m: Move) -> Outcome {
    (locked_rows(f@, m.active(piece, hold), m.r as int, m.x as int, m.y as int), m)
}

/// The placement `k` columns from `base` towards `dir`.
pub open spec fn slid(base: Move, dir: int, k: int) -> Move {
    if dir < 0 {
        base.shifted(-k)
    } else {
        base.shifted(k)
    }
}

/// The outcomes of sliding from `base` towards `dir`: after each shift that
/// succeeds the piece is dropped and locked. The base itself is not locked.
pub open spec fn slide_outcomes(f: &Field, piece: Piece, hold: Piece, base: Move, dir: int) -> Seq<
    Outcome,
> {
    Seq::new(
        slide_reach(f, base.active(piece, hold), base.r as int, base.x as int, base.y as int, dir),
        |k: int| outcome_of(f, piece, hold, slid(base, dir, k + 1).dropped(f, piece, hold)),
    )
}

/// The key that turns a fresh piece into rotation state `rot`.
pub open spec fn turn_key(rot: int) -> Key {
    if rot == 1 {
        Key::Cw
    } else if rot == 2 {
        Key::_180
    } else {
        Key::Ccw
    }
}

/// The placement from which the slides of one orientation start: a fresh
/// placement after the hold key, if the hold is used, and the turn key, if
/// the piece is turned. There is none where one of these keys has no
/// effect.
pub open spec fn base_placement(
    f: &Field,
    piece: Piece,
    hold: Piece,
    use_hold: bool,
    rot: int,
) -> Option<Move> {
    let start = Move::new();
    if use_hold && !start.accepts(Key::Hold, f, piece, hold) {
        None
    } else {
        let held = if use_hold {
            start.after_key(Key::Hold, f, piece, hold)
        } else {
            start
        };
        if rot == 0 {
            Some(held)
        } else if held.accepts(turn_key(rot), f, piece, hold) {
            Some(held.after_key(turn_key(rot), f, piece, hold))
        } else {
            None
        }
    }
}

/// The outcomes of one orientation: those of the slide to the left, then
/// those of the slide to the right, both from the same base.
pub open spec fn orientation_outcomes(
    f: &Field,
    piece: Piece,
    hold: Piece,
    use_hold: bool,
    rot: int,
) -> Seq<Outcome> {
    match base_placement(f, piece, hold, use_hold, rot) {
        Some(base) => slide_outcomes(f, piece, hold, base, -1) + slide_outcomes(
            f,
            piece,
            hold,
            base,
            1,
        ),
        None => Seq::empty(),
    }
}

/// The outcomes of the first `n` of the eight orientations. The first four
/// do not use the hold, the last four do; within each four the piece is not
/// turned, turned clockwise, turned by a half turn, turned counterclockwise.
pub open spec fn outcomes_upto(f: &Field, piece: Piece, hold: Piece, n: int) -> Seq<Outcome>
    decreases n,
{
    if n <= 0 {
        Seq::empty()
    } else {
        outcomes_upto(f, piece, hold, n - 1) + orientation_outcomes(
            f,
            piece,
            hold,
            n - 1 >= 4,
            (n - 1) % 4,
        )
    }
}

/// Every outcome of a state in the order in which the enumerator meets
/// them, repeated rows included. An empty queue has none.
pub open spec fn all_outcomes(state: &State) -> Seq<Outcome> {
    if state.pieces@.len() == 0 {
        Seq::empty()
    } else {
        outcomes_upto(&state.field, state.pieces@[0], state.swap_piece(), 8)
    }
}

/// Whether an outcome is what a resting piece leaves: its placement fits
/// the field, cannot fall any further, and its rows are the field's with
/// the piece locked there.
pub open spec fn is_resting(f: &Field, piece: Piece, hold: Piece, o: Outcome) -> bool {
    &&& o.1.fits(f, piece, hold)
    &&& !piece_fits(f, o.1.active(piece, hold), o.1.r as int, o.1.x as int, o.1.y + 1)
    &&& o.0 == locked_rows(f@, o.1.active(piece, hold), o.1.r as int, o.1.x as int, o.1.y as int)
}

/// Within a slide's reach the piece fits on every column.
proof fn lemma_slide_fits(f: &Field, piece: Piece, r: int, x: int, y: int, dir: int, k: int)
    requires
        1 <= k <= slide_reach(f, piece, r, x, y, dir),
    ensures
        piece_fits(
            f,
            piece,
            r,
            if dir < 0 {
                x - k
            } else {
                x + k
            },
            y,
        ),
    decreases k,
{
    if k > 1 {
        lemma_slide_fits(f, piece, r, x + dir, y, dir, k - 1);
    }
}

/// Every outcome of a slide is that of a resting piece.
proof fn lemma_slide_outcomes_rest(f: &Field, piece: Piece, hold: Piece, base: Move, dir: int)
    ensures
        slide_outcomes(f, piece, hold, base, dir).len() <= 10,
        forall|k: int|
            0 <= k < slide_outcomes(f, piece, hold, base, dir).len() ==> is_resting(
                f,
                piece,
                hold,
                #[trigger] slide_outcomes(f, piece, hold, base, dir)[k],
            ),
{
    let active = base.active(piece, hold);
    let all = slide_outcomes(f, piece, hold, base, dir);
    lemma_slide_reach_bound(f, active, base.r as int, base.x as int, base.y as int, dir);
    assert forall|k: int| 0 <= k < all.len() implies is_resting(f, piece, hold, #[trigger] all[k]) by {
        lemma_slide_fits(f, active, base.r as int, base.x as int, base.y as int, dir, k + 1);
        let column = if dir < 0 {
            base.x - (k + 1)
        } else {
            base.x + (k + 1)
        };
        lemma_fits_in_grid(f, active, base.r as int, column, base.y as int);
        let stop = slid(base, dir, k + 1);
        assert(stop.x == column);
        lemma_rest_row(f, active, stop.r as int, stop.x as int, stop.y as int);
    }
}

/// Every outcome of the first `n` orientations is that of a resting piece,
/// and there are at most twenty for each orientation.
proof fn lemma_outcomes_upto_rest(f: &Field, piece: Piece, hold: Piece, n: int)
    requires
        0 <= n,
    ensures
        outcomes_upto(f, piece, hold, n).len() <= 20 * n,
        forall|i: int|
            0 <= i < outcomes_upto(f, piece, hold, n).len() ==> is_resting(
                f,
                piece,
                hold,
                #[trigger] outcomes_upto(f, piece, hold, n)[i],
            ),
    decreases n,
{
    if n > 0 {
        lemma_outcomes_upto_rest(f, piece, hold, n - 1);
        match base_placement(f, piece, hold, n - 1 >= 4, (n - 1) % 4) {
            Some(base) => {
                lemma_slide_outcomes_rest(f, piece, hold, base, -1);
                lemma_slide_outcomes_rest(f, piece, hold, base, 1);
            },
            None => {},
        }
    }
}

/// Every outcome that the enumerator meets is that of a resting piece: the
/// placement fits the field and cannot fall further, and the rows are the
/// field's with the piece locked there. There are at most 160 of them.
pub proof fn lemma_outcomes_rest(state: &State)
    ensures
        all_outcomes(state).len() <= MAX_OUTCOMES,
        forall|i: int|
            0 <= i < all_outcomes(state).len() ==> is_resting(
                &state.field,
                state.pieces@[0],
                state.swap_piece(),
                #[trigger] all_outcomes(state)[i],
            ),
{
    if state.pieces@.len() > 0 {
        lemma_outcomes_upto_rest(&state.field, state.pieces@[0], state.swap_piece(), 8);
    }
}

/// Slides a placement to one side as far as it goes and enters the field
/// that each stop leaves.
fn slide_into(
    field: &Field,
    piece: &Piece,
    hold: &Piece,
    base: &Move,
    key: Key,
    out: &mut MoveMap,
)
    requires
        key == Key::Left || key == Key::Right,
        old(out).wf(),
    ensures
        final(out).wf(),
        final(out)@ == absorb(
            old(out)@,
            slide_outcomes(field, *piece, *hold, *base, direction(key)),
        ),
        final(out).outcomes().len() <= old(out).outcomes().len() + MAX_SHIFTS,
{
    let ghost dir = direction(key);
    let ghost active = base.active(*piece, *hold);
    let ghost all = slide_outcomes(field, *piece, *hold, *base, dir);
    let ghost mut k: int = 0;
    let mut m: Move = *base;
    proof {
        lemma_slide_reach_bound(field, active, base.r as int, base.x as int, base.y as int, dir);
        assert(all.take(0) =~= Seq::<Outcome>::empty());
    }
    loop
        invariant
            key == Key::Left || key == Key::Right,
            dir == direction(key),
            active == base.active(*piece, *hold),
            all == slide_outcomes(field, *piece, *hold, *base, dir),
            all.len() <= 10,
            0 <= k <= all.len(),
            m.hold == base.hold && m.r == base.r && m.y == base.y,
            m.x as int == (if dir < 0 {
                base.x - k
            } else {
                base.x + k
            }),
            k + slide_reach(field, active, m.r as int, m.x as int, m.y as int, dir) == all.len(),
            out.wf(),
            out@ == absorb(old(out)@, all.take(k)),
            out.outcomes().len() <= old(out).outcomes().len() + k,
        ensures
            k == all.len(),
        decreases all.len() - k,
    {
        let ghost before = m;
        let row: i8 = m.y;
        if !m.apply_key(&key, field, piece, hold) {
            proof {
                if piece_fits(field, active, m.r as int, m.x + dir, m.y as int) {
                    lemma_fits_in_grid(field, active, m.r as int, m.x + dir, m.y as int);
                }
            }
            break ;
        }
        proof {
            lemma_fits_in_grid(field, active, before.r as int, before.x + dir, before.y as int);
            assert(m == slid(*base, dir, k + 1));
        }
        let ghost shifted = m;
        m.apply_key(&Key::HardDrop, field, piece, hold);
        assert(m == shifted.dropped(field, *piece, *hold));
        let locked: Field = field.apply_move(&m, piece, hold);
        out.insert_if_absent(locked, m);
        proof {
            let next = (locked@, m);
            assert(next == all[k]);
            assert(all.take(k + 1) =~= all.take(k).push(next));
            lemma_absorb_concat(old(out)@, all.take(k), seq![next]);
            assert(all.take(k) + seq![next] =~= all.take(k).push(next));
            k = k + 1;
        }
        m.y = row;
    }
    proof {
        assert(all.take(k) =~= all);
    }
}

/// Builds the placement from which the slides of one orientation start.
fn base_of(field: &Field, piece: &Piece, hold: &Piece, use_hold: bool, rot: u8) -> (base: Option<
    Move,
>)
    requires
        rot < 4,
    ensures
        base == base_placement(field, *piece, *hold, use_hold, rot as int),
{
    let mut m = Move::new();
    if use_hold {
        if !m.apply_key(&Key::Hold, field, piece, hold) {
            return None;
        }
    }
    if rot > 0 {
        let key: Key = if rot == 1 {
            Key::Cw
        } else if rot == 2 {
            Key::_180
        } else {
            Key::Ccw
        };
        if !m.apply_key(&key, field, piece, hold) {
            return None;
        }
    }
    Some(m)
}

/// Enters the fields that one orientation leaves: the slide to the left,
/// then the slide to the right.
fn orientation_into(
    field: &Field,
    piece: &Piece,
    hold: &Piece,
    use_hold: bool,
    rot: u8,
    out: &mut MoveMap,
)
    requires
        rot < 4,
        old(out).wf(),
    ensures
        final(out).wf(),
        final(out)@ == absorb(
            old(out)@,
            orientation_outcomes(field, *piece, *hold, use_hold, rot as int),
        ),
        final(out).outcomes().len() <= old(out).outcomes().len() + 2 * MAX_SHIFTS,
{
    match base_of(field, piece, hold, use_hold, rot) {
        Some(base) => {
            slide_into(field, piece, hold, &base, Key::Left, out);
            slide_into(field, piece, hold, &base, Key::Right, out);
            proof {
                lemma_absorb_concat(
                    old(out)@,
                    slide_outcomes(field, *piece, *hold, base, -1),
                    slide_outcomes(field, *piece, *hold, base, 1),
                );
            }
        },
        None => {},
    }
}

/// Enumerates the fields that placing the active piece can leave.
///
/// The active piece is the first of the queue. It is tried as it is and
/// swapped for the held piece (or, with nothing held, for the second piece
/// of the queue), each in four rotation states. From each of these bases it
/// slides to the left and to the right for as long as the shift succeeds,
/// and after each shift it is dropped and locked. A field is entered with
/// the placement that produced it first. With an empty queue there is
/// nothing to place. With nothing held and no second piece the hold has no
/// effect.
pub fn gen_moves(state: &State) -> (map: MoveMap)
    ensures
        map.wf(),
        map@ == first_wins(all_outcomes(state)),
        forall|board: Seq<u16>|
            map@.contains_key(board) <==> has_board(all_outcomes(state), board),
        forall|i: int|
            is_first(all_outcomes(state), i) ==> map@[all_outcomes(state)[i].0] == all_outcomes(
                state,
            )[i].1,
        map@.dom().finite(),
        map@.dom().len() == map.outcomes().len(),
        map.outcomes().len() <= MAX_OUTCOMES,
        state.pieces@.len() == 0 ==> map.outcomes().len() == 0 && map@ == Map::<
            Seq<u16>,
            Move,
        >::empty(),
{
    let mut out = MoveMap::new();
    proof {
        lemma_absorb_keys(Map::empty(), all_outcomes(state));
        assert forall|i: int| is_first(all_outcomes(state), i) implies first_wins(
            all_outcomes(state),
        )[all_outcomes(state)[i].0] == all_outcomes(state)[i].1 by {
            lemma_absorb_first(Map::empty(), all_outcomes(state), i);
        }
    }
    if state.pieces.len() == 0 {
        proof {
            out.lemma_len();
        }
        return out;
    }
    let piece: Piece = state.pieces[0];
    let hold: Piece = if state.hold != Piece::Empty {
        state.hold
    } else if state.pieces.len() >= 2 {
        state.pieces[1]
    } else {
        Piece::Empty
    };
    let field: &Field = &state.field;
    let mut i: u8 = 0;
    while i < 8
        invariant
            i <= 8,
            out.wf(),
            out@ == first_wins(outcomes_upto(field, piece, hold, i as int)),
            out.outcomes().len() <= 20 * i,
        decreases 8 - i,
    {
        let use_hold: bool = i >= 4;
        let rot: u8 = i % 4;
        proof {
            lemma_absorb_concat(
                Map::empty(),
                outcomes_upto(field, piece, hold, i as int),
                orientation_outcomes(field, piece, hold, use_hold, rot as int),
            );
        }
        orientation_into(field, &piece, &hold, use_hold, rot, &mut out);
        i += 1;
    }
    proof {
        out.lemma_len();
    }
    out
}

} // verus!
