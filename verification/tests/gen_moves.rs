use tetris_core::board::Field;
use tetris_core::gen_moves::{gen_moves, MAX_OUTCOMES};
use tetris_core::move_map::MoveMap;
use tetris_core::piece::{piece_cell, Key, Piece};
use tetris_core::placement::Move;
use tetris_core::state::State;

fn state_with(rows: [u16; 20], pieces: &[Piece], hold: Piece) -> State {
    let mut state = State::new();
    state.field.m = rows;
    for p in pieces {
        state.pieces.push_back(*p);
    }
    state.hold = hold;
    state
}

fn staircase() -> [u16; 20] {
    let mut rows = [0u16; 20];
    rows[18] = 0b00_0000_0001;
    rows[19] = 0b00_0000_0111;
    rows
}

fn check_entries(state: &State, map: &MoveMap) {
    let piece = state.pieces[0];
    let hold = if state.hold != Piece::Empty {
        state.hold
    } else if state.pieces.len() >= 2 {
        state.pieces[1]
    } else {
        Piece::Empty
    };
    for i in 0..map.len() {
        let (field, m) = map.entry(i);
        // The entry is what locking its placement leaves.
        assert_eq!(state.field.apply_move(&m, &piece, &hold), field);
        // The placement rests: it fits and a hard drop moves it no further.
        let active = if m.hold { hold } else { piece };
        assert!(state.field.fits(active, m.r, m.x as i16, m.y as i16));
        let mut again = m;
        assert!(!again.apply_key(&Key::HardDrop, &state.field, &piece, &hold));
        assert_eq!(again, m);
        // No field is held twice.
        for j in 0..i {
            assert_ne!(map.entry(j).0, field);
        }
        assert!(map.contains_key(&field));
        assert_eq!(map.get(&field), Some(m));
    }
}

#[test]
fn gen_moves_test() {
    let mut state: State = State::new();
    state.pieces.push_back(Piece::Z);
    state.pieces.push_back(Piece::I);
    state.pieces.push_back(Piece::O);
    state.pieces.push_back(Piece::L);
    state.pieces.push_back(Piece::T);
    state.hold = Piece::Empty;

    state.field.m = [
        0b0_0_0_0_0_0_0_0_0_0,
        0b0_0_0_0_0_0_0_0_0_0,
        0b0_0_0_0_0_0_0_0_0_0,
        0b0_0_0_0_0_0_0_0_0_0,
        0b0_0_0_0_0_0_0_0_0_0,
        0b0_0_0_0_0_0_0_0_0_0,
        0b0_0_0_0_0_0_0_0_0_0,
        0b0_0_0_0_0_0_0_0_0_0,
        0b0_0_0_0_0_0_0_0_0_0,
        0b0_0_0_0_0_0_0_0_0_0,
        0b0_0_0_0_0_0_0_0_0_0,
        0b0_0_0_0_0_0_0_0_0_0,
        0b0_0_0_0_0_0_0_0_0_0,
        0b0_0_0_0_0_0_0_0_0_0,
        0b0_0_0_0_0_0_0_0_0_0,
        0b0_0_0_0_0_0_0_0_0_0,
        0b0_0_0_0_0_0_0_0_0_0,
        0b0_0_0_0_0_0_0_0_0_0,
        0b0_0_0_0_0_0_0_0_0_1,
        0b0_0_0_0_0_0_0_1_1_1,
    ];

    let map = gen_moves(&state);
    println!("-------");
    for i in 0..map.len() {
        let (field, _) = map.entry(i);
        println!("{:?}", field);
    }
    assert_eq!(map.len(), 32);
    check_entries(&state, &map);
}

#[test]
fn first_outcome_of_the_staircase() {
    let state = state_with(staircase(), &[Piece::Z, Piece::I], Piece::Empty);
    let map = gen_moves(&state);
    // The first branch: not held, not turned, one shift to the left.
    let (field, m) = map.entry(0);
    assert_eq!(m, Move { hold: false, r: 0, x: 3, y: 19 });
    let mut rows = staircase();
    rows[18] = 0b00_0000_1101;
    rows[19] = 0b00_0001_1111;
    assert_eq!(field, Field { m: rows });
    assert_eq!(map.entry(1).1, Move { hold: false, r: 0, x: 2, y: 18 });
    assert_eq!(map.entry(3).1, Move { hold: false, r: 0, x: 5, y: 19 });
    // The last branch that adds a field: held, half-turned, to the right.
    assert_eq!(map.entry(map.len() - 1).1, Move { hold: true, r: 2, x: 5, y: 19 });
}

#[test]
fn empty_queue_gives_an_empty_map() {
    let empty = state_with([0u16; 20], &[], Piece::Empty);
    assert_eq!(gen_moves(&empty).len(), 0);
    assert!(gen_moves(&empty).is_empty());
    let mut busy = state_with(staircase(), &[], Piece::T);
    busy.props.atk = 9;
    busy.props.combo = 3;
    assert!(gen_moves(&busy).is_empty());
}

#[test]
fn square_on_the_empty_field() {
    let state = state_with([0u16; 20], &[Piece::O], Piece::Empty);
    let map = gen_moves(&state);
    // Four shifts to the left, four to the right; turning adds nothing and
    // there is nothing to swap with.
    assert_eq!(map.len(), 8);
    let columns: Vec<i8> = (0..map.len()).map(|i| map.entry(i).1.x).collect();
    assert_eq!(columns, vec![3, 2, 1, 0, 5, 6, 7, 8]);
    for i in 0..map.len() {
        let (field, m) = map.entry(i);
        assert_eq!(m.y, 19);
        assert_eq!(m.r, 0);
        assert!(!m.hold);
        let two: u16 = 0b11 << m.x;
        let mut rows = [0u16; 20];
        rows[18] = two;
        rows[19] = two;
        assert_eq!(field, Field { m: rows });
    }
    check_entries(&state, &map);
}

#[test]
fn hold_brings_the_swap_piece_into_play() {
    let queue = state_with([0u16; 20], &[Piece::I, Piece::T], Piece::Empty);
    let from_queue = gen_moves(&queue);
    assert_eq!(from_queue.len(), 46);
    check_entries(&queue, &from_queue);
    let held = state_with([0u16; 20], &[Piece::T], Piece::I);
    let from_hold = gen_moves(&held);
    assert_eq!(from_hold.len(), 46);
    check_entries(&held, &from_hold);
    let mut used_hold = 0;
    for i in 0..from_hold.len() {
        if from_hold.entry(i).1.hold {
            used_hold += 1;
        }
    }
    assert!(used_hold > 0 && used_hold < 46);
    // The held piece comes before the queue's second piece.
    let both = state_with([0u16; 20], &[Piece::T, Piece::O], Piece::I);
    assert_eq!(gen_moves(&both).len(), 46);
    // With nothing to swap with the hold has no effect.
    let alone = state_with([0u16; 20], &[Piece::I], Piece::Empty);
    let without = gen_moves(&alone);
    assert!(without.len() < 46);
    for i in 0..without.len() {
        assert!(!without.entry(i).1.hold);
    }
}

#[test]
fn no_field_occurs_twice() {
    for piece in [Piece::I, Piece::O, Piece::T, Piece::S, Piece::Z, Piece::J, Piece::L] {
        let state = state_with(staircase(), &[piece, piece], Piece::Empty);
        let map = gen_moves(&state);
        assert!(map.len() > 0);
        assert!(map.len() <= MAX_OUTCOMES);
        check_entries(&state, &map);
    }
}

#[test]
fn size_is_bounded() {
    assert_eq!(MAX_OUTCOMES, 2 * 4 * 2 * 10);
    let pieces = [Piece::I, Piece::O, Piece::T, Piece::S, Piece::Z, Piece::J, Piece::L];
    for a in pieces {
        for b in pieces {
            let long_queue = [a, b, a, b, a, b, a, b, a, b, a, b];
            let state = state_with([0u16; 20], &long_queue, Piece::Empty);
            assert!(gen_moves(&state).len() <= MAX_OUTCOMES);
            assert_eq!(
                gen_moves(&state).len(),
                gen_moves(&state_with([0u16; 20], &[a, b], Piece::Empty)).len()
            );
        }
    }
}

#[test]
fn blocked_spawn_gives_nothing() {
    let full = state_with([0x3ffu16; 20], &[Piece::T, Piece::I], Piece::Empty);
    assert!(gen_moves(&full).is_empty());
    // Only the spawn rows are taken: nothing can move.
    let mut rows = [0u16; 20];
    rows[0] = 0x3ff;
    rows[1] = 0x3ff;
    let capped = state_with(rows, &[Piece::T, Piece::I], Piece::Empty);
    assert!(gen_moves(&capped).is_empty());
    // No piece at the head of the queue.
    let none = state_with([0u16; 20], &[Piece::Empty, Piece::Empty], Piece::Empty);
    assert!(gen_moves(&none).is_empty());
}

#[test]
fn shifts_stop_at_walls_and_cells() {
    let field = Field::new();
    let (t, i) = (Piece::T, Piece::I);
    let mut m = Move::new();
    assert_eq!(m, Move { hold: false, r: 0, x: 4, y: 1 });
    for x in [3, 2, 1] {
        assert!(m.apply_key(&Key::Left, &field, &t, &i));
        assert_eq!(m, Move { hold: false, r: 0, x, y: 1 });
    }
    assert!(!m.apply_key(&Key::Left, &field, &t, &i));
    assert_eq!(m.x, 1);
    for x in 2..=8 {
        assert!(m.apply_key(&Key::Right, &field, &t, &i));
        assert_eq!(m.x, x);
    }
    assert!(!m.apply_key(&Key::Right, &field, &t, &i));
    assert_eq!(m, Move { hold: false, r: 0, x: 8, y: 1 });
    // A cell in the way stops the shift.
    let mut blocked = Field::new();
    blocked.fill(2, 1);
    let mut n = Move::new();
    assert!(!n.apply_key(&Key::Left, &blocked, &t, &i));
    assert_eq!(n, Move::new());
    assert!(n.apply_key(&Key::Right, &blocked, &t, &i));
}

#[test]
fn turns_hold_and_drop() {
    let field = Field::new();
    let (t, i) = (Piece::T, Piece::I);
    let mut m = Move::new();
    assert!(m.apply_key(&Key::Cw, &field, &t, &i));
    assert_eq!(m.r, 1);
    assert!(m.apply_key(&Key::_180, &field, &t, &i));
    assert_eq!(m.r, 3);
    assert!(m.apply_key(&Key::Ccw, &field, &t, &i));
    assert_eq!(m.r, 2);
    assert!(m.apply_key(&Key::Ccw, &field, &t, &i));
    assert!(m.apply_key(&Key::Ccw, &field, &t, &i));
    assert_eq!(m, Move::new());
    // The long piece does not fit upright with its end above the field.
    let mut long = Move::new();
    assert!(!long.apply_key(&Key::Ccw, &field, &i, &t));
    assert_eq!(long, Move::new());
    assert!(long.apply_key(&Key::Cw, &field, &i, &t));
    // Hold swaps once.
    assert!(m.apply_key(&Key::Hold, &field, &t, &i));
    assert!(m.hold);
    assert!(!m.apply_key(&Key::Hold, &field, &t, &i));
    assert!(m.hold);
    let mut nothing = Move::new();
    assert!(!nothing.apply_key(&Key::Hold, &field, &t, &Piece::Empty));
    assert_eq!(nothing, Move::new());
    // A hard drop falls to the floor, once.
    let mut d = Move::new();
    assert!(d.apply_key(&Key::HardDrop, &field, &t, &i));
    assert_eq!(d, Move { hold: false, r: 0, x: 4, y: 19 });
    assert!(!d.apply_key(&Key::HardDrop, &field, &t, &i));
    assert_eq!(d.y, 19);
    // It comes to rest on what is there.
    let mut stacked = Field::new();
    stacked.fill(5, 10);
    let mut e = Move::new();
    assert!(e.apply_key(&Key::HardDrop, &stacked, &t, &i));
    assert_eq!(e.y, 9);
    // A piece that does not fit does not fall.
    let mut top = Field::new();
    top.fill(4, 1);
    let mut stuck = Move::new();
    assert!(!stuck.apply_key(&Key::HardDrop, &top, &t, &i));
    assert_eq!(stuck, Move::new());
}

#[test]
fn locking_fills_the_cells_of_the_piece() {
    let field = Field::new();
    let m = Move { hold: false, r: 0, x: 4, y: 19 };
    let locked = field.apply_move(&m, &Piece::T, &Piece::I);
    let mut rows = [0u16; 20];
    rows[18] = 0b00_0001_0000;
    rows[19] = 0b00_0011_1000;
    assert_eq!(locked, Field { m: rows });
    for y in 0..20 {
        for x in 0..10 {
            assert_eq!(locked.is_filled(x, y), (y == 19 && (3..=5).contains(&x)) || (y == 18 && x == 4));
        }
    }
    assert!(!locked.is_filled(10, 19));
    assert!(!locked.is_filled(4, 20));
    // With the hold used the swap piece is locked.
    let held = Move { hold: true, r: 1, x: 0, y: 17 };
    let upright = field.apply_move(&held, &Piece::T, &Piece::I);
    let mut rows = [0u16; 20];
    for y in 16..20 {
        rows[y] = 1;
    }
    assert_eq!(upright, Field { m: rows });
    // Cells outside the grid are left out; no piece locks nothing.
    let off = Move { hold: false, r: 0, x: 9, y: 0 };
    let partly = field.apply_move(&off, &Piece::T, &Piece::I);
    let mut rows = [0u16; 20];
    rows[0] = 0b11_0000_0000;
    assert_eq!(partly, Field { m: rows });
    assert_eq!(field.apply_move(&m, &Piece::Empty, &Piece::I), field);
    assert!(!field.fits(Piece::Empty, 0, 4, 10));
    assert!(field.fits(Piece::T, 0, 4, 19));
    assert!(!field.fits(Piece::T, 0, 4, 0));
    assert!(!locked.fits(Piece::O, 0, 4, 19));
}

#[test]
fn pieces_turn_about_their_pivot() {
    for piece in [Piece::I, Piece::O, Piece::T, Piece::S, Piece::Z, Piece::J, Piece::L] {
        for r in 0..8u8 {
            assert_eq!(piece_cell(piece, r, 0), (0, 0));
            assert_eq!(piece_cell(piece, r, 3), piece_cell(piece, r % 4, 3));
        }
    }
    assert_eq!(piece_cell(Piece::I, 0, 3), (2, 0));
    assert_eq!(piece_cell(Piece::I, 1, 3), (0, 2));
    assert_eq!(piece_cell(Piece::I, 2, 3), (-2, 0));
    assert_eq!(piece_cell(Piece::I, 3, 3), (0, -2));
    assert_eq!(piece_cell(Piece::T, 0, 3), (0, -1));
    assert_eq!(piece_cell(Piece::T, 1, 3), (1, 0));
    assert_eq!(piece_cell(Piece::L, 1, 3), (1, 1));
    assert_eq!(piece_cell(Piece::O, 3, 3), (1, -1));
    assert_eq!(piece_cell(Piece::Z, 0, 1), (1, 0));
    assert_eq!(piece_cell(Piece::S, 2, 2), (0, 1));
    assert_eq!(piece_cell(Piece::J, 0, 9), (-1, -1));
}

#[test]
fn move_map_keeps_the_first_placement() {
    let mut map = MoveMap::new();
    assert!(map.is_empty());
    let mut a = Field::new();
    a.fill(0, 19);
    let mut b = Field::new();
    b.fill(9, 19);
    let first = Move { hold: false, r: 0, x: 1, y: 19 };
    let second = Move { hold: true, r: 2, x: 7, y: 19 };
    assert!(map.insert_if_absent(a, first));
    assert!(!map.insert_if_absent(a, second));
    assert!(map.insert_if_absent(b, second));
    assert_eq!(map.len(), 2);
    assert!(!map.is_empty());
    assert_eq!(map.get(&a), Some(first));
    assert_eq!(map.get(&b), Some(second));
    assert_eq!(map.get(&Field::new()), None);
    assert!(map.contains_key(&a));
    assert!(!map.contains_key(&Field::new()));
    assert_eq!(map.entry(0), (a, first));
    assert_eq!(map.entry(1), (b, second));
    assert!(a.same_as(&a) && !a.same_as(&b));
    assert!(a != b);
}
