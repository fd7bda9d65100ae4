use tetris_core::board::Field;
use tetris_core::evaluator::{
    eval_sandbox, evaluate, evaluate_with, find_well, global_deviation_of, height_error_of,
    local_deviation_of, offense_of, sum_heights, Consts, Factors, Score, Tuning, Weights,
    SCORE_SCALE,
};
use tetris_core::piece::Piece;
use tetris_core::state::{Props, State};
use tetris_core::surface::{column_heights, count_holes};

fn state_of(rows: [u16; 20]) -> State {
    let mut state = State::new();
    state.field.m = rows;
    state
}

/// `filled` rows at the bottom, each holding `mask`.
fn stack(filled: usize, mask: u16) -> [u16; 20] {
    let mut rows = [0u16; 20];
    for y in (20 - filled)..20 {
        rows[y] = mask;
    }
    rows
}

fn uneven_with_well() -> [u16; 20] {
    let mut rows = [0u16; 20];
    for y in 10..12 {
        rows[y] = 0b00_0000_0011;
    }
    for y in 12..16 {
        rows[y] = 0b01_1110_1111;
    }
    for y in 16..20 {
        rows[y] = 0b11_1110_1111;
    }
    rows
}

#[test]
fn eval_test() {
    let score = eval_sandbox();
    assert_eq!(score.units, -19_169_460);
    // -2366.6 points
    assert_eq!(score.units * 10, -23_666 * SCORE_SCALE);
}

#[test]
fn sandbox_matches_evaluate_on_the_same_state() {
    let mut rows = [0u16; 20];
    rows[16] = 0b00_0000_0001;
    rows[17] = 0b01_0110_0001;
    rows[18] = 0b11_1111_1101;
    rows[19] = 0b11_1111_0111;
    let mut state = state_of(rows);
    state.props.atk = 1;
    state.props.ds = 2;
    assert_eq!(evaluate(&state), eval_sandbox());
    assert_eq!(column_heights(&state.field), [16, 19, 18, 18, 18, 17, 17, 18, 17, 18]);
    assert_eq!(count_holes(&state.field), (1, 1));
}

#[test]
fn empty_field_scores_minus_250_points() {
    let state = State::new();
    assert_eq!(column_heights(&state.field), [20u8; 10]);
    assert_eq!(count_holes(&state.field), (0, 0));
    assert_eq!(find_well(&[20u8; 10], 4), None);
    assert_eq!(evaluate(&state), Score { units: -250 * SCORE_SCALE });
    assert_eq!(evaluate(&state).units, -2_025_000);
}

#[test]
fn single_cell_in_the_bottom_left_corner() {
    let mut rows = [0u16; 20];
    rows[19] = 1;
    let state = state_of(rows);
    let h = column_heights(&state.field);
    assert_eq!(h, [19, 20, 20, 20, 20, 20, 20, 20, 20, 20]);
    assert_eq!(count_holes(&state.field), (0, 0));
    // No column lies four rows below the average of 19.9.
    assert_eq!(find_well(&h, 4), None);
    assert_eq!(global_deviation_of(&h, None), 90);
    assert_eq!(local_deviation_of(&h, None), 1);
    assert_eq!(height_error_of(&h, None, 5), -49);
    // -10 * 4.9^2 - 0.9 - 5 = -246 points
    assert_eq!(evaluate(&state).units, -246 * SCORE_SCALE);
}

#[test]
fn mode_switches_above_fourteen_rows() {
    // Fourteen rows high: exactly at the threshold, the normal profile.
    let at = state_of(stack(14, 0x3ff));
    assert_eq!(column_heights(&at.field), [6u8; 10]);
    assert_eq!(evaluate(&at).units, -810 * SCORE_SCALE);
    // Fifteen rows high: the downstack profile and its penalty.
    let above = state_of(stack(15, 0x3ff));
    assert_eq!(column_heights(&above.field), [5u8; 10]);
    assert_eq!(evaluate(&above).units, (-2000 - 20 * 15 * 15) * SCORE_SCALE);
    // Thirteen rows high: the normal profile.
    let below = state_of(stack(13, 0x3ff));
    assert_eq!(evaluate(&below).units, -640 * SCORE_SCALE);
}

#[test]
fn a_hole_switches_to_the_downstack_profile() {
    let mut rows = [0u16; 20];
    rows[18] = 0b00_0000_0001;
    let state = state_of(rows);
    assert_eq!(count_holes(&state.field), (1, 1));
    let h = column_heights(&state.field);
    assert_eq!(h, [18, 20, 20, 20, 20, 20, 20, 20, 20, 20]);
    // Downstack: the threshold of 20 rows is out of reach, so no well.
    assert_eq!(find_well(&h, 20), None);
    // heights sum to 198: error 10 * 20 - 198 = 2, global 18^2 + 9 * 2^2 = 360, local 4
    assert_eq!(height_error_of(&h, None, 0), 2);
    assert_eq!(global_deviation_of(&h, None), 360);
    assert_eq!(local_deviation_of(&h, None), 4);
    let expected = SCORE_SCALE * (-2000 - 150 - 15 - 10 * 4) + 81 * (-20 * 4 - 360);
    assert_eq!(evaluate(&state).units, expected);
}

#[test]
fn well_is_left_out_of_the_deviation_sums() {
    let mut state = state_of(uneven_with_well());
    state.props.sum_atk = 3;
    state.props.sum_ds = 1;
    state.props.atk = 2;
    state.props.ds = 1;
    let h = column_heights(&state.field);
    assert_eq!(h, [10, 10, 12, 12, 20, 12, 12, 12, 12, 16]);
    assert_eq!(count_holes(&state.field), (0, 0));
    let well = find_well(&h, 4);
    assert_eq!(well, Some(4));
    // Without column 4 the average is 108 / 9 = 12.
    // Global: (2^2 + 2^2 + 4^2) * 81; local: 2^2 + 4^2, without the pairs at the well.
    assert_eq!(global_deviation_of(&h, well), 24 * 81);
    assert_eq!(local_deviation_of(&h, well), 20);
    assert_eq!(height_error_of(&h, well, 5), 27);
    // With the well counted the sums would differ.
    assert_eq!(global_deviation_of(&h, None), 8_160);
    assert_eq!(local_deviation_of(&h, None), 148);
    // -10 * 3^2 - 24 - 5 * 20 + 315 = 101 points
    assert_eq!(offense_of(&state.props, &Weights::norm()), 315);
    assert_eq!(evaluate(&state).units, 101 * SCORE_SCALE);
}

#[test]
fn well_height_does_not_change_flatness() {
    let mut deep = [12u8; 10];
    deep[9] = 20;
    let mut deeper = [12u8; 10];
    deeper[9] = 17;
    assert_eq!(find_well(&deep, 4), Some(9));
    assert_eq!(find_well(&deeper, 4), Some(9));
    assert_eq!(global_deviation_of(&deep, Some(9)), global_deviation_of(&deeper, Some(9)));
    assert_eq!(local_deviation_of(&deep, Some(9)), local_deviation_of(&deeper, Some(9)));
    assert_eq!(height_error_of(&deep, Some(9), 5), height_error_of(&deeper, Some(9), 5));
    assert_eq!(global_deviation_of(&deep, Some(9)), 0);
    assert_eq!(evaluate(&state_of(stack(8, 0b01_1111_1111))).units, -90 * SCORE_SCALE);
}

#[test]
fn leftmost_of_equally_deep_columns_is_the_well() {
    let mut h = [12u8; 10];
    h[3] = 20;
    h[7] = 20;
    assert_eq!(find_well(&h, 4), Some(3));
    // A deeper column further right replaces an earlier candidate.
    h[3] = 19;
    assert_eq!(find_well(&h, 4), Some(7));
    // Exactly at the threshold: 10 * 14 - 100 = 40.
    let mut edge = [10u8; 10];
    edge[0] = 14;
    edge[1] = 6;
    assert_eq!(sum_heights(&edge), 100);
    assert_eq!(find_well(&edge, 4), Some(0));
    assert_eq!(find_well(&edge, 5), None);
    // A flat surface has no well, even at threshold 0.
    assert_eq!(find_well(&[7u8; 10], 0), None);
}

#[test]
fn holes_are_counted_with_squared_depth() {
    let mut rows = [0u16; 20];
    // Column 2: top at row 10, holes at rows 12 and 15.
    for y in [10usize, 11, 13, 14, 16, 17, 18, 19] {
        rows[y] |= 1 << 2;
    }
    // Column 9: top at row 17, holes at rows 18 and 19.
    rows[17] |= 1 << 9;
    let field = Field { m: rows };
    assert_eq!(column_heights(&field)[2], 10);
    assert_eq!(column_heights(&field)[9], 17);
    assert_eq!(count_holes(&field), (4, 4 + 25 + 1 + 4));
}

#[test]
fn cell_above_the_surface_never_lowers_the_hole_count() {
    let mut rows = [0u16; 20];
    rows[15] = 0b00_0000_0100;
    rows[17] = 0b00_0000_0100;
    let mut field = Field { m: rows };
    // Column 2: top at row 15, holes at rows 16, 18 and 19.
    assert_eq!(count_holes(&field).0, 3);
    // A cell at row 12 turns rows 13 and 14 into holes.
    field.fill(2, 12);
    assert_eq!(count_holes(&field).0, 5);
    // A cell right on top adds none.
    field.fill(2, 11);
    assert_eq!(count_holes(&field).0, 5);
    // A cell on another, empty column adds the whole column below it.
    field.fill(5, 18);
    assert_eq!(count_holes(&field).0, 6);
}

#[test]
fn score_depends_on_field_and_props_only() {
    let mut a = state_of(uneven_with_well());
    a.props.atk = 4;
    let mut b = state_of(uneven_with_well());
    b.props.atk = 4;
    b.pieces.push_back(Piece::T);
    b.pieces.push_back(Piece::I);
    b.hold = Piece::O;
    b.props.b2b = 3;
    b.props.combo = 7;
    assert_eq!(evaluate(&a), evaluate(&a));
    assert_eq!(evaluate(&a), evaluate(&b));
    b.props.atk = 5;
    assert_eq!(evaluate(&b).units - evaluate(&a).units, 35 * SCORE_SCALE);
}

#[test]
fn offense_terms_follow_the_profile() {
    let p = Props { sum_atk: 10, sum_ds: 4, atk: 2, ds: 3, b2b: 0, combo: 0 };
    // (10 - 4) * 50 + 10 * 40 + 4 * 15 + 2 * 35 + 3 * 10
    assert_eq!(offense_of(&p, &Weights::norm()), 860);
    // (10 - 4) * 50 + 4 * 350 + 3 * 30
    assert_eq!(offense_of(&p, &Weights::ds()), 1790);
    let behind = Props { sum_atk: 0, sum_ds: 255, atk: 0, ds: 0, b2b: 0, combo: 0 };
    assert_eq!(offense_of(&behind, &Weights::norm()), -255 * 50 + 255 * 15);
    let mut state = State::new();
    state.props = p;
    assert_eq!(evaluate(&state).units, (-250 + 860) * SCORE_SCALE);
}

#[test]
fn standard_configuration_holds_the_table() {
    let t = Tuning::standard();
    assert_eq!(t.consts, Consts::new());
    assert_eq!(t.consts.ds_height_threshold, 14);
    assert_eq!(t.consts.ds_mode_penalty, -2000);
    assert_eq!(t.factors_norm, Factors { ideal_h: 5, well_threshold: 4 });
    assert_eq!(t.factors_ds, Factors { ideal_h: 0, well_threshold: 20 });
    assert_eq!(Factors::norm(), t.factors_norm);
    assert_eq!(Factors::ds(), t.factors_ds);
    assert_eq!(
        Weights::norm(),
        Weights {
            hole: -100,
            hole_depth: -10,
            h_local_deviation: -5,
            h_global_deviation: -1,
            average_h: -10,
            sum_attack: 40,
            sum_downstack: 15,
            attack: 35,
            downstack: 10,
            eff: 50,
        }
    );
    assert_eq!(
        Weights::ds(),
        Weights {
            hole: -150,
            hole_depth: -15,
            h_local_deviation: -10,
            h_global_deviation: -1,
            average_h: -20,
            sum_attack: 0,
            sum_downstack: 350,
            attack: 0,
            downstack: 30,
            eff: 50,
        }
    );
    assert_eq!(t.weights_norm, Weights::norm());
    assert_eq!(t.weights_ds, Weights::ds());
}

#[test]
fn other_configurations_are_applied() {
    let state = state_of(stack(14, 0x3ff));
    let mut t = Tuning::standard();
    assert_eq!(evaluate_with(&state, &t), evaluate(&state));
    // A lower threshold puts the same field under the downstack profile.
    t.consts.ds_height_threshold = 13;
    t.consts.ds_mode_penalty = -7;
    assert_eq!(evaluate_with(&state, &t).units, (-7 - 20 * 14 * 14) * SCORE_SCALE);
    // An ideal height of fourteen rows leaves nothing to deduct.
    let mut u = Tuning::standard();
    u.factors_norm.ideal_h = 14;
    assert_eq!(evaluate_with(&state, &u).units, 0);
    // The largest weights stay within the score's range.
    let mut v = Tuning::standard();
    v.weights_norm.average_h = i32::MIN;
    v.factors_norm.ideal_h = 255;
    let empty = State::new();
    // error: 10 * (20 - 255) - 200 = -2550
    assert_eq!(evaluate_with(&empty, &v).units, 81 * 2550 * 2550 * (i32::MIN as i64));
}

#[test]
fn scores_rank_fields() {
    let empty = evaluate(&State::new());
    let low = evaluate(&state_of(stack(5, 0x3ff)));
    let high = evaluate(&state_of(stack(15, 0x3ff)));
    // Five rows is the ideal height of the normal profile.
    assert_eq!(low, Score { units: 0 });
    assert!(low > empty);
    assert!(empty > high);
    assert_eq!(std::cmp::max(high, low), low);
}

#[test]
fn downstack_profile_never_finds_a_well() {
    // One column empty, all others full to the top: the deepest a column can lie.
    let state = state_of(stack(20, 0b11_1111_1110));
    let h = column_heights(&state.field);
    assert_eq!(h, [20, 0, 0, 0, 0, 0, 0, 0, 0, 0]);
    assert_eq!(find_well(&h, 4), Some(0));
    assert_eq!(find_well(&h, 18), Some(0));
    assert_eq!(find_well(&h, 19), None);
    assert_eq!(find_well(&h, 20), None);
    // Scored under the downstack profile, with column 0 counted like any other:
    // error 10 * 20 - 20 = 180, global 180^2 + 9 * 20^2 = 36000, local 20^2
    let expected = SCORE_SCALE * (-2000 - 10 * 400) + 81 * (-20 * 180 * 180 - 36_000);
    assert_eq!(evaluate(&state).units, expected);
}
