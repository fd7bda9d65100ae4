//! The board evaluator: a hand-tuned heuristic that scores a field and its
//! clear statistics. Scores are exact: every term is computed in integers,
//! in units of 1/8100 of a point.

use vstd::prelude::*;
use crate::board::{Field, lemma_column_top, lemma_column_top_unique};
use crate::state::{Props, State};
use crate::surface::{
    as_ints, column_depths, column_heights, column_holes, heights, hole_count, hole_depth_sq, holes_under, lemma_hole_bounds,
    lemma_prefix_bounds, lemma_prefix_equal, lemma_prefix_grows, lemma_prefix_step,
    lemma_prefix_zero, prefix_sum, total,
};

verus! {

/// Units per point of a `Score`: the least common multiple of 9 * 9 and
/// 10 * 10, the two denominators an average over nine or ten columns leaves
/// in a squared term.
pub const SCORE_SCALE: i64 = 8100;

/// A desirability score, higher is better, in units of 1/8100 of a point.
#[derive(Clone, Copy, Debug, PartialEq, Eq, PartialOrd, Ord, Structural, Hash)]
pub struct Score {
    pub units: i64,
}

/// When the downstack profile takes over, and what that costs.
#[derive(Clone, Copy, Debug, PartialEq, Eq, Structural)]
pub struct Consts {
    /// The downstack profile is chosen above this average stack height.
    pub ds_height_threshold: u8,
    /// Added once to the score whenever the downstack profile is chosen.
    pub ds_mode_penalty: i32,
}

impl Consts {
    pub open spec fn new_spec() -> Self {
        Consts { ds_height_threshold: 14, ds_mode_penalty: (-2000) as i32 }
    }

    #[verifier::when_used_as_spec(new_spec)]
    pub fn new() -> (c: Self)
        ensures
            c == Consts::new_spec(),
    {
        Self { ds_height_threshold: 14, ds_mode_penalty: -2000 }
    }
}

/// The shape a profile aims for.
#[derive(Clone, Copy, Debug, PartialEq, Eq, Structural)]
pub struct Factors {
    /// The stack height the profile aims for, in rows.
    pub ideal_h: u8,
    /// How many rows a column must lie below the average to count as a well.
    pub well_threshold: u8,
}

impl Factors {
    pub open spec fn norm_spec() -> Self {
        Factors { ideal_h: 5, well_threshold: 4 }
    }

    pub open spec fn ds_spec() -> Self {
        Factors { ideal_h: 0, well_threshold: 20 }
    }

    #[verifier::when_used_as_spec(norm_spec)]
    pub fn norm() -> (f: Self)
        ensures
            f == Factors::norm_spec(),
    {
        Self { ideal_h: 5, well_threshold: 4 }
    }

    #[verifier::when_used_as_spec(ds_spec)]
    pub fn ds() -> (f: Self)
        ensures
            f == Factors::ds_spec(),
    {
        Self { ideal_h: 0, well_threshold: 20 }
    }
}

/// The weight of every term of the score, in points.
#[derive(Clone, Copy, Debug, PartialEq, Eq, Structural)]
pub struct Weights {
    pub hole: i32,
    pub hole_depth: i32,
    pub h_local_deviation: i32,
    pub h_global_deviation: i32,
    pub average_h: i32,
    pub sum_attack: i32,
    pub sum_downstack: i32,
    pub attack: i32,
    pub downstack: i32,
    pub eff: i32,
}

impl Weights {
    pub open spec fn norm_spec() -> Self {
        Weights {
            hole: (-100) as i32,
            hole_depth: (-10) as i32,
            h_local_deviation: (-5) as i32,
            h_global_deviation: (-1) as i32,
            average_h: (-10) as i32,
            sum_attack: 40,
            sum_downstack: 15,
            attack: 35,
            downstack: 10,
            eff: 50,
        }
    }

    pub open spec fn ds_spec() -> Self {
        Weights {
            hole: (-150) as i32,
            hole_depth: (-15) as i32,
            h_local_deviation: (-10) as i32,
            h_global_deviation: (-1) as i32,
            average_h: (-20) as i32,
            sum_attack: 0,
            sum_downstack: 350,
            attack: 0,
            downstack: 30,
            eff: 50,
        }
    }

    #[verifier::when_used_as_spec(norm_spec)]
    pub fn norm() -> (w: Self)
        ensures
            w == Weights::norm_spec(),
    {
        Self {
            hole: -100,
            hole_depth: -10,
            h_local_deviation: -5,
            h_global_deviation: -1,
            average_h: -10,
            sum_attack: 40,
            sum_downstack: 15,
            attack: 35,
            downstack: 10,
            eff: 50,
        }
    }

    #[verifier::when_used_as_spec(ds_spec)]
    pub fn ds() -> (w: Self)
        ensures
            w == Weights::ds_spec(),
    {
        Self {
            hole: -150,
            hole_depth: -15,
            h_local_deviation: -10,
            h_global_deviation: -1,
            average_h: -20,
            sum_attack: 0,
            sum_downstack: 350,
            attack: 0,
            downstack: 30,
            eff: 50,
        }
    }
}

/// The whole configuration of the evaluator: the switch between the two
/// profiles, and the weights and factors of each.
#[derive(Clone, Copy, Debug, PartialEq, Eq, Structural)]
pub struct Tuning {
    pub consts: Consts,
    pub weights_norm: Weights,
    pub factors_norm: Factors,
    pub weights_ds: Weights,
    pub factors_ds: Factors,
}

impl Tuning {
    /// The configuration `evaluate` uses.
    pub open spec fn standard_spec() -> Tuning {
        Tuning {
            consts: Consts::new(),
            weights_norm: Weights::norm(),
            factors_norm: Factors::norm(),
            weights_ds: Weights::ds(),
            factors_ds: Factors::ds(),
        }
    }

    #[verifier::when_used_as_spec(standard_spec)]
    pub fn standard() -> (t: Self)
        ensures
            t == Tuning::standard_spec(),
    {
        Self {
            consts: Consts::new(),
            weights_norm: Weights::norm(),
            factors_norm: Factors::norm(),
            weights_ds: Weights::ds(),
            factors_ds: Factors::ds(),
        }
    }
}

/// Whether column `x` lies below the average of all ten by at least
/// `threshold` rows, and by more than nothing. Heights are row indices, so
/// "below" is a larger value; the comparison is made on ten times the
/// deviation to stay in integers.
pub open spec fn is_well_candidate(h: Seq<int>, threshold: int, x: int) -> bool {
    10 * h[x] > total(h) && 10 * h[x] - total(h) >= 10 * threshold
}

/// Whether `w` is the well: the leftmost of the deepest columns, deep enough
/// to be a candidate.
pub open spec fn is_well(h: Seq<int>, threshold: int, w: int) -> bool {
    &&& 0 <= w < 10
    &&& is_well_candidate(h, threshold, w)
    &&& forall|x: int| 0 <= x < w ==> h[x] < h[w]
    &&& forall|x: int| w < x < 10 ==> h[x] <= h[w]
}

/// The well of a surface, if it has one.
pub open spec fn well_of(h: Seq<int>, threshold: int) -> Option<int> {
    if exists|w: int| is_well(h, threshold, w) {
        Some(choose|w: int| is_well(h, threshold, w))
    } else {
        None
    }
}

/// A stored column index read as a mathematical integer.
pub open spec fn well_index(well: Option<u8>) -> Option<int> {
    match well {
        Some(w) => Some(w as int),
        None => None,
    }
}

/// A surface has at most one well.
pub proof fn lemma_well_unique(h: Seq<int>, threshold: int, w: int)
    requires
        is_well(h, threshold, w),
    ensures
        well_of(h, threshold) == Some(w),
{
    let c = choose|c: int| is_well(h, threshold, c);
    if c < w {
        assert(h[c] < h[w]);
    } else if w < c {
        assert(h[w] < h[c]);
    }
}

/// How many columns the averages run over: the well is left out.
pub open spec fn columns_counted(well: Option<int>) -> int {
    if well is Some {
        9
    } else {
        10
    }
}

/// The sum of the column heights, without the well.
pub open spec fn surface_sum(h: Seq<int>, well: Option<int>) -> int {
    match well {
        Some(w) => total(h) - h[w],
        None => total(h),
    }
}

/// The distance of the average stack height from `ideal`, times the number
/// of columns counted. Its sign is kept; only its square enters the score.
pub open spec fn height_error(h: Seq<int>, well: Option<int>, ideal: int) -> int {
    columns_counted(well) * (20 - ideal) - surface_sum(h, well)
}

/// Per column: the square of its deviation from the average, times the
/// square of the number of columns counted; 0 for the well.
pub open spec fn global_terms(h: Seq<int>, well: Option<int>) -> Seq<int> {
    Seq::new(
        10,
        |x: int|
            if well == Some(x) {
                0int
            } else {
                (surface_sum(h, well) - columns_counted(well) * h[x]) * (surface_sum(h, well)
                    - columns_counted(well) * h[x])
            },
    )
}

/// The sum of the squared deviations from the average, times the square of
/// the number of columns counted.
pub open spec fn global_deviation(h: Seq<int>, well: Option<int>) -> int {
    total(global_terms(h, well))
}

/// Per column: the square of the step up from its left neighbour; 0 for the
/// leftmost column, for the well and for the column right of the well.
pub open spec fn local_terms(h: Seq<int>, well: Option<int>) -> Seq<int> {
    Seq::new(
        10,
        |x: int|
            if x == 0 || well == Some(x) || well == Some(x - 1) {
                0int
            } else {
                (h[x] - h[x - 1]) * (h[x] - h[x - 1])
            },
    )
}

/// The sum of the squared steps between neighbouring columns, without the
/// two steps at the well.
pub open spec fn local_deviation(h: Seq<int>, well: Option<int>) -> int {
    total(local_terms(h, well))
}

/// The attack and downstack terms of the score, in points.
pub open spec fn offense(p: &Props, w: &Weights) -> int {
    (p.sum_atk - p.sum_ds) * w.eff + p.sum_atk * w.sum_attack + p.sum_ds * w.sum_downstack
        + p.atk * w.attack + p.ds * w.downstack
}

/// Whether the downstack profile is chosen: the stack stands higher on
/// average than the threshold, or the field has a hole.
pub open spec fn in_downstack_mode(f: &Field, c: &Consts) -> bool {
    total(heights(f)) + 10 * c.ds_height_threshold < 200 || hole_count(f) > 0
}

/// The score of a field and its statistics under a configuration, in units
/// of 1/8100 of a point.
pub open spec fn score_units(f: &Field, p: &Props, t: &Tuning) -> int {
    let h = heights(f);
    let ds = in_downstack_mode(f, &t.consts);
    let w = if ds { t.weights_ds } else { t.weights_norm };
    let fa = if ds { t.factors_ds } else { t.factors_norm };
    let penalty = if ds { t.consts.ds_mode_penalty as int } else { 0 };
    let well = well_of(h, fa.well_threshold as int);
    let n = columns_counted(well);
    8100 * (penalty + hole_count(f) * w.hole + hole_depth_sq(f) * w.hole_depth + local_deviation(
        h,
        well,
    ) * w.h_local_deviation + offense(p, &w)) + (8100int / (n * n)) * (height_error(
        h,
        well,
        fa.ideal_h as int,
    ) * height_error(h, well, fa.ideal_h as int) * w.average_h + global_deviation(h, well)
        * w.h_global_deviation)
}

/// The sum of the ten heights.
pub fn sum_heights(h: &[u8; 10]) -> (s: u16)
    ensures
        s == total(as_ints(h@)),
        s <= 2550,
{
    let mut s: u16 = 0;
    let mut x: usize = 0;
    while x < 10
        invariant
            x <= 10,
            s == prefix_sum(as_ints(h@), x as int),
            s <= 255 * x,
        decreases 10 - x,
    {
        s += h[x] as u16;
        x += 1;
    }
    s
}

/// Finds the well: the column that lies deepest below the average, if it
/// lies at least `threshold` rows below it. Of several equally deep columns
/// the leftmost is the well.
pub fn find_well(h: &[u8; 10], threshold: u8) -> (well: Option<u8>)
    ensures
        well is Some ==> well.unwrap() < 10,
        well_index(well) == well_of(as_ints(h@), threshold as int),
{
    let ghost hs = as_ints(h@);
    let ghost thr = threshold as int;
    let sum: i32 = sum_heights(h) as i32;
    let mut well: Option<u8> = None;
    let mut x: usize = 0;
    while x < 10
        invariant
            x <= 10,
            hs == as_ints(h@),
            thr == threshold as int,
            sum == total(hs),
            0 <= sum <= 2550,
            forall|c: int| 0 <= c < 10 ==> hs[c] == h[c] as int,
            match well {
                Some(w) => {
                    &&& w < x
                    &&& is_well_candidate(hs, thr, w as int)
                    &&& forall|c: int| 0 <= c < w ==> hs[c] < hs[w as int]
                    &&& forall|c: int| w < c < x ==> hs[c] <= hs[w as int]
                },
                None => forall|c: int| 0 <= c < x ==> !is_well_candidate(hs, thr, c),
            },
        decreases 10 - x,
    {
        let deviation: i32 = 10 * (h[x] as i32) - sum;
        assert(hs[x as int] == h[x as int] as int);
        if deviation > 0 && deviation >= 10 * (threshold as i32) {
            match well {
                Some(p) => {
                    assert(hs[p as int] == h[p as int] as int);
                    if h[p as usize] < h[x] {
                        well = Some(x as u8);
                    }
                },
                None => {
                    assert forall|c: int| 0 <= c < x implies hs[c] < hs[x as int] by {
                        assert(!is_well_candidate(hs, thr, c));
                    }
                    well = Some(x as u8);
                },
            }
        }
        x += 1;
    }
    proof {
        match well {
            Some(w) => {
                lemma_well_unique(hs, thr, w as int);
            },
            None => {},
        }
    }
    well
}

/// The sum of the heights without the well.
fn surface_sum_of(h: &[u8; 10], well: Option<u8>) -> (s: i32)
    requires
        well is Some ==> well.unwrap() < 10,
    ensures
        s == surface_sum(as_ints(h@), well_index(well)),
        -255 <= s <= 2550,
{
    let all: i32 = sum_heights(h) as i32;
    match well {
        Some(w) => all - h[w as usize] as i32,
        None => all,
    }
}

/// How many columns the averages run over.
fn columns_counted_of(well: Option<u8>) -> (n: i32)
    ensures
        n == columns_counted(well_index(well)),
        n == 9 || n == 10,
{
    if well.is_some() {
        9
    } else {
        10
    }
}

/// The distance of the average stack height from `ideal`, times the number
/// of columns counted.
pub fn height_error_of(h: &[u8; 10], well: Option<u8>, ideal: u8) -> (e: i32)
    requires
        well is Some ==> well.unwrap() < 10,
    ensures
        e == height_error(as_ints(h@), well_index(well), ideal as int),
{
    let sum: i32 = surface_sum_of(h, well);
    let n: i32 = columns_counted_of(well);
    n * (20 - ideal as i32) - sum
}

/// The sum over all columns but the well of the squared deviation from the
/// average, times the square of the number of columns counted.
pub fn global_deviation_of(h: &[u8; 10], well: Option<u8>) -> (r: i64)
    requires
        well is Some ==> well.unwrap() < 10,
    ensures
        r == global_deviation(as_ints(h@), well_index(well)),
{
    let ghost hs = as_ints(h@);
    let ghost wi = well_index(well);
    let sum: i32 = surface_sum_of(h, well);
    let n: i32 = columns_counted_of(well);
    let mut acc: i64 = 0;
    let mut x: usize = 0;
    while x < 10
        invariant
            x <= 10,
            hs == as_ints(h@),
            wi == well_index(well),
            sum == surface_sum(hs, wi),
            -255 <= sum <= 2550,
            n == columns_counted(wi),
            acc == prefix_sum(global_terms(hs, wi), x as int),
            0 <= acc <= 7868025 * x,
        decreases 10 - x,
    {
        let is_the_well: bool = match well {
            Some(w) => w as usize == x,
            None => false,
        };
        assert(is_the_well == (wi == Some(x as int)));
        assert(hs[x as int] == h[x as int] as int);
        if !is_the_well {
            let d: i64 = (sum - n * (h[x] as i32)) as i64;
            assert(0 <= d * d <= 7868025) by (nonlinear_arith)
                requires
                    -2805 <= d <= 2550,
            ;
            acc += d * d;
        }
        x += 1;
    }
    acc
}

/// The sum of the squared height differences of neighbouring columns,
/// without the two pairs that touch the well.
pub fn local_deviation_of(h: &[u8; 10], well: Option<u8>) -> (r: i64)
    requires
        well is Some ==> well.unwrap() < 10,
    ensures
        r == local_deviation(as_ints(h@), well_index(well)),
{
    let ghost hs = as_ints(h@);
    let ghost wi = well_index(well);
    let mut acc: i64 = 0;
    let mut x: usize = 1;
    proof {
        lemma_prefix_zero(local_terms(hs, wi), 1);
    }
    while x < 10
        invariant
            1 <= x <= 10,
            hs == as_ints(h@),
            wi == well_index(well),
            acc == prefix_sum(local_terms(hs, wi), x as int),
            0 <= acc <= 65025 * x,
        decreases 10 - x,
    {
        let touches_well: bool = match well {
            Some(w) => w as usize == x || w as usize + 1 == x,
            None => false,
        };
        assert(touches_well == (wi == Some(x as int) || wi == Some(x as int - 1)));
        assert(hs[x as int] == h[x as int] as int);
        assert(hs[x as int - 1] == h[x as int - 1] as int);
        if !touches_well {
            let d: i64 = h[x] as i64 - h[x - 1] as i64;
            assert(0 <= d * d <= 65025) by (nonlinear_arith)
                requires
                    -255 <= d <= 255,
            ;
            acc += d * d;
        }
        x += 1;
    }
    acc
}

/// A product of a bounded quantity and a weight stays within the bound
/// times the largest weight.
proof fn lemma_weighted_bound(q: int, w: int, bound: int)
    by (nonlinear_arith)
    requires
        -bound <= q <= bound,
        -0x8000_0000 <= w <= 0x8000_0000,
    ensures
        -(bound * 0x8000_0000) <= q * w <= bound * 0x8000_0000,
{
}

/// A quantity times its weight.
fn weighted(q: i64, w: i32) -> (r: i64)
    requires
        -10_000_000 <= q <= 10_000_000,
    ensures
        r == q * w,
{
    proof {
        lemma_weighted_bound(q as int, w as int, 10_000_000);
    }
    q * (w as i64)
}

/// On a surface of heights between 0 and 20: bounds on the sums that the
/// score is made of.
pub proof fn lemma_surface_bounds(h: Seq<int>, well: Option<int>)
    requires
        h.len() == 10,
        forall|x: int| 0 <= x < 10 ==> 0 <= #[trigger] h[x] && h[x] <= 20,
        well is Some ==> 0 <= well.unwrap() < 10,
    ensures
        0 <= total(h) <= 200,
        -20 <= surface_sum(h, well) <= 200,
        0 <= global_deviation(h, well) <= 484000,
        0 <= local_deviation(h, well) <= 4000,
{
    lemma_prefix_bounds(h, 10, 0, 20);
    let s = surface_sum(h, well);
    let n = columns_counted(well);
    let g = global_terms(h, well);
    assert forall|x: int| 0 <= x < 10 implies 0 <= #[trigger] g[x] && g[x] <= 48400 by {
        let d = s - n * h[x];
        assert(0 <= h[x] <= 20);
        assert(0 <= d * d <= 48400) by (nonlinear_arith)
            requires
                -220 <= d <= 220,
        ;
    }
    lemma_prefix_bounds(g, 10, 0, 48400);
    let l = local_terms(h, well);
    assert forall|x: int| 0 <= x < 10 implies 0 <= #[trigger] l[x] && l[x] <= 400 by {
        if x > 0 {
            let d = h[x] - h[x - 1];
            assert(0 <= h[x] <= 20);
            assert(0 <= h[x - 1] <= 20);
            assert(0 <= d * d <= 400) by (nonlinear_arith)
                requires
                    -20 <= d <= 20,
            ;
        }
    }
    lemma_prefix_bounds(l, 10, 0, 400);
}

/// The attack and downstack terms of the score, in points.
pub fn offense_of(p: &Props, w: &Weights) -> (r: i64)
    ensures
        r == offense(p, w),
        -(1275 * 0x8000_0000) <= r <= 1275 * 0x8000_0000,
{
    let eff: i64 = weighted(p.sum_atk as i64 - p.sum_ds as i64, w.eff);
    let sum_attack: i64 = weighted(p.sum_atk as i64, w.sum_attack);
    let sum_downstack: i64 = weighted(p.sum_ds as i64, w.sum_downstack);
    let attack: i64 = weighted(p.atk as i64, w.attack);
    let downstack: i64 = weighted(p.ds as i64, w.downstack);
    proof {
        lemma_weighted_bound(p.sum_atk - p.sum_ds, w.eff as int, 255);
        lemma_weighted_bound(p.sum_atk as int, w.sum_attack as int, 255);
        lemma_weighted_bound(p.sum_ds as int, w.sum_downstack as int, 255);
        lemma_weighted_bound(p.atk as int, w.attack as int, 255);
        lemma_weighted_bound(p.ds as int, w.downstack as int, 255);
    }
    eff + sum_attack + sum_downstack + attack + downstack
}

/// Scores a state under the given configuration.
///
/// The field's column heights and holes decide between the two profiles;
/// the chosen profile's weights are then applied to the hole count, the
/// squared hole depths, the distance of the average height from the ideal,
/// the global and local unevenness of the surface (both without the well)
/// and the attack and downstack counters.
pub fn evaluate_with(state: &State, t: &Tuning) -> (score: Score)
    ensures
        score.units == score_units(&state.field, &state.props, t),
{
    let f: &Field = &state.field;
    let h: [u8; 10] = column_heights(f);
    let (holes, hole_depth_sum_sq) = holes_under(f, &h);
    let sum: u16 = sum_heights(&h);
    let ds: bool = (sum as u32) + 10 * (t.consts.ds_height_threshold as u32) < 200 || holes > 0;
    let (weights, factors, penalty): (&Weights, &Factors, i64) = if ds {
        (&t.weights_ds, &t.factors_ds, t.consts.ds_mode_penalty as i64)
    } else {
        (&t.weights_norm, &t.factors_norm, 0)
    };
    let well: Option<u8> = find_well(&h, factors.well_threshold);
    let error: i64 = height_error_of(&h, well, factors.ideal_h) as i64;
    let global: i64 = global_deviation_of(&h, well);
    let local: i64 = local_deviation_of(&h, well);
    let ghost hs = heights(f);
    let ghost wi = well_index(well);
    proof {
        lemma_hole_bounds(f);
        assert forall|x: int| 0 <= x < 10 implies 0 <= #[trigger] hs[x] && hs[x] <= 20 by {
            assert(hs[x] == h[x] as int);
        }
        lemma_surface_bounds(hs, wi);
        let n = columns_counted(wi);
        let ideal = factors.ideal_h as int;
        assert(error == n * (20 - ideal) - surface_sum(hs, wi));
        assert(-2350 <= n * (20 - ideal) <= 200) by (nonlinear_arith)
            requires
                n == 9 || n == 10,
                0 <= ideal <= 255,
        ;
        assert(-2550 <= error <= 220);
        assert(0 <= error * error <= 6502500) by (nonlinear_arith)
            requires
                -2550 <= error <= 220,
        ;
    }
    let by_holes: i64 = weighted(holes as i64, weights.hole);
    let by_depth: i64 = weighted(hole_depth_sum_sq as i64, weights.hole_depth);
    let by_local: i64 = weighted(local, weights.h_local_deviation);
    let by_offense: i64 = offense_of(&state.props, weights);
    let by_height: i64 = weighted(error * error, weights.average_h);
    let by_global: i64 = weighted(global, weights.h_global_deviation);
    proof {
        lemma_weighted_bound(holes as int, weights.hole as int, 200);
        lemma_weighted_bound(hole_depth_sum_sq as int, weights.hole_depth as int, 80000);
        lemma_weighted_bound(local as int, weights.h_local_deviation as int, 4000);
        lemma_weighted_bound(error * error, weights.average_h as int, 6502500);
        lemma_weighted_bound(global as int, weights.h_global_deviation as int, 484000);
    }
    let points: i64 = penalty + by_holes + by_depth + by_local + by_offense;
    let flatness: i64 = by_height + by_global;
    let scale: i64 = if well.is_some() {
        100
    } else {
        81
    };
    proof {
        let n = columns_counted(wi);
        assert(8100int / (n * n) == scale) by {
            if wi is Some {
                assert(n * n == 81);
            } else {
                assert(n * n == 100);
            }
        }
    }
    Score { units: SCORE_SCALE * points + scale * flatness }
}

/// Scores a state under the standard configuration.
pub fn evaluate(state: &State) -> (score: Score)
    ensures
        score.units == score_units(&state.field, &state.props, &Tuning::standard()),
{
    let t = Tuning::standard();
    evaluate_with(state, &t)
}

/// The field of the sandbox position: a stack two to four rows high with
/// one covered hole, in the bottom row of column 3.
pub open spec fn sandbox_field() -> Field {
    Field {
        m: [
            0,
            0,
            0,
            0,
            0,
            0,
            0,
            0,
            0,
            0,
            0,
            0,
            0,
            0,
            0,
            0,
            0b00_0000_0001,
            0b01_0110_0001,
            0b11_1111_1101,
            0b11_1111_0111,
        ],
    }
}

/// The statistics of the sandbox position: one line of attack and two of
/// downstack by the last placement, nothing before it.
pub open spec fn sandbox_props() -> Props {
    Props { sum_atk: 0, sum_ds: 0, atk: 1, ds: 2, b2b: 0, combo: 0 }
}

/// Builds the sandbox position, a fixed position kept for trying out the
/// evaluator, and scores it under the standard configuration.
pub fn eval_sandbox() -> (score: Score)
    ensures
        score.units == score_units(&sandbox_field(), &sandbox_props(), &Tuning::standard()),
{
    let mut field = Field::new();
    field.m = [
        0,
        0,
        0,
        0,
        0,
        0,
        0,
        0,
        0,
        0,
        0,
        0,
        0,
        0,
        0,
        0,
        0b00_0000_0001,
        0b01_0110_0001,
        0b11_1111_1101,
        0b11_1111_0111,
    ];
    let mut state = State::new();
    state.field = field;
    state.props = Props::new();
    state.props.sum_atk = 0;
    state.props.sum_ds = 0;
    state.props.atk = 1;
    state.props.ds = 2;
    state.props.b2b = 0;
    state.props.combo = 0;
    proof {
        assert(state.field@ =~= sandbox_field()@);
        assert(state.field == sandbox_field());
    }
    evaluate(&state)
}

/// Determinism: the score is a function of the field's rows, the
/// statistics and the configuration. Two states that agree on these get the
/// same score, whatever their queues and hold slots.
pub proof fn lemma_score_determined(a: &State, b: &State, t: &Tuning)
    requires
        a.field@ == b.field@,
        a.props == b.props,
    ensures
        score_units(&a.field, &a.props, t) == score_units(&b.field, &b.props, t),
{
    assert(a.field.m =~= b.field.m);
}

/// Mode switch threshold: a flat field without holes is scored under the
/// downstack profile exactly when its stack stands higher than the
/// threshold. With the stack exactly at the threshold the normal profile
/// still applies; one row higher it does not.
pub proof fn lemma_mode_switch(f: &Field, c: &Consts, top: int)
    requires
        hole_count(f) == 0,
        forall|x: int| 0 <= x < 10 ==> f.column_top(x) == top,
    ensures
        in_downstack_mode(f, c) <==> 20 - top > c.ds_height_threshold,
{
    let h = heights(f);
    assert forall|x: int| 0 <= x < 10 implies top <= #[trigger] h[x] && h[x] <= top by {}
    lemma_prefix_bounds(h, 10, top, top);
}

/// Well exclusion: with the well in column `w`, nothing that measures the
/// flatness of the surface depends on the height of that column.
pub proof fn lemma_well_exclusion(a: Seq<int>, b: Seq<int>, w: int, ideal: int)
    requires
        a.len() == 10,
        b.len() == 10,
        0 <= w < 10,
        forall|x: int| 0 <= x < 10 && x != w ==> a[x] == b[x],
    ensures
        surface_sum(a, Some(w)) == surface_sum(b, Some(w)),
        height_error(a, Some(w), ideal) == height_error(b, Some(w), ideal),
        global_deviation(a, Some(w)) == global_deviation(b, Some(w)),
        local_deviation(a, Some(w)) == local_deviation(b, Some(w)),
{
    lemma_prefix_step(a, b, 0, w, 0);
    lemma_prefix_step(a, b, w, w + 1, b[w] - a[w]);
    lemma_prefix_step(a, b, w + 1, 10, 0);
    assert(surface_sum(a, Some(w)) == surface_sum(b, Some(w)));
    let ga = global_terms(a, Some(w));
    let gb = global_terms(b, Some(w));
    assert forall|x: int| 0 <= x < 10 implies ga[x] == gb[x] by {}
    lemma_prefix_equal(ga, gb, 10);
    let la = local_terms(a, Some(w));
    let lb = local_terms(b, Some(w));
    assert forall|x: int| 0 <= x < 10 implies la[x] == lb[x] by {}
    lemma_prefix_equal(la, lb, 10);
}

/// A well threshold of twenty rows is out of reach: no column of a field
/// lies twenty rows below the average of all ten, so a profile with that
/// threshold never finds a well.
pub proof fn lemma_no_well_at_twenty(f: &Field, threshold: int)
    requires
        threshold >= 20,
    ensures
        well_of(heights(f), threshold) == None::<int>,
{
    let h = heights(f);
    assert forall|x: int| 0 <= x < 10 implies 0 <= #[trigger] h[x] && h[x] <= 20 by {
        lemma_column_top(f, x);
    }
    assert forall|w: int| !is_well(h, threshold, w) by {
        if 0 <= w < 10 {
            lemma_prefix_grows(h, 0, w);
            lemma_prefix_grows(h, w + 1, 10);
            assert(total(h) >= h[w]);
        }
    }
}

/// The empty field with all counters at zero scores -250 points under the
/// standard configuration: it lies five rows below the ideal height of the
/// normal profile and is otherwise flawless.
pub proof fn lemma_empty_field_score(f: &Field, p: &Props)
    requires
        forall|x: int, y: int| !f.filled(x, y),
        p.sum_atk == 0 && p.sum_ds == 0 && p.atk == 0 && p.ds == 0,
    ensures
        score_units(f, p, &Tuning::standard()) == -250 * 8100,
{
    let h = heights(f);
    assert forall|x: int| 0 <= x < 10 implies h[x] == 20 by {
        lemma_column_top_unique(f, x, 20);
    }
    assert forall|x: int| 0 <= x < 10 implies 20 <= #[trigger] h[x] && h[x] <= 20 by {}
    lemma_prefix_bounds(h, 10, 20, 20);
    assert(total(h) == 200);
    let counts = Seq::new(10, |x: int| total(column_holes(f, x)));
    assert forall|x: int| 0 <= x < 10 implies counts[x] == 0 by {
        assert(h[x] == 20);
        lemma_prefix_zero(column_holes(f, x), 20);
    }
    lemma_prefix_zero(counts, 10);
    let depths = Seq::new(10, |x: int| total(column_depths(f, x)));
    assert forall|x: int| 0 <= x < 10 implies depths[x] == 0 by {
        assert(h[x] == 20);
        lemma_prefix_zero(column_depths(f, x), 20);
    }
    lemma_prefix_zero(depths, 10);
    assert(hole_count(f) == 0);
    assert(hole_depth_sq(f) == 0);
    let t = Tuning::standard();
    assert(!in_downstack_mode(f, &t.consts));
    assert forall|w: int| !is_well(h, 4, w) by {}
    assert(well_of(h, 4) == None::<int>);
    let flat = global_terms(h, None);
    assert forall|x: int| 0 <= x < 10 implies flat[x] == 0 by {
        assert(h[x] == 20);
        assert(surface_sum(h, None) - columns_counted(None) * h[x] == 0);
    }
    lemma_prefix_zero(flat, 10);
    let steps = local_terms(h, None);
    assert forall|x: int| 0 <= x < 10 implies steps[x] == 0 by {
        if x > 0 {
            assert(h[x] == 20 && h[x - 1] == 20);
        }
    }
    lemma_prefix_zero(steps, 10);
    assert(height_error(h, None, 5) == -50);
    assert(offense(p, &t.weights_norm) == 0);
    let w = t.weights_norm;
    assert(w.average_h == -10 && w.hole == -100 && w.hole_depth == -10);
    assert(global_deviation(h, None) == 0);
    assert(local_deviation(h, None) == 0);
    assert(columns_counted(None) * columns_counted(None) == 100);
    assert(8100int / 100 == 81);
    assert(height_error(h, None, 5) * height_error(h, None, 5) * w.average_h == -25000);
    assert(score_units(f, p, &t) == 8100 * (0 + hole_count(f) * w.hole + hole_depth_sq(f)
        * w.hole_depth + local_deviation(h, None) * w.h_local_deviation + offense(p, &w)) + (8100int
        / (columns_counted(None) * columns_counted(None))) * (height_error(h, None, 5)
        * height_error(h, None, 5) * w.average_h + global_deviation(h, None)
        * w.h_global_deviation));
}

} // verus!
