//! Measures of a field's surface: column heights and the holes under them.

use vstd::prelude::*;
use crate::board::{Field, lemma_column_top, lemma_column_top_unique, lemma_empty_row};

verus! {

/// The sum of the first `k` terms of `s`.
pub open spec fn prefix_sum(s: Seq<int>, k: int) -> int
    decreases k,
{
    if k <= 0 {
        0
    } else {
        prefix_sum(s, k - 1) + s[k - 1]
    }
}

/// The sum of all terms of `s`.
pub open spec fn total(s: Seq<int>) -> int {
    prefix_sum(s, s.len() as int)
}

/// A prefix of zeros sums to zero.
pub proof fn lemma_prefix_zero(s: Seq<int>, k: int)
    requires
        k <= s.len(),
        forall|i: int| 0 <= i < k ==> s[i] == 0,
    ensures
        prefix_sum(s, k) == 0,
    decreases k,
{
    if k > 0 {
        lemma_prefix_zero(s, k - 1);
    }
}

/// A prefix whose terms lie between `lo` and `hi` sums to between `k * lo`
/// and `k * hi`.
pub proof fn lemma_prefix_bounds(s: Seq<int>, k: int, lo: int, hi: int)
    requires
        0 <= k <= s.len(),
        forall|i: int| 0 <= i < k ==> lo <= #[trigger] s[i] && s[i] <= hi,
    ensures
        k * lo <= prefix_sum(s, k) <= k * hi,
    decreases k,
{
    if k > 0 {
        lemma_prefix_bounds(s, k - 1, lo, hi);
        assert((k - 1) * lo + lo == k * lo) by (nonlinear_arith);
        assert((k - 1) * hi + hi == k * hi) by (nonlinear_arith);
    } else {
        assert(k * lo == 0 && k * hi == 0) by (nonlinear_arith)
            requires
                k == 0,
        ;
    }
}

/// Over terms that are not negative the prefix sums do not fall.
pub proof fn lemma_prefix_grows(s: Seq<int>, from: int, to: int)
    requires
        0 <= from <= to <= s.len(),
        forall|i: int| from <= i < to ==> s[i] >= 0,
    ensures
        prefix_sum(s, from) <= prefix_sum(s, to),
    decreases to - from,
{
    if from < to {
        lemma_prefix_grows(s, from, to - 1);
    }
}

/// Sequences that agree on their first `k` terms have the same prefix sum.
pub proof fn lemma_prefix_equal(s: Seq<int>, t: Seq<int>, k: int)
    requires
        k <= s.len(),
        k <= t.len(),
        forall|i: int| 0 <= i < k ==> s[i] == t[i],
    ensures
        prefix_sum(s, k) == prefix_sum(t, k),
    decreases k,
{
    if k > 0 {
        lemma_prefix_equal(s, t, k - 1);
    }
}

/// The ten column tops of a field, left to right, as row indices.
pub open spec fn heights(f: &Field) -> Seq<int> {
    Seq::new(10, |x: int| f.column_top(x))
}

/// The stored heights read as mathematical integers.
pub open spec fn as_ints(h: Seq<u8>) -> Seq<int> {
    Seq::new(h.len(), |x: int| h[x] as int)
}

/// A hole: an empty cell below the top of its column.
pub open spec fn is_hole(f: &Field, x: int, y: int) -> bool {
    0 <= x < 10 && f.column_top(x) < y < 20 && !f.filled(x, y)
}

/// Per row of column `x`: 1 for a hole, 0 otherwise.
pub open spec fn column_holes(f: &Field, x: int) -> Seq<int> {
    Seq::new(20, |y: int| if is_hole(f, x, y) { 1int } else { 0int })
}

/// Per row of column `x`: for a hole the square of its depth below the
/// column's top, 0 otherwise.
pub open spec fn column_depths(f: &Field, x: int) -> Seq<int> {
    Seq::new(
        20,
        |y: int|
            if is_hole(f, x, y) {
                (y - f.column_top(x)) * (y - f.column_top(x))
            } else {
                0int
            },
    )
}

/// The number of holes of the field.
pub open spec fn hole_count(f: &Field) -> int {
    total(Seq::new(10, |x: int| total(column_holes(f, x))))
}

/// The sum over all holes of the squared depth.
pub open spec fn hole_depth_sq(f: &Field) -> int {
    total(Seq::new(10, |x: int| total(column_depths(f, x))))
}

/// Bounds on the two hole measures of one column.
pub proof fn lemma_column_hole_bounds(f: &Field, x: int)
    ensures
        0 <= total(column_holes(f, x)) <= 20,
        0 <= total(column_depths(f, x)) <= 8000,
{
    lemma_column_top(f, x);
    lemma_prefix_bounds(column_holes(f, x), 20, 0, 1);
    assert forall|y: int| 0 <= y < 20 implies 0 <= #[trigger] column_depths(f, x)[y]
        && column_depths(f, x)[y] <= 400 by {
        let d = y - f.column_top(x);
        if is_hole(f, x, y) {
            assert(0 <= d * d <= 400) by (nonlinear_arith)
                requires
                    0 <= d <= 20,
            ;
        }
    }
    lemma_prefix_bounds(column_depths(f, x), 20, 0, 400);
}

/// Bounds on the two hole measures of a field.
pub proof fn lemma_hole_bounds(f: &Field)
    ensures
        0 <= hole_count(f) <= 200,
        0 <= hole_depth_sq(f) <= 80000,
{
    let counts = Seq::new(10, |x: int| total(column_holes(f, x)));
    let depths = Seq::new(10, |x: int| total(column_depths(f, x)));
    assert forall|x: int| 0 <= x < 10 implies 0 <= #[trigger] counts[x] && counts[x] <= 20 by {
        lemma_column_hole_bounds(f, x);
    }
    assert forall|x: int| 0 <= x < 10 implies 0 <= #[trigger] depths[x] && depths[x] <= 8000 by {
        lemma_column_hole_bounds(f, x);
    }
    lemma_prefix_bounds(counts, 10, 0, 20);
    lemma_prefix_bounds(depths, 10, 0, 8000);
}

/// Finds the top of every column. The scan starts at the first row that
/// holds anything.
pub fn column_heights(f: &Field) -> (h: [u8; 10])
    ensures
        as_ints(h@) == heights(f),
        forall|x: int| 0 <= x < 10 ==> h[x] <= 20,
{
    let mut first: usize = 0;
    while first < 20 && f.m[first] == 0
        invariant
            first <= 20,
            forall|y: int| 0 <= y < first ==> f.m[y] == 0,
        decreases 20 - first,
    {
        first += 1;
    }
    let mut h: [u8; 10] = [20u8; 10];
    let mut x: usize = 0;
    while x < 10
        invariant
            x <= 10,
            first <= 20,
            forall|y: int| 0 <= y < first ==> f.m[y] == 0,
            forall|c: int| 0 <= c < x ==> h[c] as int == f.column_top(c),
        decreases 10 - x,
    {
        let mut y: usize = first;
        while y < 20 && !f.is_filled(x, y)
            invariant
                x < 10,
                first <= y <= 20,
                forall|r: int| first <= r < y ==> !f.filled(x as int, r),
            decreases 20 - y,
        {
            y += 1;
        }
        proof {
            assert forall|r: int| 0 <= r < y implies !f.filled(x as int, r) by {
                if r < first {
                    lemma_empty_row(x as int);
                }
            }
            lemma_column_top_unique(f, x as int, y as int);
        }
        h[x] = y as u8;
        x += 1;
    }
    proof {
        assert forall|c: int| 0 <= c < 10 implies h[c] <= 20 by {
            lemma_column_top(f, c);
        }
        assert(as_ints(h@) =~= heights(f));
    }
    h
}

/// Counts the holes under the given column tops and sums their squared
/// depths.
pub(crate) fn holes_under(f: &Field, h: &[u8; 10]) -> (r: (u32, u32))
    requires
        as_ints(h@) == heights(f),
    ensures
        r.0 == hole_count(f),
        r.1 == hole_depth_sq(f),
{
    let ghost counts = Seq::new(10, |x: int| total(column_holes(f, x)));
    let ghost depths = Seq::new(10, |x: int| total(column_depths(f, x)));
    let mut holes: u32 = 0;
    let mut depth_sum_sq: u32 = 0;
    let mut x: usize = 0;
    while x < 10
        invariant
            x <= 10,
            as_ints(h@) == heights(f),
            counts == Seq::new(10, |x: int| total(column_holes(f, x))),
            depths == Seq::new(10, |x: int| total(column_depths(f, x))),
            holes == prefix_sum(counts, x as int),
            depth_sum_sq == prefix_sum(depths, x as int),
            holes <= 20 * x,
            depth_sum_sq <= 8000 * x,
        decreases 10 - x,
    {
        let top: usize = h[x] as usize;
        proof {
            assert(as_ints(h@)[x as int] == heights(f)[x as int]);
            lemma_column_top(f, x as int);
            lemma_column_hole_bounds(f, x as int);
        }
        let mut in_column: u32 = 0;
        let mut depth_in_column: u32 = 0;
        let mut y: usize = if top < 20 { top + 1 } else { 20 };
        proof {
            lemma_prefix_zero(column_holes(f, x as int), y as int);
            lemma_prefix_zero(column_depths(f, x as int), y as int);
        }
        while y < 20
            invariant
                x < 10,
                top == f.column_top(x as int),
                top < y <= 20 || (top == 20 && y == 20),
                in_column == prefix_sum(column_holes(f, x as int), y as int),
                depth_in_column == prefix_sum(column_depths(f, x as int), y as int),
                in_column <= y,
                depth_in_column <= 400 * y,
            decreases 20 - y,
        {
            if !f.is_filled(x, y) {
                let d: u32 = (y - top) as u32;
                assert(d * d <= 400) by (nonlinear_arith)
                    requires
                        0 <= d <= 20,
                ;
                in_column += 1;
                depth_in_column += d * d;
            }
            y += 1;
        }
        holes += in_column;
        depth_sum_sq += depth_in_column;
        x += 1;
    }
    (holes, depth_sum_sq)
}

/// The number of holes of a field and the sum of their squared depths.
pub fn count_holes(f: &Field) -> (r: (u32, u32))
    ensures
        r.0 == hole_count(f),
        r.1 == hole_depth_sq(f),
{
    let h = column_heights(f);
    holes_under(f, &h)
}

/// A column that holds the same cells in two fields has the same top in
/// both.
pub proof fn lemma_same_column_same_top(f: &Field, g: &Field, x: int)
    requires
        forall|y: int| f.filled(x, y) == g.filled(x, y),
    ensures
        f.column_top(x) == g.column_top(x),
{
    lemma_column_top(f, x);
    lemma_column_top_unique(g, x, f.column_top(x));
}

/// Hole monotonicity: a cell added on or above the surface, that is above
/// the top of its column, never lowers the number of holes. Every hole of
/// the field is still a hole, and the empty cells between the new cell and
/// the old top become holes.
pub proof fn lemma_hole_monotonicity(f: &Field, g: &Field, x: int, y: int)
    requires
        0 <= x < 10,
        0 <= y < f.column_top(x),
        forall|cx: int, cy: int| g.filled(cx, cy) == (f.filled(cx, cy) || (cx == x && cy == y)),
    ensures
        g.column_top(x) == y,
        forall|cx: int, cy: int| is_hole(f, cx, cy) ==> is_hole(g, cx, cy),
        hole_count(g) >= hole_count(f),
        hole_count(g) == hole_count(f) + (f.column_top(x) - y - 1),
{
    lemma_column_top(f, x);
    lemma_column_top_unique(g, x, y);
    assert forall|c: int| 0 <= c < 10 && c != x implies f.column_top(c) == g.column_top(c) by {
        lemma_same_column_same_top(f, g, c);
    }
    let top = f.column_top(x);
    let fc = Seq::new(10, |c: int| total(column_holes(f, c)));
    let gc = Seq::new(10, |c: int| total(column_holes(g, c)));
    // In column x the rows between the new cell and the old top turn into holes.
    let fx = column_holes(f, x);
    let gx = column_holes(g, x);
    lemma_prefix_zero(fx, y + 1);
    lemma_prefix_zero(gx, y + 1);
    lemma_prefix_step(fx, gx, y + 1, top, 1);
    assert((top - (y + 1)) * 1 == top - y - 1);
    if top < 20 {
        lemma_prefix_step(fx, gx, top, 20, 0);
    }
    assert(total(gx) == total(fx) + (top - y - 1));
    // The other columns are as they were.
    assert forall|c: int| 0 <= c < 10 && c != x implies fc[c] == gc[c] by {
        lemma_prefix_equal(column_holes(f, c), column_holes(g, c), 20);
    }
    lemma_prefix_step(fc, gc, 0, x, 0);
    lemma_prefix_step(fc, gc, x, x + 1, top - y - 1);
    lemma_prefix_step(fc, gc, x + 1, 10, 0);
}

/// Where each term of `t` from `from` up to `to` exceeds that of `s` by
/// `d`, the prefix sums drift apart by `d` per term.
pub proof fn lemma_prefix_step(s: Seq<int>, t: Seq<int>, from: int, to: int, d: int)
    requires
        0 <= from <= to,
        to <= s.len(),
        to <= t.len(),
        forall|i: int| from <= i < to ==> t[i] - s[i] == d,
    ensures
        prefix_sum(t, to) - prefix_sum(s, to) == prefix_sum(t, from) - prefix_sum(s, from) + (to
            - from) * d,
    decreases to - from,
{
    if from < to {
        lemma_prefix_step(s, t, from, to - 1, d);
        assert((to - from) * d == (to - 1 - from) * d + d) by (nonlinear_arith);
    } else {
        assert((to - from) * d == 0) by (nonlinear_arith)
            requires
                to == from,
        ;
    }
}

} // verus!
