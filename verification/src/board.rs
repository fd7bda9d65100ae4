//! The playing field: twenty rows of ten cells, one bit mask per row.

use vstd::prelude::*;

verus! {

/// Number of columns of the field.
pub const WIDTH: usize = 10;

/// Number of rows of the field.
pub const HEIGHT: usize = 20;

/// The mask with only bit `x` set.
pub open spec fn bit(x: int) -> u16 {
    1u16 << (x as u16)
}

/// Whether bit `x` of `row` is set.
pub open spec fn row_has(row: u16, x: int) -> bool {
    row & bit(x) != 0
}

/// Setting bit `x` of a row sets that bit and leaves the other fifteen alone.
pub proof fn lemma_row_set(row: u16, x: int, other: int)
    requires
        0 <= x < 16,
        0 <= other < 16,
    ensures
        row_has(row | bit(x), other) == (row_has(row, other) || other == x),
{
    let a: u16 = x as u16;
    let b: u16 = other as u16;
    assert(((row | (1u16 << a)) & (1u16 << b) != 0) == ((row & (1u16 << b) != 0) || b == a))
        by (bit_vector)
        requires
            a < 16,
            b < 16,
    ;
}

/// Whether column `x` and row `y` name a cell of the grid.
pub open spec fn in_grid(x: int, y: int) -> bool {
    0 <= x < 10 && 0 <= y < 20
}

/// Whether the cell in column `x` of row `y` is occupied in the given rows.
/// Cells outside the grid are never occupied.
pub open spec fn cell_filled(rows: Seq<u16>, x: int, y: int) -> bool {
    in_grid(x, y) && row_has(rows[y], x)
}

/// The rows of a field after filling the cell in column `x` of row `y`.
/// A cell outside the grid changes nothing.
pub open spec fn rows_with_cell(rows: Seq<u16>, x: int, y: int) -> Seq<u16> {
    if in_grid(x, y) {
        rows.update(y, rows[y] | bit(x))
    } else {
        rows
    }
}

/// The occupancy grid. Row 0 is the topmost row; bit `x` of `m[y]` is the
/// cell in column `x` of row `y`.
#[derive(Clone, Copy, Debug, Hash)]
pub struct Field {
    pub m: [u16; 20],
}

impl View for Field {
    type V = Seq<u16>;

    open spec fn view(&self) -> Seq<u16> {
        self.m@
    }
}

impl Field {
    /// Whether no row holds anything beyond the tenth column.
    pub open spec fn wf(&self) -> bool {
        forall|y: int| 0 <= y < 20 ==> #[trigger] self@[y] < 1024
    }

    /// Whether the cell in column `x` of row `y` is occupied. Cells outside
    /// the grid are never occupied.
    pub open spec fn filled(&self, x: int, y: int) -> bool {
        cell_filled(self@, x, y)
    }

    /// The row of the topmost occupied cell of column `x` at or below row
    /// `y`, or 20 where there is none.
    pub open spec fn column_top_from(&self, x: int, y: int) -> int
        decreases 20 - y,
    {
        if y >= 20 {
            20
        } else if self.filled(x, y) {
            y
        } else {
            self.column_top_from(x, y + 1)
        }
    }

    /// The row of the topmost occupied cell of column `x`; 20 for an empty
    /// column. A smaller value is a taller stack.
    pub open spec fn column_top(&self, x: int) -> int {
        self.column_top_from(x, 0)
    }

    /// The empty field.
    pub fn new() -> (f: Field)
        ensures
            f@ == Seq::new(20, |y: int| 0u16),
            f.wf(),
            forall|x: int, y: int| !f.filled(x, y),
    {
        let f = Field { m: [0u16; 20] };
        proof {
            assert(f@ =~= Seq::new(20, |y: int| 0u16));
            assert forall|x: int, y: int| !f.filled(x, y) by {
                if 0 <= x < 10 && 0 <= y < 20 {
                    lemma_empty_row(x);
                }
            }
        }
        f
    }

    /// Fills one cell. A cell outside the grid is left out.
    pub fn fill(&mut self, x: usize, y: usize)
        ensures
            final(self)@ == rows_with_cell(old(self)@, x as int, y as int),
            old(self).wf() ==> final(self).wf(),
    {
        if x < WIDTH && y < HEIGHT {
            let row: u16 = self.m[y];
            let column: u16 = x as u16;
            self.m[y] = row | (1u16 << column);
            proof {
                assert(self@ =~= rows_with_cell(old(self)@, x as int, y as int));
                if old(self).wf() {
                    assert(old(self)@[y as int] < 1024);
                    assert(row | (1u16 << column) < 1024) by (bit_vector)
                        requires
                            row < 1024,
                            column < 10,
                    ;
                    assert forall|k: int| 0 <= k < 20 implies #[trigger] self@[k] < 1024 by {
                        if k != y {
                            assert(self@[k] == old(self)@[k]);
                        }
                    }
                }
            }
        }
    }

    /// Whether two fields hold the same rows.
    pub fn same_as(&self, other: &Field) -> (r: bool)
        ensures
            r == (self@ == other@),
    {
        let mut y: usize = 0;
        while y < HEIGHT
            invariant
                y <= 20,
                forall|k: int| 0 <= k < y ==> self.m[k] == other.m[k],
            decreases 20 - y,
        {
            if self.m[y] != other.m[y] {
                assert(self@[y as int] != other@[y as int]);
                return false;
            }
            y += 1;
        }
        assert(self@ =~= other@);
        true
    }

    /// Reads one cell.
    pub fn is_filled(&self, x: usize, y: usize) -> (r: bool)
        ensures
            r == self.filled(x as int, y as int),
    {
        if x < WIDTH && y < HEIGHT {
            self.m[y] & (1u16 << (x as u16)) != 0
        } else {
            false
        }
    }
}

/// What `column_top_from` finds: a row between `y` and 20, occupied unless it
/// is 20, with nothing occupied between `y` and it.
pub proof fn lemma_column_top_from(f: &Field, x: int, y: int)
    requires
        0 <= y <= 20,
    ensures
        y <= f.column_top_from(x, y) <= 20,
        f.column_top_from(x, y) < 20 ==> f.filled(x, f.column_top_from(x, y)),
        forall|r: int| y <= r < f.column_top_from(x, y) ==> !f.filled(x, r),
    decreases 20 - y,
{
    if y < 20 && !f.filled(x, y) {
        lemma_column_top_from(f, x, y + 1);
    }
}

/// The top of a column is its first occupied row.
pub proof fn lemma_column_top(f: &Field, x: int)
    ensures
        0 <= f.column_top(x) <= 20,
        f.column_top(x) < 20 ==> f.filled(x, f.column_top(x)),
        forall|r: int| 0 <= r < f.column_top(x) ==> !f.filled(x, r),
{
    lemma_column_top_from(f, x, 0);
}

/// A row `t` with nothing occupied above it, itself occupied unless it is 20,
/// is the top of the column.
pub proof fn lemma_column_top_unique(f: &Field, x: int, t: int)
    requires
        0 <= t <= 20,
        t < 20 ==> f.filled(x, t),
        forall|r: int| 0 <= r < t ==> !f.filled(x, r),
    ensures
        f.column_top(x) == t,
{
    lemma_column_top(f, x);
}

/// An all-zero row holds no cell.
pub proof fn lemma_empty_row(x: int)
    requires
        0 <= x < 16,
    ensures
        !row_has(0u16, x),
{
    let a: u16 = x as u16;
    assert(0u16 & (1u16 << a) == 0) by (bit_vector);
}

/// Filling a cell of the grid makes that cell occupied and changes no other.
pub proof fn lemma_fill_cell(rows: Seq<u16>, x: int, y: int)
    requires
        rows.len() == 20,
    ensures
        rows_with_cell(rows, x, y).len() == 20,
        forall|cx: int, cy: int|
            cell_filled(rows_with_cell(rows, x, y), cx, cy) == (cell_filled(rows, cx, cy) || (
            in_grid(x, y) && cx == x && cy == y)),
{
    let after = rows_with_cell(rows, x, y);
    assert forall|cx: int, cy: int|
        cell_filled(after, cx, cy) == (cell_filled(rows, cx, cy) || (in_grid(x, y) && cx == x && cy
            == y)) by {
        if in_grid(cx, cy) && in_grid(x, y) && cy == y {
            lemma_row_set(rows[y], x, cx);
        }
    }
}

impl PartialEq for Field {
    fn eq(&self, other: &Field) -> (r: bool) {
        self.same_as(other)
    }
}

impl vstd::std_specs::cmp::PartialEqSpecImpl for Field {
    open spec fn obeys_eq_spec() -> bool {
        true
    }

    open spec fn eq_spec(&self, other: &Field) -> bool {
        self@ == other@
    }
}

impl Eq for Field {

}

} // verus!
