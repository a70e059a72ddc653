//! Label placement on the ground-track map: a grid of character cells that
//! records which cells already hold a label (or a label's margin), so that
//! overlapping names can be dropped.

use vstd::prelude::*;

verus! {

/// Position of cell `(col, row)` in the row-major cell vector.
pub open spec fn cell_index(cols: int, col: int, row: int) -> int {
    row * cols + col
}

proof fn lemma_cell_index_in_grid(cols: int, rows: int, col: int, row: int)
    by (nonlinear_arith)
    requires
        0 <= col < cols,
        0 <= row < rows,
    ensures
        0 <= cell_index(cols, col, row) < cols * rows,
{
}

proof fn lemma_cell_index_distinct(cols: int, c1: int, r1: int, c2: int, r2: int)
    by (nonlinear_arith)
    requires
        0 <= c1 < cols,
        0 <= c2 < cols,
        0 <= r1,
        0 <= r2,
        c1 != c2 || r1 != r2,
    ensures
        cell_index(cols, c1, r1) != cell_index(cols, c2, r2),
{
}

proof fn lemma_cell_index_below(cols: int, col: int, row: int, last_col: int, last_row: int)
    by (nonlinear_arith)
    requires
        0 <= cols,
        0 <= col <= last_col,
        0 <= row <= last_row,
    ensures
        cell_index(cols, col, row) <= cell_index(cols, last_col, last_row),
{
}

/// Tracks which label cells are taken so overlapping names can be dropped.
pub struct Occupancy {
    cols: i32,
    rows: i32,
    taken: Vec<bool>,
}

/// The keep-out box of a `len`-cell label anchored at `(col, row)` with margins
/// `pad_x` and `pad_y`, clamped to a `cols` x `rows` grid: columns
/// `[c0, c1)` and rows `[r0, r1)`.
pub open spec fn box_c0(col: int, pad_x: int) -> int {
    if col - pad_x > 0 { col - pad_x } else { 0 }
}

pub open spec fn box_c1(cols: int, col: int, len: int, pad_x: int) -> int {
    if col + len + pad_x < cols { col + len + pad_x } else { cols }
}

pub open spec fn box_r0(row: int, pad_y: int) -> int {
    if row - pad_y > 0 { row - pad_y } else { 0 }
}

pub open spec fn box_r1(rows: int, row: int, pad_y: int) -> int {
    if row + pad_y + 1 < rows { row + pad_y + 1 } else { rows }
}

/// Cell `(c, r)` lies in the clamped keep-out box.
pub open spec fn in_box(
    cols: int,
    rows: int,
    col: int,
    row: int,
    len: int,
    pad_x: int,
    pad_y: int,
    c: int,
    r: int,
) -> bool {
    &&& box_c0(col, pad_x) <= c < box_c1(cols, col, len, pad_x)
    &&& box_r0(row, pad_y) <= r < box_r1(rows, row, pad_y)
}

impl Occupancy {
    /// The cell vector holds exactly one flag per grid cell.
    pub closed spec fn wf(&self) -> bool {
        &&& 0 <= self.cols
        &&& 0 <= self.rows
        &&& self.taken@.len() == self.cols * self.rows
    }

    /// Number of cell columns.
    pub closed spec fn width(&self) -> int {
        self.cols as int
    }

    /// Number of cell rows.
    pub closed spec fn height(&self) -> int {
        self.rows as int
    }

    /// Whether cell `(col, row)` is taken; meaningful inside the grid.
    pub closed spec fn is_taken(&self, col: int, row: int) -> bool {
        self.taken@[cell_index(self.cols as int, col, row)]
    }

    /// Cell `(c, r)` lies inside the grid.
    pub open spec fn in_grid(&self, c: int, r: int) -> bool {
        0 <= c < self.width() && 0 <= r < self.height()
    }

    /// The label's anchor cells lie inside the grid.
    pub open spec fn anchor_fits(&self, col: int, row: int, len: int) -> bool {
        0 <= row < self.height() && 0 <= col && col + len <= self.width()
    }

    /// A label may be placed: its anchor fits and no cell of its keep-out box
    /// is taken.
    pub open spec fn can_place(&self, col: int, row: int, len: int, pad_x: int, pad_y: int) -> bool {
        &&& self.anchor_fits(col, row, len)
        &&& forall|c: int, r: int|
            #![trigger self.is_taken(c, r)]
            in_box(self.width(), self.height(), col, row, len, pad_x, pad_y, c, r) ==> !self.is_taken(
                c,
                r,
            )
    }

    /// `self` is `before` with the keep-out box of the given label reserved.
    pub open spec fn placed_from(
        &self,
        before: Occupancy,
        col: int,
        row: int,
        len: int,
        pad_x: int,
        pad_y: int,
    ) -> bool {
        &&& self.width() == before.width()
        &&& self.height() == before.height()
        &&& forall|c: int, r: int|
            #![trigger self.is_taken(c, r)]
            self.in_grid(c, r) ==> self.is_taken(c, r) == (before.is_taken(c, r) || in_box(
                before.width(),
                before.height(),
                col,
                row,
                len,
                pad_x,
                pad_y,
                c,
                r,
            ))
    }

    /// `self` and `before` have the same size and the same taken cells.
    pub open spec fn same_cells(&self, before: Occupancy) -> bool {
        &&& self.width() == before.width()
        &&& self.height() == before.height()
        &&& forall|c: int, r: int|
            #![trigger self.is_taken(c, r)]
            self.in_grid(c, r) ==> self.is_taken(c, r) == before.is_taken(c, r)
    }

    /// An empty grid of `cols` x `rows` cells.
    pub fn new(cols: u16, rows: u16) -> (o: Self)
        ensures
            o.wf(),
            o.width() == cols,
            o.height() == rows,
            forall|c: int, r: int| o.in_grid(c, r) ==> !#[trigger] o.is_taken(c, r),
    {
        assert((cols as int) * (rows as int) <= 65535 * 65535) by (nonlinear_arith)
            requires
                cols <= 65535,
                rows <= 65535,
        ;
        let n: usize = cols as usize * rows as usize;
        let taken = vec![false; n];
        assert forall|i: int| 0 <= i < n implies !#[trigger] taken@[i] by {
            assert(cloned(false, taken@[i]));
        }
        let o = Occupancy { cols: cols as i32, rows: rows as i32, taken };
        assert forall|c: int, r: int| o.in_grid(c, r) implies !#[trigger] o.is_taken(c, r) by {
            lemma_cell_index_in_grid(cols as int, rows as int, c, r);
        }
        o
    }

    /// Tries to place a `len`-cell label anchored at `(col, row)`, keeping a
    /// margin of `pad_x` columns and `pad_y` rows clear around it. The anchor
    /// must be in bounds; the margin box is clamped to the grid. Returns true
    /// (and reserves the box) if every cell in the box was free.
    pub fn try_place(&mut self, col: i32, row: i32, len: i32, pad_x: i32, pad_y: i32) -> (ok: bool)
        requires
            old(self).wf(),
            (0 <= row < old(self).height() && 0 <= col) ==> i32::MIN <= col + len <= i32::MAX,
            old(self).anchor_fits(col as int, row as int, len as int) ==> {
                &&& i32::MIN <= col - pad_x <= i32::MAX
                &&& i32::MIN <= col + len + pad_x <= i32::MAX
                &&& i32::MIN <= row - pad_y <= i32::MAX
                &&& i32::MIN <= row + pad_y + 1 <= i32::MAX
                &&& (box_c0(col as int, pad_x as int) < box_c1(
                    old(self).width(),
                    col as int,
                    len as int,
                    pad_x as int,
                ) && box_r0(row as int, pad_y as int) < box_r1(
                    old(self).height(),
                    row as int,
                    pad_y as int,
                )) ==> cell_index(
                    old(self).width(),
                    box_c1(old(self).width(), col as int, len as int, pad_x as int) - 1,
                    box_r1(old(self).height(), row as int, pad_y as int) - 1,
                ) <= i32::MAX
            },
        ensures
            final(self).wf(),
            final(self).width() == old(self).width(),
            final(self).height() == old(self).height(),
            ok == old(self).can_place(col as int, row as int, len as int, pad_x as int, pad_y as int),
            ok ==> final(self).placed_from(
                *old(self),
                col as int,
                row as int,
                len as int,
                pad_x as int,
                pad_y as int,
            ),
            !ok ==> final(self).same_cells(*old(self)),
    {
        if row < 0 || row >= self.rows || col < 0 || col + len > self.cols {
            return false;
        }
        assert(self.anchor_fits(col as int, row as int, len as int));
        let ghost cols = self.cols as int;
        let ghost rows = self.rows as int;
        let c0: i32 = if col - pad_x > 0 { col - pad_x } else { 0 };
        let c1: i32 = if col + len + pad_x < self.cols { col + len + pad_x } else { self.cols };
        let r0: i32 = if row - pad_y > 0 { row - pad_y } else { 0 };
        let r1: i32 = if row + pad_y + 1 < self.rows { row + pad_y + 1 } else { self.rows };
        // Every cell of the box must be free.
        let mut r: i32 = r0;
        while r < r1
            invariant
                self.cols == cols,
                self.rows == rows,
                c0 == box_c0(col as int, pad_x as int),
                c1 == box_c1(cols, col as int, len as int, pad_x as int),
                r0 == box_r0(row as int, pad_y as int),
                r1 == box_r1(rows, row as int, pad_y as int),
                0 <= cols,
                0 <= rows,
                self.taken@.len() == cols * rows,
                0 <= c0,
                c1 <= cols,
                0 <= r0 <= r,
                r1 <= rows,
                r <= r1 || r == r0,
                c0 < c1 && r0 < r1 ==> cell_index(cols, c1 - 1, r1 - 1) <= i32::MAX,
                forall|cc: int, rr: int|
                    c0 <= cc < c1 && r0 <= rr < r ==> !#[trigger] self.is_taken(cc, rr),
            decreases r1 - r,
        {
            let mut c: i32 = c0;
            while c < c1
                invariant
                    self.cols == cols,
                    self.rows == rows,
                    c0 == box_c0(col as int, pad_x as int),
                    c1 == box_c1(cols, col as int, len as int, pad_x as int),
                    r0 == box_r0(row as int, pad_y as int),
                    r1 == box_r1(rows, row as int, pad_y as int),
                    0 <= cols,
                    0 <= rows,
                    self.taken@.len() == cols * rows,
                    0 <= c0 <= c,
                    c <= c1 || c == c0,
                    c1 <= cols,
                    0 <= r0 <= r < r1,
                    r1 <= rows,
                    c0 < c1 ==> cell_index(cols, c1 - 1, r1 - 1) <= i32::MAX,
                    forall|cc: int, rr: int|
                        c0 <= cc < c1 && r0 <= rr < r ==> !#[trigger] self.is_taken(cc, rr),
                    forall|cc: int| c0 <= cc < c ==> !#[trigger] self.is_taken(cc, r as int),
                decreases c1 - c,
            {
                proof {
                    lemma_cell_index_below(cols, c as int, r as int, c1 - 1, r1 - 1);
                    lemma_cell_index_in_grid(cols, rows, c as int, r as int);
                }
                let k = (r * self.cols + c) as usize;
                if self.taken[k] {
                    assert(self.is_taken(c as int, r as int));
                    assert(in_box(cols, rows, col as int, row as int, len as int, pad_x as int, pad_y as int, c as int, r as int));
                    return false;
                }
                c = c + 1;
            }
            r = r + 1;
        }
        // Reserve the box.
        let ghost before = self.taken@;
        let mut r: i32 = r0;
        while r < r1
            invariant
                self.cols == cols,
                self.rows == rows,
                c0 == box_c0(col as int, pad_x as int),
                c1 == box_c1(cols, col as int, len as int, pad_x as int),
                r0 == box_r0(row as int, pad_y as int),
                r1 == box_r1(rows, row as int, pad_y as int),
                0 <= cols,
                0 <= rows,
                self.taken@.len() == cols * rows,
                0 <= c0,
                c1 <= cols,
                0 <= r0 <= r,
                r1 <= rows,
                r <= r1 || r == r0,
                c0 < c1 && r0 < r1 ==> cell_index(cols, c1 - 1, r1 - 1) <= i32::MAX,
                forall|cc: int, rr: int|
                    #![trigger self.taken@[cell_index(cols, cc, rr)]]
                    0 <= cc < cols && 0 <= rr < rows ==> self.taken@[cell_index(cols, cc, rr)] == (
                    before[cell_index(cols, cc, rr)] || (c0 <= cc < c1 && r0 <= rr < r)),
            decreases r1 - r,
        {
            let mut c: i32 = c0;
            while c < c1
                invariant
                    self.cols == cols,
                    self.rows == rows,
                    c0 == box_c0(col as int, pad_x as int),
                    c1 == box_c1(cols, col as int, len as int, pad_x as int),
                    r0 == box_r0(row as int, pad_y as int),
                    r1 == box_r1(rows, row as int, pad_y as int),
                    0 <= cols,
                    0 <= rows,
                    self.taken@.len() == cols * rows,
                    0 <= c0 <= c,
                    c <= c1 || c == c0,
                    c1 <= cols,
                    0 <= r0 <= r < r1,
                    r1 <= rows,
                    c0 < c1 ==> cell_index(cols, c1 - 1, r1 - 1) <= i32::MAX,
                    forall|cc: int, rr: int|
                        #![trigger self.taken@[cell_index(cols, cc, rr)]]
                        0 <= cc < cols && 0 <= rr < rows ==> self.taken@[cell_index(cols, cc, rr)]
                            == (before[cell_index(cols, cc, rr)] || (c0 <= cc < c1 && r0 <= rr < r)
                            || (c0 <= cc < c && rr == r)),
                decreases c1 - c,
            {
                proof {
                    lemma_cell_index_below(cols, c as int, r as int, c1 - 1, r1 - 1);
                    lemma_cell_index_in_grid(cols, rows, c as int, r as int);
                }
                let k = (r * self.cols + c) as usize;
                let ghost prev = self.taken@;
                self.taken.set(k, true);
                proof {
                    assert forall|cc: int, rr: int|
                        0 <= cc < cols && 0 <= rr < rows && (cc != c || rr != r) implies
                        self.taken@[cell_index(cols, cc, rr)] == prev[cell_index(cols, cc, rr)] by {
                        lemma_cell_index_distinct(cols, cc, rr, c as int, r as int);
                        lemma_cell_index_in_grid(cols, rows, cc, rr);
                    }
                }
                c = c + 1;
            }
            assert forall|cc: int, rr: int|
                0 <= cc < cols && 0 <= rr < rows implies #[trigger] self.taken@[cell_index(cols, cc, rr)] == (
                before[cell_index(cols, cc, rr)] || (c0 <= cc < c1 && r0 <= rr < r + 1)) by {
                assert(self.taken@[cell_index(cols, cc, rr)] == (before[cell_index(cols, cc, rr)] || (c0 <= cc < c1 && r0 <= rr < r)
                    || (c0 <= cc < c && rr == r)));
            }
            r = r + 1;
        }
        true
    }
}

/// A placed label keeps out every later label whose keep-out box shares a cell
/// with its own: such a label is refused.
pub proof fn lemma_overlapping_label_refused(
    before: Occupancy,
    after: Occupancy,
    col: int,
    row: int,
    len: int,
    pad_x: int,
    pad_y: int,
    col2: int,
    row2: int,
    len2: int,
    pad_x2: int,
    pad_y2: int,
    c: int,
    r: int,
)
    requires
        after.placed_from(before, col, row, len, pad_x, pad_y),
        in_box(before.width(), before.height(), col, row, len, pad_x, pad_y, c, r),
        in_box(after.width(), after.height(), col2, row2, len2, pad_x2, pad_y2, c, r),
    ensures
        !after.can_place(col2, row2, len2, pad_x2, pad_y2),
{
    assert(after.in_grid(c, r));
    assert(after.is_taken(c, r));
}

/// Placing a label frees no cell: every cell taken before stays taken.
pub proof fn lemma_placement_only_adds(
    before: Occupancy,
    after: Occupancy,
    col: int,
    row: int,
    len: int,
    pad_x: int,
    pad_y: int,
    c: int,
    r: int,
)
    requires
        after.placed_from(before, col, row, len, pad_x, pad_y),
        before.in_grid(c, r),
        before.is_taken(c, r),
    ensures
        after.is_taken(c, r),
{
}

} // verus!
