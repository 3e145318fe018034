//! Row-major 2D storage of small unsigned values, and the visited (fog-of-war)
//! grid built on top of it.
use vstd::prelude::*;

verus! {

/// Index of cell (r, c) in a row-major flat buffer of `cols` columns.
pub open spec fn flat_index(r: int, c: int, cols: int) -> int {
    r * cols + c
}

pub proof fn lemma_flat_index_bound(r: int, c: int, rows: int, cols: int)
    by (nonlinear_arith)
    requires
        0 <= r < rows,
        0 <= c < cols,
    ensures
        0 <= flat_index(r, c, cols) < rows * cols,
{
}

pub proof fn lemma_flat_index_injective(r1: int, c1: int, r2: int, c2: int, cols: int)
    by (nonlinear_arith)
    requires
        0 <= c1 < cols,
        0 <= c2 < cols,
        0 <= r1,
        0 <= r2,
        flat_index(r1, c1, cols) == flat_index(r2, c2, cols),
    ensures
        r1 == r2 && c1 == c2,
{
}

/// An ordered `rows x cols` array of unsigned values, stored row-major.
pub struct Matrix {
    pub rows: usize,
    pub cols: usize,
    pub data: Vec<usize>,
}

impl Matrix {
    /// The backing buffer holds exactly one value per cell.
    pub open spec fn wf(self) -> bool {
        self.data@.len() == self.rows * self.cols && self.rows * self.cols <= usize::MAX
    }

    /// The value stored at cell (r, c).
    pub open spec fn spec_get(self, r: int, c: int) -> usize {
        self.data@[flat_index(r, c, self.cols as int)]
    }

    pub open spec fn in_bounds(self, r: int, c: int) -> bool {
        0 <= r < self.rows && 0 <= c < self.cols
    }

    /// All cells hold `fill` at construction.
    pub fn new(rows: usize, cols: usize, fill: usize) -> (m: Matrix)
        requires
            rows * cols <= usize::MAX,
        ensures
            m.wf(),
            m.rows == rows,
            m.cols == cols,
            forall|r: int, c: int| m.in_bounds(r, c) ==> m.spec_get(r, c) == fill,
    {
        proof {
            vstd::arithmetic::mul::lemma_mul_nonnegative(rows as int, cols as int);
        }
        let n: usize = rows * cols;
        let mut data: Vec<usize> = Vec::new();
        let mut i: usize = 0;
        while i < n
            invariant
                i <= n,
                data@.len() == i,
                forall|j: int| 0 <= j < i ==> data@[j] == fill,
            decreases n - i,
        {
            data.push(fill);
            i = i + 1;
        }
        let m = Matrix { rows, cols, data };
        proof {
            assert forall|r: int, c: int| m.in_bounds(r, c) implies m.spec_get(r, c) == fill by {
                lemma_flat_index_bound(r, c, rows as int, cols as int);
            }
        }
        m
    }

    pub fn get(&self, row: usize, col: usize) -> (v: usize)
        requires
            self.wf(),
            row < self.rows,
            col < self.cols,
        ensures
            v == self.spec_get(row as int, col as int),
    {
        proof {
            lemma_flat_index_bound(row as int, col as int, self.rows as int, self.cols as int);
        }
        self.data[row * self.cols + col]
    }

    /// Writes `val` at (row, col); every other cell keeps its value.
    pub fn set(&mut self, row: usize, col: usize, val: usize)
        requires
            old(self).wf(),
            row < old(self).rows,
            col < old(self).cols,
        ensures
            final(self).wf(),
            final(self).rows == old(self).rows,
            final(self).cols == old(self).cols,
            final(self).spec_get(row as int, col as int) == val,
            forall|r: int, c: int|
                old(self).in_bounds(r, c) && !(r == row && c == col) ==> #[trigger] final(self).spec_get(r, c) == old(self).spec_get(r, c),
    {
        proof {
            lemma_flat_index_bound(row as int, col as int, self.rows as int, self.cols as int);
        }
        let idx: usize = row * self.cols + col;
        self.data.set(idx, val);
        proof {
            assert forall|r: int, c: int|
                old(self).in_bounds(r, c) && !(r == row && c == col) implies final(self).spec_get(
                r,
                c,
            ) == old(self).spec_get(r, c) by {
                lemma_flat_index_bound(r, c, self.rows as int, self.cols as int);
                if flat_index(r, c, self.cols as int) == flat_index(
                    row as int,
                    col as int,
                    self.cols as int,
                ) {
                    lemma_flat_index_injective(r, c, row as int, col as int, self.cols as int);
                }
            }
        }
    }
}

/// The discovered-cells grid: one flag per room cell (fog of war).
pub struct VMatrix {
    pub matrix: Matrix,
}

impl VMatrix {
    pub open spec fn wf(self) -> bool {
        self.matrix.wf()
    }

    pub open spec fn in_bounds(self, r: int, c: int) -> bool {
        self.matrix.in_bounds(r, c)
    }

    /// Whether cell (r, c) has been discovered.
    pub open spec fn visited(self, r: int, c: int) -> bool {
        self.matrix.spec_get(r, c) != 0
    }

    /// A fresh grid has exactly one discovered cell: the explorer's start.
    pub fn new(w: usize, h: usize, start_row: usize, start_col: usize) -> (v: VMatrix)
        requires
            h * w <= usize::MAX,
            start_row < h,
            start_col < w,
        ensures
            v.wf(),
            v.matrix.rows == h,
            v.matrix.cols == w,
            forall|r: int, c: int|
                v.in_bounds(r, c) ==> (v.visited(r, c) <==> (r == start_row && c == start_col)),
    {
        let m = Matrix::new(h, w, 0);
        let mut v = VMatrix { matrix: m };
        let ghost v0 = v;
        v.visit(start_row, start_col);
        proof {
            assert forall|r: int, c: int| v.in_bounds(r, c) implies (v.visited(r, c) <==> (r
                == start_row && c == start_col)) by {
                if !(r == start_row && c == start_col) {
                    assert(v0.in_bounds(r, c));
                    assert(v0.matrix.spec_get(r, c) == 0);
                    assert(v.matrix.spec_get(r, c) == v0.matrix.spec_get(r, c));
                }
            }
        }
        v
    }

    pub fn get(&self, row: usize, col: usize) -> (r: usize)
        requires
            self.wf(),
            row < self.matrix.rows,
            col < self.matrix.cols,
        ensures
            r == self.matrix.spec_get(row as int, col as int),
            (r != 0) == self.visited(row as int, col as int),
    {
        self.matrix.get(row, col)
    }

    pub fn set(&mut self, row: usize, col: usize, val: usize)
        requires
            old(self).wf(),
            row < old(self).matrix.rows,
            col < old(self).matrix.cols,
        ensures
            final(self).wf(),
            final(self).matrix.rows == old(self).matrix.rows,
            final(self).matrix.cols == old(self).matrix.cols,
            final(self).matrix.spec_get(row as int, col as int) == val,
            forall|r: int, c: int|
                old(self).in_bounds(r, c) && !(r == row && c == col) ==> #[trigger] final(self).matrix.spec_get(r, c) == old(self).matrix.spec_get(r, c),
    {
        self.matrix.set(row, col, val);
    }

    /// Marks (row, col) discovered; idempotent, and no other cell changes.
    pub fn visit(&mut self, row: usize, col: usize)
        requires
            old(self).wf(),
            row < old(self).matrix.rows,
            col < old(self).matrix.cols,
        ensures
            final(self).wf(),
            final(self).matrix.rows == old(self).matrix.rows,
            final(self).matrix.cols == old(self).matrix.cols,
            final(self).visited(row as int, col as int),
            forall|r: int, c: int|
                old(self).in_bounds(r, c) && !(r == row && c == col) ==> #[trigger] final(self).matrix.spec_get(r, c) == old(self).matrix.spec_get(r, c),
    {
        self.set(row, col, 1);
    }

    /// Clears the discovered flag of (row, col); no other cell changes.
    pub fn forget(&mut self, row: usize, col: usize)
        requires
            old(self).wf(),
            row < old(self).matrix.rows,
            col < old(self).matrix.cols,
        ensures
            final(self).wf(),
            final(self).matrix.rows == old(self).matrix.rows,
            final(self).matrix.cols == old(self).matrix.cols,
            !final(self).visited(row as int, col as int),
            forall|r: int, c: int|
                old(self).in_bounds(r, c) && !(r == row && c == col) ==> #[trigger] final(self).matrix.spec_get(r, c) == old(self).matrix.spec_get(r, c),
    {
        self.set(row, col, 0);
    }
}

} // verus!
