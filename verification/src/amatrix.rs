//! The connectivity grid: per-cell 4-bit wall masks, randomized carving, and
//! the invariants of symmetry and the sealed border.
use vstd::prelude::*;

use crate::dir::Dir;
use crate::matrix::Matrix;
use crate::rng::{fresh_rng, rng_range, seeded_rng};

verus! {

/// A fully open cell: all four direction bits set.
pub const EMPTY: usize = 0b00001111;

/// Default numerator of the carving probability (out of 10).
pub const BLOCK_CHANCE: usize = 5;

/// Whether cell (r, c) has a neighbor in direction `d` on a `rows x cols` grid.
pub open spec fn has_nb(rows: int, cols: int, r: int, c: int, d: Dir) -> bool {
    match d {
        Dir::Up => r > 0,
        Dir::Down => r < rows - 1,
        Dir::Left => c > 0,
        Dir::Right => c < cols - 1,
    }
}

/// Row of the neighbor of a cell in row `r` in direction `d`.
pub open spec fn nb_r(r: int, d: Dir) -> int {
    match d {
        Dir::Up => r - 1,
        Dir::Down => r + 1,
        Dir::Left => r,
        Dir::Right => r,
    }
}

/// Column of the neighbor of a cell in column `c` in direction `d`.
pub open spec fn nb_c(c: int, d: Dir) -> int {
    match d {
        Dir::Up => c,
        Dir::Down => c,
        Dir::Left => c - 1,
        Dir::Right => c + 1,
    }
}

/// Whether (r, c) lies on the outer ring of a `rows x cols` grid.
pub open spec fn border_cell(rows: int, cols: int, r: int, c: int) -> bool {
    r == 0 || r == rows - 1 || c == 0 || c == cols - 1
}

/// The wall state that border sealing alone produces: an edge is open exactly
/// between two cells that both lie off the outer ring.
pub open spec fn seal_open(rows: int, cols: int, r: int, c: int, d: Dir) -> bool {
    &&& !border_cell(rows, cols, r, c)
    &&& has_nb(rows, cols, r, c, d)
    &&& !border_cell(rows, cols, nb_r(r, d), nb_c(c, d))
}

/// Cells already processed by the top-and-bottom sealing pass up to `col`.
spec fn seal1_hit(rows: int, col: int, r: int, c: int) -> bool {
    (r == 0 || r == rows - 1) && c < col
}

/// Cells already processed once the whole top-and-bottom pass is done and the
/// left-and-right pass has reached `row`.
spec fn seal2_hit(rows: int, cols: int, row: int, r: int, c: int) -> bool {
    r == 0 || r == rows - 1 || ((c == 0 || c == cols - 1) && r < row)
}

/// The mask bit that stores direction `d`.
pub open spec fn mask_bit(d: Dir) -> usize {
    1usize << d.spec_index()
}

pub proof fn lemma_nb_involution(rows: int, cols: int, r: int, c: int, d: Dir)
    requires
        0 <= r < rows,
        0 <= c < cols,
        has_nb(rows, cols, r, c, d),
    ensures
        0 <= nb_r(r, d) < rows,
        0 <= nb_c(c, d) < cols,
        has_nb(rows, cols, nb_r(r, d), nb_c(c, d), d.spec_opposite()),
        nb_r(nb_r(r, d), d.spec_opposite()) == r,
        nb_c(nb_c(c, d), d.spec_opposite()) == c,
        !(nb_r(r, d) == r && nb_c(c, d) == c),
{
}

proof fn lemma_bv_clear(v: usize, b: usize, k: usize)
    by (bit_vector)
    requires
        b < 4,
        k < 4,
        v < 16,
    ensures
        (v & !(1usize << b)) < 16,
        ((v & !(1usize << b)) & (1usize << k)) == (if k == b {
            0usize
        } else {
            v & (1usize << k)
        }),
        v == 0 ==> (v & !(1usize << b)) == 0,
{
}

proof fn lemma_bv_set(v: usize, b: usize, k: usize)
    by (bit_vector)
    requires
        b < 4,
        k < 4,
        v < 16,
    ensures
        (v | (1usize << b)) < 16,
        ((v | (1usize << b)) & (1usize << k)) == (if k == b {
            (1usize << k)
        } else {
            v & (1usize << k)
        }),
        (1usize << k) != 0usize,
{
}

proof fn lemma_bv_consts(k: usize)
    by (bit_vector)
    requires
        k < 4,
    ensures
        (0usize & (1usize << k)) == 0usize,
        (15usize & (1usize << k)) != 0usize,
{
}

proof fn lemma_bv_low(v: usize)
    by (bit_vector)
    requires
        v < 16,
    ensures
        (v & 0b1111usize) == v,
{
}

proof fn lemma_bv_no_bits(v: usize)
    by (bit_vector)
    requires
        v < 16,
        (v & (1usize << 0usize)) == 0,
        (v & (1usize << 1usize)) == 0,
        (v & (1usize << 2usize)) == 0,
        (v & (1usize << 3usize)) == 0,
    ensures
        v == 0,
{
}

/// The maze grid. Cells are 4-bit masks; the generator is used only while the
/// grid is built.
pub struct AMatrix {
    pub matrix: Matrix,
    pub rng: rand::rngs::StdRng,
    pub block_chance: usize,
}

impl AMatrix {
    pub open spec fn rows(self) -> int {
        self.matrix.rows as int
    }

    pub open spec fn cols(self) -> int {
        self.matrix.cols as int
    }

    pub open spec fn in_bounds(self, r: int, c: int) -> bool {
        self.matrix.in_bounds(r, c)
    }

    /// Whether the wall of cell (r, c) toward direction `d` is open.
    pub open spec fn open_at(self, r: int, c: int, d: Dir) -> bool {
        self.matrix.spec_get(r, c) & mask_bit(d) != 0
    }

    /// The buffer is laid out correctly and every mask uses the 4 low bits only.
    pub open spec fn masks_ok(self) -> bool {
        &&& self.matrix.wf()
        &&& forall|r: int, c: int|
            self.in_bounds(r, c) ==> #[trigger] self.matrix.spec_get(r, c) < 16
    }

    /// Connectivity is mutual: an edge is open from one side exactly when it is
    /// open from the other.
    pub open spec fn symmetric(self) -> bool {
        forall|r: int, c: int, d: Dir|
            self.in_bounds(r, c) && has_nb(self.rows(), self.cols(), r, c, d) ==> (
            #[trigger] self.open_at(r, c, d) == self.open_at(
                nb_r(r, d),
                nb_c(c, d),
                d.spec_opposite(),
            ))
    }

    pub open spec fn wf(self) -> bool {
        self.masks_ok() && self.symmetric()
    }

    pub open spec fn on_border(self, r: int, c: int) -> bool {
        r == 0 || r == self.rows() - 1 || c == 0 || c == self.cols() - 1
    }

    /// Every cell of the outer ring is fully walled.
    pub open spec fn sealed(self) -> bool {
        forall|r: int, c: int|
            self.in_bounds(r, c) && self.on_border(r, c) ==> #[trigger] self.matrix.spec_get(r, c)
                == 0
    }

    /// Cells touched by an edge operation at (row, col): the cell itself and
    /// its four potential neighbors.
    pub open spec fn near(row: int, col: int, r: int, c: int) -> bool {
        ||| (r == row && c == col)
        ||| (r == row && (c == col - 1 || c == col + 1))
        ||| (c == col && (r == row - 1 || r == row + 1))
    }

    pub fn get(&self, row: usize, col: usize) -> (v: usize)
        requires
            self.matrix.wf(),
            row < self.matrix.rows,
            col < self.matrix.cols,
        ensures
            v == self.matrix.spec_get(row as int, col as int),
    {
        self.matrix.get(row, col)
    }

    pub fn set(&mut self, row: usize, col: usize, val: usize)
        requires
            old(self).matrix.wf(),
            row < old(self).matrix.rows,
            col < old(self).matrix.cols,
        ensures
            final(self).matrix.wf(),
            final(self).matrix.rows == old(self).matrix.rows,
            final(self).matrix.cols == old(self).matrix.cols,
            final(self).block_chance == old(self).block_chance,
            final(self).matrix.spec_get(row as int, col as int) == val,
            forall|r: int, c: int|
                old(self).in_bounds(r, c) && !(r == row && c == col)
                    ==> #[trigger] final(self).matrix.spec_get(r, c) == old(self).matrix.spec_get(r, c),
    {
        self.matrix.set(row, col, val);
    }

    /// Clears bit `val` of the mask at (row, col).
    pub fn modify_and(&mut self, row: usize, col: usize, val: usize)
        requires
            old(self).matrix.wf(),
            row < old(self).matrix.rows,
            col < old(self).matrix.cols,
            val < 4,
        ensures
            final(self).matrix.wf(),
            final(self).matrix.rows == old(self).matrix.rows,
            final(self).matrix.cols == old(self).matrix.cols,
            final(self).block_chance == old(self).block_chance,
            final(self).matrix.spec_get(row as int, col as int) == (old(self).matrix.spec_get(
                row as int,
                col as int,
            ) & !(1usize << val)),
            forall|r: int, c: int|
                old(self).in_bounds(r, c) && !(r == row && c == col)
                    ==> #[trigger] final(self).matrix.spec_get(r, c) == old(self).matrix.spec_get(r, c),
    {
        let mut new = self.get(row, col);
        new = new & !(1usize << val);
        self.set(row, col, new);
    }

    /// Sets bit `val` of the mask at (row, col).
    pub fn modify_or(&mut self, row: usize, col: usize, val: usize)
        requires
            old(self).matrix.wf(),
            row < old(self).matrix.rows,
            col < old(self).matrix.cols,
            val < 4,
        ensures
            final(self).matrix.wf(),
            final(self).matrix.rows == old(self).matrix.rows,
            final(self).matrix.cols == old(self).matrix.cols,
            final(self).block_chance == old(self).block_chance,
            final(self).matrix.spec_get(row as int, col as int) == (old(self).matrix.spec_get(
                row as int,
                col as int,
            ) | (1usize << val)),
            forall|r: int, c: int|
                old(self).in_bounds(r, c) && !(r == row && c == col)
                    ==> #[trigger] final(self).matrix.spec_get(r, c) == old(self).matrix.spec_get(r, c),
    {
        let mut new = self.get(row, col);
        new = new | (1usize << val);
        self.set(row, col, new);
    }

    /// The neighbor of (row, col) in direction `dir`, if it lies on the grid.
    pub fn get_neighbor(&self, row: usize, col: usize, dir: Dir) -> (r: Option<(usize, usize)>)
        requires
            row < self.matrix.rows,
            col < self.matrix.cols,
        ensures
            r.is_some() == has_nb(self.rows(), self.cols(), row as int, col as int, dir),
            r.is_some() ==> r.unwrap().0 == nb_r(row as int, dir) && r.unwrap().1 == nb_c(
                col as int,
                dir,
            ),
    {
        match dir {
            Dir::Left => if col > 0 {
                Some((row, col - 1))
            } else {
                None
            },
            Dir::Right => if col < self.matrix.cols - 1 {
                Some((row, col + 1))
            } else {
                None
            },
            Dir::Up => if row > 0 {
                Some((row - 1, col))
            } else {
                None
            },
            Dir::Down => if row < self.matrix.rows - 1 {
                Some((row + 1, col))
            } else {
                None
            },
        }
    }

    /// Whether the wall of (row, col) toward `dir` is open.
    pub fn is_open(&self, row: usize, col: usize, dir: Dir) -> (r: bool)
        requires
            self.matrix.wf(),
            row < self.matrix.rows,
            col < self.matrix.cols,
        ensures
            r == self.open_at(row as int, col as int, dir),
    {
        let v = self.get(row, col);
        v & (1usize << dir.index()) != 0
    }

    /// Closes the edge of (row, col) toward `dir`, mirrored onto the neighbor
    /// when it exists; no other bit of any cell changes.
    #[verifier::rlimit(50)]
    pub fn block(&mut self, row: usize, col: usize, dir: Dir)
        requires
            old(self).masks_ok(),
            row < old(self).matrix.rows,
            col < old(self).matrix.cols,
        ensures
            final(self).masks_ok(),
            final(self).matrix.rows == old(self).matrix.rows,
            final(self).matrix.cols == old(self).matrix.cols,
            final(self).block_chance == old(self).block_chance,
            // which open flags survive
            forall|r: int, c: int, k: Dir|
                old(self).in_bounds(r, c) ==> (#[trigger] final(self).open_at(r, c, k) == (old(
                    self,
                ).open_at(r, c, k) && !(r == row && c == col && k == dir) && !(has_nb(
                    old(self).rows(),
                    old(self).cols(),
                    row as int,
                    col as int,
                    dir,
                ) && r == nb_r(row as int, dir) && c == nb_c(col as int, dir) && k
                    == dir.spec_opposite()))),
            // cells away from the edge keep their exact mask
            forall|r: int, c: int|
                old(self).in_bounds(r, c) && !AMatrix::near(row as int, col as int, r, c)
                    ==> #[trigger] final(self).matrix.spec_get(r, c) == old(self).matrix.spec_get(r, c),
            // a fully walled cell stays fully walled
            forall|r: int, c: int|
                old(self).in_bounds(r, c) && old(self).matrix.spec_get(r, c) == 0
                    ==> #[trigger] final(self).matrix.spec_get(r, c) == 0,
            old(self).symmetric() ==> final(self).symmetric(),
    {
        let ghost g0 = *self;
        self.modify_and(row, col, dir.index());
        let ghost g1 = *self;
        if let Some((n_row, n_col)) = self.get_neighbor(row, col, dir) {
            self.modify_and(n_row, n_col, dir.opposite().index());
        }
        let ghost g2 = *self;
        proof {
            let rows = g0.rows();
            let cols = g0.cols();
            let ri = row as int;
            let ci = col as int;
            let hn = has_nb(rows, cols, ri, ci, dir);
            if hn {
                lemma_nb_involution(rows, cols, ri, ci, dir);
            }
            // masks stay below 16 and the open flags change exactly as stated
            assert forall|r: int, c: int| g2.in_bounds(r, c) implies #[trigger] g2.matrix.spec_get(
                r,
                c,
            ) < 16 && (g0.matrix.spec_get(r, c) == 0 ==> g2.matrix.spec_get(r, c) == 0) by {
                let v0 = g0.matrix.spec_get(r, c);
                let v1 = g1.matrix.spec_get(r, c);
                let v2 = g2.matrix.spec_get(r, c);
                if r == ri && c == ci {
                    lemma_bv_clear(v0, dir.spec_index(), 0);
                    if hn {
                        lemma_bv_clear(
                            g1.matrix.spec_get(r, c),
                            dir.spec_opposite().spec_index(),
                            0,
                        );
                    }
                } else if hn && r == nb_r(ri, dir) && c == nb_c(ci, dir) {
                    lemma_bv_clear(v0, dir.spec_opposite().spec_index(), 0);
                } else {
                }
            }
            assert forall|r: int, c: int, k: Dir| g0.in_bounds(r, c) implies (g2.open_at(r, c, k)
                == (g0.open_at(r, c, k) && !(r == ri && c == ci && k == dir) && !(hn && r == nb_r(
                ri,
                dir,
            ) && c == nb_c(ci, dir) && k == dir.spec_opposite()))) by {
                let v0 = g0.matrix.spec_get(r, c);
                let v1 = g1.matrix.spec_get(r, c);
                let v2 = g2.matrix.spec_get(r, c);
                if r == ri && c == ci {
                    lemma_bv_clear(v0, dir.spec_index(), k.spec_index());
                    if hn {
                        lemma_bv_clear(
                            g1.matrix.spec_get(r, c),
                            dir.spec_opposite().spec_index(),
                            k.spec_index(),
                        );
                    }
                } else if hn && r == nb_r(ri, dir) && c == nb_c(ci, dir) {
                    lemma_bv_clear(v0, dir.spec_opposite().spec_index(), k.spec_index());
                } else {
                }
            }
            if g0.symmetric() {
                assert forall|r: int, c: int, k: Dir|
                    g2.in_bounds(r, c) && has_nb(g2.rows(), g2.cols(), r, c, k) implies (
                #[trigger] g2.open_at(r, c, k) == g2.open_at(
                    nb_r(r, k),
                    nb_c(c, k),
                    k.spec_opposite(),
                )) by {
                    lemma_nb_involution(rows, cols, r, c, k);
                    assert(g0.open_at(r, c, k) == g0.open_at(
                        nb_r(r, k),
                        nb_c(c, k),
                        k.spec_opposite(),
                    ));
                }
            }
        }
    }

    /// Opens the edge of (row, col) toward `dir`, mirrored onto the neighbor
    /// when it exists; no other bit of any cell changes.
    #[verifier::rlimit(50)]
    pub fn unblock(&mut self, row: usize, col: usize, dir: Dir)
        requires
            old(self).masks_ok(),
            row < old(self).matrix.rows,
            col < old(self).matrix.cols,
        ensures
            final(self).masks_ok(),
            final(self).matrix.rows == old(self).matrix.rows,
            final(self).matrix.cols == old(self).matrix.cols,
            final(self).block_chance == old(self).block_chance,
            forall|r: int, c: int, k: Dir|
                old(self).in_bounds(r, c) ==> (#[trigger] final(self).open_at(r, c, k) == (old(
                    self,
                ).open_at(r, c, k) || (r == row && c == col && k == dir) || (has_nb(
                    old(self).rows(),
                    old(self).cols(),
                    row as int,
                    col as int,
                    dir,
                ) && r == nb_r(row as int, dir) && c == nb_c(col as int, dir) && k
                    == dir.spec_opposite()))),
            forall|r: int, c: int|
                old(self).in_bounds(r, c) && !AMatrix::near(row as int, col as int, r, c)
                    ==> #[trigger] final(self).matrix.spec_get(r, c) == old(self).matrix.spec_get(r, c),
            old(self).symmetric() ==> final(self).symmetric(),
    {
        let ghost g0 = *self;
        self.modify_or(row, col, dir.index());
        let ghost g1 = *self;
        if let Some((n_row, n_col)) = self.get_neighbor(row, col, dir) {
            self.modify_or(n_row, n_col, dir.opposite().index());
        }
        let ghost g2 = *self;
        proof {
            let rows = g0.rows();
            let cols = g0.cols();
            let ri = row as int;
            let ci = col as int;
            let hn = has_nb(rows, cols, ri, ci, dir);
            if hn {
                lemma_nb_involution(rows, cols, ri, ci, dir);
            }
            assert forall|r: int, c: int| g2.in_bounds(r, c) implies #[trigger] g2.matrix.spec_get(
                r,
                c,
            ) < 16 by {
                let v0 = g0.matrix.spec_get(r, c);
                let v1 = g1.matrix.spec_get(r, c);
                let v2 = g2.matrix.spec_get(r, c);
                if r == ri && c == ci {
                    lemma_bv_set(v0, dir.spec_index(), 0);
                    if hn {
                        lemma_bv_set(g1.matrix.spec_get(r, c), dir.spec_opposite().spec_index(), 0);
                    }
                } else if hn && r == nb_r(ri, dir) && c == nb_c(ci, dir) {
                    lemma_bv_set(v0, dir.spec_opposite().spec_index(), 0);
                } else {
                }
            }
            assert forall|r: int, c: int, k: Dir| g0.in_bounds(r, c) implies (g2.open_at(r, c, k)
                == (g0.open_at(r, c, k) || (r == ri && c == ci && k == dir) || (hn && r == nb_r(
                ri,
                dir,
            ) && c == nb_c(ci, dir) && k == dir.spec_opposite()))) by {
                let v0 = g0.matrix.spec_get(r, c);
                let v1 = g1.matrix.spec_get(r, c);
                let v2 = g2.matrix.spec_get(r, c);
                if r == ri && c == ci {
                    lemma_bv_set(v0, dir.spec_index(), k.spec_index());
                    if hn {
                        lemma_bv_set(
                            g1.matrix.spec_get(r, c),
                            dir.spec_opposite().spec_index(),
                            k.spec_index(),
                        );
                    }
                } else if hn && r == nb_r(ri, dir) && c == nb_c(ci, dir) {
                    lemma_bv_set(v0, dir.spec_opposite().spec_index(), k.spec_index());
                } else {
                }
            }
            if g0.symmetric() {
                assert forall|r: int, c: int, k: Dir|
                    g2.in_bounds(r, c) && has_nb(g2.rows(), g2.cols(), r, c, k) implies (
                #[trigger] g2.open_at(r, c, k) == g2.open_at(
                    nb_r(r, k),
                    nb_c(c, k),
                    k.spec_opposite(),
                )) by {
                    lemma_nb_involution(rows, cols, r, c, k);
                    assert(g0.open_at(r, c, k) == g0.open_at(
                        nb_r(r, k),
                        nb_c(c, k),
                        k.spec_opposite(),
                    ));
                }
            }
        }
    }

    /// Closes all four edges of (row, col), mirrored onto existing neighbors.
    pub fn block_all(&mut self, row: usize, col: usize)
        requires
            old(self).masks_ok(),
            row < old(self).matrix.rows,
            col < old(self).matrix.cols,
        ensures
            final(self).masks_ok(),
            final(self).matrix.rows == old(self).matrix.rows,
            final(self).matrix.cols == old(self).matrix.cols,
            final(self).block_chance == old(self).block_chance,
            final(self).matrix.spec_get(row as int, col as int) == 0,
            forall|r: int, c: int, k: Dir|
                old(self).in_bounds(r, c) ==> (#[trigger] final(self).open_at(r, c, k) == (old(
                    self,
                ).open_at(r, c, k) && !(r == row && c == col) && !(has_nb(
                    old(self).rows(),
                    old(self).cols(),
                    r,
                    c,
                    k,
                ) && nb_r(r, k) == row && nb_c(c, k) == col))),
            forall|r: int, c: int|
                old(self).in_bounds(r, c) && !AMatrix::near(row as int, col as int, r, c)
                    ==> #[trigger] final(self).matrix.spec_get(r, c) == old(self).matrix.spec_get(
                    r,
                    c,
                ),
            forall|r: int, c: int|
                old(self).in_bounds(r, c) && old(self).matrix.spec_get(r, c) == 0
                    ==> #[trigger] final(self).matrix.spec_get(r, c) == 0,
            old(self).symmetric() ==> final(self).symmetric(),
    {
        let ghost s0 = *self;
        self.block(row, col, Dir::Left);
        let ghost s1 = *self;
        self.block(row, col, Dir::Right);
        let ghost s2 = *self;
        self.block(row, col, Dir::Up);
        let ghost s3 = *self;
        self.block(row, col, Dir::Down);
        let ghost s4 = *self;
        proof {
            let rows = s0.rows();
            let cols = s0.cols();
            let ri = row as int;
            let ci = col as int;
            assert forall|r: int, c: int, k: Dir| s0.in_bounds(r, c) implies (s4.open_at(r, c, k)
                == (s0.open_at(r, c, k) && !(r == ri && c == ci) && !(has_nb(rows, cols, r, c, k)
                && nb_r(r, k) == ri && nb_c(c, k) == ci))) by {
                let o1 = s1.open_at(r, c, k);
                let o2 = s2.open_at(r, c, k);
                let o3 = s3.open_at(r, c, k);
                if has_nb(rows, cols, r, c, k) {
                    lemma_nb_involution(rows, cols, r, c, k);
                }
                if has_nb(rows, cols, ri, ci, Dir::Left) {
                    lemma_nb_involution(rows, cols, ri, ci, Dir::Left);
                }
                if has_nb(rows, cols, ri, ci, Dir::Right) {
                    lemma_nb_involution(rows, cols, ri, ci, Dir::Right);
                }
                if has_nb(rows, cols, ri, ci, Dir::Up) {
                    lemma_nb_involution(rows, cols, ri, ci, Dir::Up);
                }
                if has_nb(rows, cols, ri, ci, Dir::Down) {
                    lemma_nb_involution(rows, cols, ri, ci, Dir::Down);
                }
            }
            assert(!s4.open_at(ri, ci, Dir::Up));
            assert(!s4.open_at(ri, ci, Dir::Right));
            assert(!s4.open_at(ri, ci, Dir::Down));
            assert(!s4.open_at(ri, ci, Dir::Left));
            lemma_bv_no_bits(s4.matrix.spec_get(ri, ci));
            assert forall|r: int, c: int|
                s0.in_bounds(r, c) && !AMatrix::near(ri, ci, r, c) implies s4.matrix.spec_get(r, c)
                == s0.matrix.spec_get(r, c) by {
                let v1 = s1.matrix.spec_get(r, c);
                let v2 = s2.matrix.spec_get(r, c);
                let v3 = s3.matrix.spec_get(r, c);
            }
            assert forall|r: int, c: int|
                s0.in_bounds(r, c) && s0.matrix.spec_get(r, c) == 0 implies s4.matrix.spec_get(
                r,
                c,
            ) == 0 by {
                let v1 = s1.matrix.spec_get(r, c);
                let v2 = s2.matrix.spec_get(r, c);
                let v3 = s3.matrix.spec_get(r, c);
            }
        }
    }

    /// Opens all four edges of (row, col), mirrored onto existing neighbors.
    pub fn unblock_all(&mut self, row: usize, col: usize)
        requires
            old(self).masks_ok(),
            row < old(self).matrix.rows,
            col < old(self).matrix.cols,
        ensures
            final(self).masks_ok(),
            final(self).matrix.rows == old(self).matrix.rows,
            final(self).matrix.cols == old(self).matrix.cols,
            final(self).block_chance == old(self).block_chance,
            forall|k: Dir| final(self).open_at(row as int, col as int, k),
            forall|r: int, c: int, k: Dir|
                old(self).in_bounds(r, c) ==> (#[trigger] final(self).open_at(r, c, k) == (old(
                    self,
                ).open_at(r, c, k) || (r == row && c == col) || (has_nb(
                    old(self).rows(),
                    old(self).cols(),
                    r,
                    c,
                    k,
                ) && nb_r(r, k) == row && nb_c(c, k) == col))),
            forall|r: int, c: int|
                old(self).in_bounds(r, c) && !AMatrix::near(row as int, col as int, r, c)
                    ==> #[trigger] final(self).matrix.spec_get(r, c) == old(self).matrix.spec_get(
                    r,
                    c,
                ),
            old(self).symmetric() ==> final(self).symmetric(),
    {
        let ghost s0 = *self;
        self.unblock(row, col, Dir::Left);
        let ghost s1 = *self;
        self.unblock(row, col, Dir::Right);
        let ghost s2 = *self;
        self.unblock(row, col, Dir::Up);
        let ghost s3 = *self;
        self.unblock(row, col, Dir::Down);
        let ghost s4 = *self;
        proof {
            let rows = s0.rows();
            let cols = s0.cols();
            let ri = row as int;
            let ci = col as int;
            assert forall|r: int, c: int, k: Dir| s0.in_bounds(r, c) implies (s4.open_at(r, c, k)
                == (s0.open_at(r, c, k) || (r == ri && c == ci) || (has_nb(rows, cols, r, c, k)
                && nb_r(r, k) == ri && nb_c(c, k) == ci))) by {
                let o1 = s1.open_at(r, c, k);
                let o2 = s2.open_at(r, c, k);
                let o3 = s3.open_at(r, c, k);
                if has_nb(rows, cols, r, c, k) {
                    lemma_nb_involution(rows, cols, r, c, k);
                }
                if has_nb(rows, cols, ri, ci, Dir::Left) {
                    lemma_nb_involution(rows, cols, ri, ci, Dir::Left);
                }
                if has_nb(rows, cols, ri, ci, Dir::Right) {
                    lemma_nb_involution(rows, cols, ri, ci, Dir::Right);
                }
                if has_nb(rows, cols, ri, ci, Dir::Up) {
                    lemma_nb_involution(rows, cols, ri, ci, Dir::Up);
                }
                if has_nb(rows, cols, ri, ci, Dir::Down) {
                    lemma_nb_involution(rows, cols, ri, ci, Dir::Down);
                }
            }
            assert forall|r: int, c: int|
                s0.in_bounds(r, c) && !AMatrix::near(ri, ci, r, c) implies s4.matrix.spec_get(r, c)
                == s0.matrix.spec_get(r, c) by {
                let v1 = s1.matrix.spec_get(r, c);
                let v2 = s2.matrix.spec_get(r, c);
                let v3 = s3.matrix.spec_get(r, c);
            }
        }
    }

    /// Combines two wall-dropping steps at the same cell: open flags only ever
    /// drop, cells away from the edges are untouched, and a fully walled cell
    /// stays fully walled.
    proof fn lemma_two_steps(self, s0: AMatrix, sm: AMatrix, ri: int, ci: int)
        requires
            s0.in_bounds(ri, ci),
            forall|r: int, c: int, k: Dir|
                s0.in_bounds(r, c) && #[trigger] sm.open_at(r, c, k) ==> s0.open_at(r, c, k),
            forall|r: int, c: int, k: Dir|
                s0.in_bounds(r, c) && #[trigger] self.open_at(r, c, k) ==> sm.open_at(r, c, k),
            forall|r: int, c: int|
                s0.in_bounds(r, c) && !AMatrix::near(ri, ci, r, c)
                    ==> #[trigger] sm.matrix.spec_get(r, c) == s0.matrix.spec_get(r, c),
            forall|r: int, c: int|
                s0.in_bounds(r, c) && !AMatrix::near(ri, ci, r, c)
                    ==> #[trigger] self.matrix.spec_get(r, c) == sm.matrix.spec_get(r, c),
            forall|r: int, c: int|
                s0.in_bounds(r, c) && s0.matrix.spec_get(r, c) == 0
                    ==> #[trigger] sm.matrix.spec_get(r, c) == 0,
            forall|r: int, c: int|
                s0.in_bounds(r, c) && sm.matrix.spec_get(r, c) == 0
                    ==> #[trigger] self.matrix.spec_get(r, c) == 0,
        ensures
            forall|r: int, c: int, k: Dir|
                s0.in_bounds(r, c) && #[trigger] self.open_at(r, c, k) ==> s0.open_at(r, c, k),
            forall|r: int, c: int|
                s0.in_bounds(r, c) && !AMatrix::near(ri, ci, r, c)
                    ==> #[trigger] self.matrix.spec_get(r, c) == s0.matrix.spec_get(r, c),
            forall|r: int, c: int|
                s0.in_bounds(r, c) && s0.matrix.spec_get(r, c) == 0
                    ==> #[trigger] self.matrix.spec_get(r, c) == 0,
    {
        assert forall|r: int, c: int|
            s0.in_bounds(r, c) && !AMatrix::near(ri, ci, r, c) implies #[trigger] self.matrix.spec_get(
            r,
            c,
        ) == s0.matrix.spec_get(r, c) by {
            let vm = sm.matrix.spec_get(r, c);
        }
        assert forall|r: int, c: int|
            s0.in_bounds(r, c) && s0.matrix.spec_get(r, c) == 0 implies #[trigger] self.matrix.spec_get(
            r,
            c,
        ) == 0 by {
            let vm = sm.matrix.spec_get(r, c);
        }
    }

    /// Which directions the carving pattern `choice` closes at the chosen
    /// cell: one single direction for 0 to 3, both vertical directions for 4,
    /// both horizontal directions otherwise.
    pub open spec fn carve_clears(choice: usize, k: Dir) -> bool {
        if choice == 0 {
            k == Dir::Left
        } else if choice == 1 {
            k == Dir::Right
        } else if choice == 2 {
            k == Dir::Down
        } else if choice == 3 {
            k == Dir::Up
        } else if choice == 4 {
            k == Dir::Up || k == Dir::Down
        } else {
            k == Dir::Right || k == Dir::Left
        }
    }

    /// Applies one carving decision to (row, col), from the two drawn values:
    /// a draw at or above the carving chance changes nothing, a draw below it
    /// closes exactly the edge pattern of `choice` — mirrored onto existing
    /// neighbors — and no other wall of any cell.
    pub fn carve_step(&mut self, row: usize, col: usize, draw: usize, choice: usize)
        requires
            old(self).masks_ok(),
            row < old(self).matrix.rows,
            col < old(self).matrix.cols,
        ensures
            final(self).masks_ok(),
            final(self).matrix.rows == old(self).matrix.rows,
            final(self).matrix.cols == old(self).matrix.cols,
            final(self).block_chance == old(self).block_chance,
            old(self).symmetric() ==> final(self).symmetric(),
            draw >= old(self).block_chance ==> final(self).matrix == old(self).matrix,
            draw < old(self).block_chance ==> forall|r: int, c: int, k: Dir|
                old(self).in_bounds(r, c) ==> (#[trigger] final(self).open_at(r, c, k) == (old(
                    self,
                ).open_at(r, c, k) && !(r == row && c == col && AMatrix::carve_clears(choice, k))
                    && !(has_nb(old(self).rows(), old(self).cols(), r, c, k) && nb_r(r, k) == row
                    && nb_c(c, k) == col && AMatrix::carve_clears(choice, k.spec_opposite())))),
            forall|r: int, c: int|
                old(self).in_bounds(r, c) && !AMatrix::near(row as int, col as int, r, c)
                    ==> #[trigger] final(self).matrix.spec_get(r, c) == old(self).matrix.spec_get(
                    r,
                    c,
                ),
            forall|r: int, c: int|
                old(self).in_bounds(r, c) && old(self).matrix.spec_get(r, c) == 0
                    ==> #[trigger] final(self).matrix.spec_get(r, c) == 0,
    {
        if draw >= self.block_chance {
            return ;
        }
        let ghost s0 = *self;
        let ghost rows = s0.rows();
        let ghost cols = s0.cols();
        let ghost ri = row as int;
        let ghost ci = col as int;
        match choice {
            0 => self.block(row, col, Dir::Left),
            1 => self.block(row, col, Dir::Right),
            2 => self.block(row, col, Dir::Down),
            3 => self.block(row, col, Dir::Up),
            4 => {
                self.block(row, col, Dir::Up);
                let ghost sm = *self;
                self.block(row, col, Dir::Down);
                proof {
                    self.lemma_two_steps(s0, sm, ri, ci);
                    assert forall|r: int, c: int, k: Dir| s0.in_bounds(r, c) implies (
                    #[trigger] self.open_at(r, c, k) == (s0.open_at(r, c, k) && !(r == ri && c == ci
                        && AMatrix::carve_clears(choice, k)) && !(has_nb(rows, cols, r, c, k)
                        && nb_r(r, k) == ri && nb_c(c, k) == ci && AMatrix::carve_clears(
                        choice,
                        k.spec_opposite(),
                    )))) by {
                        let om = sm.open_at(r, c, k);
                        if has_nb(rows, cols, r, c, k) {
                            lemma_nb_involution(rows, cols, r, c, k);
                        }
                        if has_nb(rows, cols, ri, ci, Dir::Up) {
                            lemma_nb_involution(rows, cols, ri, ci, Dir::Up);
                        }
                        if has_nb(rows, cols, ri, ci, Dir::Down) {
                            lemma_nb_involution(rows, cols, ri, ci, Dir::Down);
                        }
                    }
                }
            },
            _ => {
                self.block(row, col, Dir::Right);
                let ghost sm = *self;
                self.block(row, col, Dir::Left);
                proof {
                    self.lemma_two_steps(s0, sm, ri, ci);
                    assert forall|r: int, c: int, k: Dir| s0.in_bounds(r, c) implies (
                    #[trigger] self.open_at(r, c, k) == (s0.open_at(r, c, k) && !(r == ri && c == ci
                        && AMatrix::carve_clears(choice, k)) && !(has_nb(rows, cols, r, c, k)
                        && nb_r(r, k) == ri && nb_c(c, k) == ci && AMatrix::carve_clears(
                        choice,
                        k.spec_opposite(),
                    )))) by {
                        let om = sm.open_at(r, c, k);
                        if has_nb(rows, cols, r, c, k) {
                            lemma_nb_involution(rows, cols, r, c, k);
                        }
                        if has_nb(rows, cols, ri, ci, Dir::Right) {
                            lemma_nb_involution(rows, cols, ri, ci, Dir::Right);
                        }
                        if has_nb(rows, cols, ri, ci, Dir::Left) {
                            lemma_nb_involution(rows, cols, ri, ci, Dir::Left);
                        }
                    }
                }
            },
        }
        proof {
            if choice <= 3 {
                let d = if choice == 0 {
                    Dir::Left
                } else if choice == 1 {
                    Dir::Right
                } else if choice == 2 {
                    Dir::Down
                } else {
                    Dir::Up
                };
                assert forall|r: int, c: int, k: Dir| s0.in_bounds(r, c) implies (
                #[trigger] self.open_at(r, c, k) == (s0.open_at(r, c, k) && !(r == ri && c == ci
                    && AMatrix::carve_clears(choice, k)) && !(has_nb(rows, cols, r, c, k) && nb_r(
                    r,
                    k,
                ) == ri && nb_c(c, k) == ci && AMatrix::carve_clears(
                    choice,
                    k.spec_opposite(),
                )))) by {
                    if has_nb(rows, cols, r, c, k) {
                        lemma_nb_involution(rows, cols, r, c, k);
                    }
                    if has_nb(rows, cols, ri, ci, d) {
                        lemma_nb_involution(rows, cols, ri, ci, d);
                    }
                }
            }
        }
    }

    /// With probability `block_chance`/10, closes one randomly chosen edge
    /// pattern at (row, col): one single direction, both vertical directions,
    /// or both horizontal directions, each mirrored onto existing neighbors.
    /// A fully walled cell is skipped without consulting the generator.
    /// Whatever the generator yields, walls are only ever added, never
    /// removed.
    pub fn block_random(&mut self, row: usize, col: usize)
        requires
            old(self).masks_ok(),
            row < old(self).matrix.rows,
            col < old(self).matrix.cols,
        ensures
            final(self).masks_ok(),
            final(self).matrix.rows == old(self).matrix.rows,
            final(self).matrix.cols == old(self).matrix.cols,
            final(self).block_chance == old(self).block_chance,
            old(self).symmetric() ==> final(self).symmetric(),
            old(self).matrix.spec_get(row as int, col as int) == 0 ==> *final(self) == *old(self),
            forall|r: int, c: int, k: Dir|
                old(self).in_bounds(r, c) && #[trigger] final(self).open_at(r, c, k) ==> old(
                    self,
                ).open_at(r, c, k),
            forall|r: int, c: int|
                old(self).in_bounds(r, c) && !AMatrix::near(row as int, col as int, r, c)
                    ==> #[trigger] final(self).matrix.spec_get(r, c) == old(self).matrix.spec_get(
                    r,
                    c,
                ),
            forall|r: int, c: int|
                old(self).in_bounds(r, c) && old(self).matrix.spec_get(r, c) == 0
                    ==> #[trigger] final(self).matrix.spec_get(r, c) == 0,
            old(self).block_chance == 0 ==> forall|r: int, c: int|
                old(self).in_bounds(r, c) ==> #[trigger] final(self).matrix.spec_get(r, c) == old(
                    self,
                ).matrix.spec_get(r, c),
    {
        let v = self.get(row, col);
        proof {
            lemma_bv_low(v);
        }
        if v & 0b1111usize == 0 {
            return ;
        }
        let draw = rng_range(&mut self.rng, 0, 10);
        if draw < self.block_chance {
            let ghost s1 = *self;
            proof {
                AMatrix::lemma_rng_only(*old(self), s1);
            }
            let choice = rng_range(&mut self.rng, 0, 6);
            let ghost s2 = *self;
            proof {
                AMatrix::lemma_rng_only(s1, s2);
            }
            self.carve_step(row, col, draw, choice);
            proof {
                assert forall|r: int, c: int, k: Dir|
                    old(self).in_bounds(r, c) && #[trigger] self.open_at(r, c, k) implies old(
                    self,
                ).open_at(r, c, k) by {
                    assert(s2.open_at(r, c, k) == old(self).open_at(r, c, k));
                }
            }
        }
        proof {
            if self.matrix == old(self).matrix {
                AMatrix::lemma_rng_only(*old(self), *self);
            }
        }
    }

    /// Two grids with the same cell data have the same symmetry status.
    proof fn lemma_rng_only(a: AMatrix, b: AMatrix)
        requires
            a.matrix == b.matrix,
        ensures
            a.symmetric() ==> b.symmetric(),
    {
        if a.symmetric() {
            assert forall|r: int, c: int, k: Dir|
                b.in_bounds(r, c) && has_nb(b.rows(), b.cols(), r, c, k) implies (
            #[trigger] b.open_at(r, c, k) == b.open_at(
                nb_r(r, k),
                nb_c(c, k),
                k.spec_opposite(),
            )) by {
                assert(a.open_at(r, c, k) == a.open_at(
                    nb_r(r, k),
                    nb_c(c, k),
                    k.spec_opposite(),
                ));
            }
        }
    }

    /// A uniformly random interior cell.
    pub fn random_cell(&mut self) -> (r: (usize, usize))
        requires
            old(self).matrix.rows >= 3,
            old(self).matrix.cols >= 3,
        ensures
            final(self).matrix == old(self).matrix,
            final(self).block_chance == old(self).block_chance,
            1 <= r.0 < old(self).matrix.rows - 1,
            1 <= r.1 < old(self).matrix.cols - 1,
    {
        let rr = rng_range(&mut self.rng, 1, self.matrix.rows - 1);
        let cc = rng_range(&mut self.rng, 1, self.matrix.cols - 1);
        (rr, cc)
    }

    /// Builds a maze: every cell starts fully open, the outer ring is sealed,
    /// then one randomized carving pass visits every cell in row-major order.
    fn generate(width: usize, height: usize, rng: rand::rngs::StdRng, block_chance: usize) -> (m:
        AMatrix)
        requires
            3 <= width,
            3 <= height,
            height * width <= usize::MAX,
        ensures
            m.wf(),
            m.matrix.rows == height,
            m.matrix.cols == width,
            m.block_chance == block_chance,
            m.sealed(),
            block_chance == 0 ==> forall|r: int, c: int|
                deep_cell(height as int, width as int, r, c) ==> #[trigger] m.matrix.spec_get(r, c)
                    == EMPTY,
            block_chance == 0 ==> forall|r: int, c: int, d: Dir|
                m.in_bounds(r, c) ==> (#[trigger] m.open_at(r, c, d) == seal_open(
                    height as int,
                    width as int,
                    r,
                    c,
                    d,
                )),
    {
        let mat = Matrix::new(height, width, EMPTY);
        let mut map = AMatrix { matrix: mat, rng, block_chance };
        proof {
            assert forall|r: int, c: int, k: Dir|
                map.in_bounds(r, c) && has_nb(map.rows(), map.cols(), r, c, k) implies (
            #[trigger] map.open_at(r, c, k) == map.open_at(
                nb_r(r, k),
                nb_c(c, k),
                k.spec_opposite(),
            )) by {
                lemma_nb_involution(map.rows(), map.cols(), r, c, k);
                lemma_bv_consts(k.spec_index());
                lemma_bv_consts(k.spec_opposite().spec_index());
            }
            assert forall|r: int, c: int, d: Dir| map.in_bounds(r, c) implies #[trigger] map.open_at(
                r,
                c,
                d,
            ) by {
                lemma_bv_consts(d.spec_index());
            }
        }
        let hh: usize = height;
        let ww: usize = width;
        // seal the top and bottom rows
        let mut col: usize = 0;
        while col < ww
            invariant
                map.masks_ok(),
                map.symmetric(),
                map.matrix.rows == hh,
                map.matrix.cols == ww,
                map.block_chance == block_chance,
                3 <= ww,
                3 <= hh,
                col <= ww,
                forall|c2: int| 0 <= c2 < col ==> #[trigger] map.matrix.spec_get(0, c2) == 0,
                forall|c2: int|
                    0 <= c2 < col ==> #[trigger] map.matrix.spec_get(hh - 1 as int, c2) == 0,
                forall|r: int, c: int|
                    deep_cell(hh as int, ww as int, r, c) ==> #[trigger] map.matrix.spec_get(r, c)
                        == EMPTY,
                forall|r: int, c: int, d: Dir|
                    map.in_bounds(r, c) ==> (#[trigger] map.open_at(r, c, d) == (!seal1_hit(
                        hh as int,
                        col as int,
                        r,
                        c,
                    ) && !(has_nb(hh as int, ww as int, r, c, d) && seal1_hit(
                        hh as int,
                        col as int,
                        nb_r(r, d),
                        nb_c(c, d),
                    )))),
            decreases ww - col,
        {
            map.block_all(0, col);
            let ghost mid = map;
            map.block_all(hh - 1, col);
            proof {
                assert forall|c2: int| 0 <= c2 <= col implies #[trigger] map.matrix.spec_get(
                    0,
                    c2,
                ) == 0 by {
                    let m1 = mid.matrix.spec_get(0, c2);
                }
                assert forall|c2: int| 0 <= c2 <= col implies #[trigger] map.matrix.spec_get(
                    hh - 1 as int,
                    c2,
                ) == 0 by {
                    let m1 = mid.matrix.spec_get(hh - 1 as int, c2);
                }
                assert forall|r: int, c: int| deep_cell(hh as int, ww as int, r, c) implies
                    #[trigger] map.matrix.spec_get(r, c) == EMPTY by {
                    let m1 = mid.matrix.spec_get(r, c);
                }
                assert forall|r: int, c: int, d: Dir| map.in_bounds(r, c) implies (
                #[trigger] map.open_at(r, c, d) == (!seal1_hit(hh as int, col as int + 1, r, c) && !(
                has_nb(hh as int, ww as int, r, c, d) && seal1_hit(
                    hh as int,
                    col as int + 1,
                    nb_r(r, d),
                    nb_c(c, d),
                )))) by {
                    let om = mid.open_at(r, c, d);
                    if has_nb(hh as int, ww as int, r, c, d) {
                        lemma_nb_involution(hh as int, ww as int, r, c, d);
                    }
                }
            }
            col = col + 1;
        }
        proof {
            assert forall|r: int, c: int, d: Dir| map.in_bounds(r, c) implies (
            #[trigger] map.open_at(r, c, d) == (!seal2_hit(hh as int, ww as int, 0, r, c) && !(
            has_nb(hh as int, ww as int, r, c, d) && seal2_hit(
                hh as int,
                ww as int,
                0,
                nb_r(r, d),
                nb_c(c, d),
            )))) by {
                if has_nb(hh as int, ww as int, r, c, d) {
                    lemma_nb_involution(hh as int, ww as int, r, c, d);
                }
            }
        }
        // seal the left and right columns
        let mut row: usize = 0;
        while row < hh
            invariant
                map.masks_ok(),
                map.symmetric(),
                map.matrix.rows == hh,
                map.matrix.cols == ww,
                map.block_chance == block_chance,
                3 <= ww,
                3 <= hh,
                row <= hh,
                forall|c2: int| 0 <= c2 < ww ==> #[trigger] map.matrix.spec_get(0, c2) == 0,
                forall|c2: int|
                    0 <= c2 < ww ==> #[trigger] map.matrix.spec_get(hh - 1 as int, c2) == 0,
                forall|r2: int| 0 <= r2 < row ==> #[trigger] map.matrix.spec_get(r2, 0) == 0,
                forall|r2: int|
                    0 <= r2 < row ==> #[trigger] map.matrix.spec_get(r2, ww - 1 as int) == 0,
                forall|r: int, c: int|
                    deep_cell(hh as int, ww as int, r, c) ==> #[trigger] map.matrix.spec_get(r, c)
                        == EMPTY,
                forall|r: int, c: int, d: Dir|
                    map.in_bounds(r, c) ==> (#[trigger] map.open_at(r, c, d) == (!seal2_hit(
                        hh as int,
                        ww as int,
                        row as int,
                        r,
                        c,
                    ) && !(has_nb(hh as int, ww as int, r, c, d) && seal2_hit(
                        hh as int,
                        ww as int,
                        row as int,
                        nb_r(r, d),
                        nb_c(c, d),
                    )))),
            decreases hh - row,
        {
            map.block_all(row, 0);
            let ghost mid = map;
            map.block_all(row, ww - 1);
            proof {
                assert forall|c2: int| 0 <= c2 < ww implies #[trigger] map.matrix.spec_get(
                    0,
                    c2,
                ) == 0 by {
                    let m1 = mid.matrix.spec_get(0, c2);
                }
                assert forall|c2: int| 0 <= c2 < ww implies #[trigger] map.matrix.spec_get(
                    hh - 1 as int,
                    c2,
                ) == 0 by {
                    let m1 = mid.matrix.spec_get(hh - 1 as int, c2);
                }
                assert forall|r2: int| 0 <= r2 <= row implies #[trigger] map.matrix.spec_get(
                    r2,
                    0,
                ) == 0 by {
                    let m1 = mid.matrix.spec_get(r2, 0);
                }
                assert forall|r2: int| 0 <= r2 <= row implies #[trigger] map.matrix.spec_get(
                    r2,
                    ww - 1 as int,
                ) == 0 by {
                    let m1 = mid.matrix.spec_get(r2, ww - 1 as int);
                }
                assert forall|r: int, c: int| deep_cell(hh as int, ww as int, r, c) implies
                    #[trigger] map.matrix.spec_get(r, c) == EMPTY by {
                    let m1 = mid.matrix.spec_get(r, c);
                }
                assert forall|r: int, c: int, d: Dir| map.in_bounds(r, c) implies (
                #[trigger] map.open_at(r, c, d) == (!seal2_hit(
                    hh as int,
                    ww as int,
                    row as int + 1,
                    r,
                    c,
                ) && !(has_nb(hh as int, ww as int, r, c, d) && seal2_hit(
                    hh as int,
                    ww as int,
                    row as int + 1,
                    nb_r(r, d),
                    nb_c(c, d),
                )))) by {
                    let om = mid.open_at(r, c, d);
                    if has_nb(hh as int, ww as int, r, c, d) {
                        lemma_nb_involution(hh as int, ww as int, r, c, d);
                    }
                }
            }
            row = row + 1;
        }
        proof {
            assert forall|r: int, c: int|
                map.in_bounds(r, c) && map.on_border(r, c) implies #[trigger] map.matrix.spec_get(
                r,
                c,
            ) == 0 by {}
            assert forall|r: int, c: int, d: Dir| map.in_bounds(r, c) implies (
            #[trigger] map.open_at(r, c, d) == seal_open(hh as int, ww as int, r, c, d)) by {
                if has_nb(hh as int, ww as int, r, c, d) {
                    lemma_nb_involution(hh as int, ww as int, r, c, d);
                }
            }
        }
        // randomized carving pass over every cell
        let ghost pre = map;
        let mut row: usize = 0;
        while row < hh
            invariant
                map.masks_ok(),
                map.symmetric(),
                map.matrix.rows == hh,
                map.matrix.cols == ww,
                map.block_chance == block_chance,
                3 <= ww,
                3 <= hh,
                row <= hh,
                map.sealed(),
                block_chance == 0 ==> forall|r: int, c: int|
                    map.in_bounds(r, c) ==> #[trigger] map.matrix.spec_get(r, c)
                        == pre.matrix.spec_get(r, c),
                forall|r: int, c: int|
                    deep_cell(hh as int, ww as int, r, c) ==> #[trigger] pre.matrix.spec_get(r, c)
                        == EMPTY,
                forall|r: int, c: int, d: Dir|
                    pre.in_bounds(r, c) ==> (#[trigger] pre.open_at(r, c, d) == seal_open(
                        hh as int,
                        ww as int,
                        r,
                        c,
                        d,
                    )),
            decreases hh - row,
        {
            let mut col: usize = 0;
            while col < ww
                invariant
                    map.masks_ok(),
                    map.symmetric(),
                    map.matrix.rows == hh,
                    map.matrix.cols == ww,
                    map.block_chance == block_chance,
                    3 <= ww,
                    3 <= hh,
                    row < hh,
                    col <= ww,
                    map.sealed(),
                    block_chance == 0 ==> forall|r: int, c: int|
                        map.in_bounds(r, c) ==> #[trigger] map.matrix.spec_get(r, c)
                            == pre.matrix.spec_get(r, c),
                    forall|r: int, c: int|
                        deep_cell(hh as int, ww as int, r, c) ==> #[trigger] pre.matrix.spec_get(
                            r,
                            c,
                        ) == EMPTY,
                    forall|r: int, c: int, d: Dir|
                        pre.in_bounds(r, c) ==> (#[trigger] pre.open_at(r, c, d) == seal_open(
                            hh as int,
                            ww as int,
                            r,
                            c,
                            d,
                        )),
                decreases ww - col,
            {
                map.block_random(row, col);
                col = col + 1;
            }
            row = row + 1;
        }
        proof {
            if block_chance == 0 {
                assert forall|r: int, c: int, d: Dir| map.in_bounds(r, c) implies (
                #[trigger] map.open_at(r, c, d) == seal_open(hh as int, ww as int, r, c, d)) by {
                    assert(map.matrix.spec_get(r, c) == pre.matrix.spec_get(r, c));
                    assert(pre.open_at(r, c, d) == seal_open(hh as int, ww as int, r, c, d));
                }
            }
        }
        map
    }

    /// A maze of `height` rows by `width` columns with the default carving
    /// chance and a generator seeded from the operating system.
    pub fn new(width: usize, height: usize) -> (m: AMatrix)
        requires
            3 <= width,
            3 <= height,
            height * width <= usize::MAX,
        ensures
            m.wf(),
            m.matrix.rows == height,
            m.matrix.cols == width,
            m.block_chance == BLOCK_CHANCE,
            m.sealed(),
    {
        AMatrix::generate(width, height, fresh_rng(), BLOCK_CHANCE)
    }

    /// As `new`, with the generator sequence pinned by `seed` and the carving
    /// chance chosen by the caller. With chance 0 no carving is applied and
    /// the result is the same for every seed: the wall state that sealing
    /// alone produces — an edge open exactly between two non-border cells —
    /// so every cell two or more steps from the border keeps all four walls
    /// open, and a cell beside the border closes exactly its border-facing
    /// walls.
    pub fn new_seeded(width: usize, height: usize, seed: u64, block_chance: usize) -> (m: AMatrix)
        requires
            3 <= width,
            3 <= height,
            height * width <= usize::MAX,
        ensures
            m.wf(),
            m.matrix.rows == height,
            m.matrix.cols == width,
            m.block_chance == block_chance,
            m.sealed(),
            block_chance == 0 ==> forall|r: int, c: int|
                deep_cell(height as int, width as int, r, c) ==> #[trigger] m.matrix.spec_get(r, c)
                    == EMPTY,
            block_chance == 0 ==> forall|r: int, c: int, d: Dir|
                m.in_bounds(r, c) ==> (#[trigger] m.open_at(r, c, d) == seal_open(
                    height as int,
                    width as int,
                    r,
                    c,
                    d,
                )),
    {
        AMatrix::generate(width, height, seeded_rng(seed), block_chance)
    }
}

/// A cell far enough from the border that sealing cannot have touched it.
pub open spec fn deep_cell(rows: int, cols: int, r: int, c: int) -> bool {
    2 <= r < rows - 2 && 2 <= c < cols - 2
}

/// Law: when a wall is closed from one side and the neighbor on its far side
/// exists, the neighbor's wall toward it is closed too.
pub proof fn lemma_symmetry(m: AMatrix, r: int, c: int, d: Dir)
    requires
        m.wf(),
        m.in_bounds(r, c),
        has_nb(m.rows(), m.cols(), r, c, d),
        !m.open_at(r, c, d),
    ensures
        !m.open_at(nb_r(r, d), nb_c(c, d), d.spec_opposite()),
{
}

/// Law: on a sealed grid, every direction of every outer-ring cell is closed.
pub proof fn lemma_sealed_border(m: AMatrix, r: int, c: int, d: Dir)
    requires
        m.masks_ok(),
        m.sealed(),
        m.in_bounds(r, c),
        m.on_border(r, c),
    ensures
        !m.open_at(r, c, d),
{
    lemma_bv_consts(d.spec_index());
}

/// A fully open mask has every direction open.
pub proof fn lemma_empty_open(m: AMatrix, r: int, c: int, d: Dir)
    requires
        m.in_bounds(r, c),
        m.matrix.spec_get(r, c) == EMPTY,
    ensures
        m.open_at(r, c, d),
{
    lemma_bv_consts(d.spec_index());
}

} // verus!

