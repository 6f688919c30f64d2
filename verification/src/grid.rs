use vstd::prelude::*;

verus! {

/// A rectangular array of machine integers, stored row-major.
pub struct Grid {
    inner: Vec<i64>,
    cols: usize,
}

/// The value offered for a grid is not rectangular: its rows differ in
/// length.
#[derive(Clone, Copy, PartialEq, Eq, Structural, Debug)]
pub struct NotAGridError;

impl Grid {
    /// The number of columns.
    pub closed spec fn spec_cols(self) -> int {
        self.cols as int
    }

    /// The number of rows.
    pub closed spec fn spec_rows(self) -> int {
        if self.cols == 0 {
            0
        } else {
            self.inner@.len() as int / self.cols as int
        }
    }

    /// The cell at row `r`, column `c`.
    pub closed spec fn cell(self, r: int, c: int) -> i64 {
        self.inner@[r * self.spec_cols() + c]
    }

    /// The storage is rectangular: exactly rows-times-columns cells.
    pub closed spec fn wf(self) -> bool {
        self.inner@.len() == self.spec_rows() * self.spec_cols()
    }

    /// A fresh grid of zeroes.
    pub fn new(rows: usize, cols: usize) -> (g: Grid)
        requires
            rows * cols <= usize::MAX,
        ensures
            g.wf(),
            g.spec_cols() == cols as int,
            cols > 0 ==> g.spec_rows() == rows as int,
            cols == 0 ==> g.spec_rows() == 0,
            forall|r: int, c: int|
                0 <= r < g.spec_rows() && 0 <= c < g.spec_cols() ==> g.cell(r, c) == 0,
    {
        proof {
            vstd::arithmetic::mul::lemma_mul_inequality(rows as int, rows as int, cols as int);
        }
        let n = rows * cols;
        let mut inner: Vec<i64> = Vec::new();
        let mut i: usize = 0;
        while i < n
            invariant
                i <= n,
                inner@.len() == i,
                forall|k: int| 0 <= k < i ==> inner@[k] == 0,
            decreases n - i,
        {
            inner.push(0);
            i = i + 1;
        }
        let g = Grid { inner, cols };
        proof {
            if cols > 0 {
                vstd::arithmetic::div_mod::lemma_fundamental_div_mod_converse(
                    n as int,
                    cols as int,
                    rows as int,
                    0,
                );
            } else {
                assert(rows as int * 0 == 0) by (nonlinear_arith);
            }
            assert(g.wf()) by {
                if cols > 0 {
                    assert(g.spec_rows() == rows as int);
                } else {
                    assert(g.spec_rows() == 0);
                    assert(g.spec_rows() * g.spec_cols() == 0);
                }
            }
            assert forall|r: int, c: int|
                0 <= r < g.spec_rows() && 0 <= c < g.spec_cols() implies g.cell(r, c) == 0 by {
                lemma_cell_index_bounds(g.spec_rows(), g.spec_cols(), r, c);
            }
        }
        g
    }

    /// The number of columns.
    pub fn cols(&self) -> (c: usize)
        ensures
            c as int == self.spec_cols(),
    {
        self.cols
    }

    /// The number of rows.  A grid with no columns has no rows to count.
    pub fn rows(&self) -> (r: usize)
        requires
            self.spec_cols() > 0,
        ensures
            r as int == self.spec_rows(),
    {
        self.inner.len() / self.cols
    }

    /// The row-major position of a cell.
    pub fn inner_index(&self, index: (usize, usize)) -> (i: usize)
        requires
            self.wf(),
            (index.0 as int) < self.spec_rows(),
            (index.1 as int) < self.spec_cols(),
        ensures
            i as int == index.0 as int * self.spec_cols() + index.1 as int,
            (i as int) < self.spec_rows() * self.spec_cols(),
    {
        let n = self.inner.len();
        proof {
            lemma_cell_index_bounds(
                self.spec_rows(),
                self.spec_cols(),
                index.0 as int,
                index.1 as int,
            );
            assert(n as int == self.spec_rows() * self.spec_cols());
        }
        index.0 * self.cols + index.1
    }

    /// The cell at the given row and column.
    pub fn get(&self, index: (usize, usize)) -> (v: i64)
        requires
            self.wf(),
            (index.0 as int) < self.spec_rows(),
            (index.1 as int) < self.spec_cols(),
        ensures
            v == self.cell(index.0 as int, index.1 as int),
    {
        let i = self.inner_index(index);
        self.inner[i]
    }

    /// Replaces the cell at the given row and column, leaving every other
    /// cell and the dimensions unchanged.
    pub fn set(&mut self, index: (usize, usize), v: i64)
        requires
            old(self).wf(),
            (index.0 as int) < old(self).spec_rows(),
            (index.1 as int) < old(self).spec_cols(),
        ensures
            final(self).wf(),
            final(self).spec_rows() == old(self).spec_rows(),
            final(self).spec_cols() == old(self).spec_cols(),
            final(self).cell(index.0 as int, index.1 as int) == v,
            forall|r: int, c: int|
                0 <= r < old(self).spec_rows() && 0 <= c < old(self).spec_cols() && !(r
                    == index.0 as int && c == index.1 as int) ==> final(self).cell(r, c) == old(
                    self,
                ).cell(r, c),
    {
        let i = self.inner_index(index);
        self.inner.set(i, v);
        proof {
            assert forall|r: int, c: int|
                0 <= r < old(self).spec_rows() && 0 <= c < old(self).spec_cols() && !(r
                    == index.0 as int && c == index.1 as int) implies self.cell(r, c) == old(
                self,
            ).cell(r, c) by {
                lemma_cell_index_bounds(old(self).spec_rows(), old(self).spec_cols(), r, c);
                lemma_cell_index_injective(
                    old(self).spec_cols(),
                    r,
                    c,
                    index.0 as int,
                    index.1 as int,
                );
            }
        }
    }

    /// Builds a grid from a list of rows.  Rows of unequal length are
    /// rejected; an empty list gives the empty grid.
    pub fn try_from(value: Vec<Vec<i64>>) -> (r: Result<Grid, NotAGridError>)
        ensures
            match r {
                Ok(g) => {
                    &&& g.wf()
                    &&& g.spec_rows() == if value@.len() > 0 && value@[0]@.len() > 0 {
                        value@.len() as int
                    } else {
                        0
                    }
                    &&& g.spec_cols() == if value@.len() > 0 {
                        value@[0]@.len() as int
                    } else {
                        0
                    }
                    &&& forall|i: int|
                        0 <= i < value@.len() ==> (#[trigger] value@[i])@.len() == g.spec_cols()
                    &&& forall|r0: int, c0: int|
                        0 <= r0 < g.spec_rows() && 0 <= c0 < g.spec_cols() ==> g.cell(r0, c0)
                            == value@[r0]@[c0]
                },
                Err(_) => exists|i: int|
                    0 < i < value@.len() && (#[trigger] value@[i])@.len() != value@[0]@.len(),
            },
    {
        if value.len() == 0 {
            return Ok(Grid::new(0, 0));
        }
        let cols = value[0].len();
        let mut inner: Vec<i64> = Vec::new();
        let mut i: usize = 0;
        while i < value.len()
            invariant
                i <= value@.len(),
                value@.len() > 0,
                cols as int == value@[0]@.len(),
                inner@.len() == i * cols,
                forall|k: int| 0 <= k < i ==> (#[trigger] value@[k])@.len() == cols as int,
                forall|r0: int, c0: int|
                    0 <= r0 < i && 0 <= c0 < cols ==> inner@[r0 * cols as int + c0]
                        == value@[r0]@[c0],
            decreases value@.len() - i,
        {
            if value[i].len() != cols {
                return Err(NotAGridError);
            }
            let row = &value[i];
            let mut j: usize = 0;
            while j < row.len()
                invariant
                    j <= row@.len(),
                    row@ == value@[i as int]@,
                    i < value@.len(),
                    cols as int == row@.len(),
                    inner@.len() == i * cols + j,
                    forall|r0: int, c0: int|
                        0 <= r0 < i && 0 <= c0 < cols ==> inner@[r0 * cols as int + c0]
                            == value@[r0]@[c0],
                    forall|c0: int| 0 <= c0 < j ==> inner@[i as int * cols as int + c0] == row@[c0],
                decreases row@.len() - j,
            {
                inner.push(row[j]);
                proof {
                    assert forall|r0: int, c0: int|
                        0 <= r0 < i && 0 <= c0 < cols implies inner@[r0 * cols as int + c0]
                        == value@[r0]@[c0] by {
                        lemma_cell_index_bounds(i as int, cols as int, r0, c0);
                        vstd::arithmetic::mul::lemma_mul_inequality(
                            r0 + 1,
                            i as int,
                            cols as int,
                        );
                        assert((r0 + 1) * cols as int == r0 * cols as int + cols as int)
                            by (nonlinear_arith);
                    }
                }
                j = j + 1;
            }
            proof {
                assert((i as int + 1) * cols as int == i as int * cols as int + cols as int)
                    by (nonlinear_arith);
            }
            i = i + 1;
        }
        let g = Grid { inner, cols };
        proof {
            if cols > 0 {
                vstd::arithmetic::div_mod::lemma_fundamental_div_mod_converse(
                    g.inner@.len() as int,
                    cols as int,
                    value@.len() as int,
                    0,
                );
            } else {
                assert(g.spec_rows() == 0);
                assert(g.spec_rows() * g.spec_cols() == 0);
            }
        }
        Ok(g)
    }
}

/// A cell's row-major position lies inside a rows-times-columns storage.
pub proof fn lemma_cell_index_bounds(rows: int, cols: int, r: int, c: int)
    requires
        0 <= r < rows,
        0 <= c < cols,
    ensures
        0 <= r * cols + c < rows * cols,
{
    vstd::arithmetic::mul::lemma_mul_inequality(r + 1, rows, cols);
    assert((r + 1) * cols == r * cols + cols) by (nonlinear_arith);
    assert(r * cols >= 0) by (nonlinear_arith)
        requires
            r >= 0 && cols >= 0,
    ;
}

/// Distinct cells have distinct row-major positions.
pub proof fn lemma_cell_index_injective(cols: int, r1: int, c1: int, r2: int, c2: int)
    requires
        cols > 0,
        0 <= c1 < cols,
        0 <= c2 < cols,
        0 <= r1,
        0 <= r2,
        !(r1 == r2 && c1 == c2),
    ensures
        r1 * cols + c1 != r2 * cols + c2,
{
    if r1 == r2 {
    } else {
        assert(r1 * cols != r2 * cols && (r1 < r2 ==> r1 * cols + cols <= r2 * cols) && (r2 < r1
            ==> r2 * cols + cols <= r1 * cols)) by (nonlinear_arith)
            requires
                cols > 0 && r1 != r2 && 0 <= r1 && 0 <= r2,
        ;
    }
}


/// The sum of one row's cells in columns `[c0, c1)`.
pub open spec fn grid_row_sum(g: Grid, r: int, c0: int, c1: int) -> int
    decreases c1 - c0,
{
    if c0 < c1 {
        grid_row_sum(g, r, c0, c1 - 1) + g.cell(r, c1 - 1)
    } else {
        0
    }
}

/// The sum of the cells in rows `[r0, r1)` and columns `[c0, c1)`.
pub open spec fn grid_rect_sum(g: Grid, r0: int, c0: int, r1: int, c1: int) -> int
    decreases r1 - r0,
{
    if r0 < r1 {
        grid_rect_sum(g, r0, c0, r1 - 1, c1) + grid_row_sum(g, r1 - 1, c0, c1)
    } else {
        0
    }
}

/// Row sums over adjacent column ranges add up.
pub proof fn lemma_row_sum_split(g: Grid, r: int, c0: int, cm: int, c1: int)
    requires
        c0 <= cm <= c1,
    ensures
        grid_row_sum(g, r, c0, c1) == grid_row_sum(g, r, c0, cm) + grid_row_sum(g, r, cm, c1),
    decreases c1 - cm,
{
    if cm < c1 {
        lemma_row_sum_split(g, r, c0, cm, c1 - 1);
    }
}

/// Rectangle sums over adjacent row ranges add up.
pub proof fn lemma_rect_split_rows(g: Grid, r0: int, rm: int, r1: int, c0: int, c1: int)
    requires
        r0 <= rm <= r1,
    ensures
        grid_rect_sum(g, r0, c0, r1, c1) == grid_rect_sum(g, r0, c0, rm, c1) + grid_rect_sum(
            g,
            rm,
            c0,
            r1,
            c1,
        ),
    decreases r1 - rm,
{
    if rm < r1 {
        lemma_rect_split_rows(g, r0, rm, r1 - 1, c0, c1);
    }
}

/// Rectangle sums over adjacent column ranges add up.
pub proof fn lemma_rect_split_cols(g: Grid, r0: int, r1: int, c0: int, cm: int, c1: int)
    requires
        r0 <= r1,
        c0 <= cm <= c1,
    ensures
        grid_rect_sum(g, r0, c0, r1, c1) == grid_rect_sum(g, r0, c0, r1, cm) + grid_rect_sum(
            g,
            r0,
            cm,
            r1,
            c1,
        ),
    decreases r1 - r0,
{
    if r0 < r1 {
        lemma_rect_split_cols(g, r0, r1 - 1, c0, cm, c1);
        lemma_row_sum_split(g, r1 - 1, c0, cm, c1);
    }
}

/// Inclusion-exclusion: any rectangle's sum is determined by the four
/// prefix rectangles at its corners.
pub proof fn lemma_rect_incl_excl(g: Grid, r0: int, c0: int, r1: int, c1: int)
    requires
        0 <= r0 <= r1,
        0 <= c0 <= c1,
    ensures
        grid_rect_sum(g, r0, c0, r1, c1) == grid_rect_sum(g, 0, 0, r1, c1) - grid_rect_sum(
            g,
            0,
            0,
            r0,
            c1,
        ) - grid_rect_sum(g, 0, 0, r1, c0) + grid_rect_sum(g, 0, 0, r0, c0),
{
    lemma_rect_split_rows(g, 0, r0, r1, 0, c1);
    lemma_rect_split_cols(g, r0, r1, 0, c0, c1);
    lemma_rect_split_rows(g, 0, r0, r1, 0, c0);
}

/// One step of prefix summation: the prefix rectangle through a cell is the
/// cell plus the prefixes above and to the left, minus the doubly counted
/// corner.
pub proof fn lemma_prefix_step(g: Grid, i: int, j: int)
    requires
        0 <= i,
        0 <= j,
    ensures
        grid_rect_sum(g, 0, 0, i + 1, j + 1) == g.cell(i, j) + grid_rect_sum(g, 0, 0, i, j + 1)
            + grid_rect_sum(g, 0, 0, i + 1, j) - grid_rect_sum(g, 0, 0, i, j),
{
    assert(grid_rect_sum(g, 0, 0, i + 1, j + 1) == grid_rect_sum(g, 0, 0, i, j + 1)
        + grid_row_sum(g, i, 0, j + 1));
    assert(grid_row_sum(g, i, 0, j + 1) == grid_row_sum(g, i, 0, j) + g.cell(i, j));
    assert(grid_rect_sum(g, 0, 0, i + 1, j) == grid_rect_sum(g, 0, 0, i, j) + grid_row_sum(
        g,
        i,
        0,
        j,
    ));
}

/// Whether a mathematical integer fits the machine's signed word.
pub open spec fn fits_cell(x: int) -> bool {
    i64::MIN <= x <= i64::MAX
}

/// The prefix rectangle of `g` through the exclusive corner `(i, j)`.
pub open spec fn prefix_at(g: Grid, i: int, j: int) -> int {
    grid_rect_sum(g, 0, 0, i, j)
}

/// The first intermediate value when prefix-summing cell `(i, j)` in place:
/// the cell plus the prefix above it.
pub open spec fn prefix_mid1(g: Grid, i: int, j: int) -> int {
    g.cell(i, j) as int + if i > 0 {
        prefix_at(g, i, j + 1)
    } else {
        0
    }
}

/// The second intermediate value: the first plus the prefix to the left.
pub open spec fn prefix_mid2(g: Grid, i: int, j: int) -> int {
    prefix_mid1(g, i, j) + if j > 0 {
        prefix_at(g, i + 1, j)
    } else {
        0
    }
}

/// Every intermediate of the in-place prefix summation fits the machine
/// word.
pub open spec fn prefix_sums_fit(g: Grid) -> bool {
    forall|i: int, j: int|
        0 <= i < g.spec_rows() && 0 <= j < g.spec_cols() ==> fits_cell(#[trigger] prefix_mid1(g, i, j))
            && fits_cell(prefix_mid2(g, i, j)) && fits_cell(prefix_at(g, i + 1, j + 1))
}

/// Constant-time rectangle-sum queries over a fixed grid, backed by an
/// in-place table of prefix sums.
pub struct GridSum {
    grid: Grid,
    orig: Ghost<Grid>,
}

impl GridSum {
    /// The grid the structure was built from.
    pub closed spec fn original(self) -> Grid {
        self.orig@
    }

    /// Internal consistency: same shape as the original, each cell holding
    /// the prefix-rectangle sum through it.
    pub closed spec fn wf(self) -> bool {
        &&& self.orig@.wf()
        &&& self.grid.wf()
        &&& self.grid.spec_rows() == self.orig@.spec_rows()
        &&& self.grid.spec_cols() == self.orig@.spec_cols()
        &&& forall|i: int, j: int|
            0 <= i < self.grid.spec_rows() && 0 <= j < self.grid.spec_cols()
                ==> #[trigger] self.grid.cell(i, j) as int == prefix_at(self.orig@, i + 1, j + 1)
    }

    /// Builds the prefix-sum table of `grid` in place, sweeping the cells
    /// in row-major order.  Every intermediate sum must fit the machine
    /// word.
    pub fn from(grid: Grid) -> (r: GridSum)
        requires
            grid.wf(),
            prefix_sums_fit(grid),
        ensures
            r.wf(),
            r.original() == grid,
    {
        let ghost orig = grid;
        let mut g = grid;
        if g.cols() == 0 {
            return GridSum { grid: g, orig: Ghost(orig) };
        }
        let rows = g.rows();
        let cols = g.cols();
        let mut i: usize = 0;
        while i < rows
            invariant
                i <= rows,
                g.wf(),
                orig.wf(),
                prefix_sums_fit(orig),
                rows as int == orig.spec_rows(),
                cols as int == orig.spec_cols(),
                cols > 0,
                g.spec_rows() == orig.spec_rows(),
                g.spec_cols() == orig.spec_cols(),
                forall|r0: int, c0: int|
                    0 <= r0 < i && 0 <= c0 < cols ==> #[trigger] g.cell(r0, c0) as int
                        == prefix_at(orig, r0 + 1, c0 + 1),
                forall|r0: int, c0: int|
                    i <= r0 < rows && 0 <= c0 < cols ==> #[trigger] g.cell(r0, c0) == orig.cell(
                        r0,
                        c0,
                    ),
            decreases rows - i,
        {
            let mut j: usize = 0;
            while j < cols
                invariant
                    i < rows,
                    j <= cols,
                    g.wf(),
                    orig.wf(),
                    prefix_sums_fit(orig),
                    rows as int == orig.spec_rows(),
                    cols as int == orig.spec_cols(),
                    cols > 0,
                    g.spec_rows() == orig.spec_rows(),
                    g.spec_cols() == orig.spec_cols(),
                    forall|r0: int, c0: int|
                        0 <= r0 < i && 0 <= c0 < cols ==> #[trigger] g.cell(r0, c0) as int
                            == prefix_at(orig, r0 + 1, c0 + 1),
                    forall|c0: int|
                        0 <= c0 < j ==> #[trigger] g.cell(i as int, c0) as int == prefix_at(
                            orig,
                            i as int + 1,
                            c0 + 1,
                        ),
                    forall|c0: int|
                        j <= c0 < cols ==> #[trigger] g.cell(i as int, c0) == orig.cell(
                            i as int,
                            c0,
                        ),
                    forall|r0: int, c0: int|
                        i < r0 < rows && 0 <= c0 < cols ==> #[trigger] g.cell(r0, c0)
                            == orig.cell(r0, c0),
                decreases cols - j,
            {
                let mut v = g.get((i, j));
                proof {
                    lemma_prefix_step(orig, i as int, j as int);
                    assert(fits_cell(prefix_mid1(orig, i as int, j as int)));
                    assert(fits_cell(prefix_mid2(orig, i as int, j as int)));
                    assert(fits_cell(prefix_at(orig, i as int + 1, j as int + 1)));
                    if i == 0 {
                        lemma_rect_empty_rows(orig, j as int + 1);
                        lemma_rect_empty_rows(orig, j as int);
                    }
                    if j == 0 {
                        lemma_rect_empty_cols(orig, i as int + 1);
                        lemma_rect_empty_cols(orig, i as int);
                    }
                }
                if i > 0 {
                    let up = g.get((i - 1, j));
                    proof {
                        assert(up as int == prefix_at(orig, i as int, j as int + 1));
                        assert(v as int + up as int == prefix_mid1(orig, i as int, j as int));
                    }
                    v = v + up;
                }
                proof {
                    assert(v as int == prefix_mid1(orig, i as int, j as int));
                }
                if j > 0 {
                    let left = g.get((i, j - 1));
                    proof {
                        assert(left as int == prefix_at(orig, i as int + 1, j as int));
                        assert(v as int + left as int == prefix_mid2(orig, i as int, j as int));
                    }
                    v = v + left;
                }
                proof {
                    assert(v as int == prefix_mid2(orig, i as int, j as int));
                }
                if i > 0 && j > 0 {
                    let corner = g.get((i - 1, j - 1));
                    proof {
                        assert(corner as int == prefix_at(orig, i as int, j as int));
                    }
                    v = v - corner;
                }
                proof {
                    assert(v as int == prefix_at(orig, i as int + 1, j as int + 1));
                }
                g.set((i, j), v);
                j = j + 1;
            }
            i = i + 1;
        }
        GridSum { grid: g, orig: Ghost(orig) }
    }

    /// The sum of the original grid's cells in the rectangle from `topleft`
    /// to `bottomright`, both inclusive.  The corner order and bounds are
    /// the caller's obligation, as are machine-word bounds on the
    /// intermediate values of the four-corner combination.
    pub fn sum(&self, topleft: (usize, usize), bottomright: (usize, usize)) -> (r: i64)
        requires
            self.wf(),
            topleft.0 <= bottomright.0,
            topleft.1 <= bottomright.1,
            (bottomright.0 as int) < self.original().spec_rows(),
            (bottomright.1 as int) < self.original().spec_cols(),
            fits_cell(
                prefix_at(self.original(), bottomright.0 as int + 1, bottomright.1 as int + 1)
                    + if topleft.0 > 0 && topleft.1 > 0 {
                    prefix_at(self.original(), topleft.0 as int, topleft.1 as int)
                } else {
                    0
                },
            ),
            fits_cell(
                prefix_at(self.original(), bottomright.0 as int + 1, bottomright.1 as int + 1)
                    + (if topleft.0 > 0 && topleft.1 > 0 {
                    prefix_at(self.original(), topleft.0 as int, topleft.1 as int)
                } else {
                    0
                }) - (if topleft.1 > 0 {
                    prefix_at(self.original(), bottomright.0 as int + 1, topleft.1 as int)
                } else {
                    0
                }),
            ),
            fits_cell(
                grid_rect_sum(
                    self.original(),
                    topleft.0 as int,
                    topleft.1 as int,
                    bottomright.0 as int + 1,
                    bottomright.1 as int + 1,
                ),
            ),
        ensures
            r as int == grid_rect_sum(
                self.original(),
                topleft.0 as int,
                topleft.1 as int,
                bottomright.0 as int + 1,
                bottomright.1 as int + 1,
            ),
    {
        let ghost o = self.orig@;
        let ghost r0 = topleft.0 as int;
        let ghost c0 = topleft.1 as int;
        let ghost r1 = bottomright.0 as int + 1;
        let ghost c1 = bottomright.1 as int + 1;
        proof {
            lemma_rect_incl_excl(o, r0, c0, r1, c1);
            if r0 == 0 {
                lemma_rect_empty_rows(o, c1);
                lemma_rect_empty_rows(o, c0);
            }
            if c0 == 0 {
                lemma_rect_empty_cols(o, r1);
                lemma_rect_empty_cols(o, r0);
            }
            if r0 > 0 && c0 == 0 {
            }
        }
        let mut result = self.grid.get(bottomright);
        if topleft.0 > 0 && topleft.1 > 0 {
            result = result + self.grid.get((topleft.0 - 1, topleft.1 - 1));
        }
        if topleft.1 > 0 {
            result = result - self.grid.get((bottomright.0, topleft.1 - 1));
        }
        if topleft.0 > 0 {
            result = result - self.grid.get((topleft.0 - 1, bottomright.1));
        }
        result
    }
}

/// A rectangle with no rows sums to zero.
pub proof fn lemma_rect_empty_rows(g: Grid, c1: int)
    ensures
        grid_rect_sum(g, 0, 0, 0, c1) == 0,
{
}

/// A rectangle with no columns sums to zero.
pub proof fn lemma_rect_empty_cols(g: Grid, r1: int)
    ensures
        grid_rect_sum(g, 0, 0, r1, 0) == 0,
    decreases
        (if r1 > 0 { r1 } else { 0 }),
{
    if r1 > 0 {
        lemma_rect_empty_cols(g, r1 - 1);
    }
}

} // verus!
