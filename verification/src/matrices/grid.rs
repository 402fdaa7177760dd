//! The mathematical model of a matrix: a rectangular grid of integers, and
//! the definitions of the operations of linear algebra on it.

use vstd::prelude::*;
use crate::basics::{fits_i64, quotient};
use crate::matrices::solvable::Solvable;

verus! {

/// A sequence of machine integers read as mathematical integers.
pub open spec fn ints(s: Seq<i64>) -> Seq<int> {
    s.map_values(|x: i64| x as int)
}

/// A rectangular grid of integers, one inner sequence per row.
pub struct Grid {
    /// The number of cells in every row.
    pub columns: nat,
    /// The rows, from top to bottom.
    pub cells: Seq<Seq<int>>,
}

impl Grid {
    /// The number of rows.
    pub open spec fn rows(self) -> nat {
        self.cells.len()
    }

    /// Every row has exactly `columns` cells.
    pub open spec fn wf(self) -> bool {
        forall|r: int| 0 <= r < self.cells.len() ==> (#[trigger] self.cells[r]).len() == self.columns
    }

    /// The cell in row `r` and column `c`.
    pub open spec fn at(self, r: int, c: int) -> int {
        self.cells[r][c]
    }

    /// Whether `(r, c)` names a cell of the grid.
    pub open spec fn has(self, r: int, c: int) -> bool {
        0 <= r < self.rows() && 0 <= c < self.columns
    }

    /// The grid has as many rows as columns.
    pub open spec fn is_square(self) -> bool {
        self.rows() == self.columns
    }

    /// Every cell is representable as an `i64`.
    pub open spec fn fits(self) -> bool {
        forall|r: int, c: int| self.has(r, c) ==> fits_i64(#[trigger] self.at(r, c))
    }

    /// The grid laid out by a function of the cell position.
    pub open spec fn of(rows: nat, columns: nat, cell: spec_fn(int, int) -> int) -> Grid {
        Grid { columns, cells: Seq::new(rows, |r: int| Seq::new(columns, |c: int| cell(r, c))) }
    }

    /// The grid whose rows are consecutive stretches of `data`, each
    /// `columns` long.
    pub open spec fn from_flat(rows: nat, columns: nat, data: Seq<int>) -> Grid {
        Grid::of(rows, columns, |r: int, c: int| data[r * columns + c])
    }

    /// The grid of the given shape filled with zeros.
    pub open spec fn zeros(rows: nat, columns: nat) -> Grid {
        Grid::of(rows, columns, |r: int, c: int| 0int)
    }

    /// Row `r` as a sequence.
    pub open spec fn row(self, r: int) -> Seq<int> {
        self.cells[r]
    }

    /// Column `c` as a sequence, from top to bottom.
    pub open spec fn column(self, c: int) -> Seq<int> {
        Seq::new(self.rows(), |r: int| self.at(r, c))
    }

    /// The grid with `row` appended below the last row.
    pub open spec fn with_row(self, row: Seq<int>) -> Grid {
        Grid { columns: self.columns, cells: self.cells.push(row) }
    }

    /// The grid with `column` appended to the right of the last column.
    pub open spec fn with_column(self, column: Seq<int>) -> Grid {
        Grid {
            columns: self.columns + 1,
            cells: Seq::new(self.rows(), |r: int| self.cells[r].push(column[r])),
        }
    }

    /// The cell-by-cell sum of two grids of the same shape.
    pub open spec fn plus(self, other: Grid) -> Grid {
        Grid::of(self.rows(), self.columns, |r: int, c: int| self.at(r, c) + other.at(r, c))
    }

    /// The cell-by-cell difference of two grids of the same shape.
    pub open spec fn minus(self, other: Grid) -> Grid {
        Grid::of(self.rows(), self.columns, |r: int, c: int| self.at(r, c) - other.at(r, c))
    }

    /// The grid with every cell multiplied by `scalar`.
    pub open spec fn scaled(self, scalar: int) -> Grid {
        Grid::of(self.rows(), self.columns, |r: int, c: int| self.at(r, c) * scalar)
    }

    /// The matrix product: the cell at `(r, c)` is the scalar product of row
    /// `r` of `self` and column `c` of `other`.
    pub open spec fn times(self, other: Grid) -> Grid {
        Grid::of(
            self.rows(),
            other.columns,
            |r: int, c: int| dot(self.row(r), other.column(c)),
        )
    }

    /// Whether the scalar product for the cell `(r, c)` of the matrix
    /// product can be accumulated in `i64`.
    pub open spec fn times_cell_fits(self, other: Grid, r: int, c: int) -> bool {
        dot_fits(self.row(r), other.column(c))
    }

    /// Whether every cell of the matrix product can be accumulated in `i64`.
    pub open spec fn times_fits(self, other: Grid) -> bool {
        forall|r: int, c: int|
            0 <= r < self.rows() && 0 <= c < other.columns ==> #[trigger] self.times_cell_fits(
                other,
                r,
                c,
            )
    }

    /// The sum of the first `n` cells of the main diagonal.
    pub open spec fn trace_upto(self, n: nat) -> int
        decreases n,
    {
        if n == 0 {
            0
        } else {
            self.trace_upto((n - 1) as nat) + self.at(n - 1, n - 1)
        }
    }

    /// The sum of the cells of the main diagonal.
    pub open spec fn trace(self) -> int {
        self.trace_upto(self.rows())
    }

    /// Whether the trace can be accumulated in `i64`, cell after cell.
    pub open spec fn trace_fits(self) -> bool {
        forall|n: nat| n <= self.rows() ==> fits_i64(#[trigger] self.trace_upto(n))
    }

    /// The grid without row `row` and column `column`; the remaining rows
    /// and columns keep their order.
    pub open spec fn minor(self, row: int, column: int) -> Grid {
        Grid::of(
            (self.rows() - 1) as nat,
            (self.columns - 1) as nat,
            |r: int, c: int|
                self.at(if r < row { r } else { r + 1 }, if c < column { c } else { c + 1 }),
        )
    }

    /// The column that the diagonal starting at column `k` crosses in its
    /// `i`-th step: it moves one column to the right per step and returns
    /// to the first column after the last.
    pub open spec fn diagonal_column(self, k: int, i: int) -> int {
        (k + i) % (self.columns as int)
    }

    /// The product of the first `n` cells of the main diagonal that starts
    /// in the first row at column `k` and walks downwards.
    pub open spec fn main_diagonal_upto(self, k: int, n: nat) -> int
        decreases n,
    {
        if n == 0 {
            1
        } else {
            self.main_diagonal_upto(k, (n - 1) as nat) * self.at(
                n - 1,
                self.diagonal_column(k, n - 1),
            )
        }
    }

    /// The product of the cells of the main diagonal starting at column `k`.
    pub open spec fn main_diagonal(self, k: int) -> int {
        self.main_diagonal_upto(k, self.rows())
    }

    /// Whether the main diagonal product can be accumulated in `i64`.
    pub open spec fn main_diagonal_fits(self, k: int) -> bool {
        forall|n: nat| n <= self.rows() ==> fits_i64(#[trigger] self.main_diagonal_upto(k, n))
    }

    /// The product of the first `n` cells of the side diagonal that starts
    /// in the last row at column `k` and walks upwards.
    pub open spec fn side_diagonal_upto(self, k: int, n: nat) -> int
        decreases n,
    {
        if n == 0 {
            1
        } else {
            self.side_diagonal_upto(k, (n - 1) as nat) * self.at(
                self.rows() - n,
                self.diagonal_column(k, n - 1),
            )
        }
    }

    /// The product of the cells of the side diagonal starting at column `k`.
    pub open spec fn side_diagonal(self, k: int) -> int {
        self.side_diagonal_upto(k, self.rows())
    }

    /// Whether the side diagonal product can be accumulated in `i64`.
    pub open spec fn side_diagonal_fits(self, k: int) -> bool {
        forall|n: nat| n <= self.rows() ==> fits_i64(#[trigger] self.side_diagonal_upto(k, n))
    }

    /// The sum of the main diagonal products starting at the first `n`
    /// columns.
    pub open spec fn main_sum_upto(self, n: nat) -> int
        decreases n,
    {
        if n == 0 {
            0
        } else {
            self.main_sum_upto((n - 1) as nat) + self.main_diagonal(n - 1)
        }
    }

    /// The sum of the side diagonal products starting at the first `n`
    /// columns.
    pub open spec fn side_sum_upto(self, n: nat) -> int
        decreases n,
    {
        if n == 0 {
            0
        } else {
            self.side_sum_upto((n - 1) as nat) + self.side_diagonal(n - 1)
        }
    }

    /// The term that row `i` contributes to the expansion of the
    /// determinant along the last column.
    pub open spec fn laplace_term(self, i: int) -> int
        decreases self.rows(), 0nat, 0nat,
    {
        if self.rows() == 0 {
            0
        } else {
            self.at(i, self.columns - 1) * sign(i + self.columns - 1) * self.minor(
                i,
                self.columns - 1,
            ).determinant()
        }
    }

    /// The sum of the terms of the first `m` rows in the expansion of the
    /// determinant along the last column.
    pub open spec fn laplace_upto(self, m: nat) -> int
        decreases self.rows(), 1nat, m,
    {
        if m == 0 {
            0
        } else {
            self.laplace_upto((m - 1) as nat) + self.laplace_term(m - 1)
        }
    }

    /// The determinant of a square grid. A grid of one cell has that cell
    /// as its determinant; for two rows it is the main diagonal product
    /// minus the side diagonal product; for three rows the sum of the three
    /// main diagonal products minus the sum of the three side diagonal
    /// products; for four rows and more the expansion along the last
    /// column. The empty grid has the determinant 0.
    pub open spec fn determinant(self) -> int
        decreases self.rows(), 2nat, 0nat,
    {
        let n = self.rows();
        if n == 0 {
            0
        } else if n == 1 {
            self.at(0, 0)
        } else if n == 2 {
            self.main_diagonal(0) - self.side_diagonal(0)
        } else if n == 3 {
            self.main_sum_upto(3) - self.side_sum_upto(3)
        } else {
            self.laplace_upto(n)
        }
    }

    /// Whether the term of row `i` in the expansion along the last column,
    /// and the sum up to it, can be computed in `i64`.
    pub open spec fn laplace_step_fits(self, i: int) -> bool
        decreases self.rows(), 0nat, 0nat,
    {
        let a = self.at(i, self.columns - 1);
        let s = sign(i + self.columns - 1);
        let below = self.minor(i, self.columns - 1);
        self.rows() > 0 && below.determinant_fits() && fits_i64(a * s) && fits_i64(
            a * s * below.determinant(),
        ) && fits_i64(self.laplace_upto((i + 1) as nat))
    }

    /// Whether the terms of the first `m` rows in the expansion along the
    /// last column, and their sums, can be computed in `i64`.
    pub open spec fn laplace_fits_upto(self, m: nat) -> bool
        decreases self.rows(), 1nat, m,
    {
        if m == 0 {
            true
        } else {
            self.laplace_fits_upto((m - 1) as nat) && self.laplace_step_fits(m - 1)
        }
    }

    /// Whether the determinant can be computed in `i64`: every product,
    /// sum and difference formed on the way is representable.
    pub open spec fn determinant_fits(self) -> bool
        decreases self.rows(), 2nat, 0nat,
    {
        let n = self.rows();
        if n <= 1 {
            true
        } else if n == 2 {
            self.main_diagonal_fits(0) && self.side_diagonal_fits(0) && fits_i64(
                self.determinant(),
            )
        } else if n == 3 {
            &&& forall|k: int|
                0 <= k < 3 ==> #[trigger] self.main_diagonal_fits(k) && self.side_diagonal_fits(k)
            &&& forall|m: nat|
                m <= 3 ==> fits_i64(#[trigger] self.main_sum_upto(m)) && fits_i64(
                    self.side_sum_upto(m),
                )
            &&& fits_i64(self.determinant())
        } else {
            self.laplace_fits_upto(n)
        }
    }

    /// The cofactor of the cell `(i, k)`: the determinant of the grid
    /// without row `i` and column `k`, with the sign `(-1)^(i+k)`.
    pub open spec fn cofactor(self, i: int, k: int) -> int {
        self.minor(i, k).determinant() * sign(i + k)
    }

    /// The inverse by the adjugate method: the cell `(r, c)` is the
    /// cofactor of `(c, r)` divided by the determinant. The division
    /// truncates, so the result is the exact inverse only where the
    /// determinant divides every cofactor evenly.
    pub open spec fn inverse(self) -> Grid {
        Grid::of(
            self.rows(),
            self.columns,
            |r: int, c: int| quotient(self.cofactor(c, r), self.determinant()),
        )
    }

    /// Whether the cofactor of `(i, k)` and its quotient by the determinant
    /// can be computed in `i64`.
    pub open spec fn inverse_cell_fits(self, i: int, k: int) -> bool {
        &&& self.minor(i, k).determinant_fits()
        &&& fits_i64(self.cofactor(i, k))
        &&& fits_i64(quotient(self.cofactor(i, k), self.determinant()))
    }

    /// Whether every cell of the inverse can be computed in `i64`.
    pub open spec fn inverse_fits(self) -> bool {
        forall|i: int, k: int| self.has(i, k) ==> #[trigger] self.inverse_cell_fits(i, k)
    }

    /// The square window of `p` rows and columns whose top left cell is
    /// the cell `(i, k)` of the grid.
    pub open spec fn window(self, i: int, k: int, p: nat) -> Grid {
        Grid::of(p, p, |r: int, c: int| self.at(i + r, k + c))
    }

    /// The size of the largest square window that fits into the grid.
    pub open spec fn largest_window(self) -> nat {
        if self.rows() <= self.columns {
            self.rows()
        } else {
            self.columns
        }
    }

    /// Whether the window of size `p` at `(i, k)` lies inside the grid.
    pub open spec fn window_inside(self, p: int, i: int, k: int) -> bool {
        &&& 1 <= p <= self.largest_window()
        &&& 0 <= i <= self.rows() - p
        &&& 0 <= k <= self.columns - p
    }

    /// Whether the window of size `p` at `(i, k)` lies inside the grid and
    /// has a nonzero determinant.
    pub open spec fn regular_window(self, p: int, i: int, k: int) -> bool {
        self.window_inside(p, i, k) && self.window(i, k, p as nat).determinant() != 0
    }

    /// Whether some window of size `p` has a nonzero determinant.
    pub open spec fn has_regular_window(self, p: int) -> bool {
        exists|i: int, k: int| #[trigger] self.regular_window(p, i, k)
    }

    /// The largest size up to `p` of a window with a nonzero determinant,
    /// if there is one.
    pub open spec fn rank_below(self, p: nat) -> Option<nat>
        decreases p,
    {
        if p == 0 {
            None
        } else if self.has_regular_window(p as int) {
            Some(p)
        } else {
            self.rank_below((p - 1) as nat)
        }
    }

    /// The rank: the size of the largest square window with a nonzero
    /// determinant. A grid without such a window has no rank.
    pub open spec fn rank(self) -> Option<nat> {
        self.rank_below(self.largest_window())
    }

    /// Whether the search for the rank looks at the window of size `q` at
    /// `(a, b)` before the window of size `p` at `(i, k)`: larger windows
    /// come first, and windows of one size in reading order.
    pub open spec fn searched_before(self, q: int, a: int, b: int, p: int, i: int, k: int) -> bool {
        self.window_inside(q, a, b) && (q > p || (q == p && (a < i || (a == i && b < k))))
    }

    /// Whether every window searched before the window of size `p` at
    /// `(i, k)` has the determinant zero.
    pub open spec fn all_singular_before(self, p: int, i: int, k: int) -> bool {
        forall|q: int, a: int, b: int|
            self.searched_before(q, a, b, p, i, k) ==> !#[trigger] self.regular_window(q, a, b)
    }

    /// Whether the search for the rank gets as far as the window of size
    /// `p` at `(i, k)`.
    pub open spec fn window_reached(self, p: int, i: int, k: int) -> bool {
        self.window_inside(p, i, k) && self.all_singular_before(p, i, k)
    }

    /// Whether the determinant of every window that the search for the
    /// rank gets to can be computed in `i64`.
    pub open spec fn rank_fits(self) -> bool {
        forall|p: int, i: int, k: int| #[trigger]
            self.window_reached(p, i, k) ==> self.window(i, k, p as nat).determinant_fits()
    }

    /// How many solutions the linear system with the coefficients `self`
    /// and the constants `c` has. A system that is not square is decided by
    /// the ranks of the coefficients and of the coefficients augmented by
    /// the constants: different ranks mean no solution, equal ranks one
    /// solution if the rank is the number of columns and infinitely many
    /// otherwise. A square system has one solution if its determinant is
    /// not zero; otherwise equal ranks, or two missing ranks, mean
    /// infinitely many solutions, and different ranks none.
    pub open spec fn solvability(self, c: Seq<int>) -> Solvable {
        let augmented = self.with_column(c);
        if !self.is_square() {
            if self.rank() == augmented.rank() {
                if self.rank() == Some(self.columns) {
                    Solvable::OneSolution
                } else {
                    Solvable::InfiniteSolutions
                }
            } else {
                Solvable::NoSolution
            }
        } else if self.determinant() != 0 {
            Solvable::OneSolution
        } else if self.rank() == augmented.rank() {
            Solvable::InfiniteSolutions
        } else {
            Solvable::NoSolution
        }
    }

    /// Whether the determinants that decide the solvability can be
    /// computed in `i64`.
    pub open spec fn solvability_fits(self, c: Seq<int>) -> bool {
        let augmented = self.with_column(c);
        if !self.is_square() {
            self.rank_fits() && augmented.rank_fits()
        } else {
            self.determinant_fits() && (self.determinant() == 0 ==> self.rank_fits()
                && augmented.rank_fits())
        }
    }

    /// The first row from row `i` on that is not among `chosen` and has a
    /// nonzero cell in column `k`, if there is one.
    pub open spec fn first_pivot_from(self, k: int, chosen: Seq<int>, i: nat) -> Option<int>
        decreases self.rows() - i,
    {
        if i >= self.rows() {
            None
        } else if self.at(i as int, k) != 0 && !chosen.contains(i as int) {
            Some(i as int)
        } else {
            self.first_pivot_from(k, chosen, i + 1)
        }
    }

    /// The rows picked for the first `k` columns, in the order of the
    /// columns: each column picks the first row not picked before that has
    /// a nonzero cell in it, and picks none if there is no such row.
    pub open spec fn pivot_order_upto(self, k: nat) -> Seq<int>
        decreases k,
    {
        if k == 0 {
            Seq::empty()
        } else {
            let before = self.pivot_order_upto((k - 1) as nat);
            match self.first_pivot_from(k - 1, before, 0) {
                Some(i) => before.push(i),
                None => before,
            }
        }
    }

    /// The rows picked for all the columns.
    pub open spec fn pivot_order(self) -> Seq<int> {
        self.pivot_order_upto(self.columns)
    }

    /// Whether `rows` and `constants` are the rows of the grid and the
    /// elements of `c` picked by `order`, in that order.
    pub open spec fn picked(
        self,
        c: Seq<int>,
        order: Seq<int>,
        rows: Seq<Seq<int>>,
        constants: Seq<int>,
    ) -> bool {
        &&& rows.len() == order.len()
        &&& constants.len() == order.len()
        &&& forall|j: int|
            0 <= j < order.len() ==> 0 <= #[trigger] order[j] < self.rows() && rows[j] == self.row(
                order[j],
            ) && constants[j] == c[order[j]]
    }

    /// The grid with the cell at `(r, c)` replaced by `value`.
    pub open spec fn with_cell(self, r: int, c: int, value: int) -> Grid {
        Grid { columns: self.columns, cells: self.cells.update(r, self.cells[r].update(c, value)) }
    }
}

/// The sign `(-1)^e`.
pub open spec fn sign(e: int) -> int {
    if e % 2 == 0 {
        1
    } else {
        -1
    }
}

/// The product of the elements of `a` and `b` at index `n`.
pub open spec fn dot_term(a: Seq<int>, b: Seq<int>, n: int) -> int {
    a[n] * b[n]
}

/// The sum of the products of the first `n` pairs of elements of `a` and `b`.
pub open spec fn dot_upto(a: Seq<int>, b: Seq<int>, n: nat) -> int
    decreases n,
{
    if n == 0 {
        0
    } else {
        dot_upto(a, b, (n - 1) as nat) + dot_term(a, b, n - 1)
    }
}

/// The scalar product of `a` with the elements of `b` at the same indices.
pub open spec fn dot(a: Seq<int>, b: Seq<int>) -> int {
    dot_upto(a, b, a.len())
}

/// Whether the scalar product can be accumulated in `i64`: every product
/// and every partial sum is representable.
pub open spec fn dot_fits(a: Seq<int>, b: Seq<int>) -> bool {
    &&& forall|n: int| 0 <= n < a.len() ==> fits_i64(#[trigger] dot_term(a, b, n))
    &&& forall|n: nat| n <= a.len() ==> fits_i64(#[trigger] dot_upto(a, b, n))
}

/// When the first `m` steps of an expansion can be computed, so can each
/// single one of them.
pub proof fn lemma_expansion_step_fits(g: Grid, m: nat, i: int)
    requires
        g.laplace_fits_upto(m),
        0 <= i < m,
    ensures
        g.laplace_step_fits(i),
    decreases m,
{
    if i < m - 1 {
        lemma_expansion_step_fits(g, (m - 1) as nat, i);
    }
}

/// Reading the cell `(p, q)` of the grid built from `data` yields the
/// element of `data` at the position `p * columns + q`.
pub proof fn law_cell_of_built_grid(rows: nat, columns: nat, data: Seq<int>, p: int, q: int)
    requires
        data.len() == rows * columns,
        0 <= p < rows,
        0 <= q < columns,
    ensures
        0 <= p * columns + q < data.len(),
        Grid::from_flat(rows, columns, data).at(p, q) == data[p * columns + q],
        Grid::from_flat(rows, columns, data).wf(),
        Grid::from_flat(rows, columns, data).rows() == rows,
{
    lemma_cell_position(p, q, rows as int, columns as int);
}

/// The first window with a nonzero determinant that the search finds
/// decides the rank.
pub proof fn lemma_rank_found(g: Grid, top: nat, p: int, i: int, k: int)
    requires
        g.regular_window(p, i, k),
        g.all_singular_before(p, i, k),
        p <= top,
    ensures
        g.rank_below(top) == Some(p as nat),
    decreases top,
{
    if top > p {
        assert forall|a: int, b: int| !#[trigger] g.regular_window(top as int, a, b) by {
            if g.regular_window(top as int, a, b) {
                assert(g.searched_before(top as int, a, b, p, i, k));
            }
        }
        lemma_rank_found(g, (top - 1) as nat, p, i, k);
    }
}

/// When the search finds no window with a nonzero determinant, there is no
/// rank.
pub proof fn lemma_rank_missing(g: Grid, top: nat)
    requires
        g.all_singular_before(0, 0, 0),
    ensures
        g.rank_below(top) is None,
    decreases top,
{
    if top > 0 {
        assert forall|a: int, b: int| !#[trigger] g.regular_window(top as int, a, b) by {
            if g.regular_window(top as int, a, b) {
                assert(g.searched_before(top as int, a, b, 0, 0, 0));
            }
        }
        lemma_rank_missing(g, (top - 1) as nat);
    }
}

/// A sequence of indices read as mathematical integers.
pub open spec fn indices(s: Seq<usize>) -> Seq<int> {
    s.map_values(|x: usize| x as int)
}

/// A sequence of vectors of machine integers read as sequences of
/// mathematical integers.
pub open spec fn int_rows(s: Seq<Vec<i64>>) -> Seq<Seq<int>> {
    s.map_values(|v: Vec<i64>| ints(v@))
}

/// The position of cell `(r, c)` in the row-major layout of a grid with
/// `columns` columns lies inside the layout of its first `rows` rows.
pub proof fn lemma_cell_position(r: int, c: int, rows: int, columns: int)
    requires
        0 <= r < rows,
        0 <= c < columns,
    ensures
        0 <= r * columns + c < rows * columns,
        0 <= r * columns,
        r * columns == columns * r,
{
    assert(0 <= r * columns) by (nonlinear_arith)
        requires
            0 <= r,
            0 <= columns,
    ;
    assert((r + 1) * columns <= rows * columns) by (nonlinear_arith)
        requires
            r + 1 <= rows,
            0 <= columns,
    ;
    assert((r + 1) * columns == r * columns + columns) by (nonlinear_arith);
    assert(r * columns == columns * r) by (nonlinear_arith);
}

/// In the row-major layout, a cell that comes before `(r, c)` in reading
/// order also has a smaller position.
pub proof fn lemma_earlier_position(a: int, b: int, r: int, c: int, columns: int)
    requires
        0 <= a,
        0 <= b < columns,
        0 <= c,
        a < r || (a == r && b < c),
    ensures
        0 <= a * columns + b < r * columns + c,
{
    assert(0 <= a * columns) by (nonlinear_arith)
        requires
            0 <= a,
            0 <= columns,
    ;
    if a < r {
        assert((a + 1) * columns <= r * columns) by (nonlinear_arith)
            requires
                a + 1 <= r,
                0 <= columns,
        ;
        assert((a + 1) * columns == a * columns + columns) by (nonlinear_arith);
    }
}

/// Two cells of a grid share a position in the row-major layout only if
/// they are the same cell.
pub proof fn lemma_position_unique(a: int, b: int, r: int, c: int, columns: int)
    requires
        0 <= a,
        0 <= r,
        0 <= b < columns,
        0 <= c < columns,
        a * columns + b == r * columns + c,
    ensures
        a == r,
        b == c,
{
    if a < r {
        lemma_earlier_position(a, b, r, 0, columns);
    } else if r < a {
        lemma_earlier_position(r, c, a, 0, columns);
    }
}

/// `data` holds, in reading order, the cells of `g` that come before
/// `(r, c)`.
pub open spec fn filled(data: Seq<i64>, g: Grid, r: int, c: int) -> bool {
    &&& data.len() == r * g.columns + c
    &&& forall|a: int, b: int|
        0 <= a && 0 <= b < g.columns && (a < r || (a == r && b < c)) ==> data[a * g.columns + b] as int
            == #[trigger] g.at(a, b)
}

/// Appending the cell at `(r, c)` extends the filled part by one cell.
pub proof fn lemma_fill_cell(data: Seq<i64>, g: Grid, r: int, c: int, v: i64)
    requires
        filled(data, g, r, c),
        0 <= r,
        0 <= c < g.columns,
        v as int == g.at(r, c),
    ensures
        filled(data.push(v), g, r, c + 1),
{
    let next = data.push(v);
    assert forall|a: int, b: int|
        0 <= a && 0 <= b < g.columns && (a < r || (a == r && b < c + 1)) implies next[a * g.columns
        + b] as int == #[trigger] g.at(a, b) by {
        if a == r && b == c {
        } else {
            lemma_earlier_position(a, b, r, c, g.columns as int);
        }
    }
}

/// A row filled to its end is the same as the next row not yet begun.
pub proof fn lemma_fill_row(data: Seq<i64>, g: Grid, r: int)
    requires
        filled(data, g, r, g.columns as int),
    ensures
        filled(data, g, r + 1, 0),
{
    assert((r + 1) * g.columns == r * g.columns + g.columns) by (nonlinear_arith);
}

/// Nothing at all is filled before the first cell.
pub proof fn lemma_fill_start(g: Grid)
    ensures
        filled(Seq::<i64>::empty(), g, 0, 0),
{
    assert(0 * g.columns + 0 == 0) by (nonlinear_arith);
}

} // verus!
