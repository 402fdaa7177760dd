//! Diagonal products, minors, the determinant and the inverse.

use vstd::prelude::*;
use vstd::arithmetic::div_mod::{lemma_fundamental_div_mod, lemma_fundamental_div_mod_converse};
use crate::basics::{fits_i64, lemma_unit_power, pow, truncating_quotient};
use crate::error::MatholError;
use crate::identities::{one, zero};
use crate::matrices::grid::{
    filled, lemma_expansion_step_fits, lemma_fill_cell, lemma_fill_row, lemma_fill_start, sign,
};
use crate::matrices::matrice::Matrice;

verus! {

/// Moving one step along a diagonal either advances to the next column or,
/// after the last column, returns to the first.
pub proof fn lemma_diagonal_step(x: int, columns: int)
    requires
        0 <= x,
        0 < columns,
    ensures
        0 <= x % columns < columns,
        (x + 1) % columns == (if x % columns + 1 == columns {
            0
        } else {
            x % columns + 1
        }),
{
    lemma_fundamental_div_mod(x, columns);
    let q = x / columns;
    let r = x % columns;
    if r + 1 == columns {
        assert(x + 1 == (q + 1) * columns + 0) by (nonlinear_arith)
            requires
                x == columns * q + r,
                r + 1 == columns,
        ;
        lemma_fundamental_div_mod_converse(x + 1, columns, q + 1, 0);
    } else {
        assert(x + 1 == q * columns + (r + 1)) by (nonlinear_arith)
            requires
                x == columns * q + r,
        ;
        lemma_fundamental_div_mod_converse(x + 1, columns, q, r + 1);
    }
}

/// Returns `(-1)^e`, computed as a power.
pub fn alternating_sign(e: usize) -> (s: i64)
    ensures
        s == sign(e as int),
{
    proof {
        lemma_unit_power(-1, e as nat);
    }
    pow(-1, e as u64)
}

impl Matrice {
    /// Returns the product of the cells on the main diagonal that starts in
    /// the first row at `column` and walks downwards, returning to the
    /// first column after the last. Fails when `column` lies outside the
    /// matrix.
    pub fn get_main_diagonal_product(&self, column: usize) -> (r: Result<i64, MatholError>)
        requires
            self.wf(),
            column < self.columns ==> self@.main_diagonal_fits(column as int),
        ensures
            match r {
                Ok(p) => column < self.columns && p == self@.main_diagonal(column as int),
                Err(e) => column >= self.columns && e.is_out_of_bounds("Column is out of bounds"@),
            },
    {
        if column >= self.columns {
            return Err(MatholError::out_of_bounds("Column is out of bounds"));
        }
        let mut walker = column;
        let mut prod = one();
        let mut i: usize = 0;
        proof {
            lemma_diagonal_step(column as int, self.columns as int);
            vstd::arithmetic::div_mod::lemma_small_mod(column as nat, self.columns as nat);
        }
        while i < self.rows
            invariant
                self.wf(),
                column < self.columns,
                self@.main_diagonal_fits(column as int),
                i <= self.rows,
                walker <= self.columns,
                self@.diagonal_column(column as int, i as int) == (if walker >= self.columns {
                    0
                } else {
                    walker as int
                }),
                prod == self@.main_diagonal_upto(column as int, i as nat),
            decreases self.rows - i,
        {
            if walker >= self.columns {
                walker = 0;
            }
            let v = self.cell(i, walker);
            proof {
                assert(fits_i64(self@.main_diagonal_upto(column as int, (i + 1) as nat)));
                lemma_diagonal_step(column + i, self.columns as int);
            }
            prod = prod * v;
            walker += 1;
            i += 1;
        }
        Ok(prod)
    }

    /// Returns the product of the cells on the side diagonal that starts in
    /// the last row at `column` and walks upwards, returning to the first
    /// column after the last. Fails when `column` lies outside the matrix.
    pub fn get_side_diagonal_product(&self, column: usize) -> (r: Result<i64, MatholError>)
        requires
            self.wf(),
            column < self.columns ==> self@.side_diagonal_fits(column as int),
        ensures
            match r {
                Ok(p) => column < self.columns && p == self@.side_diagonal(column as int),
                Err(e) => column >= self.columns && e.is_out_of_bounds("Column is out of bounds"@),
            },
    {
        if column >= self.columns {
            return Err(MatholError::out_of_bounds("Column is out of bounds"));
        }
        let mut walker = column;
        let mut prod = one();
        let mut i: usize = 0;
        proof {
            lemma_diagonal_step(column as int, self.columns as int);
            vstd::arithmetic::div_mod::lemma_small_mod(column as nat, self.columns as nat);
        }
        while i < self.rows
            invariant
                self.wf(),
                column < self.columns,
                self@.side_diagonal_fits(column as int),
                i <= self.rows,
                walker <= self.columns,
                self@.diagonal_column(column as int, i as int) == (if walker >= self.columns {
                    0
                } else {
                    walker as int
                }),
                prod == self@.side_diagonal_upto(column as int, i as nat),
            decreases self.rows - i,
        {
            if walker >= self.columns {
                walker = 0;
            }
            let v = self.cell(self.rows - 1 - i, walker);
            proof {
                assert(fits_i64(self@.side_diagonal_upto(column as int, (i + 1) as nat)));
                lemma_diagonal_step(column + i, self.columns as int);
            }
            prod = prod * v;
            walker += 1;
            i += 1;
        }
        Ok(prod)
    }

    /// Returns the matrix without row `row` and column `column`; the
    /// remaining rows and columns keep their order.
    pub fn get_submatrice(&self, row: usize, column: usize) -> (m: Matrice)
        requires
            self.wf(),
            row < self.rows,
            column < self.columns,
        ensures
            m.wf(),
            m.rows == self.rows - 1,
            m.columns == self.columns - 1,
            m@ == self@.minor(row as int, column as int),
    {
        let ghost g = self@.minor(row as int, column as int);
        let mut data: Vec<i64> = Vec::new();
        let mut i: usize = 0;
        proof {
            lemma_fill_start(g);
        }
        while i < self.rows
            invariant
                self.wf(),
                row < self.rows,
                column < self.columns,
                g == self@.minor(row as int, column as int),
                i <= self.rows,
                filled(data@, g, if i <= row { i as int } else { i - 1 }, 0),
            decreases self.rows - i,
        {
            if i != row {
                let ghost above = if i < row { i as int } else { i - 1 };
                let mut k: usize = 0;
                while k < self.columns
                    invariant
                        self.wf(),
                        row < self.rows,
                        column < self.columns,
                        g == self@.minor(row as int, column as int),
                        i < self.rows,
                        i != row,
                        above == (if i < row { i as int } else { i - 1 }),
                        k <= self.columns,
                        filled(data@, g, above, if k <= column { k as int } else { k - 1 }),
                    decreases self.columns - k,
                {
                    if k != column {
                        let v = self.cell(i, k);
                        proof {
                            let left = if k < column { k as int } else { k - 1 };
                            assert(g.at(above, left) == self@.at(i as int, k as int));
                            lemma_fill_cell(data@, g, above, left, v);
                        }
                        data.push(v);
                    }
                    k += 1;
                }
                proof {
                    lemma_fill_row(data@, g, above);
                }
            }
            i += 1;
        }
        let m = Matrice { rows: self.rows - 1, columns: self.columns - 1, data };
        proof {
            m.lemma_view_of_filled(g);
        }
        m
    }

    /// Returns the matrix without row `row` and column `column`, as
    /// `get_submatrice` does. Fails when the row, or else the column, lies
    /// outside the matrix.
    pub fn checked_submatrice(&self, row: usize, column: usize) -> (r: Result<Matrice, MatholError>)
        requires
            self.wf(),
        ensures
            match r {
                Ok(m) => row < self.rows && column < self.columns && m.wf() && m.rows == self.rows
                    - 1 && m.columns == self.columns - 1 && m@ == self@.minor(
                    row as int,
                    column as int,
                ),
                Err(e) => if row >= self.rows {
                    e.is_out_of_bounds("Row is out of bounds"@)
                } else {
                    column >= self.columns && e.is_out_of_bounds("Column is out of bounds"@)
                },
            },
    {
        if row >= self.rows {
            return Err(MatholError::out_of_bounds("Row is out of bounds"));
        }
        if column >= self.columns {
            return Err(MatholError::out_of_bounds("Column is out of bounds"));
        }
        Ok(self.get_submatrice(row, column))
    }

    /// Returns the determinant. Fails when the matrix is not square.
    pub fn get_determinant(&self) -> (r: Result<i64, MatholError>)
        requires
            self.wf(),
            self.rows == self.columns ==> self@.determinant_fits(),
        ensures
            match r {
                Ok(d) => self.rows == self.columns && d == self@.determinant(),
                Err(e) => self.rows != self.columns && e.is_matrice("The matrice is not quadratic"@),
            },
        decreases self.rows,
    {
        if self.rows != self.columns {
            return Err(MatholError::matrice("The matrice is not quadratic"));
        }
        if self.rows == 0 {
            return Ok(zero());
        }
        if self.rows == 1 {
            return Ok(self.cell(0, 0));
        }
        if self.rows == 2 {
            let main = self.get_main_diagonal_product(0).unwrap();
            let side = self.get_side_diagonal_product(0).unwrap();
            return Ok(main - side);
        }
        if self.rows == 3 {
            let mut m = zero();
            let mut s = zero();
            let mut i: usize = 0;
            while i < self.columns
                invariant
                    self.wf(),
                    self.rows == 3,
                    self.columns == 3,
                    self@.determinant_fits(),
                    i <= 3,
                    m == self@.main_sum_upto(i as nat),
                    s == self@.side_sum_upto(i as nat),
                decreases 3 - i,
            {
                proof {
                    assert(self@.main_diagonal_fits(i as int));
                    assert(fits_i64(self@.main_sum_upto((i + 1) as nat)));
                }
                m = m + self.get_main_diagonal_product(i).unwrap();
                s = s + self.get_side_diagonal_product(i).unwrap();
                i += 1;
            }
            return Ok(m - s);
        }
        let n = self.columns;
        let length = self.data.len();
        proof {
            assert(2 * n <= n * n) by (nonlinear_arith)
                requires
                    n >= 2,
            ;
        }
        let mut sum = zero();
        let mut i: usize = 0;
        while i < n
            invariant
                self.wf(),
                self.rows == n,
                self.columns == n,
                n >= 4,
                2 * n <= usize::MAX,
                self@.determinant_fits(),
                i <= n,
                sum == self@.laplace_upto(i as nat),
            decreases n - i,
        {
            proof {
                self.lemma_view();
                lemma_expansion_step_fits(self@, n as nat, i as int);
                assert(self@.laplace_step_fits(i as int));
            }
            let a = self.cell(i, n - 1);
            let s = alternating_sign(i + n - 1);
            let below = self.get_submatrice(i, n - 1);
            let d = below.get_determinant().unwrap();
            proof {
                assert(self@.laplace_term(i as int) == a * s * d);
                assert(self@.laplace_upto((i + 1) as nat) == sum + self@.laplace_term(i as int));
            }
            sum = sum + a * s * d;
            i += 1;
        }
        Ok(sum)
    }

    /// Returns the inverse, computed by the adjugate method: the cell
    /// `(r, c)` of the result is the cofactor of `(c, r)` divided by the
    /// determinant. The division truncates: over the integers the result is
    /// the exact inverse only where the determinant divides every cofactor
    /// evenly. Fails when the matrix is not square, or else when its
    /// determinant is zero.
    pub fn get_inverse_matrice(&self) -> (r: Result<Matrice, MatholError>)
        requires
            self.wf(),
            self.rows == self.columns ==> self@.determinant_fits(),
            self.rows == self.columns && self@.determinant() != 0 ==> self@.inverse_fits(),
        ensures
            match r {
                Ok(m) => self.rows == self.columns && self@.determinant() != 0 && m.wf() && m.rows
                    == self.rows && m.columns == self.columns && m@ == self@.inverse(),
                Err(e) => if self.rows != self.columns {
                    e.is_matrice("The matrice is not quadratic"@)
                } else {
                    self@.determinant() == 0 && e.is_matrice("The matrice is singular"@)
                },
            },
    {
        if self.rows != self.columns {
            return Err(MatholError::matrice("The matrice is not quadratic"));
        }
        let det = self.get_determinant().unwrap();
        if det == zero() {
            return Err(MatholError::matrice("The matrice is singular"));
        }
        let n = self.rows;
        let length = self.data.len();
        proof {
            self.lemma_view();
            if n >= 2 {
                assert(2 * n <= n * n) by (nonlinear_arith)
                    requires
                        n >= 2,
                ;
            }
        }
        let ghost g = self@.inverse();
        let mut data: Vec<i64> = Vec::new();
        let mut k: usize = 0;
        proof {
            lemma_fill_start(g);
        }
        while k < n
            invariant
                self.wf(),
                self.rows == n,
                self.columns == n,
                2 * n <= usize::MAX || n == 1,
                det == self@.determinant(),
                det != 0,
                self@.inverse_fits(),
                g == self@.inverse(),
                k <= n,
                filled(data@, g, k as int, 0),
            decreases n - k,
        {
            let mut i: usize = 0;
            while i < n
                invariant
                    self.wf(),
                    self.rows == n,
                    self.columns == n,
                    2 * n <= usize::MAX || n == 1,
                    det == self@.determinant(),
                    det != 0,
                    self@.inverse_fits(),
                    g == self@.inverse(),
                    k < n,
                    i <= n,
                    filled(data@, g, k as int, i as int),
                decreases n - i,
            {
                proof {
                    self.lemma_view();
                    assert(self@.inverse_cell_fits(i as int, k as int));
                }
                let minor = self.get_submatrice(i, k).get_determinant().unwrap();
                let cofactor = minor * alternating_sign(i + k);
                let v = truncating_quotient(cofactor, det);
                proof {
                    assert(g.at(k as int, i as int) == v);
                    lemma_fill_cell(data@, g, k as int, i as int, v);
                }
                data.push(v);
                i += 1;
            }
            proof {
                lemma_fill_row(data@, g, k as int);
            }
            k += 1;
        }
        let m = Matrice { rows: n, columns: n, data };
        proof {
            m.lemma_view_of_filled(g);
        }
        Ok(m)
    }
}

} // verus!
