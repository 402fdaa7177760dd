//! The matrix type: a row-major buffer of `i64` with its dimensions.

use vstd::prelude::*;
use crate::basics::fits_i64;
use crate::error::{length_text, MatholError};
use crate::identities::zero;
use crate::matrices::grid::{
    dot, dot_fits, filled, ints, lemma_cell_position, lemma_fill_cell, lemma_fill_row,
    lemma_fill_start, lemma_position_unique, Grid,
};
use crate::matrices::vector_help::get_scalar_product_of_vectors;

verus! {

/// A dense matrix of `i64` stored row by row.
#[derive(Clone, Debug, PartialEq)]
pub struct Matrice {
    /// Number of rows.
    pub rows: usize,
    /// Number of columns.
    pub columns: usize,
    /// The cells, row after row.
    pub data: Vec<i64>,
}

impl View for Matrice {
    type V = Grid;

    open spec fn view(&self) -> Grid {
        Grid::from_flat(self.rows as nat, self.columns as nat, ints(self.data@))
    }
}

impl Matrice {
    /// The buffer holds exactly `rows * columns` cells.
    pub open spec fn wf(&self) -> bool {
        self.data@.len() == self.rows * self.columns
    }

    /// The view of a well-formed matrix is a well-formed grid of
    /// representable cells, and its cells are those of the buffer.
    pub proof fn lemma_view(&self)
        requires
            self.wf(),
        ensures
            self@.wf(),
            self@.fits(),
            self@.rows() == self.rows,
            self@.columns == self.columns,
            filled(self.data@, self@, self.rows as int, 0),
    {
        assert forall|r: int, c: int| self@.has(r, c) implies 0 <= r * self.columns + c
            < self.data@.len() && (#[trigger] self@.at(r, c)) == self.data@[r * self.columns + c] by {
            lemma_cell_position(r, c, self.rows as int, self.columns as int);
            let i = r * self.columns + c;
            assert(ints(self.data@)[i] == self.data@[i] as int);
            assert(self@.cells[r][c] == ints(self.data@)[i]);
        };
        assert(self.rows * self.columns + 0 == self.data@.len());
    }

    /// A matrix whose buffer holds the cells of `g` in reading order has
    /// `g` as its view.
    pub proof fn lemma_view_of_filled(&self, g: Grid)
        requires
            g.wf(),
            g.rows() == self.rows,
            g.columns == self.columns,
            filled(self.data@, g, self.rows as int, 0),
        ensures
            self.wf(),
            self@ == g,
    {
        assert forall|r: int| 0 <= r < self.rows implies #[trigger] self@.cells[r] == g.cells[r] by {
            assert forall|c: int| 0 <= c < self.columns implies self@.cells[r][c] == g.cells[r][c] by {
                lemma_cell_position(r, c, self.rows as int, self.columns as int);
                assert(self.data@[r * self.columns + c] as int == g.at(r, c));
            }
            assert(self@.cells[r] =~= g.cells[r]);
        }
        assert(self@.cells =~= g.cells);
    }

    /// Reads the cell at a position known to lie inside the matrix.
    pub(crate) fn cell(&self, row: usize, column: usize) -> (v: i64)
        requires
            self.wf(),
            row < self.rows,
            column < self.columns,
        ensures
            v as int == self@.at(row as int, column as int),
            v == self.data@[row * self.columns + column],
    {
        proof {
            lemma_cell_position(row as int, column as int, self.rows as int, self.columns as int);
        }
        let length = self.data.len();
        assert(self.columns * row + column < length);
        self.data[self.columns * row + column]
    }

    /// Builds the `rows` by `columns` matrix whose every cell is zero.
    pub fn build_empty_matrice(rows: usize, columns: usize) -> (m: Matrice)
        ensures
            m.wf(),
            m.rows == rows,
            m.columns == columns,
            m@ == Grid::zeros(rows as nat, columns as nat),
            forall|i: int| 0 <= i < m.data@.len() ==> m.data@[i] == 0,
    {
        let ghost g = Grid::zeros(rows as nat, columns as nat);
        let mut data: Vec<i64> = Vec::new();
        let mut r: usize = 0;
        proof {
            lemma_fill_start(g);
        }
        while r < rows
            invariant
                r <= rows,
                g == Grid::zeros(rows as nat, columns as nat),
                filled(data@, g, r as int, 0),
                forall|i: int| 0 <= i < data@.len() ==> data@[i] == 0,
            decreases rows - r,
        {
            let mut c: usize = 0;
            while c < columns
                invariant
                    r < rows,
                    c <= columns,
                    g == Grid::zeros(rows as nat, columns as nat),
                    filled(data@, g, r as int, c as int),
                    forall|i: int| 0 <= i < data@.len() ==> data@[i] == 0,
                decreases columns - c,
            {
                let z = zero();
                proof {
                    lemma_fill_cell(data@, g, r as int, c as int, z);
                }
                data.push(z);
                c += 1;
            }
            proof {
                lemma_fill_row(data@, g, r as int);
            }
            r += 1;
        }
        let m = Matrice { rows, columns, data };
        proof {
            m.lemma_view_of_filled(g);
        }
        m
    }

    /// Builds the `rows` by `columns` matrix whose cells are `data`, read
    /// row by row. Fails when `data` does not hold exactly
    /// `rows * columns` elements.
    pub fn build_matrice(rows: usize, columns: usize, data: Vec<i64>) -> (r: Result<
        Matrice,
        MatholError,
    >)
        ensures
            match r {
                Ok(m) => data@.len() == rows * columns && m.wf() && m.rows == rows && m.columns
                    == columns && m.data@ == data@ && m@ == Grid::from_flat(
                    rows as nat,
                    columns as nat,
                    ints(data@),
                ),
                Err(e) => data@.len() != rows * columns && e.is_matrice(
                    "Vector is not the same length as the product of rows and columns"@,
                ),
            },
    {
        let length = data.len();
        let fitting = match rows.checked_mul(columns) {
            Some(cells) => length == cells,
            None => false,
        };
        if !fitting {
            return Err(
                MatholError::matrice(
                    "Vector is not the same length as the product of rows and columns",
                ),
            );
        }
        Ok(Matrice { rows, columns, data })
    }

    /// Returns the cell in row `row` and column `column`. Fails when the
    /// row, or else the column, lies outside the matrix.
    pub fn get_element(&self, row: usize, column: usize) -> (r: Result<i64, MatholError>)
        requires
            self.wf(),
        ensures
            match r {
                Ok(v) => row < self.rows && column < self.columns && v == self.data@[row
                    * self.columns + column] && v as int == self@.at(row as int, column as int),
                Err(e) => if row >= self.rows {
                    e.is_out_of_bounds("Row is out of bounds"@)
                } else {
                    column >= self.columns && e.is_out_of_bounds("Column is out of bounds"@)
                },
            },
    {
        if row >= self.rows {
            return Err(MatholError::out_of_bounds("Row is out of bounds"));
        }
        if column >= self.columns {
            return Err(MatholError::out_of_bounds("Column is out of bounds"));
        }
        Ok(self.cell(row, column))
    }

    /// Replaces the cell in row `row` and column `column` by `element`.
    /// Fails, leaving the matrix as it was, when the row, or else the
    /// column, lies outside the matrix.
    pub fn insert_element(&mut self, element: i64, row: usize, column: usize) -> (r: Result<
        (),
        MatholError,
    >)
        requires
            old(self).wf(),
        ensures
            final(self).rows == old(self).rows,
            final(self).columns == old(self).columns,
            final(self).wf(),
            match r {
                Ok(_) => row < old(self).rows && column < old(self).columns && final(self).data@
                    == old(self).data@.update(row * old(self).columns + column, element)
                    && final(self)@ == old(self)@.with_cell(
                    row as int,
                    column as int,
                    element as int,
                ),
                Err(e) => *final(self) == *old(self) && if row >= old(self).rows {
                    e.is_out_of_bounds("Row is out of bounds"@)
                } else {
                    column >= old(self).columns && e.is_out_of_bounds("Column is out of bounds"@)
                },
            },
    {
        if row >= self.rows {
            return Err(MatholError::out_of_bounds("Row is out of bounds"));
        }
        if column >= self.columns {
            return Err(MatholError::out_of_bounds("Column is out of bounds"));
        }
        proof {
            lemma_cell_position(row as int, column as int, self.rows as int, self.columns as int);
        }
        let length = self.data.len();
        let position = row * self.columns + column;
        self.data.set(position, element);
        proof {
            let before = old(self)@;
            let after = self@;
            let target = before.with_cell(row as int, column as int, element as int);
            assert forall|a: int| 0 <= a < self.rows implies #[trigger] after.cells[a]
                == target.cells[a] by {
                assert forall|b: int| 0 <= b < self.columns implies after.cells[a][b]
                    == target.cells[a][b] by {
                    lemma_cell_position(a, b, self.rows as int, self.columns as int);
                    if a * self.columns + b == position {
                        lemma_position_unique(a, b, row as int, column as int, self.columns as int);
                    }
                }
                assert(after.cells[a] =~= target.cells[a]);
            }
            assert(after.cells =~= target.cells);
        }
        Ok(())
    }

    /// Returns the sum of the cells of the main diagonal. Fails when the
    /// matrix is not square.
    pub fn get_trace(&self) -> (r: Result<i64, MatholError>)
        requires
            self.wf(),
            self.rows == self.columns ==> self@.trace_fits(),
        ensures
            match r {
                Ok(t) => self.rows == self.columns && t == self@.trace(),
                Err(e) => self.rows != self.columns && e.is_matrice("The matrice is not quadratic"@),
            },
    {
        if self.rows != self.columns {
            return Err(MatholError::matrice("The matrice is not quadratic"));
        }
        let mut trace = zero();
        let mut i: usize = 0;
        while i < self.rows
            invariant
                self.wf(),
                self.rows == self.columns,
                self@.trace_fits(),
                i <= self.rows,
                trace == self@.trace_upto(i as nat),
            decreases self.rows - i,
        {
            let v = self.cell(i, i);
            proof {
                assert(fits_i64(self@.trace_upto((i + 1) as nat)));
            }
            trace = trace + v;
            i += 1;
        }
        Ok(trace)
    }

    /// Returns the cell-by-cell sum of the two matrices. Fails when they
    /// differ in the number of rows or of columns.
    pub fn add_matrice(&self, matrice: &Matrice) -> (r: Result<Matrice, MatholError>)
        requires
            self.wf(),
            matrice.wf(),
            self.rows == matrice.rows && self.columns == matrice.columns ==> self@.plus(
                matrice@,
            ).fits(),
        ensures
            match r {
                Ok(m) => self.rows == matrice.rows && self.columns == matrice.columns && m.wf()
                    && m.rows == self.rows && m.columns == self.columns && m@ == self@.plus(
                    matrice@,
                ),
                Err(e) => (self.rows != matrice.rows || self.columns != matrice.columns)
                    && e.is_matrice(
                    "The two matrices do not have the same number of rows or columns"@,
                ),
            },
    {
        if self.rows != matrice.rows || self.columns != matrice.columns {
            return Err(
                MatholError::matrice(
                    "The two matrices do not have the same number of rows or columns",
                ),
            );
        }
        let ghost g = self@.plus(matrice@);
        let mut data: Vec<i64> = Vec::new();
        let mut i: usize = 0;
        proof {
            lemma_fill_start(g);
        }
        while i < self.rows
            invariant
                self.wf(),
                matrice.wf(),
                self.rows == matrice.rows,
                self.columns == matrice.columns,
                g == self@.plus(matrice@),
                g.fits(),
                i <= self.rows,
                filled(data@, g, i as int, 0),
            decreases self.rows - i,
        {
            let mut k: usize = 0;
            while k < self.columns
                invariant
                    self.wf(),
                    matrice.wf(),
                    self.rows == matrice.rows,
                    self.columns == matrice.columns,
                    g == self@.plus(matrice@),
                    g.fits(),
                    i < self.rows,
                    k <= self.columns,
                    filled(data@, g, i as int, k as int),
                decreases self.columns - k,
            {
                let a = self.cell(i, k);
                let b = matrice.cell(i, k);
                proof {
                    assert(fits_i64(g.at(i as int, k as int)));
                }
                let v = a + b;
                proof {
                    lemma_fill_cell(data@, g, i as int, k as int, v);
                }
                data.push(v);
                k += 1;
            }
            proof {
                lemma_fill_row(data@, g, i as int);
            }
            i += 1;
        }
        let m = Matrice { rows: self.rows, columns: self.columns, data };
        proof {
            m.lemma_view_of_filled(g);
        }
        Ok(m)
    }

    /// Returns the cell-by-cell difference of the two matrices. Fails when
    /// they differ in the number of rows or of columns.
    pub fn subtract_matrice(&self, matrice: &Matrice) -> (r: Result<Matrice, MatholError>)
        requires
            self.wf(),
            matrice.wf(),
            self.rows == matrice.rows && self.columns == matrice.columns ==> self@.minus(
                matrice@,
            ).fits(),
        ensures
            match r {
                Ok(m) => self.rows == matrice.rows && self.columns == matrice.columns && m.wf()
                    && m.rows == self.rows && m.columns == self.columns && m@ == self@.minus(
                    matrice@,
                ),
                Err(e) => (self.rows != matrice.rows || self.columns != matrice.columns)
                    && e.is_matrice(
                    "The two matrices do not have the same number of rows or columns"@,
                ),
            },
    {
        if self.rows != matrice.rows || self.columns != matrice.columns {
            return Err(
                MatholError::matrice(
                    "The two matrices do not have the same number of rows or columns",
                ),
            );
        }
        let ghost g = self@.minus(matrice@);
        let mut data: Vec<i64> = Vec::new();
        let mut i: usize = 0;
        proof {
            lemma_fill_start(g);
        }
        while i < self.rows
            invariant
                self.wf(),
                matrice.wf(),
                self.rows == matrice.rows,
                self.columns == matrice.columns,
                g == self@.minus(matrice@),
                g.fits(),
                i <= self.rows,
                filled(data@, g, i as int, 0),
            decreases self.rows - i,
        {
            let mut k: usize = 0;
            while k < self.columns
                invariant
                    self.wf(),
                    matrice.wf(),
                    self.rows == matrice.rows,
                    self.columns == matrice.columns,
                    g == self@.minus(matrice@),
                    g.fits(),
                    i < self.rows,
                    k <= self.columns,
                    filled(data@, g, i as int, k as int),
                decreases self.columns - k,
            {
                let a = self.cell(i, k);
                let b = matrice.cell(i, k);
                proof {
                    assert(fits_i64(g.at(i as int, k as int)));
                }
                let v = a - b;
                proof {
                    lemma_fill_cell(data@, g, i as int, k as int, v);
                }
                data.push(v);
                k += 1;
            }
            proof {
                lemma_fill_row(data@, g, i as int);
            }
            i += 1;
        }
        let m = Matrice { rows: self.rows, columns: self.columns, data };
        proof {
            m.lemma_view_of_filled(g);
        }
        Ok(m)
    }

    /// Returns the matrix with every cell multiplied by `scalar`.
    pub fn multiply_with_scalar(&self, scalar: i64) -> (m: Matrice)
        requires
            self.wf(),
            self@.scaled(scalar as int).fits(),
        ensures
            m.wf(),
            m.rows == self.rows,
            m.columns == self.columns,
            m@ == self@.scaled(scalar as int),
    {
        let ghost g = self@.scaled(scalar as int);
        let mut data: Vec<i64> = Vec::new();
        let mut i: usize = 0;
        proof {
            lemma_fill_start(g);
        }
        while i < self.rows
            invariant
                self.wf(),
                g == self@.scaled(scalar as int),
                g.fits(),
                i <= self.rows,
                filled(data@, g, i as int, 0),
            decreases self.rows - i,
        {
            let mut k: usize = 0;
            while k < self.columns
                invariant
                    self.wf(),
                    g == self@.scaled(scalar as int),
                    g.fits(),
                    i < self.rows,
                    k <= self.columns,
                    filled(data@, g, i as int, k as int),
                decreases self.columns - k,
            {
                let a = self.cell(i, k);
                proof {
                    assert(fits_i64(g.at(i as int, k as int)));
                }
                let v = a * scalar;
                proof {
                    lemma_fill_cell(data@, g, i as int, k as int, v);
                }
                data.push(v);
                k += 1;
            }
            proof {
                lemma_fill_row(data@, g, i as int);
            }
            i += 1;
        }
        let m = Matrice { rows: self.rows, columns: self.columns, data };
        proof {
            m.lemma_view_of_filled(g);
        }
        m
    }

    /// Returns a copy of row `row`. Fails when the row lies outside the
    /// matrix.
    pub fn get_row(&self, row: usize) -> (r: Result<Vec<i64>, MatholError>)
        requires
            self.wf(),
        ensures
            match r {
                Ok(v) => row < self.rows && ints(v@) == self@.row(row as int),
                Err(e) => row >= self.rows && e.is_out_of_bounds("Row is out of bounds"@),
            },
    {
        if row >= self.rows {
            return Err(MatholError::out_of_bounds("Row is out of bounds"));
        }
        let mut v: Vec<i64> = Vec::new();
        let mut k: usize = 0;
        while k < self.columns
            invariant
                self.wf(),
                row < self.rows,
                k <= self.columns,
                v@.len() == k,
                forall|c: int| 0 <= c < k ==> v@[c] as int == self@.at(row as int, c),
            decreases self.columns - k,
        {
            let a = self.cell(row, k);
            v.push(a);
            k += 1;
        }
        proof {
            assert(ints(v@) =~= self@.row(row as int));
        }
        Ok(v)
    }

    /// Returns a copy of column `column`, from top to bottom. Fails when
    /// the column lies outside the matrix.
    pub fn get_column(&self, column: usize) -> (r: Result<Vec<i64>, MatholError>)
        requires
            self.wf(),
        ensures
            match r {
                Ok(v) => column < self.columns && ints(v@) == self@.column(column as int),
                Err(e) => column >= self.columns && e.is_out_of_bounds("Column is out of bounds"@),
            },
    {
        if column >= self.columns {
            return Err(MatholError::out_of_bounds("Column is out of bounds"));
        }
        let mut v: Vec<i64> = Vec::new();
        let mut i: usize = 0;
        while i < self.rows
            invariant
                self.wf(),
                column < self.columns,
                i <= self.rows,
                v@.len() == i,
                forall|a: int| 0 <= a < i ==> v@[a] as int == self@.at(a, column as int),
            decreases self.rows - i,
        {
            let a = self.cell(i, column);
            v.push(a);
            i += 1;
        }
        proof {
            assert(ints(v@) =~= self@.column(column as int));
        }
        Ok(v)
    }

    /// Returns the scalar product of `vec1` with the elements of `vec2` at
    /// the same indices.
    pub fn get_scalar_product_of_vectors(vec1: &Vec<i64>, vec2: &Vec<i64>) -> (r: i64)
        requires
            vec1@.len() <= vec2@.len(),
            dot_fits(ints(vec1@), ints(vec2@)),
        ensures
            r == dot(ints(vec1@), ints(vec2@)),
    {
        get_scalar_product_of_vectors(vec1, vec2)
    }

    /// Returns the matrix product of `self` and `other`. Fails when `self`
    /// does not have as many columns as `other` has rows.
    pub fn multiply_with_matrice(&self, other: &Matrice) -> (r: Result<Matrice, MatholError>)
        requires
            self.wf(),
            other.wf(),
            self.columns == other.rows ==> self@.times_fits(other@),
        ensures
            match r {
                Ok(m) => self.columns == other.rows && m.wf() && m.rows == self.rows && m.columns
                    == other.columns && m@ == self@.times(other@),
                Err(e) => self.columns != other.rows && e.is_matrice(
                    "Matrix A must have the same number of columns as Matrix B has number of rows"@,
                ),
            },
    {
        if self.columns != other.rows {
            return Err(
                MatholError::matrice(
                    "Matrix A must have the same number of columns as Matrix B has number of rows",
                ),
            );
        }
        let ghost g = self@.times(other@);
        let mut data: Vec<i64> = Vec::new();
        let mut i: usize = 0;
        proof {
            lemma_fill_start(g);
        }
        while i < self.rows
            invariant
                self.wf(),
                other.wf(),
                self.columns == other.rows,
                g == self@.times(other@),
                self@.times_fits(other@),
                i <= self.rows,
                filled(data@, g, i as int, 0),
            decreases self.rows - i,
        {
            let mut k: usize = 0;
            while k < other.columns
                invariant
                    self.wf(),
                    other.wf(),
                    self.columns == other.rows,
                    g == self@.times(other@),
                    self@.times_fits(other@),
                    i < self.rows,
                    k <= other.columns,
                    filled(data@, g, i as int, k as int),
                decreases other.columns - k,
            {
                let row = self.get_row(i).unwrap();
                let column = other.get_column(k).unwrap();
                proof {
                    assert(self@.times_cell_fits(other@, i as int, k as int));
                    assert(ints(row@).len() == row@.len());
                    assert(ints(column@).len() == column@.len());
                    assert(self@.row(i as int).len() == self.columns);
                    assert(other@.column(k as int).len() == other.rows);
                }
                let v = get_scalar_product_of_vectors(&row, &column);
                proof {
                    lemma_fill_cell(data@, g, i as int, k as int, v);
                }
                data.push(v);
                k += 1;
            }
            proof {
                lemma_fill_row(data@, g, i as int);
            }
            i += 1;
        }
        let m = Matrice { rows: self.rows, columns: other.columns, data };
        proof {
            m.lemma_view_of_filled(g);
        }
        Ok(m)
    }

    /// Returns the matrix with `row` appended below the last row.
    pub(crate) fn extended(&self, row: &Vec<i64>) -> (m: Matrice)
        requires
            self.wf(),
            row@.len() == self.columns,
            self.rows < usize::MAX,
        ensures
            m.wf(),
            m.rows == self.rows + 1,
            m.columns == self.columns,
            m@ == self@.with_row(ints(row@)),
    {
        let ghost g = self@.with_row(ints(row@));
        let mut data: Vec<i64> = Vec::new();
        let mut i: usize = 0;
        proof {
            self.lemma_view();
            lemma_fill_start(g);
        }
        while i < self.rows + 1
            invariant
                self.wf(),
                row@.len() == self.columns,
                self.rows < usize::MAX,
                g == self@.with_row(ints(row@)),
                i <= self.rows + 1,
                filled(data@, g, i as int, 0),
            decreases self.rows + 1 - i,
        {
            let mut k: usize = 0;
            while k < self.columns
                invariant
                    self.wf(),
                    row@.len() == self.columns,
                    g == self@.with_row(ints(row@)),
                    i <= self.rows,
                    k <= self.columns,
                    filled(data@, g, i as int, k as int),
                decreases self.columns - k,
            {
                let v = if i < self.rows {
                    self.cell(i, k)
                } else {
                    row[k]
                };
                proof {
                    lemma_fill_cell(data@, g, i as int, k as int, v);
                }
                data.push(v);
                k += 1;
            }
            proof {
                lemma_fill_row(data@, g, i as int);
            }
            i += 1;
        }
        let m = Matrice { rows: self.rows + 1, columns: self.columns, data };
        proof {
            m.lemma_view_of_filled(g);
        }
        m
    }

    /// Returns the matrix with `column` appended to the right of the last
    /// column.
    pub(crate) fn augmented(&self, column: &Vec<i64>) -> (m: Matrice)
        requires
            self.wf(),
            column@.len() == self.rows,
            self.columns < usize::MAX,
        ensures
            m.wf(),
            m.rows == self.rows,
            m.columns == self.columns + 1,
            m@ == self@.with_column(ints(column@)),
    {
        let ghost g = self@.with_column(ints(column@));
        let mut data: Vec<i64> = Vec::new();
        let mut i: usize = 0;
        proof {
            self.lemma_view();
            lemma_fill_start(g);
        }
        while i < self.rows
            invariant
                self.wf(),
                column@.len() == self.rows,
                self.columns < usize::MAX,
                g == self@.with_column(ints(column@)),
                i <= self.rows,
                filled(data@, g, i as int, 0),
            decreases self.rows - i,
        {
            let mut k: usize = 0;
            while k < self.columns
                invariant
                    self.wf(),
                    column@.len() == self.rows,
                    self.columns < usize::MAX,
                    g == self@.with_column(ints(column@)),
                    i < self.rows,
                    k <= self.columns,
                    filled(data@, g, i as int, k as int),
                decreases self.columns - k,
            {
                let v = self.cell(i, k);
                proof {
                    lemma_fill_cell(data@, g, i as int, k as int, v);
                }
                data.push(v);
                k += 1;
            }
            let v = column[i];
            proof {
                lemma_fill_cell(data@, g, i as int, self.columns as int, v);
                lemma_fill_row(data@.push(v), g, i as int);
            }
            data.push(v);
            i += 1;
        }
        let m = Matrice { rows: self.rows, columns: self.columns + 1, data };
        proof {
            m.lemma_view_of_filled(g);
        }
        m
    }

    /// Appends `row` below the last row. Fails, leaving the matrix as it
    /// was, when `row` does not have one element per column.
    pub fn insert_row(&mut self, row: &Vec<i64>) -> (r: Result<(), MatholError>)
        requires
            old(self).wf(),
            row@.len() == old(self).columns ==> old(self).rows < usize::MAX,
        ensures
            final(self).wf(),
            match r {
                Ok(_) => row@.len() == old(self).columns && final(self).rows == old(self).rows + 1
                    && final(self).columns == old(self).columns && final(self)@ == old(
                    self,
                )@.with_row(ints(row@)),
                Err(e) => row@.len() != old(self).columns && *final(self) == *old(self)
                    && e.is_length(length_text("Row"@, old(self).columns as nat, "columns"@)),
            },
    {
        if row.len() != self.columns {
            return Err(MatholError::wrong_length("Row", self.columns, "columns"));
        }
        let m = self.extended(row);
        self.rows = m.rows;
        self.data = m.data;
        Ok(())
    }

    /// Appends `column` to the right of the last column. Fails, leaving the
    /// matrix as it was, when `column` does not have one element per row.
    pub fn insert_column(&mut self, column: &Vec<i64>) -> (r: Result<(), MatholError>)
        requires
            old(self).wf(),
            column@.len() == old(self).rows ==> old(self).columns < usize::MAX,
        ensures
            final(self).wf(),
            match r {
                Ok(_) => column@.len() == old(self).rows && final(self).rows == old(self).rows
                    && final(self).columns == old(self).columns + 1 && final(self)@ == old(
                    self,
                )@.with_column(ints(column@)),
                Err(e) => column@.len() != old(self).rows && *final(self) == *old(self)
                    && e.is_length(length_text("Column"@, old(self).rows as nat, "rows"@)),
            },
    {
        if column.len() != self.rows {
            return Err(MatholError::wrong_length("Column", self.rows, "rows"));
        }
        let m = self.augmented(column);
        self.columns = m.columns;
        self.data = m.data;
        Ok(())
    }
}

} // verus!
