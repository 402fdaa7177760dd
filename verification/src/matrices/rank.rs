//! The rank of a matrix, found by searching its square windows.

use vstd::prelude::*;
use crate::error::MatholError;
use crate::matrices::grid::{
    filled, lemma_cell_position, lemma_earlier_position, lemma_fill_cell, lemma_fill_row,
    lemma_fill_start, lemma_rank_found, lemma_rank_missing, Grid,
};
use crate::matrices::matrice::Matrice;

verus! {

/// `list` holds, in reading order of their top left cells, the square
/// windows of `g` with `p` rows whose top left cell comes before `(i, k)`;
/// `width` is the number of windows side by side.
pub open spec fn windows_listed(
    list: Seq<Matrice>,
    g: Grid,
    p: nat,
    width: int,
    i: int,
    k: int,
) -> bool {
    &&& list.len() == i * width + k
    &&& forall|a: int, b: int|
        0 <= a && 0 <= b < width && (a < i || (a == i && b < k)) ==> is_window(
            list[a * width + b],
            #[trigger] g.window(a, b, p),
        )
}

/// The matrix `m` is well formed, square, and has the grid `w` as its
/// view.
pub open spec fn is_window(m: Matrice, w: Grid) -> bool {
    m.wf() && m.rows == w.rows() && m.columns == w.columns && m@ == w
}

/// Appending the window at `(i, k)` extends the list by one window.
pub proof fn lemma_list_window(
    list: Seq<Matrice>,
    g: Grid,
    p: nat,
    width: int,
    i: int,
    k: int,
    window: Matrice,
)
    requires
        windows_listed(list, g, p, width, i, k),
        0 <= i,
        0 <= k < width,
        window.wf(),
        window.rows == p,
        window.columns == p,
        window@ == g.window(i, k, p),
    ensures
        windows_listed(list.push(window), g, p, width, i, k + 1),
{
    let next = list.push(window);
    assert forall|a: int, b: int|
        0 <= a && 0 <= b < width && (a < i || (a == i && b < k + 1)) implies is_window(
        next[a * width + b],
        #[trigger] g.window(a, b, p),
    ) by {
        if a == i && b == k {
        } else {
            lemma_earlier_position(a, b, i, k, width);
            assert(is_window(list[a * width + b], g.window(a, b, p)));
        }
    }
}

impl Matrice {
    /// Returns, row after row, the cells of the square window of `p` rows
    /// and columns whose top left cell is `(i, k)`.
    pub fn get_slice(&self, i: usize, k: usize, p: usize) -> (v: Vec<i64>)
        requires
            self.wf(),
            i + p <= self.rows,
            k + p <= self.columns,
        ensures
            filled(v@, self@.window(i as int, k as int, p as nat), p as int, 0),
    {
        let ghost g = self@.window(i as int, k as int, p as nat);
        let mut data: Vec<i64> = Vec::new();
        let mut q: usize = 0;
        proof {
            lemma_fill_start(g);
        }
        while q < p
            invariant
                self.wf(),
                i + p <= self.rows,
                k + p <= self.columns,
                g == self@.window(i as int, k as int, p as nat),
                q <= p,
                filled(data@, g, q as int, 0),
            decreases p - q,
        {
            let mut c: usize = 0;
            while c < p
                invariant
                    self.wf(),
                    i + p <= self.rows,
                    k + p <= self.columns,
                    g == self@.window(i as int, k as int, p as nat),
                    q < p,
                    c <= p,
                    filled(data@, g, q as int, c as int),
                decreases p - c,
            {
                let v = self.cell(i + q, k + c);
                proof {
                    lemma_fill_cell(data@, g, q as int, c as int, v);
                }
                data.push(v);
                c += 1;
            }
            proof {
                lemma_fill_row(data@, g, q as int);
            }
            q += 1;
        }
        data
    }

    /// Returns the square windows of `p` rows and columns, each as a matrix
    /// of its own, in reading order of their top left cells.
    pub fn cut_matrices(&self, p: usize) -> (vec: Vec<Matrice>)
        requires
            self.wf(),
            1 <= p <= self.rows,
            p <= self.columns,
        ensures
            windows_listed(
                vec@,
                self@,
                p as nat,
                self.columns - p + 1,
                self.rows - p + 1,
                0,
            ),
    {
        let mut vec: Vec<Matrice> = Vec::new();
        let end_row = self.rows - p + 1;
        let end_column = self.columns - p + 1;
        let mut i: usize = 0;
        proof {
            assert(0 * end_column + 0 == 0) by (nonlinear_arith);
        }
        while i < end_row
            invariant
                self.wf(),
                1 <= p <= self.rows,
                p <= self.columns,
                end_row == self.rows - p + 1,
                end_column == self.columns - p + 1,
                i <= end_row,
                windows_listed(vec@, self@, p as nat, end_column as int, i as int, 0),
            decreases end_row - i,
        {
            let mut k: usize = 0;
            while k < end_column
                invariant
                    self.wf(),
                    1 <= p <= self.rows,
                    p <= self.columns,
                    end_row == self.rows - p + 1,
                    end_column == self.columns - p + 1,
                    i < end_row,
                    k <= end_column,
                    windows_listed(vec@, self@, p as nat, end_column as int, i as int, k as int),
                decreases end_column - k,
            {
                let slice = self.get_slice(i, k, p);
                let window = Matrice { rows: p, columns: p, data: slice };
                proof {
                    window.lemma_view_of_filled(self@.window(i as int, k as int, p as nat));
                    lemma_list_window(vec@, self@, p as nat, end_column as int, i as int, k as int, window);
                }
                vec.push(window);
                k += 1;
            }
            proof {
                assert((i + 1) * end_column == i * end_column + end_column) by (nonlinear_arith);
            }
            i += 1;
        }
        vec
    }

    /// Returns the rank: the size of the largest square window with a
    /// nonzero determinant. Windows are searched from the largest size
    /// down, and those of one size in reading order. Fails when no window
    /// has a nonzero determinant, as for a matrix of zeros.
    pub fn get_rank(&self) -> (r: Result<usize, MatholError>)
        requires
            self.wf(),
            self@.rank_fits(),
        ensures
            match r {
                Ok(p) => self@.rank() == Some(p as nat),
                Err(e) => self@.rank() is None && e.is_matrice(
                    "Could not calculate rank of matrice"@,
                ),
            },
    {
        let top = if self.rows <= self.columns {
            self.rows
        } else {
            self.columns
        };
        proof {
            self.lemma_view();
        }
        let mut p = top;
        while p > 0
            invariant
                self.wf(),
                self@.rank_fits(),
                top == self@.largest_window(),
                p <= top,
                self@.all_singular_before(p as int, 0, 0),
            decreases p,
        {
            let submatrices = self.cut_matrices(p);
            let end_row = self.rows - p + 1;
            let end_column = self.columns - p + 1;
            let mut i: usize = 0;
            while i < end_row
                invariant
                    self.wf(),
                    self@.rank_fits(),
                    top == self@.largest_window(),
                    1 <= p <= top,
                    end_row == self.rows - p + 1,
                    end_column == self.columns - p + 1,
                    i <= end_row,
                    windows_listed(
                        submatrices@,
                        self@,
                        p as nat,
                        end_column as int,
                        end_row as int,
                        0,
                    ),
                    self@.all_singular_before(p as int, i as int, 0),
                decreases end_row - i,
            {
                let mut k: usize = 0;
                while k < end_column
                    invariant
                        self.wf(),
                        self@.rank_fits(),
                        top == self@.largest_window(),
                        1 <= p <= top,
                        end_row == self.rows - p + 1,
                        end_column == self.columns - p + 1,
                        i < end_row,
                        k <= end_column,
                        windows_listed(
                            submatrices@,
                            self@,
                            p as nat,
                            end_column as int,
                            end_row as int,
                            0,
                        ),
                        self@.all_singular_before(p as int, i as int, k as int),
                    decreases end_column - k,
                {
                    proof {
                        self.lemma_view();
                        assert(self@.window_reached(p as int, i as int, k as int));
                        lemma_cell_position(i as int, k as int, end_row as int, end_column as int);
                        assert(is_window(
                            submatrices@[i * end_column + k],
                            self@.window(i as int, k as int, p as nat),
                        ));
                    }
                    let listed = submatrices.len();
                    assert(i * end_column + k < listed);
                    let submatrice = &submatrices[i * end_column + k];
                    let determinant = submatrice.get_determinant().unwrap();
                    if determinant != 0 {
                        proof {
                            lemma_rank_found(self@, top as nat, p as int, i as int, k as int);
                        }
                        return Ok(p);
                    }
                    k += 1;
                }
                i += 1;
            }
            p -= 1;
        }
        proof {
            lemma_rank_missing(self@, top as nat);
        }
        Err(MatholError::matrice("Could not calculate rank of matrice"))
    }
}

} // verus!
