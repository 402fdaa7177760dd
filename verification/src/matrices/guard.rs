//! Operations that test for themselves whether they can be carried out in
//! `i64`: each one measures the matrix, and calls the operation it guards
//! only where the size of the cells and the number of rows rule out an
//! overflow.

use vstd::prelude::*;
use vstd::arithmetic::power::{lemma_pow1, pow as power};
use crate::error::MatholError;
use crate::matrices::bounds::{
    cells_within, determinant_bound, lemma_bounded_determinant_fits, lemma_bounded_inverse_fits,
    lemma_bounded_rank_fits, lemma_bounded_solvability_fits, lemma_determinant_bound_grows,
    lemma_determinant_bound_ordered, within,
};
use crate::matrices::grid::{int_rows, ints, lemma_cell_position};
use crate::matrices::matrice::Matrice;
use crate::matrices::solvable::Solvable;

verus! {

/// The size of a number: the number without its sign.
pub open spec fn size(x: i64) -> nat {
    if x < 0 {
        (-x) as nat
    } else {
        x as nat
    }
}

/// The largest size among the first `n` elements of `s`, and at least 1.
pub open spec fn peak_upto(s: Seq<i64>, n: nat) -> nat
    decreases n,
{
    if n == 0 {
        1
    } else {
        let before = peak_upto(s, (n - 1) as nat);
        if size(s[n - 1]) > before {
            size(s[n - 1])
        } else {
            before
        }
    }
}

/// The largest size among the elements of `s`, and at least 1.
pub open spec fn peak(s: Seq<i64>) -> nat {
    peak_upto(s, s.len())
}

/// The larger of two numbers.
pub open spec fn larger(a: nat, b: nat) -> nat {
    if a >= b {
        a
    } else {
        b
    }
}

/// No element among the first `n` is larger in size than their peak.
pub proof fn lemma_peak_covers(s: Seq<i64>, n: nat)
    requires
        n <= s.len(),
    ensures
        peak_upto(s, n) >= 1,
        forall|i: int| 0 <= i < n ==> within(#[trigger] s[i] as int, peak_upto(s, n) as int),
    decreases n,
{
    if n > 0 {
        lemma_peak_covers(s, (n - 1) as nat);
    }
}

/// Returns the largest size among the elements of `v`, and at least 1.
pub fn peak_of(v: &Vec<i64>) -> (b: u64)
    ensures
        b == peak(v@),
        b >= 1,
{
    let mut b: u64 = 1;
    let mut i: usize = 0;
    while i < v.len()
        invariant
            i <= v@.len(),
            b == peak_upto(v@, i as nat),
            b >= 1,
        decreases v@.len() - i,
    {
        let x = v[i];
        let magnitude: u64 = if x < 0 {
            (-(x + 1)) as u64 + 1
        } else {
            x as u64
        };
        if magnitude > b {
            b = magnitude;
        }
        i += 1;
    }
    b
}

/// Tells whether the bound on the determinants of grids of `n` rows with
/// cells between `-b` and `b` is representable as an `i64`.
pub fn determinant_bound_fits(n: usize, b: u64) -> (ok: bool)
    requires
        b >= 1,
    ensures
        ok == (determinant_bound(n as nat, b as nat) <= i64::MAX),
{
    if n == 0 {
        return true;
    }
    proof {
        lemma_determinant_bound_ordered(1, n as nat, b as nat);
        lemma_pow1(b as int);
        reveal(power);
        assert(power(b as int, 2) == b * power(b as int, 1));
        assert(power(b as int, 3) == b * power(b as int, 2));
    }
    if b > 0x7fff_ffff_ffff_ffff {
        return false;
    }
    if n == 1 {
        return true;
    }
    let cell = b as i64;
    proof {
        lemma_determinant_bound_ordered(2, n as nat, b as nat);
    }
    let square = match cell.checked_mul(cell) {
        Some(p) => p,
        None => {
            return false;
        },
    };
    if n == 2 {
        return square.checked_mul(2).is_some();
    }
    proof {
        lemma_determinant_bound_ordered(3, n as nat, b as nat);
        assert(b * square >= square) by (nonlinear_arith)
            requires
                b >= 1,
                square >= 0,
        ;
    }
    let cube = match cell.checked_mul(square) {
        Some(p) => p,
        None => {
            return false;
        },
    };
    let mut bound = match cube.checked_mul(6) {
        Some(p) => p,
        None => {
            return false;
        },
    };
    let mut j: usize = 3;
    while j < n
        invariant
            3 <= j <= n,
            1 <= b <= i64::MAX,
            cell == b,
            bound == determinant_bound(j as nat, b as nat),
        decreases n - j,
    {
        j += 1;
        proof {
            lemma_determinant_bound_ordered(j as nat, n as nat, b as nat);
            lemma_determinant_bound_grows((j - 1) as nat, b as nat);
            assert(determinant_bound(j as nat, b as nat) == j * b * bound);
            assert(j * b * bound >= j * b) by (nonlinear_arith)
                requires
                    j * b >= 0,
                    bound >= 1,
            ;
            assert(j * b >= j) by (nonlinear_arith)
                requires
                    j >= 0,
                    b >= 1,
            ;
        }
        let wide = j as u64;
        if wide > 0x7fff_ffff_ffff_ffff {
            return false;
        }
        let rows = wide as i64;
        let factor = match rows.checked_mul(cell) {
            Some(p) => p,
            None => {
                return false;
            },
        };
        bound = match factor.checked_mul(bound) {
            Some(p) => p,
            None => {
                return false;
            },
        };
    }
    true
}

impl Matrice {
    /// Whether the matrix holds one element per cell and the bound on the
    /// determinants of its windows of up to `n` rows is representable.
    pub open spec fn guarded(&self, n: nat) -> bool {
        self.wf() && determinant_bound(n, peak(self.data@)) <= i64::MAX
    }

    /// Whether the matrix and the constants form a linear system whose
    /// determinants are, by the bound on them, representable.
    pub open spec fn guarded_system(&self, c: Seq<i64>) -> bool {
        &&& self.wf()
        &&& c.len() == self.rows
        &&& self.columns < usize::MAX
        &&& determinant_bound(
            self@.with_column(ints(c)).largest_window(),
            larger(peak(self.data@), peak(c)),
        ) <= i64::MAX
    }

    /// The cells of a matrix are no larger in size than the peak of its
    /// buffer, nor than any number above it.
    pub proof fn lemma_cells_within_peak(&self, b: nat)
        requires
            self.wf(),
            b >= peak(self.data@),
        ensures
            cells_within(self@, b),
            b >= 1,
    {
        lemma_peak_covers(self.data@, self.data@.len());
        assert forall|r: int, c: int| self@.has(r, c) implies within(
            #[trigger] self@.at(r, c),
            b as int,
        ) by {
            lemma_cell_position(r, c, self.rows as int, self.columns as int);
            assert(self@.at(r, c) == self.data@[r * self.columns + c]);
        }
    }

    /// Tells whether the matrix holds one element per cell.
    pub fn is_well_formed(&self) -> (ok: bool)
        ensures
            ok == self.wf(),
    {
        let length = self.data.len();
        match self.rows.checked_mul(self.columns) {
            Some(cells) => cells == length,
            None => false,
        }
    }

    /// Returns what `get_determinant` returns, or nothing where the matrix
    /// is square and its cells are too many or too large for the bound on
    /// the determinant, or where it does not hold one element per cell.
    pub fn checked_determinant(&self) -> (r: Option<Result<i64, MatholError>>)
        ensures
            match r {
                Some(Ok(d)) => self.wf() && self@.determinant_fits() && self.rows == self.columns
                    && d == self@.determinant(),
                Some(Err(e)) => self.wf() && self.rows != self.columns && e.is_matrice(
                    "The matrice is not quadratic"@,
                ),
                None => !(self.rows != self.columns && self.wf()) && !self.guarded(
                    self.rows as nat,
                ),
            },
    {
        if !self.is_well_formed() {
            return None;
        }
        if self.rows == self.columns {
            let b = peak_of(&self.data);
            if !determinant_bound_fits(self.rows, b) {
                return None;
            }
            proof {
                self.lemma_view();
                self.lemma_cells_within_peak(b as nat);
                lemma_bounded_determinant_fits(self@, b as nat);
            }
        }
        Some(self.get_determinant())
    }

    /// Returns what `get_inverse_matrice` returns, or nothing where the
    /// matrix is square and its cells are too many or too large for the
    /// bound on the determinant, or where it does not hold one element per
    /// cell.
    pub fn checked_inverse_matrice(&self) -> (r: Option<Result<Matrice, MatholError>>)
        ensures
            match r {
                Some(Ok(m)) => self.wf() && self@.determinant_fits() && self@.inverse_fits()
                    && self.rows == self.columns && self@.determinant() != 0 && m.wf() && m.rows
                    == self.rows && m.columns == self.columns && m@ == self@.inverse(),
                Some(Err(e)) => self.wf() && if self.rows != self.columns {
                    e.is_matrice("The matrice is not quadratic"@)
                } else {
                    self@.determinant() == 0 && e.is_matrice("The matrice is singular"@)
                },
                None => !(self.rows != self.columns && self.wf()) && !self.guarded(
                    self.rows as nat,
                ),
            },
    {
        if !self.is_well_formed() {
            return None;
        }
        if self.rows == self.columns {
            let b = peak_of(&self.data);
            if !determinant_bound_fits(self.rows, b) {
                return None;
            }
            proof {
                self.lemma_view();
                self.lemma_cells_within_peak(b as nat);
                lemma_bounded_determinant_fits(self@, b as nat);
                if self@.determinant() != 0 {
                    lemma_bounded_inverse_fits(self@, b as nat);
                }
            }
        }
        Some(self.get_inverse_matrice())
    }

    /// Returns what `get_rank` returns, or nothing where the cells of the
    /// matrix are too many or too large for the bound on the determinants
    /// of its windows, or where it does not hold one element per cell.
    pub fn checked_rank(&self) -> (r: Option<Result<usize, MatholError>>)
        ensures
            match r {
                Some(Ok(p)) => self.wf() && self@.rank_fits() && self@.rank() == Some(p as nat),
                Some(Err(e)) => self.wf() && self@.rank_fits() && self@.rank() is None
                    && e.is_matrice("Could not calculate rank of matrice"@),
                None => !self.guarded(self@.largest_window()),
            },
    {
        if !self.is_well_formed() {
            return None;
        }
        let top = if self.rows <= self.columns {
            self.rows
        } else {
            self.columns
        };
        let b = peak_of(&self.data);
        proof {
            self.lemma_view();
        }
        if !determinant_bound_fits(top, b) {
            return None;
        }
        proof {
            self.lemma_cells_within_peak(b as nat);
            lemma_bounded_rank_fits(self@, b as nat);
        }
        Some(self.get_rank())
    }

    /// Returns what `is_solvable` returns, or the failure of the rank where
    /// the system is not square and the matrix, or the matrix augmented by
    /// the constants, has no rank, or nothing where the matrix and the
    /// constants do not form a system whose determinants are, by the bound
    /// on them, representable.
    pub fn checked_is_solvable(&self, c: &Vec<i64>) -> (r: Option<Result<Solvable, MatholError>>)
        ensures
            match r {
                Some(Ok(s)) => self.guarded_system(c@) && self@.solvability_fits(ints(c@)) && (
                self.rows != self.columns ==> self@.rank() is Some && self@.with_column(
                    ints(c@),
                ).rank() is Some) && s == self@.solvability(ints(c@)),
                Some(Err(e)) => self.guarded_system(c@) && self.rows != self.columns && (
                self@.rank() is None || self@.with_column(ints(c@)).rank() is None)
                    && e.is_matrice("Could not calculate rank of matrice"@),
                None => !self.guarded_system(c@),
            },
    {
        if !self.is_well_formed() || c.len() != self.rows || self.columns == usize::MAX {
            return None;
        }
        let top = if self.rows <= self.columns + 1 {
            self.rows
        } else {
            self.columns + 1
        };
        let cells = peak_of(&self.data);
        let constants = peak_of(c);
        let b = if cells >= constants {
            cells
        } else {
            constants
        };
        proof {
            self.lemma_view();
            assert(self@.with_column(ints(c@)).largest_window() == top);
        }
        if !determinant_bound_fits(top, b) {
            return None;
        }
        proof {
            self.lemma_cells_within_peak(b as nat);
            lemma_peak_covers(c@, c@.len());
            assert forall|r: int| 0 <= r < ints(c@).len() implies within(
                #[trigger] ints(c@)[r],
                b as int,
            ) by {
                assert(ints(c@)[r] == c@[r] as int);
            }
            lemma_bounded_solvability_fits(self@, ints(c@), b as nat);
            lemma_determinant_bound_ordered(self@.largest_window(), top as nat, b as nat);
            lemma_bounded_rank_fits(self@, b as nat);
        }
        if self.rows != self.columns {
            let ac = self.augmented(c);
            proof {
                crate::matrices::bounds::lemma_augmented_within(self@, ints(c@), b as nat);
                lemma_bounded_rank_fits(ac@, b as nat);
            }
            match self.get_rank() {
                Ok(_) => {},
                Err(e) => {
                    return Some(Err(e));
                },
            }
            match ac.get_rank() {
                Ok(_) => {},
                Err(e) => {
                    return Some(Err(e));
                },
            }
        }
        Some(Ok(self.is_solvable(c)))
    }

    /// Returns what `ordered_system` returns, or the failure of the rank
    /// where the system is not square and the matrix, or the matrix
    /// augmented by the constants, has no rank, or nothing where the matrix
    /// and the constants do not form a system whose determinants are, by
    /// the bound on them, representable.
    pub fn checked_ordered_system(&self, c: &Vec<i64>) -> (r: Option<
        Result<(Vec<Vec<i64>>, Vec<i64>), MatholError>,
    >)
        ensures
            match r {
                Some(Ok(system)) => self.guarded_system(c@) && self@.solvability(ints(c@))
                    == Solvable::OneSolution && self@.picked(
                    ints(c@),
                    self@.pivot_order(),
                    int_rows(system.0@),
                    ints(system.1@),
                ),
                Some(Err(e)) => self.guarded_system(c@) && if self.rows != self.columns && (
                self@.rank() is None || self@.with_column(ints(c@)).rank() is None) {
                    e.is_matrice("Could not calculate rank of matrice"@)
                } else {
                    self@.solvability(ints(c@)) != Solvable::OneSolution && e.is_matrice(
                        "The linear system is not solvable or it has infinite solutions"@,
                    )
                },
                None => !self.guarded_system(c@),
            },
    {
        match self.checked_is_solvable(c) {
            None => None,
            Some(Err(e)) => Some(Err(e)),
            Some(Ok(_)) => Some(self.ordered_system(c)),
        }
    }
}

} // verus!
