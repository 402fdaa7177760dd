//! Linear systems: whether one can be solved, and the order in which its
//! equations are taken up for elimination.

use vstd::prelude::*;
use crate::error::MatholError;
use crate::identities::zero;
use crate::matrices::grid::{indices, int_rows, ints};
use crate::matrices::matrice::Matrice;
use crate::matrices::solvable::Solvable;

verus! {

/// Tells whether `i` occurs in `chosen`.
fn is_chosen(chosen: &Vec<usize>, i: usize) -> (b: bool)
    ensures
        b == indices(chosen@).contains(i as int),
{
    let mut j: usize = 0;
    while j < chosen.len()
        invariant
            j <= chosen@.len(),
            forall|a: int| 0 <= a < j ==> indices(chosen@)[a] != i as int,
        decreases chosen@.len() - j,
    {
        if chosen[j] == i {
            assert(indices(chosen@)[j as int] == i as int);
            return true;
        }
        j += 1;
    }
    false
}

impl Matrice {
    /// Tells how many solutions the linear system with the coefficients
    /// `self` and the constants `c` has.
    pub fn is_solvable(&self, c: &Vec<i64>) -> (s: Solvable)
        requires
            self.wf(),
            c@.len() == self.rows,
            self.columns < usize::MAX,
            self@.solvability_fits(ints(c@)),
            self.rows != self.columns ==> self@.rank() is Some && self@.with_column(
                ints(c@),
            ).rank() is Some,
        ensures
            s == self@.solvability(ints(c@)),
    {
        let ac = self.augmented(c);
        proof {
            self.lemma_view();
        }
        if self.rows != self.columns {
            let rank = self.get_rank().unwrap();
            let augmented_rank = ac.get_rank().unwrap();
            if rank == augmented_rank {
                if rank == self.columns {
                    Solvable::OneSolution
                } else {
                    Solvable::InfiniteSolutions
                }
            } else {
                Solvable::NoSolution
            }
        } else {
            if self.get_determinant().unwrap() != zero() {
                Solvable::OneSolution
            } else {
                let same = match (self.get_rank(), ac.get_rank()) {
                    (Ok(rank), Ok(augmented_rank)) => rank == augmented_rank,
                    (Err(_), Err(_)) => true,
                    _ => false,
                };
                if same {
                    Solvable::InfiniteSolutions
                } else {
                    Solvable::NoSolution
                }
            }
        }
    }

    /// Orders the equations of the linear system with the coefficients
    /// `self` and the constants `c` so that zeros on the diagonal are
    /// avoided where possible: each column in turn picks the first row not
    /// picked before that has a nonzero cell in it. Returns the picked rows
    /// and their constants in the order in which they were picked.
    pub fn shuffle(&self, c: &Vec<i64>) -> (r: (Vec<Vec<i64>>, Vec<i64>))
        requires
            self.wf(),
            c@.len() == self.rows,
        ensures
            self@.picked(ints(c@), self@.pivot_order(), int_rows(r.0@), ints(r.1@)),
    {
        let mut chosen: Vec<usize> = Vec::new();
        let mut shuffled_vec: Vec<Vec<i64>> = Vec::new();
        let mut d: Vec<i64> = Vec::new();
        let mut k: usize = 0;
        proof {
            self.lemma_view();
            assert(indices(chosen@) =~= self@.pivot_order_upto(0));
        }
        while k < self.columns
            invariant
                self.wf(),
                c@.len() == self.rows,
                k <= self.columns,
                indices(chosen@) == self@.pivot_order_upto(k as nat),
                self@.picked(ints(c@), indices(chosen@), int_rows(shuffled_vec@), ints(d@)),
            decreases self.columns - k,
        {
            let ghost before = indices(chosen@);
            let mut found = false;
            let mut i: usize = 0;
            while i < self.rows && !found
                invariant
                    self.wf(),
                    c@.len() == self.rows,
                    k < self.columns,
                    i <= self.rows,
                    before == self@.pivot_order_upto(k as nat),
                    !found ==> indices(chosen@) == before && self@.first_pivot_from(
                        k as int,
                        before,
                        0,
                    ) == self@.first_pivot_from(k as int, before, i as nat),
                    found ==> indices(chosen@) == self@.pivot_order_upto((k + 1) as nat),
                    self@.picked(ints(c@), indices(chosen@), int_rows(shuffled_vec@), ints(d@)),
                decreases self.rows - i + (if found { 0int } else { 1int }),
            {
                if self.cell(i, k) != zero() && !is_chosen(&chosen, i) {
                    let row = self.get_row(i).unwrap();
                    let ghost old_rows = int_rows(shuffled_vec@);
                    let ghost old_constants = ints(d@);
                    shuffled_vec.push(row);
                    d.push(c[i]);
                    chosen.push(i);
                    found = true;
                    proof {
                        assert(self@.first_pivot_from(k as int, before, i as nat) == Some(i as int));
                        assert(indices(chosen@) =~= before.push(i as int));
                        assert(int_rows(shuffled_vec@) =~= old_rows.push(self@.row(i as int)));
                        assert(ints(d@) =~= old_constants.push(c@[i as int] as int));
                    }
                } else {
                    i += 1;
                }
            }
            k += 1;
        }
        (shuffled_vec, d)
    }

    /// Prepares the linear system with the coefficients `self` and the
    /// constants `c` for elimination: returns its equations in the order
    /// of `shuffle`. Fails unless the system has exactly one solution.
    pub fn ordered_system(&self, c: &Vec<i64>) -> (r: Result<(Vec<Vec<i64>>, Vec<i64>), MatholError>)
        requires
            self.wf(),
            c@.len() == self.rows,
            self.columns < usize::MAX,
            self@.solvability_fits(ints(c@)),
            self.rows != self.columns ==> self@.rank() is Some && self@.with_column(
                ints(c@),
            ).rank() is Some,
        ensures
            match r {
                Ok(system) => self@.solvability(ints(c@)) == Solvable::OneSolution && self@.picked(
                    ints(c@),
                    self@.pivot_order(),
                    int_rows(system.0@),
                    ints(system.1@),
                ),
                Err(e) => self@.solvability(ints(c@)) != Solvable::OneSolution && e.is_matrice(
                    "The linear system is not solvable or it has infinite solutions"@,
                ),
            },
    {
        if self.is_solvable(c) != Solvable::OneSolution {
            return Err(
                MatholError::matrice(
                    "The linear system is not solvable or it has infinite solutions",
                ),
            );
        }
        Ok(self.shuffle(c))
    }
}

} // verus!
