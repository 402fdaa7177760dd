//! What holds of the determinant, of the rank and of the order of the
//! equations of every grid.

use vstd::prelude::*;
use crate::matrices::determinant::lemma_diagonal_step;
use crate::matrices::grid::{sign, Grid};

verus! {

/// The determinant of a grid of two rows is the product of the cells on
/// its main diagonal minus the product of the other two cells.
pub proof fn law_determinant_of_two_rows(g: Grid)
    requires
        g.wf(),
        g.rows() == 2,
        g.columns == 2,
    ensures
        g.determinant() == g.at(0, 0) * g.at(1, 1) - g.at(1, 0) * g.at(0, 1),
{
    reveal_with_fuel(Grid::main_diagonal_upto, 3);
    reveal_with_fuel(Grid::side_diagonal_upto, 3);
    assert(g.diagonal_column(0, 0) == 0);
    assert(g.diagonal_column(0, 1) == 1);
    assert(g.main_diagonal(0) == 1 * g.at(0, 0) * g.at(1, 1));
    assert(g.side_diagonal(0) == 1 * g.at(1, 0) * g.at(0, 1));
    assert(1 * g.at(0, 0) * g.at(1, 1) == g.at(0, 0) * g.at(1, 1)) by (nonlinear_arith);
    assert(1 * g.at(1, 0) * g.at(0, 1) == g.at(1, 0) * g.at(0, 1)) by (nonlinear_arith);
}

/// The determinant of a grid of three rows is the sum of the products
/// along its three diagonals from the top left to the bottom right minus
/// the sum of the products along its three diagonals from the bottom left
/// to the top right.
pub proof fn law_determinant_of_three_rows(g: Grid)
    requires
        g.wf(),
        g.rows() == 3,
        g.columns == 3,
    ensures
        g.determinant() == g.at(0, 0) * g.at(1, 1) * g.at(2, 2) + g.at(0, 1) * g.at(1, 2) * g.at(
            2,
            0,
        ) + g.at(0, 2) * g.at(1, 0) * g.at(2, 1) - g.at(2, 0) * g.at(1, 1) * g.at(0, 2) - g.at(
            2,
            1,
        ) * g.at(1, 2) * g.at(0, 0) - g.at(2, 2) * g.at(1, 0) * g.at(0, 1),
{
    reveal_with_fuel(Grid::main_diagonal_upto, 4);
    reveal_with_fuel(Grid::side_diagonal_upto, 4);
    reveal_with_fuel(Grid::main_sum_upto, 4);
    reveal_with_fuel(Grid::side_sum_upto, 4);
    assert(g.diagonal_column(0, 0) == 0 && g.diagonal_column(0, 1) == 1 && g.diagonal_column(0, 2)
        == 2);
    assert(g.diagonal_column(1, 0) == 1 && g.diagonal_column(1, 1) == 2 && g.diagonal_column(1, 2)
        == 0);
    assert(g.diagonal_column(2, 0) == 2 && g.diagonal_column(2, 1) == 0 && g.diagonal_column(2, 2)
        == 1);
    lemma_product_of_three(g.at(0, 0), g.at(1, 1), g.at(2, 2));
    lemma_product_of_three(g.at(0, 1), g.at(1, 2), g.at(2, 0));
    lemma_product_of_three(g.at(0, 2), g.at(1, 0), g.at(2, 1));
    lemma_product_of_three(g.at(2, 0), g.at(1, 1), g.at(0, 2));
    lemma_product_of_three(g.at(2, 1), g.at(1, 2), g.at(0, 0));
    lemma_product_of_three(g.at(2, 2), g.at(1, 0), g.at(0, 1));
    assert(g.main_diagonal(0) == 1 * g.at(0, 0) * g.at(1, 1) * g.at(2, 2));
    assert(g.main_diagonal(1) == 1 * g.at(0, 1) * g.at(1, 2) * g.at(2, 0));
    assert(g.main_diagonal(2) == 1 * g.at(0, 2) * g.at(1, 0) * g.at(2, 1));
    assert(g.side_diagonal(0) == 1 * g.at(2, 0) * g.at(1, 1) * g.at(0, 2));
    assert(g.side_diagonal(1) == 1 * g.at(2, 1) * g.at(1, 2) * g.at(0, 0));
    assert(g.side_diagonal(2) == 1 * g.at(2, 2) * g.at(1, 0) * g.at(0, 1));
}

/// A product of three factors that starts from 1 is the product of the
/// three factors.
proof fn lemma_product_of_three(a: int, b: int, c: int)
    ensures
        1 * a * b * c == a * b * c,
{
    assert(1 * a == a);
}

/// The rank, where there is one, is the size of the largest square window
/// with a nonzero determinant: such a window of that size exists, the size
/// is at least 1 and at most the number of rows and of columns, and no
/// larger window has a nonzero determinant.
pub proof fn law_rank_is_largest(g: Grid, p: nat)
    requires
        g.rank() == Some(p),
    ensures
        1 <= p <= g.rows(),
        p <= g.columns,
        g.has_regular_window(p as int),
        forall|q: int| p < q ==> !g.has_regular_window(q),
{
    lemma_rank_below_is_largest(g, g.largest_window(), p);
    assert forall|q: int| p < q implies !g.has_regular_window(q) by {
        if g.has_regular_window(q) {
            let (i, k) = choose|i: int, k: int| #[trigger] g.regular_window(q, i, k);
            assert(g.regular_window(q, i, k));
        }
    }
}

/// The rank found among the windows of up to `top` rows is the size of
/// the largest of them with a nonzero determinant.
pub proof fn lemma_rank_below_is_largest(g: Grid, top: nat, p: nat)
    requires
        g.rank_below(top) == Some(p),
    ensures
        1 <= p <= top,
        g.has_regular_window(p as int),
        forall|q: int| p < q <= top ==> !g.has_regular_window(q),
    decreases top,
{
    if top > 0 && !g.has_regular_window(top as int) {
        lemma_rank_below_is_largest(g, (top - 1) as nat, p);
    }
}

/// A grid has no rank exactly if no square window of it has a nonzero
/// determinant.
pub proof fn law_rank_missing(g: Grid)
    ensures
        g.rank() is None <==> forall|q: int| !g.has_regular_window(q),
{
    lemma_rank_below_missing(g, g.largest_window());
    if g.rank() is None {
        assert forall|q: int| !g.has_regular_window(q) by {
            if g.has_regular_window(q) {
                let (i, k) = choose|i: int, k: int| #[trigger] g.regular_window(q, i, k);
                assert(g.regular_window(q, i, k));
            }
        }
    }
}

/// No rank is found among the windows of up to `top` rows exactly if none
/// of them has a nonzero determinant.
pub proof fn lemma_rank_below_missing(g: Grid, top: nat)
    ensures
        g.rank_below(top) is None <==> forall|q: int| 1 <= q <= top ==> !g.has_regular_window(q),
    decreases top,
{
    if top > 0 {
        lemma_rank_below_missing(g, (top - 1) as nat);
        if g.rank_below(top) is None {
            assert(!g.has_regular_window(top as int));
        }
    }
}

/// A grid with a nonzero cell has a rank.
pub proof fn law_nonzero_cell_gives_rank(g: Grid, r: int, c: int)
    requires
        g.wf(),
        g.has(r, c),
        g.at(r, c) != 0,
    ensures
        g.rank() is Some,
{
    let w = g.window(r, c, 1);
    assert(w.at(0, 0) == g.at(r, c));
    assert(w.determinant() == w.at(0, 0));
    assert(g.regular_window(1, r, c));
    assert(g.has_regular_window(1));
    law_rank_missing(g);
}

/// Every determinant of a square grid of zeros is zero.
pub proof fn lemma_determinant_of_zeros(g: Grid)
    requires
        g.wf(),
        g.is_square(),
        forall|r: int, c: int| g.has(r, c) ==> #[trigger] g.at(r, c) == 0,
    ensures
        g.determinant() == 0,
    decreases g.rows(), 1nat, 0nat,
{
    let n = g.rows();
    if n == 1 {
        assert(g.has(0, 0));
    } else if n == 2 || n == 3 {
        assert forall|k: int| 0 <= k implies #[trigger] g.main_diagonal(k) == 0 && g.side_diagonal(
            k,
        ) == 0 by {
            lemma_diagonal_step(k + n - 1, n as int);
            assert(g.has(n - 1, g.diagonal_column(k, n - 1)));
            assert(g.has(0, g.diagonal_column(k, n - 1)));
            assert(g.main_diagonal_upto(k, n) == g.main_diagonal_upto(k, (n - 1) as nat) * 0);
            assert(g.side_diagonal_upto(k, n) == g.side_diagonal_upto(k, (n - 1) as nat) * 0);
        }
        if n == 3 {
            reveal_with_fuel(Grid::main_sum_upto, 4);
            reveal_with_fuel(Grid::side_sum_upto, 4);
            assert(g.main_diagonal(0) == 0 && g.main_diagonal(1) == 0 && g.main_diagonal(2) == 0);
            assert(g.side_diagonal(0) == 0 && g.side_diagonal(1) == 0 && g.side_diagonal(2) == 0);
        } else {
            assert(g.main_diagonal(0) == 0 && g.side_diagonal(0) == 0);
        }
    } else if n >= 4 {
        lemma_expansion_of_zeros(g, n);
    }
}

/// Every partial sum of the expansion of the determinant of a square grid
/// of zeros is zero.
pub proof fn lemma_expansion_of_zeros(g: Grid, m: nat)
    requires
        g.wf(),
        g.is_square(),
        g.rows() >= 1,
        m <= g.rows(),
        forall|r: int, c: int| g.has(r, c) ==> #[trigger] g.at(r, c) == 0,
    ensures
        g.laplace_upto(m) == 0,
    decreases g.rows(), 0nat, m,
{
    if m > 0 {
        lemma_expansion_of_zeros(g, (m - 1) as nat);
        let n = g.rows();
        assert(g.has(m - 1, n - 1));
        let s = sign(m - 1 + n - 1);
        let d = g.minor(m - 1, n - 1).determinant();
        assert(g.laplace_term(m - 1) == 0 * s * d);
        assert(0 * s * d == 0) by (nonlinear_arith);
    }
}

/// A grid of zeros has no rank.
pub proof fn law_zeros_have_no_rank(g: Grid)
    requires
        g.wf(),
        forall|r: int, c: int| g.has(r, c) ==> #[trigger] g.at(r, c) == 0,
    ensures
        g.rank() is None,
{
    assert forall|q: int| !g.has_regular_window(q) by {
        if g.has_regular_window(q) {
            let (i, k) = choose|i: int, k: int| #[trigger] g.regular_window(q, i, k);
            let w = g.window(i, k, q as nat);
            assert forall|r: int, c: int| w.has(r, c) implies #[trigger] w.at(r, c) == 0 by {
                assert(g.has(i + r, k + c));
                assert(w.at(r, c) == g.at(i + r, k + c));
            }
            lemma_determinant_of_zeros(w);
        }
    }
    law_rank_missing(g);
}

/// The row that a column picks lies in the grid at or below the row where
/// the search began, was not picked before, and has a nonzero cell in the
/// column.
pub proof fn lemma_first_pivot(g: Grid, k: int, chosen: Seq<int>, i: nat)
    ensures
        match g.first_pivot_from(k, chosen, i) {
            Some(r) => i <= r < g.rows() && !chosen.contains(r) && g.at(r, k) != 0,
            None => true,
        },
    decreases g.rows() - i,
{
    if i < g.rows() && !(g.at(i as int, k) != 0 && !chosen.contains(i as int)) {
        lemma_first_pivot(g, k, chosen, i + 1);
    }
}

/// The rows picked for the first `k` columns are rows of the grid, no row
/// is picked twice, and there are at most `k` of them; where every one of
/// the `k` columns has picked a row, the row at position `j` of the order
/// has a nonzero cell in column `j`.
pub proof fn law_order_of_picks(g: Grid, k: nat)
    ensures
        g.pivot_order_upto(k).len() <= k,
        forall|j: int|
            0 <= j < g.pivot_order_upto(k).len() ==> 0 <= #[trigger] g.pivot_order_upto(k)[j]
                < g.rows(),
        forall|a: int, b: int|
            0 <= a < b < g.pivot_order_upto(k).len() ==> g.pivot_order_upto(k)[a]
                != g.pivot_order_upto(k)[b],
        g.pivot_order_upto(k).len() == k ==> forall|j: int|
            0 <= j < k ==> g.at(#[trigger] g.pivot_order_upto(k)[j], j) != 0,
    decreases k,
{
    if k > 0 {
        law_order_of_picks(g, (k - 1) as nat);
        let before = g.pivot_order_upto((k - 1) as nat);
        lemma_first_pivot(g, k - 1, before, 0);
        match g.first_pivot_from(k - 1, before, 0) {
            Some(r) => {
                let order = before.push(r);
                assert(g.pivot_order_upto(k) == order);
                assert forall|a: int, b: int| 0 <= a < b < order.len() implies order[a]
                    != order[b] by {
                    if b == before.len() {
                        assert(before.contains(before[a]));
                    }
                }
                if order.len() == k {
                    assert forall|j: int| 0 <= j < k implies g.at(#[trigger] order[j], j) != 0 by {
                        if j < k - 1 {
                            assert(order[j] == before[j]);
                        }
                    }
                }
            },
            None => {},
        }
    }
}

} // verus!
