//! Conditions under which the computations on a matrix are known to stay
//! within `i64`: a bound on the size of the cells and on the number of
//! rows.

use vstd::prelude::*;
use vstd::arithmetic::power::{lemma_pow1, lemma_pow_increases, pow as power};
use crate::basics::{fits_i64, lemma_quotient_is_smaller};
use crate::matrices::determinant::lemma_diagonal_step;
use crate::matrices::grid::{sign, Grid};

verus! {

/// Whether `x` lies between `-m` and `m`.
pub open spec fn within(x: int, m: int) -> bool {
    -m <= x <= m
}

/// Whether every cell of `g` lies between `-b` and `b`.
pub open spec fn cells_within(g: Grid, b: nat) -> bool {
    forall|r: int, c: int| g.has(r, c) ==> within(#[trigger] g.at(r, c), b as int)
}

/// A bound on the size of the determinant of a grid of `n` rows whose
/// cells lie between `-b` and `b`, and of every number formed while the
/// determinant is computed.
pub open spec fn determinant_bound(n: nat, b: nat) -> int
    decreases n,
{
    if n == 0 {
        0
    } else if n == 1 {
        b as int
    } else if n == 2 {
        2 * power(b as int, 2)
    } else if n == 3 {
        6 * power(b as int, 3)
    } else {
        n * b * determinant_bound((n - 1) as nat, b)
    }
}

/// The product of two bounded numbers is bounded by the product of the
/// bounds.
pub proof fn lemma_product_within(x: int, a: int, p: int, q: int)
    requires
        within(x, p),
        within(a, q),
    ensures
        within(x * a, p * q),
        p * q >= 0,
{
    assert((p - x) * (q - a) >= 0) by (nonlinear_arith)
        requires
            p - x >= 0,
            q - a >= 0,
    ;
    assert((p + x) * (q + a) >= 0) by (nonlinear_arith)
        requires
            p + x >= 0,
            q + a >= 0,
    ;
    assert((p - x) * (q + a) >= 0) by (nonlinear_arith)
        requires
            p - x >= 0,
            q + a >= 0,
    ;
    assert((p + x) * (q - a) >= 0) by (nonlinear_arith)
        requires
            p + x >= 0,
            q - a >= 0,
    ;
    assert((p - x) * (q - a) == p * q - p * a - x * q + x * a) by (nonlinear_arith);
    assert((p + x) * (q + a) == p * q + p * a + x * q + x * a) by (nonlinear_arith);
    assert((p - x) * (q + a) == p * q + p * a - x * q - x * a) by (nonlinear_arith);
    assert((p + x) * (q - a) == p * q - p * a + x * q - x * a) by (nonlinear_arith);
}

/// The bound is at least the bound on the cells, and grows with the number
/// of rows.
pub proof fn lemma_determinant_bound_grows(n: nat, b: nat)
    requires
        n >= 1,
        b >= 1,
    ensures
        determinant_bound(n, b) >= b,
        determinant_bound(n, b) >= determinant_bound((n - 1) as nat, b),
    decreases n,
{
    lemma_pow1(b as int);
    lemma_pow_increases(b, 1, 2);
    lemma_pow_increases(b, 2, 3);
    if n >= 4 {
        lemma_determinant_bound_grows((n - 1) as nat, b);
        let below = determinant_bound((n - 1) as nat, b);
        assert(n * b * below >= below) by (nonlinear_arith)
            requires
                n >= 1,
                b >= 1,
                below >= 0,
        ;
    }
}

/// The bound for fewer rows is not larger.
pub proof fn lemma_determinant_bound_ordered(m: nat, n: nat, b: nat)
    requires
        m <= n,
        b >= 1,
    ensures
        0 <= determinant_bound(m, b) <= determinant_bound(n, b),
    decreases n,
{
    if m < n {
        lemma_determinant_bound_grows(n, b);
        lemma_determinant_bound_ordered(m, (n - 1) as nat, b);
    } else if n >= 1 {
        lemma_determinant_bound_grows(n, b);
    }
}

/// The product of the first `m` cells of a main diagonal is bounded by the
/// `m`-th power of the bound on the cells.
pub proof fn lemma_main_diagonal_within(g: Grid, b: nat, k: int, m: nat)
    requires
        g.wf(),
        g.columns > 0,
        cells_within(g, b),
        0 <= k,
        m <= g.rows(),
    ensures
        within(g.main_diagonal_upto(k, m), power(b as int, m)),
    decreases m,
{
    reveal(power);
    if m > 0 {
        lemma_main_diagonal_within(g, b, k, (m - 1) as nat);
        lemma_diagonal_step(k + m - 1, g.columns as int);
        let a = g.at(m - 1, g.diagonal_column(k, m - 1));
        assert(g.has(m - 1, g.diagonal_column(k, m - 1)));
        lemma_product_within(
            g.main_diagonal_upto(k, (m - 1) as nat),
            a,
            power(b as int, (m - 1) as nat),
            b as int,
        );
        assert(power(b as int, m) == b * power(b as int, (m - 1) as nat));
        assert(b * power(b as int, (m - 1) as nat) == power(b as int, (m - 1) as nat) * b)
            by (nonlinear_arith);
    }
}

/// The product of the first `m` cells of a side diagonal is bounded by the
/// `m`-th power of the bound on the cells.
pub proof fn lemma_side_diagonal_within(g: Grid, b: nat, k: int, m: nat)
    requires
        g.wf(),
        g.columns > 0,
        cells_within(g, b),
        0 <= k,
        m <= g.rows(),
    ensures
        within(g.side_diagonal_upto(k, m), power(b as int, m)),
    decreases m,
{
    reveal(power);
    if m > 0 {
        lemma_side_diagonal_within(g, b, k, (m - 1) as nat);
        lemma_diagonal_step(k + m - 1, g.columns as int);
        let a = g.at(g.rows() - m, g.diagonal_column(k, m - 1));
        assert(g.has(g.rows() - m, g.diagonal_column(k, m - 1)));
        lemma_product_within(
            g.side_diagonal_upto(k, (m - 1) as nat),
            a,
            power(b as int, (m - 1) as nat),
            b as int,
        );
        assert(power(b as int, m) == b * power(b as int, (m - 1) as nat));
        assert(b * power(b as int, (m - 1) as nat) == power(b as int, (m - 1) as nat) * b)
            by (nonlinear_arith);
    }
}

/// The sums of the first `m` main and side diagonal products are bounded
/// by `m` times the power of the bound on the cells.
pub proof fn lemma_diagonal_sums_within(g: Grid, b: nat, m: nat)
    requires
        g.wf(),
        g.columns > 0,
        cells_within(g, b),
    ensures
        within(g.main_sum_upto(m), m * power(b as int, g.rows())),
        within(g.side_sum_upto(m), m * power(b as int, g.rows())),
    decreases m,
{
    let p = power(b as int, g.rows());
    if m > 0 {
        lemma_diagonal_sums_within(g, b, (m - 1) as nat);
        lemma_main_diagonal_within(g, b, m - 1, g.rows());
        lemma_side_diagonal_within(g, b, m - 1, g.rows());
        assert(m * p == (m - 1) * p + p) by (nonlinear_arith);
    } else {
        assert(0 * p == 0) by (nonlinear_arith);
    }
}

/// A grid without one of its rows and one of its columns is square if the
/// grid is, and its cells are as bounded as those of the grid.
pub proof fn lemma_minor_within(g: Grid, b: nat, i: int, k: int)
    requires
        g.wf(),
        g.is_square(),
        g.has(i, k),
        cells_within(g, b),
    ensures
        g.minor(i, k).wf(),
        g.minor(i, k).is_square(),
        g.minor(i, k).rows() == g.rows() - 1,
        cells_within(g.minor(i, k), b),
{
    let below = g.minor(i, k);
    assert forall|r: int, c: int| below.has(r, c) implies within(
        #[trigger] below.at(r, c),
        b as int,
    ) by {
        let from_row = if r < i { r } else { r + 1 };
        let from_column = if c < k { c } else { c + 1 };
        assert(g.has(from_row, from_column));
        assert(below.at(r, c) == g.at(from_row, from_column));
    }
}

/// The determinant of a square grid with bounded cells can be computed in
/// `i64` whenever the bound for its number of rows is representable, and
/// the determinant is then within that bound.
pub proof fn lemma_bounded_determinant_fits(g: Grid, b: nat)
    requires
        g.wf(),
        g.is_square(),
        b >= 1,
        cells_within(g, b),
        determinant_bound(g.rows(), b) <= i64::MAX,
    ensures
        g.determinant_fits(),
        within(g.determinant(), determinant_bound(g.rows(), b)),
    decreases g.rows(), 1nat, 0nat,
{
    let n = g.rows();
    if n == 0 {
    } else if n == 1 {
        assert(g.has(0, 0));
    } else if n == 2 || n == 3 {
        let p = power(b as int, n);
        vstd::arithmetic::power::lemma_pow_positive(b as int, n);
        assert forall|k: int| 0 <= k implies #[trigger] g.main_diagonal_fits(k)
            && g.side_diagonal_fits(k) by {
            assert forall|m: nat| m <= n implies fits_i64(#[trigger] g.main_diagonal_upto(k, m)) by {
                lemma_main_diagonal_within(g, b, k, m);
                lemma_pow_increases(b, m, n);
            }
            assert forall|m: nat| m <= n implies fits_i64(#[trigger] g.side_diagonal_upto(k, m)) by {
                lemma_side_diagonal_within(g, b, k, m);
                lemma_pow_increases(b, m, n);
            }
        }
        assert(g.main_diagonal_fits(0) && g.side_diagonal_fits(0));
        if n == 3 {
            assert forall|m: nat| m <= 3 implies fits_i64(#[trigger] g.main_sum_upto(m))
                && fits_i64(g.side_sum_upto(m)) by {
                lemma_diagonal_sums_within(g, b, m);
                assert(m * p <= 3 * p) by (nonlinear_arith)
                    requires
                        m <= 3,
                        p >= 0,
                ;
            }
            lemma_diagonal_sums_within(g, b, 3);
        } else {
            lemma_main_diagonal_within(g, b, 0, n);
            lemma_side_diagonal_within(g, b, 0, n);
        }
    } else {
        lemma_bounded_expansion_fits(g, b, n);
        assert((n * b) * determinant_bound((n - 1) as nat, b) == determinant_bound(n, b));
    }
}

/// The first `m` steps of the expansion of the determinant of a square
/// grid with bounded cells can be computed in `i64` whenever the bound for
/// its number of rows is representable, and their sum is within `m` times
/// the bound on the cells times the bound for one row less.
pub proof fn lemma_bounded_expansion_fits(g: Grid, b: nat, m: nat)
    requires
        g.wf(),
        g.is_square(),
        g.rows() >= 2,
        b >= 1,
        cells_within(g, b),
        g.rows() * b * determinant_bound((g.rows() - 1) as nat, b) <= i64::MAX,
        m <= g.rows(),
    ensures
        g.laplace_fits_upto(m),
        within(g.laplace_upto(m), m * b * determinant_bound((g.rows() - 1) as nat, b)),
    decreases g.rows(), 0nat, m,
{
    let n = g.rows();
    let d = determinant_bound((n - 1) as nat, b);
    lemma_determinant_bound_grows((n - 1) as nat, b);
    assert(b * d >= 0) by (nonlinear_arith)
        requires
            b >= 1,
            d >= 0,
    ;
    if m == 0 {
        assert(0 * b * d == 0) by (nonlinear_arith);
    } else {
        let i = m - 1;
        lemma_bounded_expansion_fits(g, b, (m - 1) as nat);
        assert(m * b * d == (m - 1) * b * d + b * d) by (nonlinear_arith);
        assert(m * b * d <= n * b * d) by (nonlinear_arith)
            requires
                m <= n,
                b * d >= 0,
        ;
        assert(b * d <= n * b * d) by (nonlinear_arith)
            requires
                n >= 1,
                b * d >= 0,
        ;
        assert(d <= b * d) by (nonlinear_arith)
            requires
                b >= 1,
                d >= 0,
        ;
        let below = g.minor(i, n - 1);
        lemma_minor_within(g, b, i, n - 1);
        lemma_bounded_determinant_fits(below, b);
        let a = g.at(i, n - 1);
        let s = sign(i + n - 1);
        assert(g.has(i, n - 1));
        assert(within(a * s, b as int)) by {
            if s == 1 {
                assert(a * s == a) by (nonlinear_arith)
                    requires
                        s == 1,
                ;
            } else {
                assert(a * s == -a) by (nonlinear_arith)
                    requires
                        s == -1,
                ;
            }
        }
        lemma_product_within(a * s, below.determinant(), b as int, d);
        assert(g.laplace_term(i) == a * s * below.determinant());
        assert(g.laplace_upto(m) == g.laplace_upto((m - 1) as nat) + g.laplace_term(i));
        assert(g.laplace_step_fits(i));
    }
}

/// A square window of a grid is a square grid whose cells are as bounded
/// as those of the grid.
pub proof fn lemma_window_within(g: Grid, b: nat, p: int, i: int, k: int)
    requires
        g.wf(),
        cells_within(g, b),
        g.window_inside(p, i, k),
    ensures
        g.window(i, k, p as nat).wf(),
        g.window(i, k, p as nat).is_square(),
        g.window(i, k, p as nat).rows() == p,
        cells_within(g.window(i, k, p as nat), b),
{
    let w = g.window(i, k, p as nat);
    assert forall|r: int, c: int| w.has(r, c) implies within(#[trigger] w.at(r, c), b as int) by {
        assert(g.has(i + r, k + c));
        assert(w.at(r, c) == g.at(i + r, k + c));
    }
}

/// The search for the rank of a grid with bounded cells can be computed in
/// `i64` whenever the bound for its largest window is representable.
pub proof fn lemma_bounded_rank_fits(g: Grid, b: nat)
    requires
        g.wf(),
        b >= 1,
        cells_within(g, b),
        determinant_bound(g.largest_window(), b) <= i64::MAX,
    ensures
        g.rank_fits(),
{
    assert forall|p: int, i: int, k: int| #[trigger] g.window_reached(p, i, k) implies g.window(
        i,
        k,
        p as nat,
    ).determinant_fits() by {
        lemma_window_within(g, b, p, i, k);
        lemma_determinant_bound_ordered(p as nat, g.largest_window(), b);
        lemma_bounded_determinant_fits(g.window(i, k, p as nat), b);
    }
}

/// The inverse of a square grid with bounded cells and a nonzero
/// determinant can be computed in `i64` whenever the bound for its number
/// of rows is representable.
pub proof fn lemma_bounded_inverse_fits(g: Grid, b: nat)
    requires
        g.wf(),
        g.is_square(),
        b >= 1,
        cells_within(g, b),
        determinant_bound(g.rows(), b) <= i64::MAX,
        g.determinant() != 0,
    ensures
        g.inverse_fits(),
{
    let n = g.rows();
    assert forall|i: int, k: int| g.has(i, k) implies #[trigger] g.inverse_cell_fits(i, k) by {
        let below = g.minor(i, k);
        lemma_minor_within(g, b, i, k);
        lemma_determinant_bound_ordered((n - 1) as nat, n, b);
        lemma_bounded_determinant_fits(below, b);
        let d = below.determinant();
        let s = sign(i + k);
        if s == 1 {
            assert(d * s == d) by (nonlinear_arith)
                requires
                    s == 1,
            ;
        } else {
            assert(d * s == -d) by (nonlinear_arith)
                requires
                    s == -1,
            ;
        }
        lemma_quotient_is_smaller(g.cofactor(i, k), g.determinant());
    }
}

/// A grid with bounded cells, augmented by a column of bounded elements,
/// is a grid with bounded cells.
pub proof fn lemma_augmented_within(g: Grid, c: Seq<int>, b: nat)
    requires
        g.wf(),
        cells_within(g, b),
        c.len() == g.rows(),
        forall|r: int| 0 <= r < c.len() ==> within(#[trigger] c[r], b as int),
    ensures
        g.with_column(c).wf(),
        g.with_column(c).rows() == g.rows(),
        g.with_column(c).columns == g.columns + 1,
        cells_within(g.with_column(c), b),
{
    let a = g.with_column(c);
    assert forall|r: int, k: int| a.has(r, k) implies within(#[trigger] a.at(r, k), b as int) by {
        if k < g.columns {
            assert(g.has(r, k));
            assert(a.at(r, k) == g.at(r, k));
        } else {
            assert(a.at(r, k) == c[r]);
        }
    }
}

/// Whether a linear system can be solved is decided within `i64` whenever
/// its coefficients and constants are bounded and the bound for the
/// largest window of the augmented grid is representable.
pub proof fn lemma_bounded_solvability_fits(g: Grid, c: Seq<int>, b: nat)
    requires
        g.wf(),
        b >= 1,
        cells_within(g, b),
        c.len() == g.rows(),
        forall|r: int| 0 <= r < c.len() ==> within(#[trigger] c[r], b as int),
        determinant_bound(g.with_column(c).largest_window(), b) <= i64::MAX,
    ensures
        g.solvability_fits(c),
{
    let a = g.with_column(c);
    lemma_augmented_within(g, c, b);
    lemma_determinant_bound_ordered(g.largest_window(), a.largest_window(), b);
    lemma_bounded_rank_fits(g, b);
    lemma_bounded_rank_fits(a, b);
    if g.is_square() {
        lemma_bounded_determinant_fits(g, b);
    }
}

} // verus!
