//! Verified mathematics utilities centred on a dense integer matrix and the
//! linear-algebra operations built on it.
//!
//! The scalar type is `i64` throughout. Every operation states what it
//! returns over a mathematical model: a matrix is viewed as a grid of
//! integers (`matrices::grid::Grid`), a vector as a pair or a triple of
//! integers, and the contracts speak of sums, products and determinants of
//! unbounded integers.
//!
//! No operation panics and none wraps around. An operation whose result or
//! whose intermediate values might not be representable as `i64` asks in its
//! `requires` that they are (the predicates whose names end in `fits`).
//! `matrices::bounds` proves that a bound on the size of the cells and on
//! the number of rows is enough for that, and `matrices::guard` offers the
//! operations on determinants in a form that tests the bound at run time
//! and returns nothing where it does not hold.
//!
//! Conventions of the determinant: the empty matrix has the determinant 0,
//! a matrix of one cell has that cell as its determinant. The inverse is
//! computed by the adjugate method with a division that truncates; over the
//! integers it is the exact inverse only where the determinant divides
//! every cofactor evenly.

pub mod basics;
pub mod error;
pub mod identities;
pub mod matrices;
pub mod statistics;
pub mod stochastics;
pub mod vectoroperations;
