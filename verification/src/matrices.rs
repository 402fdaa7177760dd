//! Dense matrices over `i64` and the linear-algebra operations on them.

pub mod bounds;
pub mod determinant;
pub mod grid;
pub mod guard;
pub mod laws;
pub mod matrice;
pub mod rank;
pub mod solvable;
pub mod system;
pub mod vector_help;
