//! Vectors, lines and planes with integer coordinates.

pub mod line3d;
pub mod plane;
pub mod vector2d;
pub mod vector3d;
