//! Vectors in the plane.

use vstd::prelude::*;
use crate::basics::fits_i64;

verus! {

/// A pair of integers: the mathematical value of a vector in the plane.
pub struct Pair {
    pub x: int,
    pub y: int,
}

impl Pair {
    /// The sum of two vectors.
    pub open spec fn plus(self, other: Pair) -> Pair {
        Pair { x: self.x + other.x, y: self.y + other.y }
    }

    /// The difference of two vectors.
    pub open spec fn minus(self, other: Pair) -> Pair {
        Pair { x: self.x - other.x, y: self.y - other.y }
    }

    /// The vector stretched by `lambda`.
    pub open spec fn scaled(self, lambda: int) -> Pair {
        Pair { x: lambda * self.x, y: lambda * self.y }
    }

    /// The scalar product of two vectors.
    pub open spec fn dot(self, other: Pair) -> int {
        self.x * other.x + self.y * other.y
    }

    /// The vector product of two vectors in the plane, a number.
    pub open spec fn cross(self, other: Pair) -> int {
        self.x * other.y - self.y * other.x
    }

    /// Both coordinates are representable as `i64`.
    pub open spec fn fits(self) -> bool {
        fits_i64(self.x) && fits_i64(self.y)
    }

    /// Whether the scalar product can be computed in `i64`.
    pub open spec fn dot_fits(self, other: Pair) -> bool {
        fits_i64(self.x * other.x) && fits_i64(self.y * other.y) && fits_i64(self.dot(other))
    }

    /// Whether the vector product can be computed in `i64`.
    pub open spec fn cross_fits(self, other: Pair) -> bool {
        fits_i64(self.x * other.y) && fits_i64(self.y * other.x) && fits_i64(self.cross(other))
    }
}

/// A vector in the plane with integer coordinates.
#[derive(Debug, Copy, Clone)]
pub struct Vector2D {
    pub x: i64,
    pub y: i64,
}

impl View for Vector2D {
    type V = Pair;

    open spec fn view(&self) -> Pair {
        Pair { x: self.x as int, y: self.y as int }
    }
}

impl Vector2D {
    /// Returns the vector with the coordinates `x` and `y`.
    pub fn build_vector(x: i64, y: i64) -> (v: Vector2D)
        ensures
            v.x == x,
            v.y == y,
    {
        Vector2D { x, y }
    }

    /// Returns the sum of the two vectors.
    pub fn add_vector(self, vec: Vector2D) -> (v: Vector2D)
        requires
            self@.plus(vec@).fits(),
        ensures
            v@ == self@.plus(vec@),
    {
        Vector2D::build_vector(self.x + vec.x, self.y + vec.y)
    }

    /// Returns the difference of the two vectors.
    pub fn sub_vector(self, vec: Vector2D) -> (v: Vector2D)
        requires
            self@.minus(vec@).fits(),
        ensures
            v@ == self@.minus(vec@),
    {
        Vector2D::build_vector(self.x - vec.x, self.y - vec.y)
    }

    /// Returns the vector stretched by `lambda`.
    pub fn multiply_with_scalar(self, lambda: i64) -> (v: Vector2D)
        requires
            self@.scaled(lambda as int).fits(),
        ensures
            v@ == self@.scaled(lambda as int),
    {
        Vector2D::build_vector(lambda * self.x, lambda * self.y)
    }

    /// Returns the scalar product of the two vectors.
    pub fn get_scalar_product(self, vec: Vector2D) -> (p: i64)
        requires
            self@.dot_fits(vec@),
        ensures
            p == self@.dot(vec@),
    {
        self.x * vec.x + self.y * vec.y
    }

    /// Returns the vector product of the two vectors.
    pub fn get_vector_product(self, vec: Vector2D) -> (p: i64)
        requires
            self@.cross_fits(vec@),
        ensures
            p == self@.cross(vec@),
    {
        self.x * vec.y - self.y * vec.x
    }
}

} // verus!
