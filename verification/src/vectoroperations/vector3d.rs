//! Vectors in space.

use vstd::prelude::*;
use crate::basics::fits_i64;

verus! {

/// A triple of integers: the mathematical value of a vector in space.
pub struct Triple {
    pub x: int,
    pub y: int,
    pub z: int,
}

impl Triple {
    /// The sum of two vectors.
    pub open spec fn plus(self, other: Triple) -> Triple {
        Triple { x: self.x + other.x, y: self.y + other.y, z: self.z + other.z }
    }

    /// The difference of two vectors.
    pub open spec fn minus(self, other: Triple) -> Triple {
        Triple { x: self.x - other.x, y: self.y - other.y, z: self.z - other.z }
    }

    /// The vector stretched by `lambda`.
    pub open spec fn scaled(self, lambda: int) -> Triple {
        Triple { x: lambda * self.x, y: lambda * self.y, z: lambda * self.z }
    }

    /// The scalar product of two vectors.
    pub open spec fn dot(self, other: Triple) -> int {
        self.x * other.x + self.y * other.y + self.z * other.z
    }

    /// The vector product of two vectors.
    pub open spec fn cross(self, other: Triple) -> Triple {
        Triple {
            x: self.y * other.z - self.z * other.y,
            y: self.z * other.x - self.x * other.z,
            z: self.x * other.y - self.y * other.x,
        }
    }

    /// The triple product: the scalar product of `self` with the vector
    /// product of `a` and `b`.
    pub open spec fn triple(self, a: Triple, b: Triple) -> int {
        self.dot(a.cross(b))
    }

    /// The square of the length of the vector.
    pub open spec fn square(self) -> int {
        self.x * self.x + self.y * self.y + self.z * self.z
    }

    /// All three coordinates are zero.
    pub open spec fn is_zero(self) -> bool {
        self.x == 0 && self.y == 0 && self.z == 0
    }

    /// All three coordinates are representable as `i64`.
    pub open spec fn fits(self) -> bool {
        fits_i64(self.x) && fits_i64(self.y) && fits_i64(self.z)
    }

    /// Whether the scalar product can be computed in `i64`, from left to
    /// right.
    pub open spec fn dot_fits(self, other: Triple) -> bool {
        &&& fits_i64(self.x * other.x)
        &&& fits_i64(self.y * other.y)
        &&& fits_i64(self.z * other.z)
        &&& fits_i64(self.x * other.x + self.y * other.y)
        &&& fits_i64(self.dot(other))
    }

    /// Whether the vector product can be computed in `i64`.
    pub open spec fn cross_fits(self, other: Triple) -> bool {
        &&& fits_i64(self.y * other.z)
        &&& fits_i64(self.z * other.y)
        &&& fits_i64(self.z * other.x)
        &&& fits_i64(self.x * other.z)
        &&& fits_i64(self.x * other.y)
        &&& fits_i64(self.y * other.x)
        &&& self.cross(other).fits()
    }

    /// Whether the triple product can be computed in `i64`.
    pub open spec fn triple_fits(self, a: Triple, b: Triple) -> bool {
        a.cross_fits(b) && self.dot_fits(a.cross(b))
    }

    /// Whether the square of the length can be computed in `i64`.
    pub open spec fn square_fits(self) -> bool {
        self.dot_fits(self)
    }
}

/// A vector whose square is zero is the zero vector, and the other way
/// round.
pub proof fn lemma_square_zero(v: Triple)
    ensures
        v.square() == 0 <==> v.is_zero(),
        v.square() >= 0,
{
    assert(v.x * v.x >= 0 && (v.x * v.x == 0 ==> v.x == 0)) by (nonlinear_arith);
    assert(v.y * v.y >= 0 && (v.y * v.y == 0 ==> v.y == 0)) by (nonlinear_arith);
    assert(v.z * v.z >= 0 && (v.z * v.z == 0 ==> v.z == 0)) by (nonlinear_arith);
}

/// A vector in space with integer coordinates.
#[derive(Debug, Copy, Clone)]
pub struct Vector3D {
    pub x: i64,
    pub y: i64,
    pub z: i64,
}

impl View for Vector3D {
    type V = Triple;

    open spec fn view(&self) -> Triple {
        Triple { x: self.x as int, y: self.y as int, z: self.z as int }
    }
}

impl Vector3D {
    /// Returns the vector with the coordinates `x`, `y` and `z`.
    pub fn build_vector(x: i64, y: i64, z: i64) -> (v: Vector3D)
        ensures
            v.x == x,
            v.y == y,
            v.z == z,
    {
        Vector3D { x, y, z }
    }

    /// Returns the sum of the two vectors.
    pub fn add_vector(self, vec: Vector3D) -> (v: Vector3D)
        requires
            self@.plus(vec@).fits(),
        ensures
            v@ == self@.plus(vec@),
    {
        Vector3D::build_vector(self.x + vec.x, self.y + vec.y, self.z + vec.z)
    }

    /// Returns the difference of the two vectors.
    pub fn sub_vector(self, vec: Vector3D) -> (v: Vector3D)
        requires
            self@.minus(vec@).fits(),
        ensures
            v@ == self@.minus(vec@),
    {
        Vector3D::build_vector(self.x - vec.x, self.y - vec.y, self.z - vec.z)
    }

    /// Returns the vector stretched by `lambda`.
    pub fn multiply_with_scalar(self, lambda: i64) -> (v: Vector3D)
        requires
            self@.scaled(lambda as int).fits(),
        ensures
            v@ == self@.scaled(lambda as int),
    {
        Vector3D::build_vector(lambda * self.x, lambda * self.y, lambda * self.z)
    }

    /// Returns the scalar product of the two vectors.
    pub fn get_scalar_product(self, vec: Vector3D) -> (p: i64)
        requires
            self@.dot_fits(vec@),
        ensures
            p == self@.dot(vec@),
    {
        self.x * vec.x + self.y * vec.y + self.z * vec.z
    }

    /// Returns the vector product of the two vectors.
    pub fn get_vector_product(self, vec: Vector3D) -> (v: Vector3D)
        requires
            self@.cross_fits(vec@),
        ensures
            v@ == self@.cross(vec@),
    {
        Vector3D::build_vector(
            self.y * vec.z - self.z * vec.y,
            self.z * vec.x - self.x * vec.z,
            self.x * vec.y - self.y * vec.x,
        )
    }

    /// Returns the triple product: the scalar product of `self` with the
    /// vector product of `vec_1` and `vec_2`.
    pub fn get_triple_product(self, vec_1: Vector3D, vec_2: Vector3D) -> (p: i64)
        requires
            self@.triple_fits(vec_1@, vec_2@),
        ensures
            p == self@.triple(vec_1@, vec_2@),
    {
        self.x * (vec_1.y * vec_2.z - vec_1.z * vec_2.y) + self.y * (vec_1.z * vec_2.x - vec_1.x
            * vec_2.z) + self.z * (vec_1.x * vec_2.y - vec_1.y * vec_2.x)
    }

    /// Tells whether the vector is the zero vector, by the square of its
    /// length.
    pub fn has_no_length(self) -> (b: bool)
        requires
            self@.square_fits(),
        ensures
            b == self@.is_zero(),
    {
        proof {
            lemma_square_zero(self@);
        }
        self.x * self.x + self.y * self.y + self.z * self.z == 0
    }
}

} // verus!
