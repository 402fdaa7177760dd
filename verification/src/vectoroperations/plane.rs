//! Planes in space.

use vstd::prelude::*;
use crate::basics::{fits_i64, quotient, truncating_quotient};
use crate::error::{MatholError, VectorError};
use crate::vectoroperations::line3d::Line3D;
use crate::vectoroperations::vector3d::{Triple, Vector3D};

verus! {

/// A plane in space: the points `p` with `n * (p - r) = 0`.
#[derive(Debug, Copy, Clone)]
pub struct Plane {
    /// A point of the plane.
    pub r: Vector3D,
    /// A normal vector of the plane.
    pub n: Vector3D,
}

impl Plane {
    /// The parameter of the point of the line `l` at which a line that is
    /// not parallel to the plane is cut, rounded towards zero.
    pub open spec fn cut_parameter(self, l: Line3D) -> int {
        quotient(self.n@.dot(self.r@.minus(l.r@)), self.n@.dot(l.a@))
    }

    /// The point at which the line `l` is cut, with the parameter rounded
    /// towards zero.
    pub open spec fn cut_point(self, l: Line3D) -> Triple {
        l.r@.plus(l.a@.scaled(self.cut_parameter(l)))
    }

    /// Whether the point at which the line `l` is cut can be computed in
    /// `i64`.
    pub open spec fn cut_fits(self, l: Line3D) -> bool {
        &&& self.r@.minus(l.r@).fits()
        &&& self.n@.dot_fits(self.r@.minus(l.r@))
        &&& fits_i64(self.cut_parameter(l))
        &&& l.a@.scaled(self.cut_parameter(l)).fits()
        &&& self.cut_point(l).fits()
    }

    /// Returns the plane through the points `p`, `q` and `r`, with `p` as
    /// its point and the vector product of the differences of `q` and `p`
    /// and of `r` and `p` as its normal vector.
    pub fn build_plane_from_three_points(p: Vector3D, q: Vector3D, r: Vector3D) -> (plane: Plane)
        requires
            q@.minus(p@).fits(),
            r@.minus(p@).fits(),
            q@.minus(p@).cross_fits(r@.minus(p@)),
        ensures
            plane.r@ == p@,
            plane.n@ == q@.minus(p@).cross(r@.minus(p@)),
    {
        Plane {
            r: Vector3D::build_vector(p.x, p.y, p.z),
            n: q.sub_vector(p).get_vector_product(r.sub_vector(p)),
        }
    }

    /// Returns the plane with the point `r` and the normal vector `n`.
    pub fn build_plane_with_vectors(r: Vector3D, n: Vector3D) -> (plane: Plane)
        ensures
            plane.r@ == r@,
            plane.n@ == n@,
    {
        Plane { r: Vector3D::build_vector(r.x, r.y, r.z), n: Vector3D::build_vector(n.x, n.y, n.z) }
    }

    /// Tells whether the line is parallel to the plane: its direction is
    /// at a right angle to the normal vector.
    pub fn is_parallel_to_line(self, l: Line3D) -> (b: bool)
        requires
            l.a@.dot_fits(self.n@),
        ensures
            b == (l.a@.dot(self.n@) == 0),
    {
        if l.a.get_scalar_product(self.n) == 0 {
            true
        } else {
            false
        }
    }

    /// Tells whether the two planes are parallel: the vector product of
    /// their normal vectors is the zero vector.
    pub fn is_parallel_to_plane(self, p: Plane) -> (b: bool)
        requires
            self.n@.cross_fits(p.n@),
            self.n@.cross(p.n@).square_fits(),
        ensures
            b == self.n@.cross(p.n@).is_zero(),
    {
        if self.n.get_vector_product(p.n).has_no_length() {
            true
        } else {
            false
        }
    }

    /// Returns the point at which the plane cuts the line `l`, with the
    /// parameter of the point on the line rounded towards zero. Fails when
    /// the line is parallel to the plane.
    pub fn get_cutting_point_with_line(self, l: Line3D) -> (r: Result<Vector3D, MatholError>)
        requires
            l.a@.dot_fits(self.n@),
            l.a@.dot(self.n@) != 0 ==> self.cut_fits(l),
        ensures
            match r {
                Ok(s) => l.a@.dot(self.n@) != 0 && s@ == self.cut_point(l),
                Err(e) => l.a@.dot(self.n@) == 0 && e is VectorCause && e.text()
                    == "The line is parallel to the plane"@,
            },
    {
        if self.is_parallel_to_line(l) {
            return Err(
                MatholError::VectorCause(
                    VectorError { message: "The line is parallel to the plane".to_string() },
                ),
            );
        }
        proof {
            lemma_dot_commutes(l.a@, self.n@);
        }
        let a = self.n.get_scalar_product(self.r.sub_vector(l.r));
        let b = self.n.get_scalar_product(l.a);
        Ok(l.r.add_vector(l.a.multiply_with_scalar(truncating_quotient(a, b))))
    }
}

/// The scalar product does not depend on the order of its factors, nor
/// does whether it can be computed.
pub proof fn lemma_dot_commutes(a: Triple, b: Triple)
    ensures
        a.dot(b) == b.dot(a),
        a.dot_fits(b) == b.dot_fits(a),
{
    assert(a.x * b.x == b.x * a.x) by (nonlinear_arith);
    assert(a.y * b.y == b.y * a.y) by (nonlinear_arith);
    assert(a.z * b.z == b.z * a.z) by (nonlinear_arith);
}

} // verus!
