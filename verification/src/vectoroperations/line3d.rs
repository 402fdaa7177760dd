//! Lines in space.

use vstd::prelude::*;
use crate::vectoroperations::vector3d::Vector3D;

verus! {

/// A line in space: the points `r + t * a`.
#[derive(Debug, Copy, Clone)]
pub struct Line3D {
    /// A point of the line.
    pub r: Vector3D,
    /// The direction of the line.
    pub a: Vector3D,
}

impl Line3D {
    /// Whether the two lines have the same direction up to a factor: the
    /// vector product of their directions is the zero vector.
    pub open spec fn parallel(self, l: Line3D) -> bool {
        self.a@.cross(l.a@).is_zero()
    }

    /// The triple product that tells crossing lines from skew ones: zero
    /// if the two lines lie in one plane.
    pub open spec fn spread(self, l: Line3D) -> int {
        self.a@.triple(l.a@, l.r@.minus(self.r@))
    }

    /// Whether the test for parallel lines can be computed in `i64`.
    pub open spec fn parallel_fits(self, l: Line3D) -> bool {
        self.a@.cross_fits(l.a@) && self.a@.cross(l.a@).square_fits()
    }

    /// Whether the triple product of the two lines can be computed in
    /// `i64`.
    pub open spec fn spread_fits(self, l: Line3D) -> bool {
        l.r@.minus(self.r@).fits() && self.a@.triple_fits(l.a@, l.r@.minus(self.r@))
    }

    /// Returns the line through the points `p` and `q`, with `p` as its
    /// point and the difference of `q` and `p` as its direction.
    pub fn build_line_from_two_points(p: Vector3D, q: Vector3D) -> (l: Line3D)
        requires
            q@.minus(p@).fits(),
        ensures
            l.r@ == p@,
            l.a@ == q@.minus(p@),
    {
        Line3D { r: Vector3D::build_vector(p.x, p.y, p.z), a: q.sub_vector(p) }
    }

    /// Tells whether the two lines are parallel.
    pub fn are_parallel(self, l: Line3D) -> (b: bool)
        requires
            self.parallel_fits(l),
        ensures
            b == self.parallel(l),
    {
        if self.a.get_vector_product(l.a).has_no_length() {
            true
        } else {
            false
        }
    }

    /// Tells whether the two lines cross: they are not parallel and lie
    /// in one plane.
    pub fn do_cross(self, l: Line3D) -> (b: bool)
        requires
            self.parallel_fits(l),
            !self.parallel(l) ==> self.spread_fits(l),
        ensures
            b == (!self.parallel(l) && self.spread(l) == 0),
    {
        if !self.are_parallel(l) && self.a.get_triple_product(l.a, l.r.sub_vector(self.r)) == 0 {
            true
        } else {
            false
        }
    }

    /// Tells whether the two lines are skew: they are not parallel and do
    /// not lie in one plane.
    pub fn are_skew(self, l: Line3D) -> (b: bool)
        requires
            self.parallel_fits(l),
            !self.parallel(l) ==> self.spread_fits(l),
        ensures
            b == (!self.parallel(l) && self.spread(l) != 0),
    {
        if !self.are_parallel(l) && self.a.get_triple_product(l.a, l.r.sub_vector(self.r)) != 0 {
            true
        } else {
            false
        }
    }
}

} // verus!
