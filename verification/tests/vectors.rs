use mathol::error::{MatholError, VectorError};
use mathol::vectoroperations::line3d::Line3D;
use mathol::vectoroperations::plane::Plane;
use mathol::vectoroperations::vector2d::Vector2D;
use mathol::vectoroperations::vector3d::Vector3D;

#[test]
fn test_multiply_with_scalar_1() {
    let vec = Vector3D {x: 2, y: 3, z: 4};
    assert_eq!(4, vec.multiply_with_scalar(2).x);
    assert_eq!(6, vec.multiply_with_scalar(2).y);
    assert_eq!(8, vec.multiply_with_scalar(2).z);
}

#[test]
fn test_get_scalar_product_1() {
    let a = Vector3D {x: 2, y: 3, z: 4};
    let b = Vector3D {x: 5, y: 6, z: 7};
    assert_eq!(56, a.get_scalar_product(b));
}

#[test]
fn test_get_vector_product() {
    let a = Vector3D {x: 1, y: 4, z: 0};
    let b = Vector3D {x: -2, y: 5, z: 3};
    assert_eq!(12, a.get_vector_product(b).x);
    assert_eq!(-3, a.get_vector_product(b).y);
    assert_eq!(13, a.get_vector_product(b).z);
}

#[test]
fn test_get_triple_product() {
    let a = Vector3D {x: 1, y: -2, z: 4};
    let b = Vector3D {x: 4, y: 1, z: 2};
    let c = Vector3D {x: -2, y: -5, z: 6};
    assert_eq!(0, a.get_triple_product(b, c));
}

#[test]
fn test_build_line_from_two_points() {
    let p = Vector3D::build_vector(-1, 5, 0);
    let q = Vector3D::build_vector(1, -3, 2);
    let line = Line3D::build_line_from_two_points(p, q);
    assert_eq!(-1, line.r.x);
    assert_eq!(5, line.r.y);
    assert_eq!(0, line.r.z);
    assert_eq!(2, line.a.x);
    assert_eq!(-8, line.a.y);
    assert_eq!(2, line.a.z);
}

#[test]
fn test_are_parallel() {
    let l1 = Line3D {r: Vector3D {x: 1, y: 0, z: 5}, a: Vector3D {x: 2, y: 1, z: 1}};
    let l2 = Line3D {r: Vector3D {x: 0, y: 2, z: 1}, a: Vector3D {x: 2, y: 1, z: 1}};
    assert_eq!(true, l1.are_parallel(l2));
}

#[test]
fn test_do_cross() {
    let l1 = Line3D {r: Vector3D {x: 1, y: 1, z: 0}, a: Vector3D {x: 2, y: 1, z: 1}};
    let l2 = Line3D {r: Vector3D {x: 2, y: 0, z: 2}, a: Vector3D {x: 1, y: -1, z: 2}};
    assert_eq!(true, l1.do_cross(l2));
}

#[test]
fn test_are_skew() {
    let l1 = Line3D {r: Vector3D {x: 5, y: 2, z: 1}, a: Vector3D {x: 1, y: 1, z: 3}};
    let l2 = Line3D {r: Vector3D {x: 2, y: -1, z: 0}, a: Vector3D {x: 3, y: 2, z: 1}};
    assert_eq!(true, l1.are_skew(l2));
}

#[test]
fn build_plane_from_three_points() {
    let p = Vector3D {x: 1, y: 1, z: 2};
    let q = Vector3D {x: 0, y: 4, z: -5};
    let r = Vector3D {x: -3, y: 4, z: 9};
    let vec = Plane::build_plane_from_three_points(p, q, r);
    assert_eq!(1, vec.r.x);
    assert_eq!(1, vec.r.y);
    assert_eq!(2, vec.r.z);
    assert_eq!(42, vec.n.x);
    assert_eq!(35, vec.n.y);
    assert_eq!(9, vec.n.z);
}

#[test]
fn test_is_plane_parallel_to_line() {
    let l = Line3D {r: Vector3D {x: 0, y: 7, z: -3}, a: Vector3D {x: 2, y: -1, z: -1}};
    let p = Plane {r: Vector3D {x: 1, y: 3, z: 2}, n: Vector3D {x: 2, y: -1, z: 5}};
    assert_eq!(true, p.is_parallel_to_line(l));
}

#[test]
fn test_is_plane_parallel_to_plane() {
    let p = Plane {r: Vector3D {x: 3, y: 1, z: -2}, n: Vector3D {x: 2, y: -1, z: 4}};
    let q = Plane {r: Vector3D {x: -4, y: 3, z: 0}, n: Vector3D {x: -4, y: 2, z: -8}};
    assert_eq!(true, p.is_parallel_to_plane(q));
}

#[test]
fn test_cutting_point_of_line_with_plane() {
    let l = Line3D::build_line_from_two_points(Vector3D::build_vector(2, 0, 5), Vector3D::build_vector(5, -4, 4));
    let p = Plane::build_plane_with_vectors(Vector3D::build_vector(1, 1, 2), Vector3D::build_vector(2, 1, 1));
    let s = p.get_cutting_point_with_line(l).expect("error");
    assert_eq!(-10, s.x);
    assert_eq!(16, s.y);
    assert_eq!(9, s.z);
}

#[test]
#[should_panic(expected="The line is parallel to the plane")]
fn test_cutting_point_of_line_with_plane_panic() {
    let l = Line3D {r: Vector3D {x: 0, y: 7, z: -3}, a: Vector3D {x: 2, y: -1, z: -1}};
    let p = Plane {r: Vector3D {x: 1, y: 3, z: 2}, n: Vector3D {x: 2, y: -1, z: 5}};
    p.get_cutting_point_with_line(l).expect("error");
}

#[test]
fn test_add_vector2d() {
    let vec_1 = Vector2D::build_vector(1,2);
    let vec_2 = Vector2D::build_vector(3,4);
    let vec_3 = vec_1.add_vector(vec_2);
    assert_eq!(4, vec_3.x);
    assert_eq!(6, vec_3.y);
}

#[test]
fn test_sub_vector2d() {
    let vec_1 = Vector2D::build_vector(1,2);
    let vec_2 = Vector2D::build_vector(3,4);
    let vec_3 = vec_1.sub_vector(vec_2);
    assert_eq!(-2, vec_3.x);
    assert_eq!(-2, vec_3.y);
}

#[test]
fn test_multiply_with_scalar_vector2d() {
    let vec = Vector2D::build_vector(4, -3);
    let res = vec.multiply_with_scalar(6);
    assert_eq!(24, res.x);
    assert_eq!(-18, res.y);
}

#[test]
fn test_get_scalar_product_2d_1() {
    let vec_1 = Vector2D::build_vector(3, 2);
    let vec_2 = Vector2D::build_vector(-1, 5);
    assert_eq!(7, vec_1.get_scalar_product(vec_2));
}

#[test]
fn test_get_scalar_product_2d_2() {
    let vec_1 = Vector2D::build_vector(1, 1);
    let vec_2 = Vector2D::build_vector(-1, 1);
    assert_eq!(0, vec_1.get_scalar_product(vec_2));
}

#[test]
fn test_vector3d_sums() {
    let a = Vector3D::build_vector(1, -2, 3);
    let b = Vector3D::build_vector(10, 20, 30);
    let sum = a.add_vector(b);
    assert_eq!((11, 18, 33), (sum.x, sum.y, sum.z));
    let difference = a.sub_vector(b);
    assert_eq!((-9, -22, -27), (difference.x, difference.y, difference.z));
    assert_eq!(true, Vector3D::build_vector(0, 0, 0).has_no_length());
    assert_eq!(false, Vector3D::build_vector(0, -1, 0).has_no_length());
}

#[test]
fn test_get_vector_product_2d() {
    let a = Vector2D::build_vector(3, 2);
    let b = Vector2D::build_vector(-1, 5);
    assert_eq!(17, a.get_vector_product(b));
}

#[test]
fn test_lines_that_are_not_parallel() {
    let l1 = Line3D { r: Vector3D { x: 1, y: 1, z: 0 }, a: Vector3D { x: 2, y: 1, z: 1 } };
    let l2 = Line3D { r: Vector3D { x: 2, y: 0, z: 2 }, a: Vector3D { x: 1, y: -1, z: 2 } };
    assert_eq!(false, l1.are_parallel(l2));
    assert_eq!(false, l1.are_skew(l2));
    let l3 = Line3D { r: Vector3D { x: 0, y: 2, z: 1 }, a: Vector3D { x: 4, y: 2, z: 2 } };
    assert_eq!(true, l1.are_parallel(l3));
    assert_eq!(false, l1.do_cross(l3));
    assert_eq!(false, l1.are_skew(l3));
}

#[test]
fn test_planes_that_are_not_parallel() {
    let l = Line3D { r: Vector3D { x: 2, y: 0, z: 5 }, a: Vector3D { x: 3, y: -4, z: -1 } };
    let p = Plane { r: Vector3D { x: 1, y: 1, z: 2 }, n: Vector3D { x: 2, y: 1, z: 1 } };
    assert_eq!(false, p.is_parallel_to_line(l));
    let q = Plane { r: Vector3D { x: -4, y: 3, z: 0 }, n: Vector3D { x: -4, y: 2, z: -8 } };
    assert_eq!(false, p.is_parallel_to_plane(q));
}

#[test]
fn test_cutting_point_of_parallel_line() {
    let l = Line3D { r: Vector3D { x: 0, y: 7, z: -3 }, a: Vector3D { x: 2, y: -1, z: -1 } };
    let p = Plane { r: Vector3D { x: 1, y: 3, z: 2 }, n: Vector3D { x: 2, y: -1, z: 5 } };
    match p.get_cutting_point_with_line(l) {
        Err(e) => assert_eq!(
            MatholError::VectorCause(VectorError {
                message: "The line is parallel to the plane".to_string()
            }),
            e
        ),
        Ok(_) => panic!("a parallel line has no cutting point"),
    }
}
