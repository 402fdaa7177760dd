use mathol::error::{LengthError, MatholError, MatriceError, OutOfBoundsError};
use mathol::basics::truncating_quotient;
use mathol::matrices::determinant::alternating_sign;
use mathol::matrices::matrice::Matrice;
use mathol::matrices::solvable::Solvable;
use mathol::matrices::vector_help::get_scalar_product_of_vectors;

fn matrice_error(message: &str) -> MatholError {
    MatholError::MatriceCause(MatriceError { message: message.to_string() })
}

fn bounds_error(message: &str) -> MatholError {
    MatholError::OutOfBoundsCause(OutOfBoundsError { message: message.to_string() })
}

fn length_error(message: &str) -> MatholError {
    MatholError::LengthCause(LengthError { message: message.to_string() })
}

#[test]
fn test_build_empty_matrice() {
    let matrice = Matrice::build_empty_matrice(3, 3);
    let vec = vec![0, 0, 0, 0, 0, 0, 0, 0, 0];
    assert_eq!(vec, matrice.data);
}

#[test]
fn test_build_empty_matrice_shapes() {
    let matrice = Matrice::build_empty_matrice(2, 3);
    assert_eq!(2, matrice.rows);
    assert_eq!(3, matrice.columns);
    assert_eq!(vec![0; 6], matrice.data);
    let empty = Matrice::build_empty_matrice(0, 4);
    assert_eq!(0, empty.data.len());
}

#[test]
fn test_build_matrice() {
    let matrice = Matrice::build_matrice(3, 3, vec![1, 2, 3, 4, 5, 6, 7, 8, 9]).unwrap();
    assert_eq!(vec![1, 2, 3, 4, 5, 6, 7, 8, 9], matrice.data);
}

#[test]
fn test_build_matrice_wrong_length() {
    let message = "Vector is not the same length as the product of rows and columns";
    assert_eq!(
        Err(matrice_error(message)),
        Matrice::build_matrice(3, 3, vec![1, 2, 3, 4, 5, 6, 7, 8])
    );
    assert_eq!(
        Err(matrice_error(message)),
        Matrice::build_matrice(3, 3, vec![0, 1, 2, 3, 4, 5, 6, 7, 8, 9])
    );
    assert_eq!(Err(matrice_error(message)), Matrice::build_matrice(usize::MAX, 2, vec![1, 2]));
}

#[test]
fn test_get_element() {
    let matrice = Matrice::build_matrice(3, 3, vec![1, 2, 3, 4, 5, 6, 7, 8, 9]).unwrap();
    assert_eq!(Ok(1), matrice.get_element(0, 0));
    assert_eq!(Ok(2), matrice.get_element(0, 1));
    assert_eq!(Ok(3), matrice.get_element(0, 2));
    assert_eq!(Ok(4), matrice.get_element(1, 0));
    assert_eq!(Ok(5), matrice.get_element(1, 1));
    assert_eq!(Ok(6), matrice.get_element(1, 2));
    assert_eq!(Ok(7), matrice.get_element(2, 0));
    assert_eq!(Ok(8), matrice.get_element(2, 1));
    assert_eq!(Ok(9), matrice.get_element(2, 2));
}

#[test]
fn test_get_element_out_of_bounds() {
    let matrice = Matrice::build_matrice(3, 3, vec![1, 2, 3, 4, 5, 6, 7, 8, 9]).unwrap();
    assert_eq!(Err(bounds_error("Row is out of bounds")), matrice.get_element(3, 2));
    assert_eq!(Err(bounds_error("Column is out of bounds")), matrice.get_element(2, 3));
    assert_eq!(Err(bounds_error("Row is out of bounds")), matrice.get_element(3, 3));
}

#[test]
fn test_get_element_reads_row_major() {
    let data = vec![10, 11, 12, 13, 20, 21, 22, 23, 30, 31, 32, 33];
    let matrice = Matrice::build_matrice(3, 4, data.clone()).unwrap();
    for p in 0..3 {
        for q in 0..4 {
            assert_eq!(Ok(data[p * 4 + q]), matrice.get_element(p, q));
        }
    }
}

#[test]
fn test_insert_element() {
    let mut m = Matrice::build_empty_matrice(2, 2);
    m.insert_element(1, 0, 0).unwrap();
    m.insert_element(2, 0, 1).unwrap();
    m.insert_element(3, 1, 0).unwrap();
    m.insert_element(4, 1, 1).unwrap();
    assert_eq!(vec![1, 2, 3, 4], m.data);
    assert_eq!(Err(bounds_error("Row is out of bounds")), m.insert_element(5, 2, 0));
    assert_eq!(Err(bounds_error("Column is out of bounds")), m.insert_element(5, 0, 2));
    assert_eq!(vec![1, 2, 3, 4], m.data);
}

#[test]
fn test_get_trace() {
    let matrice = Matrice::build_matrice(3, 3, vec![1, 2, 3, 4, 5, 6, 7, 8, 9]).unwrap();
    assert_eq!(Ok(15), matrice.get_trace());
}

#[test]
fn test_get_trace_not_square() {
    let matrice =
        Matrice::build_matrice(3, 4, vec![1, 2, 3, 4, 5, 6, 7, 8, 9, 10, 11, 12]).unwrap();
    assert_eq!(Err(matrice_error("The matrice is not quadratic")), matrice.get_trace());
    let matrice = Matrice::build_matrice(2, 3, vec![1, 2, 3, 4, 5, 6]).unwrap();
    assert_eq!(Err(matrice_error("The matrice is not quadratic")), matrice.get_trace());
}

#[test]
fn test_add_matrices() {
    let m1 = Matrice::build_matrice(2, 3, vec![1, 5, -3, 4, 0, 8]).unwrap();
    let m2 = Matrice::build_matrice(2, 3, vec![5, 1, 3, -1, 4, 7]).unwrap();
    let m3 = m1.add_matrice(&m2).unwrap();
    assert_eq!(vec![6, 6, 0, 3, 4, 15], m3.data);
}

#[test]
fn test_add_matrices_mismatch() {
    let message = "The two matrices do not have the same number of rows or columns";
    let m1 = Matrice::build_matrice(2, 3, vec![1, 5, -3, 4, 0, 8]).unwrap();
    let m2 = Matrice::build_matrice(2, 2, vec![5, 1, 3, -1]).unwrap();
    assert_eq!(Err(matrice_error(message)), m1.add_matrice(&m2));
    let m1 = Matrice::build_matrice(3, 3, vec![1, 5, -3, 4, 0, 8, 1, 2, 3]).unwrap();
    let m2 = Matrice::build_matrice(2, 3, vec![5, 1, 3, -1, 4, 7]).unwrap();
    assert_eq!(Err(matrice_error(message)), m1.add_matrice(&m2));
}

#[test]
fn test_subtract_matrices() {
    let m1 = Matrice::build_matrice(2, 3, vec![1, 5, -3, 4, 0, 8]).unwrap();
    let m2 = Matrice::build_matrice(2, 3, vec![5, 1, 3, -1, 4, 7]).unwrap();
    let m3 = m1.subtract_matrice(&m2).unwrap();
    assert_eq!(vec![-4, 4, -6, 5, -4, 1], m3.data);
}

#[test]
fn test_subtract_matrices_mismatch() {
    let message = "The two matrices do not have the same number of rows or columns";
    let m1 = Matrice::build_matrice(2, 3, vec![1, 5, -3, 4, 0, 8]).unwrap();
    let m2 = Matrice::build_matrice(2, 2, vec![5, 1, 3, -1]).unwrap();
    assert_eq!(Err(matrice_error(message)), m1.subtract_matrice(&m2));
}

#[test]
fn test_multiply_with_scalar() {
    let matrice = Matrice::build_matrice(2, 3, vec![1, -5, 3, 4, 1, 0]).unwrap();
    assert_eq!(vec![4, -20, 12, 16, 4, 0], matrice.multiply_with_scalar(4).data);
    assert_eq!(vec![-3, 15, -9, -12, -3, 0], matrice.multiply_with_scalar(-3).data);
}

#[test]
fn test_get_row() {
    let a = Matrice::build_matrice(3, 3, vec![1, 4, -2, 0, 1, 1, -3, 2, 5]).unwrap();
    assert_eq!(Ok(vec![1, 4, -2]), a.get_row(0));
    assert_eq!(Ok(vec![0, 1, 1]), a.get_row(1));
    assert_eq!(Ok(vec![-3, 2, 5]), a.get_row(2));
}

#[test]
fn test_get_row_out_of_bounds() {
    let a = Matrice::build_matrice(3, 3, vec![1, 4, -2, 0, 1, 1, -3, 2, 5]).unwrap();
    assert_eq!(Err(bounds_error("Row is out of bounds")), a.get_row(3));
}

#[test]
fn test_get_column() {
    let b = Matrice::build_matrice(3, 3, vec![3, 0, 1, -2, 1, 5, 2, 3, 8]).unwrap();
    assert_eq!(Ok(vec![3, -2, 2]), b.get_column(0));
    assert_eq!(Ok(vec![0, 1, 3]), b.get_column(1));
    assert_eq!(Ok(vec![1, 5, 8]), b.get_column(2));
}

#[test]
fn test_get_column_out_of_bounds() {
    let b = Matrice::build_matrice(3, 3, vec![3, 0, 1, -2, 1, 5, 2, 3, 8]).unwrap();
    assert_eq!(Err(bounds_error("Column is out of bounds")), b.get_column(3));
}

#[test]
fn test_scalar_product() {
    assert_eq!(-6, get_scalar_product_of_vectors(&vec![1, -3, 2], &vec![1, 5, 4]));
    assert_eq!(0, get_scalar_product_of_vectors(&vec![], &vec![1, 5, 4]));
    assert_eq!(11, Matrice::get_scalar_product_of_vectors(&vec![1, 2], &vec![3, 4, 5]));
}

#[test]
fn test_multiply_with_matrice_1() {
    let a = Matrice::build_matrice(3, 3, vec![1, 4, -2, 0, 1, 1, -3, 2, 5]).unwrap();
    let b = Matrice::build_matrice(3, 3, vec![3, 0, 1, -2, 1, 5, 2, 3, 8]).unwrap();
    assert_eq!(vec![-9, -2, 5, 0, 4, 13, -3, 17, 47], a.multiply_with_matrice(&b).unwrap().data);
}

#[test]
fn test_multiply_with_matrice_2() {
    let a = Matrice::build_matrice(2, 3, vec![1, -3, 2, 0, 2, 1]).unwrap();
    let b = Matrice::build_matrice(3, 1, vec![1, 5, 4]).unwrap();
    assert_eq!(vec![-6, 14], a.multiply_with_matrice(&b).unwrap().data);
}

#[test]
fn test_multiply_with_matrice_mismatch() {
    let a = Matrice::build_matrice(3, 1, vec![1, 5, 4]).unwrap();
    let b = Matrice::build_matrice(3, 3, vec![3, 0, 1, -2, 1, 5, 2, 3, 8]).unwrap();
    assert_eq!(
        Err(matrice_error(
            "Matrix A must have the same number of columns as Matrix B has number of rows"
        )),
        a.multiply_with_matrice(&b)
    );
}

#[test]
fn test_get_main_diagonal_product() {
    let m = Matrice::build_matrice(3, 3, vec![1, -2, 3, 2, 0, 1, 6, 5, 1]).unwrap();
    assert_eq!(Ok(0), m.get_main_diagonal_product(0));
    assert_eq!(Ok(-12), m.get_main_diagonal_product(1));
    assert_eq!(Ok(30), m.get_main_diagonal_product(2));
}

#[test]
fn test_get_main_diagonal_product_out_of_bounds() {
    let m = Matrice::build_matrice(3, 3, vec![1, -2, 3, 2, 0, 1, 6, 5, 1]).unwrap();
    assert_eq!(Err(bounds_error("Column is out of bounds")), m.get_main_diagonal_product(3));
}

#[test]
fn test_get_side_diagonal_product() {
    let m = Matrice::build_matrice(3, 3, vec![1, -2, 3, 2, 0, 1, 6, 5, 1]).unwrap();
    assert_eq!(Ok(0), m.get_side_diagonal_product(0));
    assert_eq!(Ok(5), m.get_side_diagonal_product(1));
    assert_eq!(Ok(-4), m.get_side_diagonal_product(2));
}

#[test]
fn test_get_side_diagonal_product_out_of_bounds() {
    let m = Matrice::build_matrice(3, 3, vec![1, -2, 3, 2, 0, 1, 6, 5, 1]).unwrap();
    assert_eq!(Err(bounds_error("Column is out of bounds")), m.get_side_diagonal_product(3));
}

#[test]
fn test_get_determinant_1() {
    let m = Matrice::build_matrice(2, 2, vec![4, 7, -3, 8]).unwrap();
    assert_eq!(Ok(53), m.get_determinant());
}

#[test]
fn test_get_determinant_2() {
    let m = Matrice::build_matrice(3, 3, vec![1, -2, 3, 2, 0, 1, 6, 5, 1]).unwrap();
    assert_eq!(Ok(17), m.get_determinant());
}

#[test]
fn test_get_determinant_3() {
    let m = Matrice::build_matrice(4, 4, vec![1, 2, 0, -1, 4, 0, -3, 2, 9, 0, 0, 4, 8, 1, 3, 1])
        .unwrap();
    assert_eq!(Ok(87), m.get_determinant());
}

#[test]
fn test_get_determinant_4() {
    let m = Matrice::build_matrice(
        5,
        5,
        vec![-1, 1, 0, -2, 0, 0, 2, 1, -1, 4, 1, 0, 0, -3, 1, 1, 2, 0, 0, 3, 0, -2, 1, 2, 2],
    )
    .unwrap();
    assert_eq!(Ok(26), m.get_determinant());
}

#[test]
fn test_get_determinant_not_square() {
    let m = Matrice::build_matrice(2, 3, vec![4, 7, -3, 8, 1, 2]).unwrap();
    assert_eq!(Err(matrice_error("The matrice is not quadratic")), m.get_determinant());
}

#[test]
fn test_get_determinant_small() {
    let m = Matrice::build_matrice(1, 1, vec![-7]).unwrap();
    assert_eq!(Ok(-7), m.get_determinant());
    let m = Matrice::build_matrice(0, 0, vec![]).unwrap();
    assert_eq!(Ok(0), m.get_determinant());
}

#[test]
fn test_alternating_sign() {
    assert_eq!(1, alternating_sign(0));
    assert_eq!(-1, alternating_sign(1));
    assert_eq!(1, alternating_sign(6));
    assert_eq!(-1, alternating_sign(7));
}

#[test]
fn test_truncating_quotient() {
    assert_eq!(3, truncating_quotient(7, 2));
    assert_eq!(-3, truncating_quotient(-7, 2));
    assert_eq!(-3, truncating_quotient(7, -2));
    assert_eq!(3, truncating_quotient(-7, -2));
    assert_eq!(0, truncating_quotient(0, -5));
}

#[test]
fn get_submatrice_1() {
    let m = Matrice::build_matrice(4, 4, vec![1, 2, 0, -1, 4, 0, -3, 2, 9, 0, 0, 4, 8, 1, 3, 1])
        .unwrap();
    assert_eq!(vec![2, 0, -1, 0, -3, 2, 1, 3, 1], m.get_submatrice(2, 0).data);
}

#[test]
fn get_submatrice_2() {
    let m = Matrice::build_matrice(4, 4, vec![1, 2, 0, -1, 4, 0, -3, 2, 9, 0, 0, 4, 8, 1, 3, 1])
        .unwrap();
    assert_eq!(vec![1, 2, 0, 4, 0, -3, 8, 1, 3], m.get_submatrice(2, 3).data);
}

#[test]
fn test_get_submatrice_keeps_the_matrix() {
    let data = vec![1, 2, 0, -1, 4, 0, -3, 2, 9, 0, 0, 4, 8, 1, 3, 1];
    let m = Matrice::build_matrice(4, 4, data.clone()).unwrap();
    let sub = m.get_submatrice(1, 1);
    assert_eq!(3, sub.rows);
    assert_eq!(3, sub.columns);
    assert_eq!(vec![1, 0, -1, 9, 0, 4, 8, 3, 1], sub.data);
    assert_eq!(4, m.rows);
    assert_eq!(4, m.columns);
    assert_eq!(data, m.data);
}

#[test]
fn test_get_inverse_matrice_1() {
    let m = Matrice::build_matrice(3, 3, vec![1, 0, -1, -8, 4, 1, -2, 1, 0]).unwrap();
    assert_eq!(vec![1, 1, -4, 2, 2, -7, 0, 1, -4], m.get_inverse_matrice().unwrap().data);
}

#[test]
fn test_get_inverse_matrice_is_inverse() {
    let m = Matrice::build_matrice(3, 3, vec![1, 0, -1, -8, 4, 1, -2, 1, 0]).unwrap();
    let inverse = m.get_inverse_matrice().unwrap();
    assert_eq!(vec![1, 0, 0, 0, 1, 0, 0, 0, 1], m.multiply_with_matrice(&inverse).unwrap().data);
}

#[test]
fn test_get_inverse_matrice_truncates() {
    let m = Matrice::build_matrice(2, 2, vec![2, 0, 0, 2]).unwrap();
    assert_eq!(vec![0, 0, 0, 0], m.get_inverse_matrice().unwrap().data);
    let m = Matrice::build_matrice(2, 2, vec![1, 2, 3, 4]).unwrap();
    assert_eq!(vec![-2, 1, 1, 0], m.get_inverse_matrice().unwrap().data);
}

#[test]
fn test_get_inverse_matrice_failures() {
    let m = Matrice::build_matrice(2, 3, vec![4, 7, -3, 8, 1, 2]).unwrap();
    assert_eq!(Err(matrice_error("The matrice is not quadratic")), m.get_inverse_matrice());
    let m = Matrice::build_matrice(2, 2, vec![1, 2, 2, 4]).unwrap();
    assert_eq!(Err(matrice_error("The matrice is singular")), m.get_inverse_matrice());
}

#[test]
fn test_insert_row() {
    let mut m = Matrice::build_matrice(2, 2, vec![1, 2, 3, 4]).unwrap();
    m.insert_row(&vec![5, 6]).unwrap();
    assert_eq!(3, m.rows);
    assert_eq!(vec![1, 2, 3, 4, 5, 6], m.data);
}

#[test]
fn test_insert_columns() {
    let mut m = Matrice::build_matrice(2, 2, vec![1, 2, 3, 4]).unwrap();
    m.insert_column(&vec![5, 6]).unwrap();
    assert_eq!(3, m.columns);
    assert_eq!(vec![1, 2, 5, 3, 4, 6], m.data);
}

#[test]
fn test_insert_wrong_length() {
    let mut m = Matrice::build_matrice(2, 2, vec![1, 2, 3, 4]).unwrap();
    assert_eq!(Err(length_error("Row must have 2 columns")), m.insert_row(&vec![5, 6, 7]));
    assert_eq!(Err(length_error("Column must have 2 rows")), m.insert_column(&vec![5]));
    assert_eq!(2, m.rows);
    assert_eq!(2, m.columns);
    assert_eq!(vec![1, 2, 3, 4], m.data);
}

#[test]
fn test_get_slice() {
    let m = Matrice::build_matrice(3, 4, vec![3, 9, 7, 8, 4, 9, 5, 5, 2, 3, 8, 7]).unwrap();
    assert_eq!(vec![3, 9, 7, 4, 9, 5, 2, 3, 8], m.get_slice(0, 0, 3));
    assert_eq!(vec![9, 7, 8, 9, 5, 5, 3, 8, 7], m.get_slice(0, 1, 3));
    assert_eq!(vec![7, 8, 5, 5], m.get_slice(0, 2, 2));
    assert_eq!(vec![9, 5, 3, 8], m.get_slice(1, 1, 2));
    assert_eq!(vec![7], m.get_slice(2, 3, 1));
}

#[test]
fn test_cut_matrices_1() {
    let m = Matrice::build_matrice(2, 3, vec![2, 3, 1, 0, 4, 2]).unwrap();
    let vec = m.cut_matrices(2);
    assert_eq!(2, vec.len());
    assert_eq!(vec![2, 3, 0, 4], vec[0].data);
    assert_eq!(vec![3, 1, 4, 2], vec[1].data);
}

#[test]
fn test_cut_matrices_2() {
    let m = Matrice::build_matrice(3, 2, vec![2, 3, 1, 0, 4, 2]).unwrap();
    let vec = m.cut_matrices(2);
    assert_eq!(2, vec.len());
    assert_eq!(vec![2, 3, 1, 0], vec[0].data);
    assert_eq!(vec![1, 0, 4, 2], vec[1].data);
}

#[test]
fn test_cut_matrices_3() {
    let m = Matrice::build_matrice(2, 3, vec![2, 3, 1, 0, 4, 2]).unwrap();
    let vec = m.cut_matrices(1);
    assert_eq!(6, vec.len());
    assert_eq!(vec![2], vec[0].data);
    assert_eq!(vec![3], vec[1].data);
    assert_eq!(vec![1], vec[2].data);
    assert_eq!(vec![0], vec[3].data);
    assert_eq!(vec![4], vec[4].data);
    assert_eq!(vec![2], vec[5].data);
}

#[test]
fn test_cut_matrices_5() {
    let m = Matrice::build_matrice(3, 4, vec![3, 9, 7, 8, 4, 9, 5, 5, 2, 3, 8, 7]).unwrap();
    let s3 = m.cut_matrices(3);
    assert_eq!(2, s3.len());
    assert_eq!(vec![3, 9, 7, 4, 9, 5, 2, 3, 8], s3[0].data);
    assert_eq!(vec![9, 7, 8, 9, 5, 5, 3, 8, 7], s3[1].data);
    let s2 = m.cut_matrices(2);
    assert_eq!(6, s2.len());
    assert_eq!(vec![3, 9, 4, 9], s2[0].data);
    assert_eq!(vec![9, 7, 9, 5], s2[1].data);
    assert_eq!(vec![7, 8, 5, 5], s2[2].data);
    assert_eq!(vec![4, 9, 2, 3], s2[3].data);
    assert_eq!(vec![9, 5, 3, 8], s2[4].data);
    assert_eq!(vec![5, 5, 8, 7], s2[5].data);
    let s1 = m.cut_matrices(1);
    assert_eq!(12, s1.len());
    assert_eq!(vec![3], s1[0].data);
    assert_eq!(vec![7], s1[11].data);
    assert_eq!((2, 2), (s2[4].rows, s2[4].columns));
}

#[test]
fn test_get_rank_1() {
    let m = Matrice::build_matrice(2, 3, vec![2, 3, 1, 0, 4, 2]).unwrap();
    assert_eq!(Ok(2), m.get_rank());
}

#[test]
fn test_get_rank_2() {
    let m = Matrice::build_matrice(3, 4, vec![1, 3, -5, 0, 2, 7, -8, 7, -1, 0, 11, 21]).unwrap();
    assert_eq!(Ok(2), m.get_rank());
}

#[test]
fn test_get_rank_3() {
    let m = Matrice::build_matrice(3, 4, vec![1, 1, 1, 0, 2, -1, 1, 3, 1, -2, 0, 3]).unwrap();
    assert_eq!(Ok(2), m.get_rank());
}

#[test]
fn test_get_rank_4() {
    let m = Matrice::build_matrice(2, 2, vec![1, 3, 0, 3]).unwrap();
    assert_eq!(Ok(2), m.get_rank());
}

#[test]
fn test_get_rank_of_zeros() {
    let m = Matrice::build_empty_matrice(2, 3);
    assert_eq!(Err(matrice_error("Could not calculate rank of matrice")), m.get_rank());
    let m = Matrice::build_empty_matrice(0, 0);
    assert_eq!(Err(matrice_error("Could not calculate rank of matrice")), m.get_rank());
}

#[test]
fn test_get_rank_one() {
    let m = Matrice::build_matrice(2, 2, vec![1, 2, 2, 4]).unwrap();
    assert_eq!(Ok(1), m.get_rank());
    let m = Matrice::build_matrice(1, 3, vec![0, 0, 5]).unwrap();
    assert_eq!(Ok(1), m.get_rank());
}

#[test]
fn test_is_solvable_1() {
    let m = Matrice::build_matrice(2, 3, vec![1, -2, 1, 1, 1, -4]).unwrap();
    let c = vec![1, 8];
    assert_eq!(Solvable::InfiniteSolutions, m.is_solvable(&c));
}

#[test]
fn test_is_solvable_2() {
    let m = Matrice::build_matrice(3, 2, vec![1, 2, 5, 9, 2, -3]).unwrap();
    let c = vec![4, 9, -10];
    assert_eq!(Solvable::NoSolution, m.is_solvable(&c));
}

#[test]
fn test_is_solvable_3() {
    let m = Matrice::build_matrice(3, 3, vec![1, -2, 1, 2, 1, -1, -1, -4, 3]).unwrap();
    let c = vec![6, -3, 14];
    assert_eq!(Solvable::OneSolution, m.is_solvable(&c));
}

#[test]
fn test_is_solvable_singular_square() {
    let m = Matrice::build_matrice(2, 2, vec![1, 2, 2, 4]).unwrap();
    assert_eq!(Solvable::InfiniteSolutions, m.is_solvable(&vec![3, 6]));
    assert_eq!(Solvable::NoSolution, m.is_solvable(&vec![3, 7]));
    let zeros = Matrice::build_empty_matrice(2, 2);
    assert_eq!(Solvable::InfiniteSolutions, zeros.is_solvable(&vec![0, 0]));
    assert_eq!(Solvable::NoSolution, zeros.is_solvable(&vec![0, 1]));
}

#[test]
fn test_is_solvable_tall_with_one_solution() {
    let m = Matrice::build_matrice(3, 2, vec![1, 0, 0, 1, 1, 1]).unwrap();
    assert_eq!(Solvable::OneSolution, m.is_solvable(&vec![2, 3, 5]));
}

#[test]
fn test_shuffle() {
    let m = Matrice::build_matrice(4, 4, vec![0, 2, 4, 3, 3, 1, 0, 2, 0, 0, 0, 1, 0, 0, 2, 2])
        .unwrap();
    let (vecs, c) = m.shuffle(&vec![1, 2, 3, 4]);
    assert_eq!(
        vec![vec![3, 1, 0, 2], vec![0, 2, 4, 3], vec![0, 0, 2, 2], vec![0, 0, 0, 1]],
        vecs
    );
    assert_eq!(vec![2, 1, 4, 3], c);
}

#[test]
fn test_shuffle_picks_one_row_per_column() {
    let m = Matrice::build_matrice(2, 2, vec![1, 1, 1, 0]).unwrap();
    let (vecs, c) = m.shuffle(&vec![7, 8]);
    assert_eq!(vec![vec![1, 1]], vecs);
    assert_eq!(vec![7], c);
    let m = Matrice::build_matrice(2, 2, vec![0, 0, 0, 0]).unwrap();
    let (vecs, c) = m.shuffle(&vec![7, 8]);
    assert_eq!(0, vecs.len());
    assert_eq!(0, c.len());
}

#[test]
fn test_ordered_system() {
    let m = Matrice::build_matrice(
        4,
        4,
        vec![2, 1, 4, 3, -1, 2, 1, -1, 3, 4, -1, -2, 4, 3, 2, 1],
    )
    .unwrap();
    let (vecs, c) = m.ordered_system(&vec![0, 4, 0, 0]).unwrap();
    assert_eq!(
        vec![vec![2, 1, 4, 3], vec![-1, 2, 1, -1], vec![3, 4, -1, -2], vec![4, 3, 2, 1]],
        vecs
    );
    assert_eq!(vec![0, 4, 0, 0], c);
}

#[test]
fn test_ordered_system_unsolvable() {
    let m = Matrice::build_matrice(3, 3, vec![1, 1, -2, 1, -1, -2, 2, 3, -4]).unwrap();
    assert_eq!(
        Err(matrice_error("The linear system is not solvable or it has infinite solutions")),
        m.ordered_system(&vec![0, 0, 0])
    );
}

#[test]
fn test_insert_wrong_length_many_digits() {
    let mut m = Matrice::build_empty_matrice(1, 120);
    assert_eq!(Err(length_error("Row must have 120 columns")), m.insert_row(&vec![1, 2]));
    let mut m = Matrice::build_empty_matrice(1007, 1);
    assert_eq!(Err(length_error("Column must have 1007 rows")), m.insert_column(&vec![1, 2]));
    let mut m = Matrice::build_empty_matrice(0, 0);
    assert_eq!(Err(length_error("Row must have 0 columns")), m.insert_row(&vec![1]));
}

#[test]
fn test_checked_submatrice() {
    let m = Matrice::build_matrice(2, 3, vec![1, 2, 3, 4, 5, 6]).unwrap();
    let sub = m.checked_submatrice(0, 1).unwrap();
    assert_eq!(1, sub.rows);
    assert_eq!(2, sub.columns);
    assert_eq!(vec![4, 6], sub.data);
    assert_eq!(Err(bounds_error("Row is out of bounds")), m.checked_submatrice(2, 0));
    assert_eq!(Err(bounds_error("Column is out of bounds")), m.checked_submatrice(1, 3));
    assert_eq!(Err(bounds_error("Row is out of bounds")), m.checked_submatrice(2, 3));
}

#[test]
fn test_shuffle_avoids_zero_pivots() {
    let m = Matrice::build_matrice(3, 3, vec![1, 1, 0, 1, 0, 1, 0, 1, 1]).unwrap();
    let (vecs, c) = m.shuffle(&vec![10, 20, 30]);
    assert_eq!(vec![vec![1, 1, 0], vec![0, 1, 1], vec![1, 0, 1]], vecs);
    assert_eq!(vec![10, 30, 20], c);
    for j in 0..3 {
        assert_ne!(0, vecs[j][j]);
    }
}
