use mathol::error::{MatholError, MatriceError};
use mathol::matrices::guard::{determinant_bound_fits, peak_of};
use mathol::matrices::matrice::Matrice;
use mathol::matrices::solvable::Solvable;

fn matrice_error(message: &str) -> MatholError {
    MatholError::MatriceCause(MatriceError { message: message.to_string() })
}

#[test]
fn test_peak_of() {
    assert_eq!(9, peak_of(&vec![3, -9, 7]));
    assert_eq!(1, peak_of(&vec![]));
    assert_eq!(1, peak_of(&vec![0, 0]));
    assert_eq!(1 << 63, peak_of(&vec![5, i64::MIN, i64::MAX]));
    assert_eq!(i64::MAX as u64, peak_of(&vec![5, -i64::MAX]));
}

#[test]
fn test_determinant_bound_fits() {
    assert!(determinant_bound_fits(0, u64::MAX));
    assert!(determinant_bound_fits(1, i64::MAX as u64));
    assert!(!determinant_bound_fits(1, 1 << 63));
    assert!(determinant_bound_fits(2, 2147483647));
    assert!(!determinant_bound_fits(2, 2147483648));
    assert!(determinant_bound_fits(3, 1000000));
    assert!(!determinant_bound_fits(3, 1200000));
    assert!(determinant_bound_fits(4, 1000));
    assert!(determinant_bound_fits(5, 1000));
    assert!(!determinant_bound_fits(5, 10000));
    assert!(determinant_bound_fits(20, 1));
    assert!(!determinant_bound_fits(21, 1));
    assert!(!determinant_bound_fits(usize::MAX, 1));
}

#[test]
fn test_is_well_formed() {
    assert!(Matrice::build_empty_matrice(2, 3).is_well_formed());
    assert!(!Matrice { rows: 2, columns: 2, data: vec![1, 2, 3] }.is_well_formed());
    assert!(!Matrice { rows: usize::MAX, columns: 2, data: vec![] }.is_well_formed());
}

#[test]
fn test_checked_determinant() {
    let m = Matrice::build_matrice(4, 4, vec![1, 2, 0, -1, 4, 0, -3, 2, 9, 0, 0, 4, 8, 1, 3, 1])
        .unwrap();
    assert_eq!(Some(Ok(87)), m.checked_determinant());
    let m = Matrice::build_matrice(2, 3, vec![4, 7, -3, 8, 1, 2]).unwrap();
    assert_eq!(
        Some(Err(matrice_error("The matrice is not quadratic"))),
        m.checked_determinant()
    );
    let m = Matrice::build_matrice(2, 2, vec![i64::MAX, 1, 1, i64::MAX]).unwrap();
    assert_eq!(None, m.checked_determinant());
    let m = Matrice { rows: 2, columns: 2, data: vec![1, 2, 3] };
    assert_eq!(None, m.checked_determinant());
}

#[test]
fn test_checked_inverse_matrice() {
    let m = Matrice::build_matrice(3, 3, vec![1, 0, -1, -8, 4, 1, -2, 1, 0]).unwrap();
    assert_eq!(
        vec![1, 1, -4, 2, 2, -7, 0, 1, -4],
        m.checked_inverse_matrice().unwrap().unwrap().data
    );
    let m = Matrice::build_matrice(2, 2, vec![1, 2, 2, 4]).unwrap();
    assert_eq!(
        Some(Err(matrice_error("The matrice is singular"))),
        m.checked_inverse_matrice()
    );
    let m = Matrice::build_matrice(1, 2, vec![1, 2]).unwrap();
    assert_eq!(
        Some(Err(matrice_error("The matrice is not quadratic"))),
        m.checked_inverse_matrice()
    );
    let m = Matrice::build_matrice(2, 2, vec![i64::MIN, 1, 1, 1]).unwrap();
    assert_eq!(None, m.checked_inverse_matrice());
}

#[test]
fn test_checked_rank() {
    let m = Matrice::build_matrice(3, 4, vec![1, 3, -5, 0, 2, 7, -8, 7, -1, 0, 11, 21]).unwrap();
    assert_eq!(Some(Ok(2)), m.checked_rank());
    let m = Matrice::build_empty_matrice(2, 3);
    assert_eq!(
        Some(Err(matrice_error("Could not calculate rank of matrice"))),
        m.checked_rank()
    );
    let m = Matrice::build_matrice(2, 2, vec![i64::MAX, 1, 1, 1]).unwrap();
    assert_eq!(None, m.checked_rank());
    let m = Matrice::build_matrice(1, 2, vec![i64::MAX, 1]).unwrap();
    assert_eq!(Some(Ok(1)), m.checked_rank());
}

#[test]
fn test_checked_is_solvable() {
    let m = Matrice::build_matrice(2, 3, vec![1, -2, 1, 1, 1, -4]).unwrap();
    assert_eq!(Some(Ok(Solvable::InfiniteSolutions)), m.checked_is_solvable(&vec![1, 8]));
    let m = Matrice::build_matrice(3, 2, vec![1, 2, 5, 9, 2, -3]).unwrap();
    assert_eq!(Some(Ok(Solvable::NoSolution)), m.checked_is_solvable(&vec![4, 9, -10]));
    let m = Matrice::build_matrice(3, 3, vec![1, -2, 1, 2, 1, -1, -1, -4, 3]).unwrap();
    assert_eq!(Some(Ok(Solvable::OneSolution)), m.checked_is_solvable(&vec![6, -3, 14]));
    assert_eq!(None, m.checked_is_solvable(&vec![6, -3]));
    assert_eq!(None, m.checked_is_solvable(&vec![6, -3, i64::MAX]));
    let zeros = Matrice::build_empty_matrice(2, 3);
    assert_eq!(
        Some(Err(matrice_error("Could not calculate rank of matrice"))),
        zeros.checked_is_solvable(&vec![1, 2])
    );
}

#[test]
fn test_checked_ordered_system() {
    let m = Matrice::build_matrice(4, 4, vec![0, 2, 4, 3, 3, 1, 0, 2, 0, 0, 0, 1, 0, 0, 2, 2])
        .unwrap();
    let (vecs, c) = m.checked_ordered_system(&vec![1, 2, 3, 4]).unwrap().unwrap();
    assert_eq!(
        vec![vec![3, 1, 0, 2], vec![0, 2, 4, 3], vec![0, 0, 2, 2], vec![0, 0, 0, 1]],
        vecs
    );
    assert_eq!(vec![2, 1, 4, 3], c);
    let m = Matrice::build_matrice(3, 3, vec![1, 1, -2, 1, -1, -2, 2, 3, -4]).unwrap();
    assert_eq!(
        Some(Err(matrice_error(
            "The linear system is not solvable or it has infinite solutions"
        ))),
        m.checked_ordered_system(&vec![0, 0, 0])
    );
    assert_eq!(None, m.checked_ordered_system(&vec![0, 0]));
}
