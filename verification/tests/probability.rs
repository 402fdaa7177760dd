use mathol::error::{
    EmptyVectorError, MatholError, NegativeValueError, OutgrowError, SummationError,
};
use mathol::stochastics::probability::{
    combination, combination_with_repetition, factorial, permutation, variation,
    variation_with_repetition,
};

fn negative(message: &str) -> MatholError {
    MatholError::NegativeValueCause(NegativeValueError { message: message.to_string() })
}

fn outgrow(message: &str) -> MatholError {
    MatholError::OutgrowCause(OutgrowError { message: message.to_string() })
}

#[test]
fn test_factorial() {
    let zero = 0;
    assert_eq!(1, factorial(zero).expect("error"));
    assert_eq!(1, factorial(zero).unwrap());

    assert_eq!(120, factorial(5).unwrap());
    assert_eq!(5040, factorial(7).unwrap());
    assert_eq!(40320, factorial(8).unwrap());
    assert_eq!(479001600, factorial(12).unwrap());
    assert_eq!(2432902008176640000, factorial(20_i64).unwrap());
}

#[test]
fn test_factorial_negative() {
    assert_eq!(Err(negative("Value for factorial must be a positive integer")), factorial(-1));
}

#[test]
fn test_permutation() {
    assert_eq!(10, permutation(5_i64, vec![3_i64, 2_i64]).unwrap());
    assert_eq!(1, permutation(3, vec![3]).unwrap());
    assert_eq!(6, permutation(3, vec![1, 1, 1]).unwrap());
    assert_eq!(60, permutation(5, vec![0, 2, 3, 0]).unwrap() * 6);
}

#[test]
fn test_permutation_failures() {
    assert_eq!(
        Err(MatholError::SummationCause(SummationError {
            message: "Number of total elements is 5, but the summed number of elements from the subset is 6".to_string()
        })),
        permutation(5, vec![3, 3])
    );
    assert_eq!(
        Err(MatholError::SummationCause(SummationError {
            message: "Number of total elements is 5, but the summed number of elements from the subset is -14".to_string()
        })),
        permutation(5, vec![1, -15])
    );
    assert_eq!(
        Err(negative("Parameter n must be a positive integer!")),
        permutation(-1, vec![3, 2])
    );
    assert_eq!(Err(negative("Parameter n must be a positive integer!")), permutation(0, vec![]));
    assert_eq!(
        Err(MatholError::EmptyVecCause(EmptyVectorError {
            message: "Parameter karr is an empty vector!".to_string()
        })),
        permutation(5, vec![])
    );
}

#[test]
fn test_combination_1() {
    assert_eq!(10, combination(5, 3).unwrap());
    assert_eq!(56, combination(8, 5).unwrap());
    assert_eq!(495, combination(12, 8).unwrap());
    assert_eq!(15504, combination(20, 15).unwrap());

    assert_eq!(10, combination(5, 2).unwrap());
    assert_eq!(35, combination(7, 3).unwrap());
    assert_eq!(792, combination(12, 7).unwrap());
    assert_eq!(38760, combination(20_i64, 14_i64).unwrap());

    assert_eq!(1, combination(10, 10).unwrap());
}

#[test]
fn test_combination_failures() {
    assert_eq!(Err(outgrow("k is bigger than n")), combination(10, 11));
    assert_eq!(Err(negative("Parameter n must be a positive integer!")), combination(-1, 2));
    assert_eq!(Err(negative("Parameter k must be a positive integer!")), combination(2, -1));
    assert_eq!(Err(negative("Parameter n must be a positive integer!")), combination(-1, -1));
}

#[test]
fn test_combination_with_repetition() {
    assert_eq!(220, combination_with_repetition(10, 3).unwrap());
}

#[test]
fn test_combination_with_repetition_2() {
    assert_eq!(35, combination_with_repetition(4, 4).unwrap());
}

#[test]
fn test_combination_with_repetition_failures() {
    assert_eq!(
        Err(negative("Parameter n must be a positive integer!")),
        combination_with_repetition(-1, 2)
    );
    assert_eq!(
        Err(negative("Parameter k must be a positive integer!")),
        combination_with_repetition(2, -1)
    );
    assert_eq!(
        Err(negative("Value for factorial must be a positive integer")),
        combination_with_repetition(0, 0)
    );
    assert_eq!(
        Err(negative("Value for factorial must be a positive integer")),
        combination_with_repetition(0, 3)
    );
    assert_eq!(1, combination_with_repetition(3, 0).unwrap());
}

#[test]
fn test_variation_1() {
    assert_eq!(336, variation(8, 3).unwrap());
}

#[test]
fn test_variation_2() {
    assert_eq!(40320, variation(8, 8).unwrap());
}

#[test]
fn test_variation_failures() {
    assert_eq!(Err(outgrow("k is bigger than n")), variation(8, 9));
    assert_eq!(Err(negative("Parameter n must be a positive integer!")), variation(-1, 2));
    assert_eq!(Err(negative("Parameter k must be a positive integer!")), variation(2, -1));
}

#[test]
fn test_variation_with_repetition() {
    assert_eq!(125, variation_with_repetition(5, 3).unwrap());
}

#[test]
fn test_variation_with_repetition_failures() {
    assert_eq!(
        Err(negative("Parameter n must be a positive integer!")),
        variation_with_repetition(-1, 2)
    );
    assert_eq!(
        Err(negative("Parameter k must be a positive integer!")),
        variation_with_repetition(2, -1)
    );
    assert_eq!(1, variation_with_repetition(0, 0).unwrap());
    assert_eq!(0, variation_with_repetition(0, 2).unwrap());
}
