use mathol::basics::{pow, upow, Amount};
use mathol::error::{
    ComparisonError, ContainsZeroError, EmptyVectorError, LengthError, MatholError, MatriceError,
    NegativeValueError, OutOfBoundsError, OutgrowError, RangeError, SummationError, VectorError,
};

#[test]
fn test_pow() {
    assert_eq!(125, pow(5, 3));
    assert_eq!(1, pow(2, 0));
}

#[test]
fn test_pow_negative_base() {
    assert_eq!(-8, pow(-2, 3));
    assert_eq!(16, pow(-2, 4));
    assert_eq!(1, pow(-1, 6));
    assert_eq!(-1, pow(-1, 7));
    assert_eq!(0, pow(0, 5));
    assert_eq!(1, pow(0, 0));
    assert_eq!(i64::MIN, pow(-2, 63));
}

#[test]
fn test_upow() {
    assert_eq!(125, upow(5, 3));
    assert_eq!(1, upow(2, 0));
    assert_eq!(1, upow(0, 0));
    assert_eq!(0, upow(0, 3));
    assert_eq!(1 << 63, upow(2, 63));
}

#[test]
fn test_get_amount() {
    assert_eq!(3i8, (-3i8).get_amount());
    assert_eq!(3i16, 3i16.get_amount());
    assert_eq!(7i32, (-7i32).get_amount());
    assert_eq!(0i64, 0i64.get_amount());
    assert_eq!(i64::MAX, (-i64::MAX).get_amount());
    assert_eq!(12isize, (-12isize).get_amount());
}

#[test]
fn test_error_messages() {
    let e = MatholError::matrice("The matrice is not quadratic");
    assert_eq!(
        MatholError::MatriceCause(MatriceError { message: "The matrice is not quadratic".to_string() }),
        e
    );
    assert_eq!("The matrice is not quadratic", e.message());
    let e = MatholError::out_of_bounds("Row is out of bounds");
    assert_eq!(
        MatholError::OutOfBoundsCause(OutOfBoundsError { message: "Row is out of bounds".to_string() }),
        e
    );
    assert_eq!("Row is out of bounds", e.message());
    let e = MatholError::length("Row must have 2 columns".to_string());
    assert_eq!(
        MatholError::LengthCause(LengthError { message: "Row must have 2 columns".to_string() }),
        e
    );
    assert_eq!("Row must have 2 columns", e.message());
}

#[test]
fn test_decimal_text() {
    assert_eq!("0", mathol::error::decimal_text(0));
    assert_eq!("-1", mathol::error::signed_decimal_text(-1));
    assert_eq!(i64::MIN.to_string(), mathol::error::signed_decimal_text(i64::MIN));
    assert_eq!("730", mathol::error::signed_decimal_text(730));
    assert_eq!("9", mathol::error::decimal_text(9));
    assert_eq!("10", mathol::error::decimal_text(10));
    assert_eq!("4096", mathol::error::decimal_text(4096));
    assert_eq!(u64::MAX.to_string(), mathol::error::decimal_text(u64::MAX));
    assert_eq!(
        "Row must have 12 columns",
        MatholError::wrong_length("Row", 12, "columns").message()
    );
}

#[test]
fn test_error_descriptions() {
    assert_eq!("a", NegativeValueError { message: "a".to_string() }.description());
    assert_eq!("b", EmptyVectorError { message: "b".to_string() }.description());
    assert_eq!("c", SummationError { message: "c".to_string() }.description());
    assert_eq!("d", OutgrowError { message: "d".to_string() }.description());
    assert_eq!("e", RangeError { message: "e".to_string() }.description());
    assert_eq!("f", ComparisonError { message: "f".to_string() }.description());
    assert_eq!("g", ContainsZeroError { message: "g".to_string() }.description());
    assert_eq!("h", VectorError { message: "h".to_string() }.description());
    assert_eq!("i", MatriceError { message: "i".to_string() }.description());
    assert_eq!("j", OutOfBoundsError { message: "j".to_string() }.description());
    assert_eq!("k", LengthError { message: "k".to_string() }.description());
    assert_eq!("e", MatholError::RangeCause(RangeError { message: "e".to_string() }).message());
    assert_eq!(
        "g",
        MatholError::ContainsZeroCause(ContainsZeroError { message: "g".to_string() }).message()
    );
    assert_eq!(
        "f",
        MatholError::ComparisonCause(ComparisonError { message: "f".to_string() }).message()
    );
}
