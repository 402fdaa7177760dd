use mathol::statistics::{get_max, get_min, get_span};

#[test]
fn test_get_min_2() {
    let vec = vec![8, 6, 5, 11, 6, 6];
    assert_eq!(5, get_min(&vec).unwrap());
}

#[test]
fn test_get_max_2() {
    let vec = vec![8, 6, 5, 11, 6, 6];
    assert_eq!(11, get_max(&vec).unwrap());
}

#[test]
fn test_get_span_2() {
    let vec = vec![8, 6, 5, 11, 6, 6];
    assert_eq!(6, get_span(&vec).unwrap());
}

#[test]
fn test_statistics_of_nothing() {
    let empty: Vec<i64> = vec![];
    assert_eq!(Err("Vector or Array is empty"), get_min(&empty));
    assert_eq!(Err("Vector or Array is empty"), get_max(&empty));
    assert_eq!(Err("Vector or Array is empty"), get_span(&empty));
}

#[test]
fn test_statistics_of_one() {
    assert_eq!(Ok(-4), get_min(&[-4]));
    assert_eq!(Ok(-4), get_max(&[-4]));
    assert_eq!(Ok(0), get_span(&[-4]));
    assert_eq!(Ok(-9), get_min(&[3, -9, 7, -9]));
    assert_eq!(Ok(7), get_max(&[3, -9, 7, 7]));
    assert_eq!(Ok(16), get_span(&[3, -9, 7]));
}
