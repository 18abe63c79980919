use labworks::arith::{add, divide};

#[test]
fn add_adds() {
    assert_eq!(add(2, 3), 5);
    assert_eq!(add(-4, 1), -3);
}

#[test]
fn divide_rounds_toward_zero() {
    assert_eq!(divide(7, 2), Ok(3));
    assert_eq!(divide(-7, 2), Ok(-3));
    assert_eq!(divide(7, -2), Ok(-3));
    assert_eq!(divide(-7, -2), Ok(3));
    assert_eq!(divide(i32::MIN, 1), Ok(i32::MIN));
}

#[test]
fn divide_by_zero_is_an_error() {
    assert_eq!(divide(1, 0), Err("Division by zero".to_string()));
}

#[test]
fn dividing_min_by_minus_one_is_an_overflow_error() {
    assert_eq!(divide(i32::MIN, -1), Err("Division overflow".to_string()));
    assert_eq!(divide(i32::MIN, -2), Ok(1 << 30));
}
