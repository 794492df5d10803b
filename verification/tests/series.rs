use numerilib::Constant;
use numerilib::Functions;
use numerilib::Square;

#[test]
fn summation_constant_test() {
    let start = 0;
    let limit = 9;
    let function = Constant { value: 3 };

    let summation = Functions::summation(&function, start, limit);

    assert_eq!(30, summation);
}

#[test]
fn summation_of_squares() {
    assert_eq!(Functions::summation(&Square, 1, 6), 91);
}

#[test]
fn summation_over_a_negative_range() {
    assert_eq!(Functions::summation(&Square, -3, 3), 28);
}

#[test]
fn summation_over_an_empty_range_is_zero() {
    let three = Constant { value: 3 };
    assert_eq!(Functions::summation(&three, 5, 4), 0);
}

#[test]
fn product_constant_test() {
    let start = 2;
    let limit = 7;
    let function = Constant { value: 3 };

    let product_series = Functions::product(&function, start, limit);

    assert_eq!(729, product_series);
}

#[test]
fn product_function_test() {
    let start = 1;
    let limit = 6;

    let product_series = Functions::product(&Square, start, limit);

    assert_eq!(518400, product_series);
}

#[test]
fn product_over_an_empty_range_is_one() {
    let three = Constant { value: 3 };
    assert_eq!(Functions::product(&three, 8, 2), 1);
}
