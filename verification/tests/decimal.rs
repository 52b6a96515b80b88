use bf_qbe::decimal::decimal_string;

#[test]
fn single_digits_are_written_as_one_character() {
    for digit in 0..10u128 {
        assert_eq!(decimal_string(digit), digit.to_string());
    }
}

#[test]
fn zero_is_written_as_one_zero() {
    assert_eq!(decimal_string(0), "0");
}

#[test]
fn numbers_are_written_without_leading_zeros_most_significant_digit_first() {
    assert_eq!(decimal_string(10), "10");
    assert_eq!(decimal_string(42), "42");
    assert_eq!(decimal_string(100), "100");
    assert_eq!(decimal_string(1234567890), "1234567890");
    assert_eq!(decimal_string(907), "907");
}

#[test]
fn the_largest_number_is_written_in_full() {
    assert_eq!(decimal_string(u128::MAX), "340282366920938463463374607431768211455");
    assert_eq!(decimal_string(u64::MAX as u128), "18446744073709551615");
}

#[test]
fn decimal_notation_agrees_with_the_standard_formatting() {
    let mut number: u128 = 1;
    for _ in 0..60 {
        assert_eq!(decimal_string(number), format!("{}", number));
        assert_eq!(decimal_string(number - 1), format!("{}", number - 1));
        number = number * 7 + 3;
    }
}
