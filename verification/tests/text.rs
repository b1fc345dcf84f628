use finite_field::decimal::{digits_of, numeral_of};
use finite_field::{FieldElement, FieldError};

#[test]
fn an_element_is_written_with_its_prime_and_its_number() {
    assert_eq!(FieldElement::new(7, 13).unwrap().to_text(), "FieldElement_13(7)");
    assert_eq!(FieldElement::new(0, 1).unwrap().to_text(), "FieldElement_1(0)");
    assert_eq!(
        FieldElement::new(1234567890123456789, 2305843009213693951).unwrap().to_text(),
        "FieldElement_2305843009213693951(1234567890123456789)"
    );
    assert_eq!(
        FieldElement::new(100, i64::MAX).unwrap().to_text(),
        format!("FieldElement_{}({})", i64::MAX, 100)
    );
}

#[test]
fn a_range_error_names_the_number_and_the_range() {
    let err = FieldElement::new(13, 13).unwrap_err();
    assert_eq!(err, FieldError::Range { num: 13, prime: 13 });
    assert_eq!(err.message(), "Num 13 not in field range 0 to 12");
    let err = FieldElement::new(-1, 13).unwrap_err();
    assert_eq!(err.message(), "Num -1 not in field range 0 to 12");
    let err = FieldElement::new(0, 0).unwrap_err();
    assert_eq!(err.message(), "Num 0 not in field range 0 to -1");
}

#[test]
fn a_range_error_message_at_the_limits_of_the_integer_type() {
    let err = FieldElement::new(i64::MAX, i64::MIN).unwrap_err();
    assert_eq!(
        err.message(),
        "Num 9223372036854775807 not in field range 0 to -9223372036854775809"
    );
    let err = FieldElement::new(i64::MIN, i64::MAX).unwrap_err();
    assert_eq!(
        err.message(),
        "Num -9223372036854775808 not in field range 0 to 9223372036854775806"
    );
}

#[test]
fn the_other_errors_have_messages() {
    assert_eq!(
        FieldError::FieldMismatch.message(),
        "Cannot combine two numbers in different Fields"
    );
    assert_eq!(
        FieldError::DivisionByZero.message(),
        "Cannot divide by the zero element of a Field"
    );
}

#[test]
fn digits_of_small_and_large_numbers() {
    assert_eq!(digits_of(0), "0");
    assert_eq!(digits_of(7), "7");
    assert_eq!(digits_of(10), "10");
    assert_eq!(digits_of(1234567890), "1234567890");
    assert_eq!(digits_of(u128::MAX), format!("{}", u128::MAX));
}

#[test]
fn numerals_carry_a_sign_only_below_zero() {
    assert_eq!(numeral_of(0), "0");
    assert_eq!(numeral_of(-1), "-1");
    assert_eq!(numeral_of(42), "42");
    assert_eq!(numeral_of(-9000), "-9000");
    assert_eq!(numeral_of(i128::MAX), format!("{}", i128::MAX));
    assert_eq!(numeral_of(i128::MIN), format!("{}", i128::MIN));
}

#[test]
fn numerals_agree_with_the_standard_formatting() {
    for n in -1200..1200 {
        assert_eq!(numeral_of(n), format!("{}", n));
    }
}
