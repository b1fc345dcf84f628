use finite_field::{FieldElement, FieldError};

const MODULI: [i64; 6] = [2, 3, 13, 31, 57, 97];

const PRIMES: [i64; 5] = [2, 3, 13, 31, 97];

const MERSENNE_61: i64 = 2305843009213693951;

const LARGEST_PRIME: i64 = 9223372036854775783;

fn element(num: i64, prime: i64) -> FieldElement {
    FieldElement::new(num, prime).unwrap()
}

#[test]
fn sums_differences_and_products_stay_in_the_field() {
    for prime in [1, 2, 3, 13, 57] {
        for x in 0..prime {
            for y in 0..prime {
                let a = element(x, prime);
                let b = element(y, prime);
                for c in [(a + b).unwrap(), (a - b).unwrap(), (a * b).unwrap()] {
                    assert!(0 <= c.num() && c.num() < prime);
                    assert_eq!(c.prime(), prime);
                }
            }
        }
    }
}

#[test]
fn sums_differences_and_products_have_the_residue_of_the_plain_result() {
    let prime: i64 = 57;
    for x in 0..prime {
        for y in 0..prime {
            let a = element(x, prime);
            let b = element(y, prime);
            assert_eq!((a + b).unwrap().num(), (x + y).rem_euclid(prime));
            assert_eq!((a - b).unwrap().num(), (x - y).rem_euclid(prime));
            assert_eq!((a * b).unwrap().num(), (x * y).rem_euclid(prime));
        }
    }
}

#[test]
fn an_element_minus_itself_is_zero() {
    for prime in MODULI {
        for x in 0..prime {
            let a = element(x, prime);
            assert_eq!(a - a, FieldElement::new(0, prime));
        }
    }
    let a = element(LARGEST_PRIME - 1, LARGEST_PRIME);
    assert_eq!(a - a, FieldElement::new(0, LARGEST_PRIME));
}

#[test]
fn a_nonzero_element_divided_by_itself_is_one() {
    for prime in PRIMES {
        for x in 1..prime {
            let a = element(x, prime);
            assert_eq!(a / a, FieldElement::new(1, prime));
        }
    }
    for x in [1, 2, 1234567890123456789, MERSENNE_61 - 1] {
        let a = element(x, MERSENNE_61);
        assert_eq!(a / a, FieldElement::new(1, MERSENNE_61));
    }
}

#[test]
fn a_nonzero_element_to_the_field_order_minus_one_is_one() {
    for prime in MODULI {
        for x in 1..prime {
            let a = element(x, prime);
            assert_eq!(a.pow(prime - 1), element(1, prime));
        }
    }
    let a = element(987654321987654321, LARGEST_PRIME);
    assert_eq!(a.pow(LARGEST_PRIME - 1), element(1, LARGEST_PRIME));
}

#[test]
fn the_plain_power_to_a_prime_minus_one_has_residue_one() {
    for prime in PRIMES {
        for x in 1..prime {
            assert_eq!(FieldElement::powmod(x, (prime - 1) as u64, prime), 1);
        }
    }
    assert_eq!(FieldElement::powmod(3, (MERSENNE_61 - 1) as u64, MERSENNE_61), 1);
    assert_eq!(FieldElement::powmod(2, (LARGEST_PRIME - 1) as u64, LARGEST_PRIME), 1);
}

#[test]
fn pow_agrees_with_the_plain_power_in_a_prime_field() {
    for prime in PRIMES {
        for x in 1..prime {
            for exponent in 0..250 {
                let a = element(x, prime);
                assert_eq!(a.pow(exponent).num(), FieldElement::powmod(x, exponent as u64, prime));
            }
        }
    }
}

#[test]
fn a_negative_exponent_gives_the_inverse_of_the_power() {
    for prime in PRIMES {
        let one = element(1, prime);
        for x in 1..prime {
            let a = element(x, prime);
            for n in 1..40 {
                assert_eq!(Ok(a.pow(-n)), one / a.pow(n));
            }
        }
    }
    let one = element(1, MERSENNE_61);
    let a = element(1234567890123456789, MERSENNE_61);
    assert_eq!(Ok(a.pow(-5)), one / a.pow(5));
    assert_eq!(a.pow(-5), element(1142139642864138549, MERSENNE_61));
}

#[test]
fn division_undoes_multiplication_in_a_prime_field() {
    for prime in [2, 3, 13, 31] {
        for x in 0..prime {
            for y in 1..prime {
                let a = element(x, prime);
                let b = element(y, prime);
                assert_eq!((a * b).unwrap() / b, Ok(a));
                assert_eq!((a / b).unwrap() * b, Ok(a));
            }
        }
    }
}

#[test]
fn operands_of_different_fields_are_refused_by_every_operator() {
    let a = element(7, 13);
    let b = element(7, 17);
    assert_eq!(a + b, Err(FieldError::FieldMismatch));
    assert_eq!(a - b, Err(FieldError::FieldMismatch));
    assert_eq!(a * b, Err(FieldError::FieldMismatch));
    assert_eq!(a / b, Err(FieldError::FieldMismatch));
    assert_eq!(b + a, Err(FieldError::FieldMismatch));
    assert_eq!(b / a, Err(FieldError::FieldMismatch));
}

#[test]
fn a_mismatch_comes_before_a_zero_divisor() {
    let a = element(7, 13);
    let zero = element(0, 17);
    assert_eq!(a / zero, Err(FieldError::FieldMismatch));
}

#[test]
fn elements_of_different_fields_are_unequal_without_error() {
    assert!(element(7, 13) != element(7, 17));
    assert!(element(7, 13) != element(8, 13));
    assert!(element(7, 13) == element(7, 13));
}

#[test]
fn construction_accepts_exactly_the_range_of_the_field() {
    for prime in [1, 2, 13, 97, MERSENNE_61, i64::MAX] {
        assert_eq!(
            FieldElement::new(prime, prime),
            Err(FieldError::Range { num: prime, prime })
        );
        assert_eq!(FieldElement::new(-1, prime), Err(FieldError::Range { num: -1, prime }));
        assert!(FieldElement::new(0, prime).is_ok());
        assert!(FieldElement::new(prime - 1, prime).is_ok());
    }
}

#[test]
fn construction_keeps_both_numbers() {
    let a = element(7, 13);
    assert_eq!(a.num(), 7);
    assert_eq!(a.prime(), 13);
}

#[test]
fn no_number_is_an_element_of_a_field_of_order_zero_or_less() {
    for prime in [0, -1, -13, i64::MIN] {
        for num in [i64::MIN, -14, -1, 0, 1, 12, i64::MAX] {
            assert_eq!(FieldElement::new(num, prime), Err(FieldError::Range { num, prime }));
        }
    }
}

#[test]
fn dividing_by_zero_is_an_error() {
    let a = element(3, 31);
    let zero = element(0, 31);
    assert_eq!(a / zero, Err(FieldError::DivisionByZero));
    assert_eq!(zero / zero, Err(FieldError::DivisionByZero));
    assert_eq!(zero / a, Ok(zero));
}
