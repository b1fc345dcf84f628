//! Elements of a finite field of prime order, on 64-bit integers.

use crate::decimal::numeral_of;
use crate::error::FieldError;
use crate::modular::{lemma_squaring_round, mul_mod, pow_mod, reduce};
use crate::residue::Residue;
use vstd::arithmetic::div_mod::*;
use vstd::arithmetic::power::*;
use vstd::prelude::*;
use vstd::std_specs::ops::{AddSpecImpl, DivSpecImpl, MulSpecImpl, SubSpecImpl};
use vstd::string::*;

verus! {

/// An element `num` of the field of integers modulo `prime`.
///
/// Every value satisfies `0 <= num < prime`; values are never changed after
/// they are built. That `prime` is a prime number is left to the caller.
#[derive(Clone, Copy, Debug, PartialEq, Eq, Structural)]
pub struct FieldElement {
    num: i64,
    prime: i64,
}

impl View for FieldElement {
    type V = Residue;

    closed spec fn view(&self) -> Residue {
        Residue { num: self.num as int, prime: self.prime as int }
    }
}

impl FieldElement {
    #[verifier::type_invariant]
    spec fn in_range(self) -> bool {
        0 <= self.num < self.prime
    }

    /// The element whose view is `model`, for a model within machine range.
    pub closed spec fn from_model(model: Residue) -> FieldElement {
        FieldElement { num: model.num as i64, prime: model.prime as i64 }
    }

    /// Two elements are equal exactly when they have the same residue and the
    /// same modulus, and each element is the one that its view describes.
    pub proof fn law_equality(a: FieldElement, b: FieldElement)
        ensures
            a == b <==> a@ == b@,
            FieldElement::from_model(a@) == a,
    {
    }

    /// The element `num` of the field of order `prime`, if `num` is in
    /// `[0, prime - 1]`; the range error with both numbers otherwise. So
    /// `prime` itself and -1 are refused, and for a positive `prime` both 0
    /// and `prime - 1` are accepted.
    pub fn new(num: i64, prime: i64) -> (r: Result<FieldElement, FieldError>)
        ensures
            0 <= num < prime ==> (r matches Ok(e) && e@.num == num && e@.prime == prime),
            !(0 <= num < prime) ==> (r matches Err(err) && err == (FieldError::Range {
                num,
                prime,
            })),
            num == prime || num == -1 ==> r is Err,
            prime > 0 && (num == 0 || num == prime - 1) ==> r is Ok,
    {
        if 0 <= num && num < prime {
            Ok(FieldElement { num, prime })
        } else {
            Err(FieldError::Range { num, prime })
        }
    }

    /// `base ^ exponent mod modulo`, as the representative in `[0, modulo)`,
    /// by repeated squaring: the number of multiplications grows with the
    /// length of `exponent`, not with its size.
    pub fn powmod(base: i64, exponent: u64, modulo: i64) -> (r: i64)
        requires
            modulo > 0,
        ensures
            r == pow_mod(base as int, exponent as nat, modulo as int),
            0 <= r < modulo,
    {
        let mut acc: i64 = reduce(1, modulo);
        let mut square: i64 = reduce(base, modulo);
        let mut rest: u64 = exponent;
        proof {
            lemma_pow_mod_noop(base as int, exponent as nat, modulo as int);
            lemma_mul_mod_noop_left(1, pow(square as int, rest as nat), modulo as int);
        }
        while rest > 0
            invariant
                modulo > 0,
                0 <= acc < modulo,
                0 <= square < modulo,
                (acc * pow(square as int, rest as nat)) % (modulo as int) == pow_mod(
                    base as int,
                    exponent as nat,
                    modulo as int,
                ),
            decreases rest,
        {
            proof {
                lemma_squaring_round(acc as int, square as int, rest as nat, modulo as int);
            }
            if rest % 2 == 1 {
                acc = mul_mod(acc, square, modulo);
            }
            square = mul_mod(square, square, modulo);
            rest = rest / 2;
        }
        proof {
            lemma_pow0(square as int);
            lemma_small_mod(acc as nat, modulo as nat);
        }
        acc
    }

    /// `self` raised to `exponent`, which may be negative: the exponent is
    /// first reduced modulo `prime - 1` to its representative in
    /// `[0, prime - 2]`, so that in a field of prime order a negative exponent
    /// yields a power of the inverse.
    pub fn pow(&self, exponent: i64) -> (r: FieldElement)
        ensures
            r@ == self@.power(exponent as int),
            r@.wf(),
    {
        proof {
            use_type_invariant(self);
        }
        if self.prime == 1 {
            proof {
                lemma_pow0(0);
            }
            return FieldElement { num: 0, prime: 1 };
        }
        let order: i64 = self.prime - 1;
        let n: i64 = reduce(exponent, order);
        let num: i64 = Self::powmod(self.num, n as u64, self.prime);
        FieldElement { num, prime: self.prime }
    }

    /// The residue, in `[0, prime - 1]`.
    pub fn num(&self) -> (n: i64)
        ensures
            n == self@.num,
            self@.wf(),
    {
        proof {
            use_type_invariant(self);
        }
        self.num
    }

    /// The order of the field.
    pub fn prime(&self) -> (p: i64)
        ensures
            p == self@.prime,
            self@.wf(),
    {
        proof {
            use_type_invariant(self);
        }
        self.prime
    }

    /// The textual form of the element: `FieldElement_<prime>(<num>)`.
    pub fn to_text(&self) -> (s: String)
        ensures
            s@ == self@.text(),
    {
        let mut s = String::from_str("FieldElement_");
        let prime = numeral_of(self.prime as i128);
        s.append(prime.as_str());
        s.append("(");
        let num = numeral_of(self.num as i128);
        s.append(num.as_str());
        s.append(")");
        assert(s@ =~= self@.text());
        s
    }
}

impl std::ops::Add for FieldElement {
    type Output = Result<FieldElement, FieldError>;

    /// The sum of two elements of one field.
    fn add(self, rhs: FieldElement) -> (r: Result<FieldElement, FieldError>)
        ensures
            self@.prime != rhs@.prime ==> r matches Err(FieldError::FieldMismatch),
            self@.prime == rhs@.prime ==> (r matches Ok(e) && e@ == self@.plus(rhs@) && e@.wf()),
    {
        proof {
            use_type_invariant(&self);
            use_type_invariant(&rhs);
        }
        if self.prime != rhs.prime {
            return Err(FieldError::FieldMismatch);
        }
        let sum: i128 = self.num as i128 + rhs.num as i128;
        let num: i128 = sum % (self.prime as i128);
        Ok(FieldElement { num: num as i64, prime: self.prime })
    }
}

impl AddSpecImpl for FieldElement {
    open spec fn obeys_add_spec() -> bool {
        true
    }

    open spec fn add_req(self, rhs: FieldElement) -> bool {
        true
    }

    open spec fn add_spec(self, rhs: FieldElement) -> Result<FieldElement, FieldError> {
        if self@.prime == rhs@.prime {
            Ok(FieldElement::from_model(self@.plus(rhs@)))
        } else {
            Err(FieldError::FieldMismatch)
        }
    }
}

impl std::ops::Sub for FieldElement {
    type Output = Result<FieldElement, FieldError>;

    /// The difference of two elements of one field: where `self.num -
    /// rhs.num` is negative, the result is moved up by `prime`.
    fn sub(self, rhs: FieldElement) -> (r: Result<FieldElement, FieldError>)
        ensures
            self@.prime != rhs@.prime ==> r matches Err(FieldError::FieldMismatch),
            self@.prime == rhs@.prime ==> (r matches Ok(e) && e@ == self@.minus(rhs@) && e@.wf()),
    {
        proof {
            use_type_invariant(&self);
            use_type_invariant(&rhs);
        }
        if self.prime != rhs.prime {
            return Err(FieldError::FieldMismatch);
        }
        let num: i64 = reduce(self.num - rhs.num, self.prime);
        Ok(FieldElement { num, prime: self.prime })
    }
}

impl SubSpecImpl for FieldElement {
    open spec fn obeys_sub_spec() -> bool {
        true
    }

    open spec fn sub_req(self, rhs: FieldElement) -> bool {
        true
    }

    open spec fn sub_spec(self, rhs: FieldElement) -> Result<FieldElement, FieldError> {
        if self@.prime == rhs@.prime {
            Ok(FieldElement::from_model(self@.minus(rhs@)))
        } else {
            Err(FieldError::FieldMismatch)
        }
    }
}

impl std::ops::Mul for FieldElement {
    type Output = Result<FieldElement, FieldError>;

    /// The product of two elements of one field.
    fn mul(self, rhs: FieldElement) -> (r: Result<FieldElement, FieldError>)
        ensures
            self@.prime != rhs@.prime ==> r matches Err(FieldError::FieldMismatch),
            self@.prime == rhs@.prime ==> (r matches Ok(e) && e@ == self@.times(rhs@) && e@.wf()),
    {
        proof {
            use_type_invariant(&self);
            use_type_invariant(&rhs);
        }
        if self.prime != rhs.prime {
            return Err(FieldError::FieldMismatch);
        }
        let num: i64 = mul_mod(self.num, rhs.num, self.prime);
        Ok(FieldElement { num, prime: self.prime })
    }
}

impl MulSpecImpl for FieldElement {
    open spec fn obeys_mul_spec() -> bool {
        true
    }

    open spec fn mul_req(self, rhs: FieldElement) -> bool {
        true
    }

    open spec fn mul_spec(self, rhs: FieldElement) -> Result<FieldElement, FieldError> {
        if self@.prime == rhs@.prime {
            Ok(FieldElement::from_model(self@.times(rhs@)))
        } else {
            Err(FieldError::FieldMismatch)
        }
    }
}

impl std::ops::Div for FieldElement {
    type Output = Result<FieldElement, FieldError>;

    /// The quotient of two elements of one field: `self` times
    /// `rhs.num ^ (prime - 2) mod prime`, which for a prime modulus is the
    /// inverse of `rhs`. Where the operands are of different fields and the
    /// divisor is zero, the error is the mismatch.
    fn div(self, rhs: FieldElement) -> (r: Result<FieldElement, FieldError>)
        ensures
            self@.prime != rhs@.prime ==> r matches Err(FieldError::FieldMismatch),
            self@.prime == rhs@.prime && rhs@.num == 0 ==> r matches Err(
                FieldError::DivisionByZero,
            ),
            self@.prime == rhs@.prime && rhs@.num != 0 ==> (r matches Ok(e) && e@ == self@.over(
                rhs@,
            ) && e@.wf()),
    {
        proof {
            use_type_invariant(&self);
            use_type_invariant(&rhs);
        }
        if self.prime != rhs.prime {
            return Err(FieldError::FieldMismatch);
        }
        if rhs.num == 0 {
            return Err(FieldError::DivisionByZero);
        }
        let inverse: i64 = FieldElement::powmod(rhs.num, (self.prime - 2) as u64, self.prime);
        let num: i64 = mul_mod(self.num, inverse, self.prime);
        Ok(FieldElement { num, prime: self.prime })
    }
}

impl DivSpecImpl for FieldElement {
    open spec fn obeys_div_spec() -> bool {
        true
    }

    open spec fn div_req(self, rhs: FieldElement) -> bool {
        true
    }

    open spec fn div_spec(self, rhs: FieldElement) -> Result<FieldElement, FieldError> {
        if self@.prime != rhs@.prime {
            Err(FieldError::FieldMismatch)
        } else if rhs@.num == 0 {
            Err(FieldError::DivisionByZero)
        } else {
            Ok(FieldElement::from_model(self@.over(rhs@)))
        }
    }
}

} // verus!
