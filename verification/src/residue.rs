//! The mathematical model of a field element: a residue `num` of a modulus
//! `prime`, over unbounded integers.

use crate::decimal::numeral;
use crate::modular::pow_mod;
use vstd::prelude::*;

verus! {

/// A residue class: what a [`crate::FieldElement`] stands for.
pub ghost struct Residue {
    pub num: int,
    pub prime: int,
}

/// The exponent that exponentiation in the field of order `prime` actually
/// uses: the representative of `exponent` modulo `prime - 1` in
/// `[0, prime - 2]`. The field of order 1 has the single element 0 and uses
/// the exponent 0.
pub open spec fn reduced_exponent(exponent: int, prime: int) -> nat {
    if prime > 1 {
        (exponent % (prime - 1)) as nat
    } else {
        0
    }
}

impl Residue {
    /// `num` is the canonical representative: `0 <= num < prime`.
    pub open spec fn wf(self) -> bool {
        0 <= self.num < self.prime
    }

    /// The additive identity of the field of order `prime`.
    pub open spec fn zero(prime: int) -> Residue {
        Residue { num: 0, prime }
    }

    /// The multiplicative identity of the field of order `prime`.
    pub open spec fn one(prime: int) -> Residue {
        Residue { num: 1, prime }
    }

    /// The textual form `FieldElement_<prime>(<num>)`, with both numbers in
    /// decimal.
    pub open spec fn text(self) -> Seq<char> {
        "FieldElement_"@ + numeral(self.prime) + "("@ + numeral(self.num) + ")"@
    }

    /// `(self.num + rhs.num) mod prime`.
    pub open spec fn plus(self, rhs: Residue) -> Residue {
        Residue { num: (self.num + rhs.num) % self.prime, prime: self.prime }
    }

    /// `(self.num - rhs.num) mod prime`, as the non-negative representative.
    pub open spec fn minus(self, rhs: Residue) -> Residue {
        Residue { num: (self.num - rhs.num) % self.prime, prime: self.prime }
    }

    /// `(self.num * rhs.num) mod prime`.
    pub open spec fn times(self, rhs: Residue) -> Residue {
        Residue { num: (self.num * rhs.num) % self.prime, prime: self.prime }
    }

    /// `self.num ^ (prime - 2) mod prime`: for a prime modulus and a nonzero
    /// residue, its multiplicative inverse.
    pub open spec fn inverse(self) -> Residue {
        Residue { num: pow_mod(self.num, (self.prime - 2) as nat, self.prime), prime: self.prime }
    }

    /// `self` times the inverse of `rhs`.
    pub open spec fn over(self, rhs: Residue) -> Residue {
        self.times(rhs.inverse())
    }

    /// `self.num ^ n mod prime`, where `n` is `exponent` reduced modulo
    /// `prime - 1`.
    pub open spec fn power(self, exponent: int) -> Residue {
        Residue {
            num: pow_mod(self.num, reduced_exponent(exponent, self.prime), self.prime),
            prime: self.prime,
        }
    }
}

} // verus!
