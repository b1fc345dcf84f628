//! What holds of the field operations, stated over the model [`Residue`]
//! that the contracts of [`crate::FieldElement`] use.

use crate::modular::pow_mod;
use crate::primes::{
    is_prime, lemma_fermat, lemma_fermat_inverse, lemma_pow_mod_periodic, lemma_pow_nonzero,
};
use crate::residue::{reduced_exponent, Residue};
use vstd::arithmetic::div_mod::*;
use vstd::arithmetic::mul::*;
use vstd::arithmetic::power::*;
use vstd::prelude::*;

verus! {

/// Sums, differences and products of two elements of one field are
/// elements of that field: the result is in `[0, prime)`.
pub proof fn law_closure(a: Residue, b: Residue)
    requires
        a.wf(),
        b.wf(),
        a.prime == b.prime,
    ensures
        a.plus(b).wf(),
        a.minus(b).wf(),
        a.times(b).wf(),
        a.plus(b).prime == a.prime,
        a.minus(b).prime == a.prime,
        a.times(b).prime == a.prime,
{
    lemma_mod_bound(a.num + b.num, a.prime);
    lemma_mod_bound(a.num - b.num, a.prime);
    lemma_mod_bound(a.num * b.num, a.prime);
}

/// Quotients and powers are elements of the field as well.
pub proof fn law_closure_div_pow(a: Residue, b: Residue, exponent: int)
    requires
        a.wf(),
        b.wf(),
        a.prime == b.prime,
    ensures
        a.over(b).wf(),
        a.power(exponent).wf(),
{
    lemma_mod_bound(a.num * b.inverse().num, a.prime);
    lemma_mod_bound(pow(a.num, reduced_exponent(exponent, a.prime)), a.prime);
}

/// An element minus itself is the zero of its field.
pub proof fn law_sub_self(a: Residue)
    requires
        a.wf(),
    ensures
        a.minus(a) == Residue::zero(a.prime),
{
    lemma_small_mod(0, a.prime as nat);
}

/// In a field of prime order, a nonzero element divided by itself is the
/// one of its field.
pub proof fn law_div_self(a: Residue)
    requires
        a.wf(),
        a.num != 0,
        is_prime(a.prime),
    ensures
        a.over(a) == Residue::one(a.prime),
{
    lemma_small_mod(a.num as nat, a.prime as nat);
    lemma_fermat_inverse(a.num, a.prime);
}

/// Whatever the modulus, a nonzero element divided by itself is the one of
/// its field exactly where `num ^ (prime - 1)` has the residue 1.
pub proof fn law_div_self_exactly(a: Residue)
    requires
        a.wf(),
        a.num != 0,
    ensures
        a.over(a) == Residue::one(a.prime) <==> pow_mod(a.num, (a.prime - 1) as nat, a.prime)
            == 1,
{
    lemma_mul_mod_noop_right(a.num, pow(a.num, (a.prime - 2) as nat), a.prime);
    assert(pow(a.num, (a.prime - 1) as nat) == a.num * pow(a.num, (a.prime - 2) as nat)) by {
        reveal(pow);
    }
}

/// In a field of prime order, `inverse` gives the multiplicative inverse of
/// a nonzero element: dividing by the element undoes multiplying by it, and
/// the other way round.
pub proof fn law_div_inverts_mul(a: Residue, b: Residue)
    requires
        a.wf(),
        b.wf(),
        a.prime == b.prime,
        b.num != 0,
        is_prime(a.prime),
    ensures
        b.times(b.inverse()) == Residue::one(a.prime),
        a.times(b).over(b) == a,
        a.over(b).times(b) == a,
{
    let p = a.prime;
    let inv = b.inverse().num;
    lemma_small_mod(b.num as nat, p as nat);
    lemma_small_mod(a.num as nat, p as nat);
    lemma_fermat_inverse(b.num, p);
    assert((a.num * (b.num * inv)) % p == a.num) by {
        lemma_mul_mod_noop_right(a.num, b.num * inv, p);
        lemma_mul_basics(a.num);
    }
    assert((((a.num * b.num) % p) * inv) % p == a.num) by {
        lemma_mul_mod_noop_left(a.num * b.num, inv, p);
        lemma_mul_is_associative(a.num, b.num, inv);
    }
    assert((((a.num * inv) % p) * b.num) % p == a.num) by {
        lemma_mul_mod_noop_left(a.num * inv, b.num, p);
        assert((a.num * inv) * b.num == a.num * (b.num * inv)) by (nonlinear_arith);
    }
}

/// A nonzero element raised to `prime - 1` is the one of its field: the
/// exponent reduces to zero.
pub proof fn law_pow_order(a: Residue)
    requires
        a.wf(),
        a.num != 0,
    ensures
        a.power(a.prime - 1) == Residue::one(a.prime),
{
    lemma_mod_self_0(a.prime - 1);
    lemma_pow0(a.num);
    lemma_small_mod(1, a.prime as nat);
}

/// In a field of prime order, reducing the exponent loses nothing: for a
/// nonzero element and an exponent that is not negative, `power` is the
/// residue of the plain power. With the exponent `prime - 1` that residue
/// is 1.
pub proof fn law_pow_is_exponentiation(a: Residue, exponent: nat)
    requires
        a.wf(),
        a.num != 0,
        is_prime(a.prime),
    ensures
        a.power(exponent as int).num == pow_mod(a.num, exponent, a.prime),
        pow_mod(a.num, (a.prime - 1) as nat, a.prime) == 1,
{
    lemma_small_mod(a.num as nat, a.prime as nat);
    lemma_pow_mod_periodic(a.num, exponent, a.prime);
    lemma_fermat(a.num, a.prime);
}

/// In a field of prime order, raising a nonzero element to `-n` gives the
/// one of the field divided by the element raised to `n`; that divisor is
/// not zero.
pub proof fn law_pow_negative(a: Residue, n: int)
    requires
        a.wf(),
        a.num != 0,
        is_prime(a.prime),
    ensures
        a.power(n).num != 0,
        a.power(-n) == Residue::one(a.prime).over(a.power(n)),
{
    let p = a.prime;
    let x = a.num;
    let k = p - 1;
    let m = reduced_exponent(n, p);
    let b = pow_mod(x, m, p);
    lemma_small_mod(x as nat, p as nat);
    lemma_small_mod(1, p as nat);
    lemma_mod_bound(n, k);
    lemma_mod_bound(-n, k);
    lemma_pow_nonzero(x, m, p);
    // The exponent of x on the right is m * (p - 2), congruent to -n.
    lemma_mul_nonnegative(m as int, p - 2);
    let long = (m * (p - 2)) as nat;
    assert(long as int % k == (-n) % k) by {
        assert(m * (p - 2) == k * m + (-m)) by (nonlinear_arith)
            requires
                k == p - 1,
        ;
        lemma_mod_multiples_vanish(m as int, -(m as int), k);
        lemma_sub_mod_noop_right(0, n, k);
    }
    assert(pow_mod(b, (p - 2) as nat, p) == pow_mod(x, long, p)) by {
        lemma_pow_mod_noop(pow(x, m), (p - 2) as nat, p);
        lemma_pow_multiplies(x, m, (p - 2) as nat);
    }
    lemma_pow_mod_periodic(x, long, p);
    lemma_mod_bound(pow(b, (p - 2) as nat), p);
    lemma_mul_basics(pow_mod(b, (p - 2) as nat, p));
    lemma_small_mod(pow_mod(b, (p - 2) as nat, p) as nat, p as nat);
}

} // verus!
