//! Prime moduli: inverses, Euclid's lemma and Fermat's little theorem.

use crate::modular::{lemma_mul_congruent, pow_mod};
use vstd::arithmetic::div_mod::*;
use vstd::arithmetic::mul::*;
use vstd::arithmetic::power::*;
use vstd::prelude::*;
use vstd::set::fold::*;
use vstd::set_lib::*;

verus! {

/// `d` divides `n`.
pub open spec fn divides(d: int, n: int) -> bool {
    n % d == 0
}

/// `p` is a prime number: at least 2, and divisible by nothing strictly
/// between 1 and itself.
pub open spec fn is_prime(p: int) -> bool {
    &&& p >= 2
    &&& forall|d: int| 1 < d < p ==> !#[trigger] divides(d, p)
}

/// Every nonzero residue of a prime modulus has a multiplicative inverse:
/// the result is such an inverse.
pub proof fn lemma_inverse_exists(x: int, p: int) -> (u: int)
    requires
        is_prime(p),
        0 < x < p,
    ensures
        (x * u) % p == 1,
    decreases x,
{
    if x == 1 {
        lemma_small_mod(1, p as nat);
        1
    } else {
        let q = p / x;
        let r = p % x;
        lemma_fundamental_div_mod(p, x);
        lemma_mod_bound(p, x);
        assert(r != 0) by {
            assert(!divides(x, p));
        }
        let v = lemma_inverse_exists(r, p);
        let u = -q * v;
        assert(x * u == p * (-v) + r * v) by (nonlinear_arith)
            requires
                p == x * q + r,
                u == -q * v,
        ;
        lemma_mod_multiples_vanish(-v, r * v, p);
        u
    }
}

/// Euclid's lemma: a prime that divides a product divides one of the
/// factors.
pub proof fn lemma_prime_divides_factor(x: int, y: int, p: int)
    requires
        is_prime(p),
        (x * y) % p == 0,
    ensures
        x % p == 0 || y % p == 0,
{
    if x % p != 0 {
        let xr = x % p;
        lemma_mod_bound(x, p);
        let u = lemma_inverse_exists(xr, p);
        assert((xr * y) % p == 0) by {
            lemma_mul_mod_noop_left(x, y, p);
        }
        assert(((xr * u) * y) % p == 0) by {
            assert((xr * u) * y == u * (xr * y)) by (nonlinear_arith);
            lemma_mul_mod_noop_right(u, xr * y, p);
            lemma_mul_basics(u);
            lemma_small_mod(0, p as nat);
        }
        assert(((xr * u) * y) % p == y % p) by {
            lemma_mul_mod_noop_left(xr * u, y, p);
            lemma_mul_basics(y);
        }
    }
}

/// No multiple `a * j` with `0 < j < p` of a number `a` that a prime `p`
/// does not divide is divisible by `p`.
pub proof fn lemma_multiple_nonzero(a: int, j: int, p: int)
    requires
        is_prime(p),
        a % p != 0,
        0 < j < p,
    ensures
        0 < (a * j) % p < p,
{
    lemma_mod_bound(a * j, p);
    if (a * j) % p == 0 {
        lemma_prime_divides_factor(a, j, p);
        lemma_small_mod(j as nat, p as nat);
    }
}

/// Distinct multipliers in `(0, p)` give distinct residues of `a * j`.
pub proof fn lemma_multiples_distinct(a: int, i: int, j: int, p: int)
    requires
        is_prime(p),
        a % p != 0,
        0 < i < j < p,
    ensures
        (a * i) % p != (a * j) % p,
{
    if (a * i) % p == (a * j) % p {
        lemma_mod_equivalence(a * j, a * i, p);
        lemma_mul_is_distributive_sub(a, j, i);
        lemma_prime_divides_factor(a, j - i, p);
        lemma_small_mod((j - i) as nat, p as nat);
    }
}

/// Multiplication as a step of a fold.
pub open spec fn multiply() -> spec_fn(int, int) -> int {
    |acc: int, x: int| acc * x
}

/// The product of the members of a finite set of integers.
pub open spec fn product(s: Set<int>) -> int {
    s.fold(1int, multiply())
}

/// The product of a set with one more member.
pub proof fn lemma_product_insert(s: Set<int>, x: int)
    requires
        s.finite(),
        !s.contains(x),
    ensures
        product(s.insert(x)) == product(s) * x,
{
    assert(is_fun_commutative(multiply())) by {
        assert forall|a1: int, a2: int, b: int| #[trigger]
            multiply()(multiply()(b, a2), a1) == multiply()(multiply()(b, a1), a2) by {
            assert((b * a2) * a1 == (b * a1) * a2) by (nonlinear_arith);
        }
    }
    lemma_fold_insert(s, 1int, multiply(), x);
}

/// The residues of `a * 1, ..., a * n` modulo `p`.
pub open spec fn multiples(a: int, n: nat, p: int) -> Set<int>
    decreases n,
{
    if n == 0 {
        Set::empty()
    } else {
        multiples(a, (n - 1) as nat, p).insert((a * n) % p)
    }
}

/// The residue of `a * k` is not among those of `a * 1, ..., a * n` for
/// `n < k < p`.
pub proof fn lemma_multiples_fresh(a: int, n: nat, k: int, p: int)
    requires
        is_prime(p),
        a % p != 0,
        n < k < p,
    ensures
        !multiples(a, n, p).contains((a * k) % p),
    decreases n,
{
    if n > 0 {
        lemma_multiples_fresh(a, (n - 1) as nat, k, p);
        lemma_multiples_distinct(a, n as int, k, p);
    }
}

/// The residues of `a * 1, ..., a * n` are `n` different numbers in
/// `[1, p - 1]`.
pub proof fn lemma_multiples_counted(a: int, n: nat, p: int)
    requires
        is_prime(p),
        a % p != 0,
        n < p,
    ensures
        multiples(a, n, p).finite(),
        multiples(a, n, p).len() == n,
        multiples(a, n, p).subset_of(set_int_range(1, p)),
    decreases n,
{
    if n > 0 {
        lemma_multiples_counted(a, (n - 1) as nat, p);
        lemma_multiples_fresh(a, (n - 1) as nat, n as int, p);
        lemma_multiple_nonzero(a, n as int, p);
    }
}

/// The product of the residues of `a * 1, ..., a * n` is congruent to
/// `a ^ n * n!`, where `n!` is the product of `1, ..., n`.
pub proof fn lemma_multiples_product(a: int, n: nat, p: int)
    requires
        is_prime(p),
        a % p != 0,
        n < p,
    ensures
        product(multiples(a, n, p)) % p == (pow(a, n) * product(set_int_range(1, n as int + 1)))
            % p,
    decreases n,
{
    if n == 0 {
        assert(set_int_range(1, 1) =~= Set::<int>::empty());
        lemma_fold_empty(1int, multiply());
        lemma_pow0(a);
    } else {
        let m = (n - 1) as nat;
        let earlier = multiples(a, m, p);
        let below = set_int_range(1, n as int);
        lemma_multiples_product(a, m, p);
        lemma_multiples_counted(a, m, p);
        lemma_multiples_fresh(a, m, n as int, p);
        lemma_product_insert(earlier, (a * n) % p);
        lemma_int_range(1, n as int);
        assert(below.insert(n as int) =~= set_int_range(1, n as int + 1));
        lemma_product_insert(below, n as int);
        // product(earlier) * ((a * n) % p)  is congruent to  (a^m * m!) * (a * n)
        lemma_mod_twice(a * n, p);
        lemma_mul_congruent(product(earlier), (a * n) % p, pow(a, m) * product(below), a * n, p);
        assert(pow(a, n) == a * pow(a, m)) by {
            reveal(pow);
        }
        assert((pow(a, m) * product(below)) * (a * n) == (a * pow(a, m)) * (product(below) * n))
            by (nonlinear_arith);
    }
}

/// The product of `1, ..., n` is not divisible by a prime above `n`.
pub proof fn lemma_factorial_nonzero(n: nat, p: int)
    requires
        is_prime(p),
        n < p,
    ensures
        product(set_int_range(1, n as int + 1)) % p != 0,
    decreases n,
{
    if n == 0 {
        assert(set_int_range(1, 1) =~= Set::<int>::empty());
        lemma_fold_empty(1int, multiply());
        lemma_small_mod(1, p as nat);
    } else {
        let below = set_int_range(1, n as int);
        lemma_factorial_nonzero((n - 1) as nat, p);
        lemma_int_range(1, n as int);
        assert(below.insert(n as int) =~= set_int_range(1, n as int + 1));
        lemma_product_insert(below, n as int);
        if (product(below) * n) % p == 0 {
            lemma_prime_divides_factor(product(below), n as int, p);
            lemma_small_mod(n, p as nat);
        }
    }
}

/// Fermat's little theorem: `a ^ (p - 1)` leaves the remainder 1 on division
/// by a prime `p` that does not divide `a`.
pub proof fn lemma_fermat(a: int, p: int)
    requires
        is_prime(p),
        a % p != 0,
    ensures
        pow_mod(a, (p - 1) as nat, p) == 1,
{
    let n = (p - 1) as nat;
    let all = set_int_range(1, p);
    let images = multiples(a, n, p);
    lemma_multiples_counted(a, n, p);
    lemma_int_range(1, p);
    lemma_subset_equality(images, all);
    lemma_multiples_product(a, n, p);
    lemma_factorial_nonzero(n, p);
    let f = product(all);
    let e = pow(a, n);
    assert(f % p == (e * f) % p);
    lemma_mod_equivalence(e * f, f, p);
    assert(e * f - f == (e - 1) * f) by (nonlinear_arith);
    lemma_prime_divides_factor(e - 1, f, p);
    lemma_mod_equivalence(e, 1, p);
    lemma_small_mod(1, p as nat);
}

/// For a prime `p` that does not divide `a`, the residue of `a ^ e` depends
/// on `e` only through its residue modulo `p - 1`.
pub proof fn lemma_pow_mod_periodic(a: int, e: nat, p: int)
    requires
        is_prime(p),
        a % p != 0,
    ensures
        pow_mod(a, e, p) == pow_mod(a, (e as int % (p - 1)) as nat, p),
{
    let k = (p - 1) as nat;
    let q = (e as int / (p - 1)) as nat;
    let r = (e as int % (p - 1)) as nat;
    lemma_fundamental_div_mod(e as int, p - 1);
    lemma_mod_bound(e as int, p - 1);
    lemma_div_pos_is_pos(e as int, p - 1);
    assert(pow(a, k * q) % p == 1) by {
        lemma_fermat(a, p);
        lemma_pow_multiplies(a, k, q);
        lemma_pow_mod_noop(pow(a, k), q, p);
        lemma1_pow(q);
        lemma_small_mod(1, p as nat);
    }
    assert(pow(a, e) == pow(a, k * q) * pow(a, r)) by {
        lemma_pow_adds(a, k * q, r);
    }
    lemma_mul_mod_noop_left(pow(a, k * q), pow(a, r), p);
    lemma_mul_basics(pow(a, r));
}

/// No power of a number that a prime `p` does not divide is divisible by
/// `p`.
pub proof fn lemma_pow_nonzero(a: int, e: nat, p: int)
    requires
        is_prime(p),
        a % p != 0,
    ensures
        pow_mod(a, e, p) != 0,
    decreases e,
{
    reveal(pow);
    if e == 0 {
        lemma_small_mod(1, p as nat);
    } else {
        lemma_pow_nonzero(a, (e - 1) as nat, p);
        if pow(a, e) % p == 0 {
            lemma_prime_divides_factor(a, pow(a, (e - 1) as nat), p);
        }
    }
}

/// For a prime `p` that does not divide `a`, `a ^ (p - 2)` is an inverse of
/// `a` modulo `p`.
pub proof fn lemma_fermat_inverse(a: int, p: int)
    requires
        is_prime(p),
        a % p != 0,
    ensures
        (a * pow_mod(a, (p - 2) as nat, p)) % p == 1,
{
    lemma_fermat(a, p);
    lemma_mul_mod_noop_right(a, pow(a, (p - 2) as nat), p);
    assert(pow(a, (p - 1) as nat) == a * pow(a, (p - 2) as nat)) by {
        reveal(pow);
    }
}

} // verus!
