//! Modular arithmetic on machine integers: reduction, multiplication and the
//! facts behind exponentiation by repeated squaring.

use vstd::arithmetic::div_mod::*;
use vstd::arithmetic::mul::*;
use vstd::arithmetic::power::*;
use vstd::prelude::*;

verus! {

/// `base` raised to `exponent`, reduced to its representative in `[0, modulus)`.
pub open spec fn pow_mod(base: int, exponent: nat, modulus: int) -> int {
    pow(base, exponent) % modulus
}

/// The truncated remainder of a negative dividend, moved up by one modulus
/// where it is negative, is the Euclidean remainder.
pub proof fn lemma_truncated_remainder(x: int, m: int)
    requires
        x < 0,
        m > 0,
    ensures
        (-x) % m == 0 ==> x % m == 0,
        (-x) % m != 0 ==> x % m == m - (-x) % m,
{
    let k = (-x) % m;
    let q = (-x) / m;
    lemma_fundamental_div_mod(-x, m);
    lemma_mod_bound(-x, m);
    if k == 0 {
        assert(x == (-q) * m + 0) by (nonlinear_arith)
            requires
                -x == m * q + k,
                k == 0,
        ;
        lemma_fundamental_div_mod_converse(x, m, -q, 0);
    } else {
        assert(x == (-q - 1) * m + (m - k)) by (nonlinear_arith)
            requires
                -x == m * q + k,
        ;
        lemma_fundamental_div_mod_converse(x, m, -q - 1, m - k);
    }
}

/// Products of congruent factors are congruent.
pub proof fn lemma_mul_congruent(a: int, b: int, c: int, d: int, m: int)
    requires
        m > 0,
        a % m == c % m,
        b % m == d % m,
    ensures
        (a * b) % m == (c * d) % m,
{
    lemma_mul_mod_noop(a, b, m);
    lemma_mul_mod_noop(c, d, m);
}

/// One round of exponentiation by repeated squaring: with the exponent
/// halved and the base squared (and, where the exponent was odd, the base
/// multiplied into the accumulator), `acc * square^rest` keeps its residue.
pub proof fn lemma_squaring_round(acc: int, square: int, rest: nat, m: int)
    requires
        m > 0,
        rest > 0,
    ensures
        rest % 2 == 1 ==> (((acc * square) % m) * pow((square * square) % m, rest / 2)) % m == (acc
            * pow(square, rest)) % m,
        rest % 2 == 0 ==> (acc * pow((square * square) % m, rest / 2)) % m == (acc * pow(
            square,
            rest,
        )) % m,
{
    let half: nat = rest / 2;
    let squared = square * square;
    assert(pow(squared % m, half) % m == pow(square, 2 * half) % m) by {
        lemma_pow_mod_noop(squared, half, m);
        lemma_square_is_pow2(square);
        lemma_pow_multiplies(square, 2, half);
    }
    lemma_mod_twice(acc * square, m);
    if rest % 2 == 1 {
        assert(rest == 1 + 2 * half);
        assert(pow(square, rest) == square * pow(square, 2 * half)) by {
            lemma_pow_adds(square, 1, 2 * half);
            lemma_pow1(square);
        }
        lemma_mul_is_associative(acc, square, pow(square, 2 * half));
        lemma_mul_congruent(
            (acc * square) % m,
            pow(squared % m, half),
            acc * square,
            pow(square, 2 * half),
            m,
        );
    } else {
        assert(rest == 2 * half);
        lemma_mul_congruent(acc, pow(squared % m, half), acc, pow(square, 2 * half), m);
    }
}

/// The representative of `x` modulo `m` in `[0, m)`.
pub(crate) fn reduce(x: i64, m: i64) -> (r: i64)
    requires
        m > 0,
    ensures
        r == x % m,
        0 <= r < m,
{
    let t: i64 = x % m;
    proof {
        lemma_mod_bound(x as int, m as int);
        if x < 0 {
            lemma_truncated_remainder(x as int, m as int);
        }
    }
    if t < 0 {
        t + m
    } else {
        t
    }
}

/// The product of two residues, reduced; the product itself is formed in
/// 128 bits, where it cannot overflow.
pub(crate) fn mul_mod(a: i64, b: i64, m: i64) -> (r: i64)
    requires
        0 <= a < m,
        0 <= b < m,
    ensures
        r == (a * b) % (m as int),
        0 <= r < m,
{
    let wide_a: i128 = a as i128;
    let wide_b: i128 = b as i128;
    let wide_m: i128 = m as i128;
    proof {
        assert(0 <= wide_a * wide_b <= 0x7fff_ffff_ffff_ffff * 0x7fff_ffff_ffff_ffff)
            by (nonlinear_arith)
            requires
                0 <= wide_a <= 0x7fff_ffff_ffff_ffff,
                0 <= wide_b <= 0x7fff_ffff_ffff_ffff,
        ;
        lemma_mod_bound(a * b, m as int);
    }
    let reduced: i128 = (wide_a * wide_b) % wide_m;
    reduced as i64
}

} // verus!
