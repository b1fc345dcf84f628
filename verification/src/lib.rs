//! Arithmetic in the finite field of integers modulo a prime.
//!
//! A [`FieldElement`] is an immutable residue `num` of a modulus `prime`, with
//! `0 <= num < prime`. Elements of one field are added, subtracted,
//! multiplied and divided with `+`, `-`, `*` and `/`, each of which gives a
//! `Result`, and raised to any integer power with [`FieldElement::pow`].
//!
//! Every operation is verified against the mathematical model [`Residue`].
//! The module [`laws`] holds what follows for all elements, in part only for
//! a modulus that [`is_prime`]; the number theory behind it, up to Fermat's
//! little theorem, is proved in [`primes`].

pub mod decimal;
pub mod element;
pub mod error;
pub mod laws;
pub mod modular;
pub mod primes;
pub mod residue;

pub use element::FieldElement;
pub use error::FieldError;
pub use modular::pow_mod;
pub use primes::is_prime;
pub use residue::Residue;
