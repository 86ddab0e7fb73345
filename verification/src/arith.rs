//! Big-integer arithmetic for the discrete-logarithm flavor.
//!
//! The protocol's numbers exceed machine words, so the arithmetic itself is
//! carried out by `num_bigint` (and primality testing by `num_primes`) behind
//! the trusted wrappers below; every wrapper states the mathematical value of
//! its result over the decimal representation of its operands.

use vstd::prelude::*;
use crate::digits::{Scalar, Element, is_canonical};
use vstd::arithmetic::power::pow;

verus! {

/// How many random draws a rejection-sampling search may spend before it
/// reports failure instead of retrying forever.
pub const MAX_DRAWS: u32 = 1000000;

/// `b^e mod m` on non-negative integers, the identity the wrappers promise.
pub open spec fn pow_mod(b: int, e: int, m: int) -> int {
    pow(b, e as nat) % m
}

/// The SHA-512 digest of a string's bytes; what the `sha2` crate returns.
pub uninterp spec fn sha512_of(data: Seq<char>) -> Seq<u8>;

/// The integer a byte string denotes read big-endian.
pub open spec fn be_bytes_val(s: Seq<u8>) -> int
    decreases s.len(),
{
    if s.len() == 0 {
        0
    } else {
        be_bytes_val(s.drop_last()) * 256 + s.last()
    }
}

/// The integer a byte string denotes read little-endian.
pub open spec fn le_bytes_val(s: Seq<u8>) -> int
    decreases s.len(),
{
    if s.len() == 0 {
        0
    } else {
        s[0] + 256 * le_bytes_val(s.drop_first())
    }
}

/// Relies on `BigInt::modpow`: returns `(self ^ exponent) % modulus`; the
/// operands here are non-negative, so truncated and floored remainder agree.
#[verifier::external_body]
pub(crate) fn mod_exp(base: &Element, exp: &Scalar, m: &Scalar) -> (r: Element)
    requires
        m.value() >= 1,
    ensures
        is_canonical(r@),
        r.value() == pow_mod(base.value(), exp.value(), m.value()),
{
    let b = num_bigint::BigInt::parse_bytes(base.to_string().as_bytes(), 10).unwrap();
    let e = num_bigint::BigInt::parse_bytes(exp.to_string().as_bytes(), 10).unwrap();
    let mm = num_bigint::BigInt::parse_bytes(m.to_string().as_bytes(), 10).unwrap();
    Element::parse(&b.modpow(&e, &mm).to_string()).unwrap()
}

/// Relies on `BigInt`'s multiplication.
#[verifier::external_body]
pub(crate) fn big_mul(a: &Scalar, b: &Scalar) -> (r: Scalar)
    ensures
        is_canonical(r@),
        r.value() == a.value() * b.value(),
{
    let x = num_bigint::BigInt::parse_bytes(a.to_string().as_bytes(), 10).unwrap();
    let y = num_bigint::BigInt::parse_bytes(b.to_string().as_bytes(), 10).unwrap();
    Scalar::parse(&(x * y).to_string()).unwrap()
}

/// Relies on `BigInt`'s multiplication, on elements.
#[verifier::external_body]
pub(crate) fn elem_mul(a: &Element, b: &Element) -> (r: Element)
    ensures
        is_canonical(r@),
        r.value() == a.value() * b.value(),
{
    let x = num_bigint::BigInt::parse_bytes(a.to_string().as_bytes(), 10).unwrap();
    let y = num_bigint::BigInt::parse_bytes(b.to_string().as_bytes(), 10).unwrap();
    Element::parse(&(x * y).to_string()).unwrap()
}

/// Relies on `BigInt`'s addition, on elements.
#[verifier::external_body]
pub(crate) fn elem_add(a: &Element, b: &Element) -> (r: Element)
    ensures
        is_canonical(r@),
        r.value() == a.value() + b.value(),
{
    let x = num_bigint::BigInt::parse_bytes(a.to_string().as_bytes(), 10).unwrap();
    let y = num_bigint::BigInt::parse_bytes(b.to_string().as_bytes(), 10).unwrap();
    Element::parse(&(x + y).to_string()).unwrap()
}

/// Relies on `BigInt`'s addition.
#[verifier::external_body]
pub(crate) fn big_add(a: &Scalar, b: &Scalar) -> (r: Scalar)
    ensures
        is_canonical(r@),
        r.value() == a.value() + b.value(),
{
    let x = num_bigint::BigInt::parse_bytes(a.to_string().as_bytes(), 10).unwrap();
    let y = num_bigint::BigInt::parse_bytes(b.to_string().as_bytes(), 10).unwrap();
    Scalar::parse(&(x + y).to_string()).unwrap()
}

/// Relies on `BigInt`'s subtraction; the difference stays non-negative.
#[verifier::external_body]
pub(crate) fn big_sub(a: &Scalar, b: &Scalar) -> (r: Scalar)
    requires
        a.value() >= b.value(),
    ensures
        is_canonical(r@),
        r.value() == a.value() - b.value(),
{
    let x = num_bigint::BigInt::parse_bytes(a.to_string().as_bytes(), 10).unwrap();
    let y = num_bigint::BigInt::parse_bytes(b.to_string().as_bytes(), 10).unwrap();
    Scalar::parse(&(x - y).to_string()).unwrap()
}

/// Relies on `BigInt`'s remainder; on non-negative operands it is the
/// mathematical remainder in `[0, m)`.
#[verifier::external_body]
pub(crate) fn big_rem(a: &Scalar, m: &Scalar) -> (r: Scalar)
    requires
        m.value() >= 1,
    ensures
        is_canonical(r@),
        r.value() == a.value() % m.value(),
{
    let x = num_bigint::BigInt::parse_bytes(a.to_string().as_bytes(), 10).unwrap();
    let y = num_bigint::BigInt::parse_bytes(m.to_string().as_bytes(), 10).unwrap();
    Scalar::parse(&(x % y).to_string()).unwrap()
}

/// Relies on `BigInt`'s division by two to halve an even difference.
#[verifier::external_body]
pub(crate) fn big_half(a: &Scalar) -> (r: Scalar)
    ensures
        is_canonical(r@),
        r.value() == a.value() / 2,
{
    let x = num_bigint::BigInt::parse_bytes(a.to_string().as_bytes(), 10).unwrap();
    let two = num_bigint::BigInt::parse_bytes(b"2", 10).unwrap();
    Scalar::parse(&(x / two).to_string()).unwrap()
}

/// Relies on `RandBigInt::gen_bigint_range` over the thread-local generator:
/// a uniform draw from `[1, p)`; the range is non-empty, so it cannot panic.
#[verifier::external_body]
pub(crate) fn random_element_below(p: &Scalar) -> (r: Element)
    requires
        p.value() >= 2,
    ensures
        is_canonical(r@),
        1 <= r.value() < p.value(),
{
    let one = num_bigint::BigInt::parse_bytes(b"1", 10).unwrap();
    let upper = num_bigint::BigInt::parse_bytes(p.to_string().as_bytes(), 10).unwrap();
    let mut rng = rand::thread_rng();
    let g = num_bigint::RandBigInt::gen_bigint_range(&mut rng, &one, &upper);
    Element::parse(&g.to_string()).unwrap()
}

/// Relies on `rand::random`, drawing 32 uniform bits from the thread-local
/// cryptographically secure generator.
#[verifier::external_body]
pub(crate) fn random_u32() -> u32 {
    rand::random::<u32>()
}

/// Relies on `num_primes::Verification::is_prime`, a probabilistic test
/// (one Fermat round, then Miller-Rabin rounds on random bases) whose
/// verdict can err in either direction, so nothing is promised of the
/// result.  Its internal random base draws need a value above 3.
#[verifier::external_body]
pub(crate) fn check_prime(n: &Scalar) -> bool
    requires
        n.value() > 3,
{
    let x = num_primes::BigUint::parse_bytes(n.to_string().as_bytes(), 10).unwrap();
    num_primes::Verification::is_prime(&x)
}

/// Relies on `BigInt`'s remainder, on an element; on non-negative operands
/// it is the mathematical remainder in `[0, m)`.
#[verifier::external_body]
pub(crate) fn elem_rem(a: &Element, m: &Scalar) -> (r: Element)
    requires
        m.value() >= 1,
    ensures
        is_canonical(r@),
        r.value() == a.value() % m.value(),
{
    let x = num_bigint::BigInt::parse_bytes(a.to_string().as_bytes(), 10).unwrap();
    let y = num_bigint::BigInt::parse_bytes(m.to_string().as_bytes(), 10).unwrap();
    Element::parse(&(x % y).to_string()).unwrap()
}

/// Relies on `RandBigInt::gen_bigint_range` over the thread-local generator:
/// a uniform draw from `[lo, hi)`; the range is non-empty, so it cannot panic.
#[verifier::external_body]
pub(crate) fn random_scalar_range(lo: &Scalar, hi: &Scalar) -> (r: Scalar)
    requires
        lo.value() < hi.value(),
    ensures
        is_canonical(r@),
        lo.value() <= r.value() < hi.value(),
{
    let l = num_bigint::BigInt::parse_bytes(lo.to_string().as_bytes(), 10).unwrap();
    let h = num_bigint::BigInt::parse_bytes(hi.to_string().as_bytes(), 10).unwrap();
    let mut rng = rand::thread_rng();
    let g = num_bigint::RandBigInt::gen_bigint_range(&mut rng, &l, &h);
    Scalar::parse(&g.to_string()).unwrap()
}

impl Scalar {
    /// The sum of two scalars.
    pub fn add(&self, other: &Scalar) -> (r: Scalar)
        ensures
            is_canonical(r@),
            r.value() == self.value() + other.value(),
    {
        big_add(self, other)
    }

    /// The product of two scalars.
    pub fn mul(&self, other: &Scalar) -> (r: Scalar)
        ensures
            is_canonical(r@),
            r.value() == self.value() * other.value(),
    {
        big_mul(self, other)
    }
}

impl Element {
    /// The sum of two elements, as plain integers.
    pub fn add(&self, other: &Element) -> (r: Element)
        ensures
            is_canonical(r@),
            r.value() == self.value() + other.value(),
    {
        elem_add(self, other)
    }

    /// The product of two elements, as plain integers.
    pub fn mul(&self, other: &Element) -> (r: Element)
        ensures
            is_canonical(r@),
            r.value() == self.value() * other.value(),
    {
        elem_mul(self, other)
    }
}

} // verus!
