//! The elliptic-curve flavor of the Chaum-Pedersen protocol, over the
//! Ristretto255 prime-order group.
//!
//! The group is additive: the prover knows `x` with `y1 = x*g` and
//! `y2 = x*h`, commits to `k` through `r1 = k*g`, `r2 = k*h`, and answers a
//! challenge `c` with `s = k + c*x` (mod the group order).  The verifier
//! recomputes `r1' = s*g - c*y1` and `r2' = s*h - c*y2`.
//!
//! On the wire a point travels as the little-endian integer value of its
//! 32-byte compressed encoding, rendered in decimal; a scalar as its value
//! in decimal.  The group operations themselves are carried out by
//! `curve25519_dalek` behind trusted wrappers; what a point operation
//! returns is named, never restated, so nothing is assumed of the curve's
//! algebra.

use vstd::prelude::*;
use vstd::arithmetic::div_mod::{lemma_add_mod_noop_right, lemma_mod_bound};
use vstd::arithmetic::power::pow;
use crate::digits::{Scalar, Element, ConversionError, is_canonical, dec_val};
use crate::arith::sha512_of;
use crate::arith::MAX_DRAWS;
use crate::arith::le_bytes_val;
use curve25519_dalek::ristretto::CompressedRistretto;
use curve25519_dalek::Scalar as DalekScalar;
use num_bigint::BigUint;

verus! {

/// The order of the Ristretto255 group: `2^252 + 27742317777372353535851937790883648493`.
pub open spec fn ec_order() -> int {
    7237005577332262213973186563042994240857116359379907606001950938285454250989int
}

/// Whether the 32-byte little-endian encoding of `v` is the canonical
/// compressed encoding of a Ristretto255 point; what
/// `CompressedRistretto::decompress` accepts.
pub uninterp spec fn ristretto_decodes(v: int) -> bool;

/// The point `k*P`, as the integer value of its compressed encoding, for a
/// point `P` given the same way; what scalar-point multiplication returns.
pub uninterp spec fn ristretto_scale(p: int, k: int) -> int;

/// The point `A - B`, as the integer value of its compressed encoding; what
/// point subtraction returns.
pub uninterp spec fn ristretto_sub(a: int, b: int) -> int;

/// The little-endian integer value of the compressed encoding of the
/// Ristretto basepoint `B` (the canonical generator constant of
/// `curve25519_dalek`).
pub open spec fn ristretto_basepoint_value() -> int {
    53453403443306840533278073560698739391446669128918427283046925944918568268514int
}

/// The point a 64-byte string maps to under
/// `RistrettoPoint::from_uniform_bytes`, as the integer value of its
/// compressed encoding; a function of the bytes alone.
pub uninterp spec fn ristretto_from_uniform(bytes: Seq<u8>) -> int;



/// Relies on `BigUint`'s base conversion: the 32-byte little-endian
/// encoding of a scalar's value, where it fits.
#[verifier::external_body]
fn scalar_to_le32(v: &Scalar) -> (r: Option<[u8; 32]>)
    ensures
        (r is Some) == (v.value() < pow(2, 256)),
        r matches Some(b) ==> le_bytes_val(b@) == v.value(),
{
    let n = BigUint::parse_bytes(v.to_string().as_bytes(), 10).unwrap();
    let mut b = n.to_bytes_le();
    if b.len() > 32 {
        return None;
    }
    b.resize(32, 0);
    Some(b.try_into().unwrap())
}

/// Relies on `BigUint`'s base conversion: the 32-byte little-endian
/// encoding of an element's value, where it fits.
#[verifier::external_body]
fn elem_to_le32(v: &Element) -> (r: Option<[u8; 32]>)
    ensures
        (r is Some) == (v.value() < pow(2, 256)),
        r matches Some(b) ==> le_bytes_val(b@) == v.value(),
{
    let n = BigUint::parse_bytes(v.to_string().as_bytes(), 10).unwrap();
    let mut b = n.to_bytes_le();
    if b.len() > 32 {
        return None;
    }
    b.resize(32, 0);
    Some(b.try_into().unwrap())
}

/// Relies on `BigUint`'s base conversion: the element whose value the
/// 32 bytes encode little-endian.
#[verifier::external_body]
fn le32_to_elem(b: &[u8; 32]) -> (r: Element)
    ensures
        is_canonical(r@),
        r.value() == le_bytes_val(b@),
{
    Element::parse(&BigUint::from_bytes_le(b).to_string()).unwrap()
}

/// Relies on `BigUint`'s base conversion: the scalar whose value the
/// 32 bytes encode little-endian.
#[verifier::external_body]
fn le32_to_scalar(b: &[u8; 32]) -> (r: Scalar)
    ensures
        is_canonical(r@),
        r.value() == le_bytes_val(b@),
{
    Scalar::parse(&BigUint::from_bytes_le(b).to_string()).unwrap()
}

/// Relies on `Scalar::random`: a uniform scalar below the group order,
/// drawn from the thread-local cryptographically secure generator.
#[verifier::external_body]
pub(crate) fn ec_random_scalar() -> (r: Scalar)
    ensures
        is_canonical(r@),
        0 <= r.value() < ec_order(),
{
    let mut rng = rand::thread_rng();
    let s = DalekScalar::random(&mut rng);
    le32_to_scalar(&s.to_bytes())
}

/// Relies on SHA-512 from `sha2` and `Scalar::from_bytes_mod_order`: the
/// first 32 digest bytes, read little-endian, reduced mod the group order.
#[verifier::external_body]
fn ec_hash_password(password: &str) -> (r: Scalar)
    ensures
        is_canonical(r@),
        r.value() == le_bytes_val(sha512_of(password@).take(32)) % ec_order(),
        0 <= r.value() < ec_order(),
{
    let digest = <sha2::Sha512 as sha2::Digest>::digest(password.as_bytes());
    let mut xb = [0u8; 32];
    xb.copy_from_slice(&digest[..32]);
    let s = DalekScalar::from_bytes_mod_order(xb);
    le32_to_scalar(&s.to_bytes())
}

/// Relies on `RISTRETTO_BASEPOINT_POINT`, `RistrettoPoint::from_uniform_bytes`
/// over the SHA-512 digest of a fixed domain-separation string, and
/// `Scalar::random`: returns `(sigma*B, sigma*H)` for one fresh uniform
/// `sigma`.  Both results are compressed canonical encodings, so both
/// decode.
#[verifier::external_body]
fn ec_generate_pair() -> (r: (Element, Element))
    ensures
        is_canonical(r.0@),
        is_canonical(r.1@),
        ristretto_decodes(r.0.value()),
        ristretto_decodes(r.1.value()),
        exists|sigma: int|
            r.0.value() == #[trigger] ristretto_scale(ristretto_basepoint_value(), sigma)
                && r.1.value() == ristretto_scale(
                ristretto_from_uniform(sha512_of("Unique value for H"@)),
                sigma,
            ),
{
    let g0 = curve25519_dalek::constants::RISTRETTO_BASEPOINT_POINT;
    let digest = <sha2::Sha512 as sha2::Digest>::digest("Unique value for H".as_bytes());
    let h0 = curve25519_dalek::RistrettoPoint::from_uniform_bytes(&digest.into());
    let mut rng = rand::thread_rng();
    let secret = DalekScalar::random(&mut rng);
    let g = le32_to_elem(&(g0 * secret).compress().to_bytes());
    let h = le32_to_elem(&(h0 * secret).compress().to_bytes());
    (g, h)
}

/// Relies on `CompressedRistretto::decompress`, scalar-point multiplication
/// and `RistrettoPoint::compress`: succeeds exactly when the point decodes
/// and the scalar is canonical (below the group order), and then returns
/// the named product.  A compressed result decodes again.
#[verifier::external_body]
fn ec_scale(point: &Element, k: &Scalar) -> (r: Result<Element, ConversionError>)
    ensures
        (r is Ok) == (ristretto_decodes(point.value()) && 0 <= k.value() < ec_order()),
        r matches Ok(v) ==> v.value() == ristretto_scale(point.value(), k.value()),
        r matches Ok(v) ==> is_canonical(v@) && ristretto_decodes(v.value()),
{
    let pa = elem_to_le32(point).ok_or(ConversionError)?;
    let ka = scalar_to_le32(k).ok_or(ConversionError)?;
    let pt = CompressedRistretto(pa).decompress().ok_or(ConversionError)?;
    let sc = Option::<DalekScalar>::from(DalekScalar::from_canonical_bytes(ka)).ok_or(
        ConversionError,
    )?;
    Ok(le32_to_elem(&(pt * sc).compress().to_bytes()))
}

/// Relies on `CompressedRistretto::decompress`, point subtraction and
/// `RistrettoPoint::compress`: succeeds exactly when both points decode, and
/// then returns the named difference.  A compressed result decodes again.
#[verifier::external_body]
fn ec_point_sub(a: &Element, b: &Element) -> (r: Result<Element, ConversionError>)
    ensures
        (r is Ok) == (ristretto_decodes(a.value()) && ristretto_decodes(b.value())),
        r matches Ok(v) ==> v.value() == ristretto_sub(a.value(), b.value()),
        r matches Ok(v) ==> is_canonical(v@) && ristretto_decodes(v.value()),
{
    let aa = elem_to_le32(a).ok_or(ConversionError)?;
    let ba = elem_to_le32(b).ok_or(ConversionError)?;
    let pa = CompressedRistretto(aa).decompress().ok_or(ConversionError)?;
    let pb = CompressedRistretto(ba).decompress().ok_or(ConversionError)?;
    Ok(le32_to_elem(&(pa - pb).compress().to_bytes()))
}

/// Relies on scalar multiplication of `curve25519_dalek`, which works modulo
/// the group order; succeeds exactly when both operands are canonical
/// scalars.
#[verifier::external_body]
fn ec_scalar_mul(a: &Scalar, b: &Scalar) -> (r: Result<Scalar, ConversionError>)
    ensures
        (r is Ok) == (0 <= a.value() < ec_order() && 0 <= b.value() < ec_order()),
        r matches Ok(v) ==> v.value() == (a.value() * b.value()) % ec_order(),
        r matches Ok(v) ==> is_canonical(v@),
{
    let aa = scalar_to_le32(a).ok_or(ConversionError)?;
    let ba = scalar_to_le32(b).ok_or(ConversionError)?;
    let x = Option::<DalekScalar>::from(DalekScalar::from_canonical_bytes(aa)).ok_or(
        ConversionError,
    )?;
    let y = Option::<DalekScalar>::from(DalekScalar::from_canonical_bytes(ba)).ok_or(
        ConversionError,
    )?;
    Ok(le32_to_scalar(&(x * y).to_bytes()))
}

/// Relies on scalar addition of `curve25519_dalek`, which works modulo the
/// group order; succeeds exactly when both operands are canonical scalars.
#[verifier::external_body]
fn ec_scalar_add(a: &Scalar, b: &Scalar) -> (r: Result<Scalar, ConversionError>)
    ensures
        (r is Ok) == (0 <= a.value() < ec_order() && 0 <= b.value() < ec_order()),
        r matches Ok(v) ==> v.value() == (a.value() + b.value()) % ec_order(),
        r matches Ok(v) ==> is_canonical(v@),
{
    let aa = scalar_to_le32(a).ok_or(ConversionError)?;
    let ba = scalar_to_le32(b).ok_or(ConversionError)?;
    let x = Option::<DalekScalar>::from(DalekScalar::from_canonical_bytes(aa)).ok_or(
        ConversionError,
    )?;
    let y = Option::<DalekScalar>::from(DalekScalar::from_canonical_bytes(ba)).ok_or(
        ConversionError,
    )?;
    Ok(le32_to_scalar(&(x + y).to_bytes()))
}

/// Configuration for the elliptic curve protocol using ristretto points.
pub struct EllipticCurveConfiguration {
    /// The generator ristretto point g.
    pub g: Element,
    /// The generator ristretto point h.
    pub h: Element,
}

impl EllipticCurveConfiguration {
    /// A valid configuration: two distinct non-identity points that decode.
    /// The identity compresses to 32 zero bytes, whose integer value is zero.
    pub open spec fn wf(&self) -> bool {
        &&& ristretto_decodes(self.g.value())
        &&& ristretto_decodes(self.h.value())
        &&& self.g.value() != self.h.value()
        &&& self.g.value() != 0
        &&& self.h.value() != 0
    }

    /// Generates a configuration from the ristretto base point: `g` is a
    /// fresh multiple of the base point `B`, `h` the same multiple of the
    /// point `H` derived by hashing a fixed string.  Draws are repeated
    /// until the two points are distinct and neither is the identity;
    /// failure can come only from exhausting the random-draw budget.
    pub fn generate() -> (r: Result<EllipticCurveConfiguration, ConversionError>)
        ensures
            r matches Ok(c) ==> c.wf(),
            r matches Ok(c) ==> exists|sigma: int|
                c.g.value() == #[trigger] ristretto_scale(ristretto_basepoint_value(), sigma)
                    && c.h.value() == ristretto_scale(
                    ristretto_from_uniform(sha512_of("Unique value for H"@)),
                    sigma,
                ),
    {
        let mut tries: u32 = 0;
        while tries < MAX_DRAWS
            decreases MAX_DRAWS - tries,
        {
            let (g, h) = ec_generate_pair();
            if !g.same(&h) && !g.is_zero() && !h.is_zero() {
                return Ok(EllipticCurveConfiguration { g, h });
            }
            tries = tries + 1;
        }
        Err(ConversionError)
    }

    /// Decides the configuration invariant for values that came from
    /// outside, a parsed file for instance: both points must decode, be
    /// distinct and differ from the identity.  Scaling by the zero scalar
    /// succeeds exactly when a point decodes.
    pub fn validate(&self) -> (r: bool)
        ensures
            r == self.wf(),
    {
        let zero = Scalar::zero();
        let g_ok = ec_scale(&self.g, &zero).is_ok();
        let h_ok = ec_scale(&self.h, &zero).is_ok();
        g_ok && h_ok && !self.g.same(&self.h) && !self.g.is_zero() && !self.h.is_zero()
    }
}

impl Clone for EllipticCurveConfiguration {
    /// A clone carries the same group parameters.
    fn clone(&self) -> (r: Self)
        ensures
            r.g@ == self.g@,
            r.h@ == self.h@,
            r.wf() == self.wf(),
    {
        EllipticCurveConfiguration { g: self.g.clone(), h: self.h.clone() }
    }
}

/// The elliptic curve prover.
pub struct EllipticCurveProver {
    /// The group parameters this prover works in.
    pub config: EllipticCurveConfiguration,
}

impl EllipticCurveProver {
    /// A usable prover carries a valid configuration.
    pub open spec fn wf(&self) -> bool {
        self.config.wf()
    }

    /// Creates a new elliptic curve prover.
    pub fn new(config: EllipticCurveConfiguration) -> (r: Self)
        ensures
            r.config == config,
    {
        EllipticCurveProver { config }
    }

    /// Generates a random registration `x`: a uniform scalar.
    pub fn generate_registration_x(&self) -> (r: Scalar)
        ensures
            0 <= r.value() < ec_order(),
    {
        ec_random_scalar()
    }

    /// Computes the registration `x` from the given password: the first 32
    /// bytes of the SHA-512 digest, reduced mod the group order; a function
    /// of the password alone.
    pub fn compute_registration_x(&self, password: String) -> (r: Scalar)
        ensures
            is_canonical(r@),
            r.value() == le_bytes_val(sha512_of(password@).take(32)) % ec_order(),
            0 <= r.value() < ec_order(),
    {
        ec_hash_password(password.as_str())
    }

    /// Computes `(y1, y2) = (x*g, x*h)`; fails exactly when `x` is not a
    /// canonical scalar.
    pub fn compute_registration_y1y2(&self, x: Scalar) -> (r: Result<
        (Element, Element),
        ConversionError,
    >)
        requires
            self.wf(),
        ensures
            (r is Ok) == (0 <= x.value() < ec_order()),
            r matches Ok(v) ==> v.0.value() == ristretto_scale(self.config.g.value(), x.value())
                && v.1.value() == ristretto_scale(self.config.h.value(), x.value()),
    {
        let y1 = ec_scale(&self.config.g, &x)?;
        let y2 = ec_scale(&self.config.h, &x)?;
        Ok((y1, y2))
    }

    /// Generates a random nonce `k`: a uniform scalar.
    pub fn generate_challenge_k(&self) -> (r: Scalar)
        ensures
            0 <= r.value() < ec_order(),
    {
        ec_random_scalar()
    }

    /// Computes the commitment `(r1, r2) = (k*g, k*h)`; fails exactly when
    /// `k` is not a canonical scalar.
    pub fn compute_challenge_commitment_r1r2(&self, k: Scalar) -> (r: Result<
        (Element, Element),
        ConversionError,
    >)
        requires
            self.wf(),
        ensures
            (r is Ok) == (0 <= k.value() < ec_order()),
            r matches Ok(v) ==> v.0.value() == ristretto_scale(self.config.g.value(), k.value())
                && v.1.value() == ristretto_scale(self.config.h.value(), k.value()),
    {
        let r1 = ec_scale(&self.config.g, &k)?;
        let r2 = ec_scale(&self.config.h, &k)?;
        Ok((r1, r2))
    }

    /// Computes the response `s = k + c*x` mod the group order; fails
    /// exactly when one of `x`, `k`, `c` is not a canonical scalar.
    pub fn compute_challenge_response_s(&self, x: Scalar, k: Scalar, c: Scalar) -> (r: Result<
        Scalar,
        ConversionError,
    >)
        ensures
            (r is Ok) == (0 <= x.value() < ec_order() && 0 <= k.value() < ec_order() && 0
                <= c.value() < ec_order()),
            r matches Ok(s) ==> s.value() == (k.value() + c.value() * x.value()) % ec_order(),
            r matches Ok(s) ==> 0 <= s.value() < ec_order(),
    {
        let m = ec_scalar_mul(&c, &x)?;
        proof {
            lemma_mod_bound(c.value() * x.value(), ec_order());
        }
        let s = ec_scalar_add(&k, &m)?;
        proof {
            lemma_add_mod_noop_right(k.value(), c.value() * x.value(), ec_order());
        }
        Ok(s)
    }
}

/// The registration value of a password is deterministic in this flavor
/// too: any two scalars carrying the password's derived value are the same
/// scalar, digits and all, whichever prover computed them.
pub proof fn lemma_password_x_deterministic(password: Seq<char>, a: Seq<char>, b: Seq<char>)
    requires
        is_canonical(a),
        is_canonical(b),
        dec_val(a) == le_bytes_val(sha512_of(password).take(32)) % ec_order(),
        dec_val(b) == le_bytes_val(sha512_of(password).take(32)) % ec_order(),
    ensures
        a == b,
{
    crate::digits::lemma_canonical_injective(a, b);
}

/// The elliptic curve verifier.
pub struct EllipticCurveVerifier {
    /// The group parameters this verifier works in.
    pub config: EllipticCurveConfiguration,
}

impl EllipticCurveVerifier {
    /// A usable verifier carries a valid configuration.
    pub open spec fn wf(&self) -> bool {
        self.config.wf()
    }

    /// Creates a new elliptic curve verifier.
    pub fn new(config: EllipticCurveConfiguration) -> (r: Self)
        ensures
            r.config == config,
    {
        EllipticCurveVerifier { config }
    }

    /// Generates a random challenge `c`: a uniform scalar.
    pub fn generate_challenge_c(&self) -> (r: Scalar)
        ensures
            0 <= r.value() < ec_order(),
    {
        ec_random_scalar()
    }

    /// Recomputes the commitment from public values:
    /// `r1' = s*g - c*y1` and `r2' = s*h - c*y2`.  Fails exactly when `y1`
    /// or `y2` does not decode as a point, or `c` or `s` is not a canonical
    /// scalar.
    pub fn compute_verification_r1r2(&self, y1: Element, y2: Element, c: Scalar, s: Scalar) -> (r:
        Result<(Element, Element), ConversionError>)
        requires
            self.wf(),
        ensures
            (r is Ok) == (ristretto_decodes(y1.value()) && ristretto_decodes(y2.value()) && 0
                <= c.value() < ec_order() && 0 <= s.value() < ec_order()),
            r matches Ok(v) ==> v.0.value() == ristretto_sub(
                ristretto_scale(self.config.g.value(), s.value()),
                ristretto_scale(y1.value(), c.value()),
            ) && v.1.value() == ristretto_sub(
                ristretto_scale(self.config.h.value(), s.value()),
                ristretto_scale(y2.value(), c.value()),
            ),
    {
        let a1 = ec_scale(&self.config.g, &s)?;
        let b1 = ec_scale(&y1, &c)?;
        let a2 = ec_scale(&self.config.h, &s)?;
        let b2 = ec_scale(&y2, &c)?;
        let r1 = ec_point_sub(&a1, &b1)?;
        let r2 = ec_point_sub(&a2, &b2)?;
        Ok((r1, r2))
    }
}

} // verus!
