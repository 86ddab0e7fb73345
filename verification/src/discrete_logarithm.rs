//! The discrete-logarithm flavor of the Chaum-Pedersen protocol: a
//! multiplicative subgroup of prime order `q` of the integers modulo a safe
//! prime `p = 2q + 1`, with two generators `g < h` of that subgroup.
//!
//! The prover knows `x` with `y1 = g^x` and `y2 = h^x` (mod `p`).  It commits
//! to a nonce `k` through `r1 = g^k`, `r2 = h^k`, receives a challenge `c`,
//! and answers `s = (k - c*x) mod q`.  The verifier recomputes
//! `r1' = g^s * y1^c` and `r2' = h^s * y2^c` (mod `p`) and compares.

use vstd::prelude::*;
use vstd::arithmetic::power::{
    pow,
    lemma_pow_adds,
    lemma_pow_multiplies,
    lemma_pow_mod_noop,
    lemma1_pow,
};
use vstd::arithmetic::div_mod::{
    lemma_fundamental_div_mod,
    lemma_mul_mod_noop_general,
    lemma_add_mod_noop_right,
    lemma_mod_add_multiples_vanish,
    lemma_sub_mod_noop,
    lemma_mod_bound,
    lemma_small_mod,
};
use vstd::arithmetic::mul::lemma_mul_nonnegative;
use crate::digits::{Scalar, Element, ConversionError, is_canonical, dec_val};
use crate::arith::{
    MAX_DRAWS,
    sha512_of,
    be_bytes_val,
    pow_mod,
    mod_exp,
    big_mul,
    elem_mul,
    big_add,
    big_sub,
    big_rem,
    big_half,
    elem_rem,
    random_element_below,
    random_scalar_range,
    random_u32,
    check_prime,
};

verus! {

/// The value the discrete-logarithm flavor derives from a password: the
/// SHA-512 digest of the password bytes, read as a big-endian integer.
pub open spec fn dl_password_value(password: Seq<char>) -> int {
    be_bytes_val(sha512_of(password))
}

/// Relies on SHA-512 from `sha2` and `BigUint::from_bytes_be`: the digest is
/// a function of the password alone, read big-endian as a non-negative
/// integer.
#[verifier::external_body]
fn hash_password(password: &str) -> (r: Scalar)
    ensures
        is_canonical(r@),
        r.value() == dl_password_value(password@),
        r.value() >= 0,
{
    let digest = <sha2::Sha512 as sha2::Digest>::digest(password.as_bytes());
    let x = num_bigint::BigUint::from_bytes_be(digest.as_slice());
    Scalar::parse(&x.to_string()).unwrap()
}

/// Configuration for the discrete logarithm protocol.
pub struct DiscreteLogarithmConfiguration {
    /// The modulus `p = 2q + 1`; generation samples it as a safe prime.
    pub p: Scalar,
    /// The prime order of the subgroup that `g` and `h` generate.
    pub q: Scalar,
    /// A generator of the order-`q` subgroup.
    pub g: Element,
    /// A second, larger generator of the order-`q` subgroup.
    pub h: Element,
}

impl DiscreteLogarithmConfiguration {
    /// A valid configuration: an odd modulus `p = 2q + 1` of at least five,
    /// and two ordered values `g < h` whose `q`-th power is one mod `p`.
    /// That `p` and `q` are prime is the verdict of the sampler's
    /// probabilistic primality test, confirmed again by the test suite; a
    /// probabilistic outcome cannot be recorded as an invariant, and none of
    /// the protocol's proved identities needs it.
    pub open spec fn wf(&self) -> bool {
        &&& self.p.value() >= 5
        &&& self.p.value() % 2 == 1
        &&& self.q.value() == (self.p.value() - 1) / 2
        &&& 1 <= self.g.value() < self.p.value()
        &&& 1 <= self.h.value() < self.p.value()
        &&& self.g.value() < self.h.value()
        &&& pow_mod(self.g.value(), self.q.value(), self.p.value()) == 1
        &&& pow_mod(self.h.value(), self.q.value(), self.p.value()) == 1
    }

    /// Generates a configuration with the given bit size for the prime: the
    /// modulus of a returned configuration lies strictly between
    /// `2^(prime_bits-1)` and `2^prime_bits`.  Failure can come only from
    /// exhausting the random-draw budget.
    pub fn generate(prime_bits: usize) -> (r: Result<DiscreteLogarithmConfiguration,
        ConversionError>)
        requires
            prime_bits >= 4,
        ensures
            r matches Ok(c) ==> c.wf(),
            r matches Ok(c) ==> pow(2, (prime_bits - 1) as nat) < c.p.value() < pow(
                2,
                prime_bits as nat,
            ),
    {
        let p = sample_safe_prime(prime_bits)?;
        DiscreteLogarithmConfiguration::generate_from_prime(p)
    }

    /// Generates a configuration from a pre-chosen safe prime: an odd
    /// modulus of at least five, expected prime with a prime `(p - 1) / 2`.
    /// Failure can come only from exhausting the random-draw budget in the
    /// generator search.
    pub fn generate_from_prime(p: Scalar) -> (r: Result<DiscreteLogarithmConfiguration,
        ConversionError>)
        requires
            p.value() >= 5,
            p.value() % 2 == 1,
        ensures
            r matches Ok(c) ==> c.wf() && c.p@ == p@,
    {
        proof {
            lemma_modulus_shape(p.value());
        }
        let one = Scalar::one();
        let q = big_half(&big_sub(&p, &one));
        let g1 = find_generator(&p, &q)?;
        let mut g2 = find_generator(&p, &q)?;
        let mut tries: u32 = 0;
        while g2.same(&g1) && tries < MAX_DRAWS
            invariant
                p.value() >= 5,
                p.value() % 2 == 1,
                q.value() == (p.value() - 1) / 2,
                1 <= g1.value() < p.value(),
                1 <= g2.value() < p.value(),
                pow_mod(g1.value(), q.value(), p.value()) == 1,
                pow_mod(g2.value(), q.value(), p.value()) == 1,
            decreases MAX_DRAWS - tries,
        {
            g2 = find_generator(&p, &q)?;
            tries = tries + 1;
        }
        if g2.same(&g1) {
            return Err(ConversionError);
        }
        let (g, h) = if g1.lt(&g2) {
            (g1, g2)
        } else {
            (g2, g1)
        };
        Ok(DiscreteLogarithmConfiguration { p, q, g, h })
    }

    /// Decides the configuration invariant for values that came from
    /// outside, a parsed file for instance: the modulus shape, the value
    /// ranges and ordering, and both subgroup identities are each checked
    /// by computation.
    pub fn validate(&self) -> (r: bool)
        ensures
            r == self.wf(),
    {
        let five = Scalar::from_u32(5);
        if self.p.lt(&five) {
            return false;
        }
        let two = Scalar::from_u32(2);
        let one_s = Scalar::one();
        if !big_rem(&self.p, &two).same(&one_s) {
            return false;
        }
        if !big_half(&big_sub(&self.p, &one_s)).same(&self.q) {
            return false;
        }
        let one_e = Element::one();
        if self.g.lt(&one_e) || self.h.lt(&one_e) {
            return false;
        }
        let p_text = self.p.to_string();
        proof {
            use_type_invariant(&self.p);
            assert(is_canonical(p_text@));
        }
        let p_elem = match Element::parse(p_text.as_str()) {
            Ok(v) => v,
            Err(_) => {
                proof {
                    assert(false);
                }
                return false;
            },
        };
        if !self.g.lt(&p_elem) || !self.h.lt(&p_elem) {
            return false;
        }
        if !self.g.lt(&self.h) {
            return false;
        }
        if !mod_exp(&self.g, &self.q, &self.p).same(&one_e) {
            return false;
        }
        mod_exp(&self.h, &self.q, &self.p).same(&one_e)
    }
}

impl Clone for DiscreteLogarithmConfiguration {
    /// A clone carries the same group parameters.
    fn clone(&self) -> (r: Self)
        ensures
            r.p@ == self.p@,
            r.q@ == self.q@,
            r.g@ == self.g@,
            r.h@ == self.h@,
            r.wf() == self.wf(),
    {
        DiscreteLogarithmConfiguration {
            p: self.p.clone(),
            q: self.q.clone(),
            g: self.g.clone(),
            h: self.h.clone(),
        }
    }
}

/// An odd modulus of at least five splits as `p = 2q + 1` with `q >= 2`.
proof fn lemma_modulus_shape(p: int)
    requires
        p >= 5,
        p % 2 == 1,
    ensures
        (p - 1) / 2 >= 2,
        p == 2 * ((p - 1) / 2) + 1,
{
    lemma_fundamental_div_mod(p, 2);
    assert(p == 2 * (p / 2) + 1);
    lemma_odd_double_plus_one(p / 2);
    assert((p - 1) / 2 == p / 2);
    assert(2 * (p / 2) >= 4);
}

/// Searches for a generator of the order-`q` subgroup by rejection sampling:
/// a uniform draw from `[1, p)` is kept when its `q`-th power is one mod `p`.
fn find_generator(p: &Scalar, q: &Scalar) -> (r: Result<Element, ConversionError>)
    requires
        p.value() >= 5,
        q.value() >= 2,
    ensures
        r matches Ok(g) ==> 1 <= g.value() < p.value() && pow_mod(
            g.value(),
            q.value(),
            p.value(),
        ) == 1,
{
    let one = Element::one();
    let mut tries: u32 = 0;
    while tries < MAX_DRAWS
        invariant
            p.value() >= 5,
            q.value() >= 2,
            one.value() == 1,
        decreases MAX_DRAWS - tries,
    {
        let cand = random_element_below(p);
        let t = mod_exp(&cand, q, p);
        if t.same(&one) {
            return Ok(cand);
        }
        tries = tries + 1;
    }
    Err(ConversionError)
}

/// Samples a safe prime `p = 2q + 1` of exactly `prime_bits` bits by drawing
/// `q` uniformly from `[2^(prime_bits-2), 2^(prime_bits-1))` and keeping it
/// only when the probabilistic test reports both `q` and `p` prime.  The
/// contract records the arithmetic shape; the primality verdict itself is
/// probabilistic and stays outside it.
fn sample_safe_prime(prime_bits: usize) -> (r: Result<Scalar, ConversionError>)
    requires
        prime_bits >= 4,
    ensures
        r matches Ok(p) ==> p.value() >= 5 && p.value() % 2 == 1,
        r matches Ok(p) ==> pow(2, (prime_bits - 1) as nat) < p.value() < pow(
            2,
            prime_bits as nat,
        ),
{
    let lo = pow2_scalar(prime_bits - 2);
    let hi = big_add(&lo, &lo);
    let one = Scalar::one();
    proof {
        lemma_pow2_step((prime_bits - 2) as nat);
        lemma_pow2_step((prime_bits - 1) as nat);
        vstd::arithmetic::power::lemma_pow0(2);
        lemma_pow2_step(0);
        lemma_pow2_step(1);
        assert(pow(2, 2) == 4);
        vstd::arithmetic::power::lemma_pow_increases(2, 2, (prime_bits - 2) as nat);
    }
    let mut tries: u32 = 0;
    while tries < MAX_DRAWS
        invariant
            prime_bits >= 4,
            lo.value() == pow(2, (prime_bits - 2) as nat),
            hi.value() == 2 * lo.value(),
            hi.value() == pow(2, (prime_bits - 1) as nat),
            lo.value() >= 4,
            one.value() == 1,
        decreases MAX_DRAWS - tries,
    {
        let qc = random_scalar_range(&lo, &hi);
        if check_prime(&qc) {
            let pc = big_add(&big_add(&qc, &qc), &one);
            if check_prime(&pc) {
                proof {
                    assert(pc.value() == 2 * qc.value() + 1);
                    assert(pc.value() % 2 == 1) by {
                        lemma_odd_double_plus_one(qc.value());
                    }
                    assert((pc.value() - 1) / 2 == qc.value());
                    lemma_pow2_step((prime_bits - 1) as nat);
                    assert(pc.value() < pow(2, prime_bits as nat));
                }
                return Ok(pc);
            }
        }
        tries = tries + 1;
    }
    Err(ConversionError)
}

/// `2q + 1` is odd with `q` its half.
proof fn lemma_odd_double_plus_one(q: int)
    requires
        q >= 0,
    ensures
        (2 * q + 1) % 2 == 1,
        (2 * q + 1 - 1) / 2 == q,
{
    lemma_fundamental_div_mod(2 * q + 1, 2);
    assert((2 * q) / 2 == q) by {
        lemma_fundamental_div_mod(2 * q, 2);
        lemma_mod_bound(2 * q, 2);
        assert((2 * q) % 2 == 0) by {
            vstd::arithmetic::div_mod::lemma_mod_multiples_basic(q, 2);
        }
    }
    assert((2 * q + 1) % 2 == 1) by {
        lemma_mod_add_multiples_vanish(1, 2);
        assert((2 * q + 1) % 2 == (2 * q % 2 + 1int % 2) % 2) by {
            vstd::arithmetic::div_mod::lemma_add_mod_noop(2 * q, 1, 2);
        }
        assert((2 * q) % 2 == 0) by {
            vstd::arithmetic::div_mod::lemma_mod_multiples_basic(q, 2);
        }
        lemma_small_mod(1, 2);
    }
}

/// One unfolding of the power of two.
proof fn lemma_pow2_step(n: nat)
    ensures
        pow(2, n + 1) == 2 * pow(2, n),
{
    lemma_pow_adds(2, n, 1);
    assert(pow(2, 1) == 2) by {
        vstd::arithmetic::power::lemma_pow1(2);
    }
}

/// The scalar `2^n`, by repeated doubling.
fn pow2_scalar(n: usize) -> (r: Scalar)
    ensures
        r.value() == pow(2, n as nat),
{
    let mut r = Scalar::one();
    let mut i: usize = 0;
    proof {
        vstd::arithmetic::power::lemma_pow0(2);
    }
    while i < n
        invariant
            0 <= i <= n,
            r.value() == pow(2, i as nat),
        decreases n - i,
    {
        r = big_add(&r, &r);
        i = i + 1;
        proof {
            lemma_pow2_step((i - 1) as nat);
        }
    }
    r
}

/// The discrete logarithm prover.
pub struct DiscreteLogarithmProver {
    /// The group parameters this prover works in.
    pub config: DiscreteLogarithmConfiguration,
}

impl DiscreteLogarithmProver {
    /// A usable prover carries a valid configuration.
    pub open spec fn wf(&self) -> bool {
        self.config.wf()
    }

    /// Creates a new discrete logarithm prover.
    pub fn new(config: DiscreteLogarithmConfiguration) -> (r: Self)
        ensures
            r.config == config,
    {
        DiscreteLogarithmProver { config }
    }

    /// Generates a random registration `x`: 32 uniform random bits.
    pub fn generate_registration_x(&self) -> (r: Scalar)
        ensures
            0 <= r.value() < 0x1_0000_0000,
    {
        Scalar::from_u32(random_u32())
    }

    /// Computes the registration `x` from the given password: the SHA-512
    /// digest read as a big-endian integer, which depends on the password
    /// alone.
    pub fn compute_registration_x(&self, password: String) -> (r: Scalar)
        ensures
            is_canonical(r@),
            r.value() == dl_password_value(password@),
    {
        hash_password(password.as_str())
    }

    /// Computes `(y1, y2) = (g^x, h^x)` mod `p`.
    pub fn compute_registration_y1y2(&self, x: Scalar) -> (r: Result<
        (Element, Element),
        ConversionError,
    >)
        requires
            self.wf(),
            x.value() >= 0,
        ensures
            r is Ok,
            r matches Ok(v) ==> v.0.value() == pow_mod(
                self.config.g.value(),
                x.value(),
                self.config.p.value(),
            ) && v.1.value() == pow_mod(self.config.h.value(), x.value(), self.config.p.value()),
    {
        proof {
            lemma_modulus_shape(self.config.p.value());
        }
        let y1 = mod_exp(&self.config.g, &x, &self.config.p);
        let y2 = mod_exp(&self.config.h, &x, &self.config.p);
        Ok((y1, y2))
    }

    /// Generates a random nonce `k`: 32 uniform random bits.
    pub fn generate_challenge_k(&self) -> (r: Scalar)
        ensures
            0 <= r.value() < 0x1_0000_0000,
    {
        Scalar::from_u32(random_u32())
    }

    /// Computes the commitment `(r1, r2) = (g^k, h^k)` mod `p`.
    pub fn compute_challenge_commitment_r1r2(&self, k: Scalar) -> (r: Result<
        (Element, Element),
        ConversionError,
    >)
        requires
            self.wf(),
            k.value() >= 0,
        ensures
            r is Ok,
            r matches Ok(v) ==> v.0.value() == pow_mod(
                self.config.g.value(),
                k.value(),
                self.config.p.value(),
            ) && v.1.value() == pow_mod(self.config.h.value(), k.value(), self.config.p.value()),
    {
        proof {
            lemma_modulus_shape(self.config.p.value());
        }
        let r1 = mod_exp(&self.config.g, &k, &self.config.p);
        let r2 = mod_exp(&self.config.h, &k, &self.config.p);
        Ok((r1, r2))
    }

    /// Computes the response `s = (k - c*x) mod q`, brought into `[0, q)`.
    pub fn compute_challenge_response_s(&self, x: Scalar, k: Scalar, c: Scalar) -> (r: Result<
        Scalar,
        ConversionError,
    >)
        requires
            self.wf(),
        ensures
            r is Ok,
            r matches Ok(s) ==> s.value() == (k.value() - c.value() * x.value()) % self.config.q.value(),
            r matches Ok(s) ==> 0 <= s.value() < self.config.q.value(),
    {
        proof {
            lemma_modulus_shape(self.config.p.value());
        }
        let q = &self.config.q;
        let cx = big_mul(&c, &x);
        let m = big_rem(&cx, q);
        let kq = big_rem(&k, q);
        proof {
            lemma_mod_bound(cx.value(), q.value());
            lemma_mod_bound(k.value(), q.value());
        }
        let t = big_sub(&big_add(&kq, q), &m);
        let s = big_rem(&t, q);
        proof {
            let qv = q.value();
            let kv = k.value();
            let cxv = cx.value();
            // (k%q + q - cx%q) % q == (k%q - cx%q) % q == (k - cx) % q
            lemma_mod_add_multiples_vanish(kv % qv - cxv % qv, qv);
            lemma_sub_mod_noop(kv, cxv, qv);
            lemma_mod_bound(kv - cxv, qv);
        }
        Ok(s)
    }
}

/// The discrete logarithm verifier.
pub struct DiscreteLogarithmVerifier {
    /// The group parameters this verifier works in.
    pub config: DiscreteLogarithmConfiguration,
}

impl DiscreteLogarithmVerifier {
    /// A usable verifier carries a valid configuration.
    pub open spec fn wf(&self) -> bool {
        self.config.wf()
    }

    /// Creates a new discrete logarithm verifier.
    pub fn new(config: DiscreteLogarithmConfiguration) -> (r: Self)
        ensures
            r.config == config,
    {
        DiscreteLogarithmVerifier { config }
    }

    /// Generates a random challenge `c`: 32 uniform random bits.
    pub fn generate_challenge_c(&self) -> (r: Scalar)
        ensures
            0 <= r.value() < 0x1_0000_0000,
    {
        Scalar::from_u32(random_u32())
    }

    /// Recomputes the commitment from public values:
    /// `r1' = g^s * y1^c` and `r2' = h^s * y2^c`, both mod `p`.
    pub fn compute_verification_r1r2(&self, y1: Element, y2: Element, c: Scalar, s: Scalar) -> (r:
        Result<(Element, Element), ConversionError>)
        requires
            self.wf(),
        ensures
            r is Ok,
            r matches Ok(v) ==> v.0.value() == dl_verification_value(
                self.config.g.value(),
                y1.value(),
                c.value(),
                s.value(),
                self.config.p.value(),
            ) && v.1.value() == dl_verification_value(
                self.config.h.value(),
                y2.value(),
                c.value(),
                s.value(),
                self.config.p.value(),
            ),
    {
        proof {
            lemma_modulus_shape(self.config.p.value());
        }
        let p = &self.config.p;
        let a1 = mod_exp(&self.config.g, &s, p);
        let b1 = mod_exp(&y1, &c, p);
        let r1 = elem_rem(&elem_mul(&a1, &b1), p);
        let a2 = mod_exp(&self.config.h, &s, p);
        let b2 = mod_exp(&y2, &c, p);
        let r2 = elem_rem(&elem_mul(&a2, &b2), p);
        proof {
            let pv = p.value();
            lemma_mul_mod_noop_general(
                pow(self.config.g.value(), s.value() as nat),
                pow(y1.value(), c.value() as nat),
                pv,
            );
            lemma_mul_mod_noop_general(
                pow(self.config.h.value(), s.value() as nat),
                pow(y2.value(), c.value() as nat),
                pv,
            );
        }
        Ok((r1, r2))
    }
}

/// What the verifier recomputes for one base: `base^s * y^c mod p`.
pub open spec fn dl_verification_value(base: int, y: int, c: int, s: int, p: int) -> int {
    (pow(base, s as nat) * pow(y, c as nat)) % p
}

/// Exponents congruent mod `q` give the same power mod `p`, when the base's
/// `q`-th power is one mod `p`.
proof fn lemma_pow_congruent_exponents(g: int, p: int, q: int, a: int, b: int)
    requires
        p >= 2,
        q >= 1,
        a >= 0,
        b >= 0,
        a % q == b % q,
        pow(g, q as nat) % p == 1,
    ensures
        pow(g, a as nat) % p == pow(g, b as nat) % p,
{
    lemma_pow_reduce(g, p, q, a);
    lemma_pow_reduce(g, p, q, b);
}

/// A power mod `p` only depends on the exponent mod `q`, when the base's
/// `q`-th power is one mod `p`.
proof fn lemma_pow_reduce(g: int, p: int, q: int, a: int)
    requires
        p >= 2,
        q >= 1,
        a >= 0,
        pow(g, q as nat) % p == 1,
    ensures
        pow(g, a as nat) % p == pow(g, (a % q) as nat) % p,
{
    let d = a / q;
    let r = a % q;
    lemma_fundamental_div_mod(a, q);
    lemma_mod_bound(a, q);
    assert(a == q * d + r);
    lemma_mul_nonnegative(q, d);
    assert(d >= 0) by {
        if d < 0 {
            assert(q * d <= -q) by (nonlinear_arith)
                requires q >= 1 && d <= -1;
        }
    }
    lemma_pow_adds(g, (q * d) as nat, r as nat);
    assert(pow(g, a as nat) == pow(g, (q * d) as nat) * pow(g, r as nat));
    lemma_pow_multiplies(g, q as nat, d as nat);
    assert(pow(g, (q * d) as nat) == pow(pow(g, q as nat), d as nat));
    lemma_pow_mod_noop(pow(g, q as nat), d as nat, p);
    assert(pow(pow(g, q as nat) % p, d as nat) % p == pow(pow(g, q as nat), d as nat) % p);
    lemma1_pow(d as nat);
    assert(pow(1, d as nat) == 1);
    lemma_small_mod(1, p as nat);
    assert(pow(g, (q * d) as nat) % p == 1);
    lemma_mul_mod_noop_general(pow(g, (q * d) as nat), pow(g, r as nat), p);
    assert((pow(g, (q * d) as nat) * pow(g, r as nat)) % p == ((pow(g, (q * d) as nat) % p) * pow(
        g,
        r as nat,
    )) % p);
    assert(pow(g, a as nat) % p == (1 * pow(g, r as nat)) % p);
}

/// Completeness of the protocol for one base: an honest prover's response
/// makes the verifier recompute exactly the committed value.
/// For `y = g^x mod p`, `r = g^k mod p` and `s = (k - c*x) mod q`,
/// the verifier's `g^s * y^c mod p` equals `r`.
pub proof fn lemma_dl_complete_one_base(g: int, p: int, q: int, x: int, k: int, c: int)
    requires
        p == 2 * q + 1,
        q >= 1,
        x >= 0,
        k >= 0,
        c >= 0,
        pow_mod(g, q, p) == 1,
    ensures
        dl_verification_value(
            g,
            pow_mod(g, x, p),
            c,
            (k - c * x) % q,
            p,
        ) == pow_mod(g, k, p),
{
    let y = pow_mod(g, x, p);
    let s = (k - c * x) % q;
    lemma_mod_bound(k - c * x, q);
    lemma_mul_nonnegative(x, c);
    lemma_mul_nonnegative(c, x);
    // y^c mod p == g^(x*c) mod p
    lemma_pow_mod_noop(pow(g, x as nat), c as nat, p);
    lemma_pow_multiplies(g, x as nat, c as nat);
    assert(pow(y, c as nat) % p == pow(g, (x * c) as nat) % p);
    // g^s * y^c mod p == g^(s + x*c) mod p
    lemma_mul_mod_noop_general(pow(g, s as nat), pow(y, c as nat), p);
    lemma_mul_mod_noop_general(pow(g, s as nat), pow(g, (x * c) as nat), p);
    lemma_pow_adds(g, s as nat, (x * c) as nat);
    assert((pow(g, s as nat) * pow(y, c as nat)) % p == pow(g, (s + x * c) as nat) % p);
    // s + x*c is congruent to k mod q
    assert((s + x * c) % q == k % q) by {
        lemma_add_mod_noop_right(x * c, k - c * x, q);
        assert((x * c + (k - c * x) % q) % q == (x * c + (k - c * x)) % q);
        assert(x * c == c * x) by (nonlinear_arith);
        assert(x * c + (k - c * x) == k);
    }
    lemma_pow_congruent_exponents(g, p, q, s + x * c, k);
    assert(pow(g, (s + x * c) as nat) % p == pow(g, k as nat) % p);
}

/// The registration value of a password is deterministic: any two scalars
/// carrying the password's derived value are the same scalar, digits and
/// all, whichever prover computed them.
pub proof fn lemma_password_x_deterministic(password: Seq<char>, a: Seq<char>, b: Seq<char>)
    requires
        is_canonical(a),
        is_canonical(b),
        dec_val(a) == dl_password_value(password),
        dec_val(b) == dl_password_value(password),
    ensures
        a == b,
{
    crate::digits::lemma_canonical_injective(a, b);
}

/// Completeness of the protocol for a whole configuration (the law for the
/// discrete-logarithm flavor): with `(y1, y2)` the registration of `x`,
/// `(r1, r2)` the commitment of `k`, and `s` the response to challenge `c`,
/// the verifier's recomputation returns exactly `(r1, r2)`.
pub proof fn lemma_dl_protocol_complete(
    config: DiscreteLogarithmConfiguration,
    x: int,
    k: int,
    c: int,
)
    requires
        config.wf(),
        x >= 0,
        k >= 0,
        c >= 0,
    ensures
        ({
            let p = config.p.value();
            let q = config.q.value();
            let g = config.g.value();
            let h = config.h.value();
            let s = (k - c * x) % q;
            &&& dl_verification_value(g, pow_mod(g, x, p), c, s, p) == pow_mod(g, k, p)
            &&& dl_verification_value(h, pow_mod(h, x, p), c, s, p) == pow_mod(h, k, p)
        }),
{
    let p = config.p.value();
    let q = config.q.value();
    lemma_modulus_shape(p);
    lemma_dl_complete_one_base(config.g.value(), p, q, x, k, c);
    lemma_dl_complete_one_base(config.h.value(), p, q, x, k, c);
}

} // verus!
