use zkauth::digits::Scalar;
use zkauth::discrete_logarithm::{
    DiscreteLogarithmConfiguration, DiscreteLogarithmProver, DiscreteLogarithmVerifier,
};

fn test_prover_and_verifier() -> (DiscreteLogarithmProver, DiscreteLogarithmVerifier) {
    let config = DiscreteLogarithmConfiguration::generate(16).unwrap();
    let prover = DiscreteLogarithmProver::new(config.clone());
    let verifier = DiscreteLogarithmVerifier::new(config);
    (prover, verifier)
}

fn test_prover() -> DiscreteLogarithmProver {
    test_prover_and_verifier().0
}

fn test_verifier() -> DiscreteLogarithmVerifier {
    test_prover_and_verifier().1
}

#[test]
fn generate_registration_x() {
    let prover = test_prover();
    let x1 = prover.generate_registration_x();
    assert!(Scalar::zero().lt(&x1));
    let x2 = prover.generate_registration_x();
    assert!(Scalar::zero().lt(&x2));
    assert_ne!(x1, x2);
}

#[test]
fn compute_registration_x_with_password() {
    let prover = test_prover();
    let x1 = prover.compute_registration_x("password".to_string());
    assert!(Scalar::zero().lt(&x1));
    let x2 = prover.compute_registration_x("password".to_string());
    assert!(Scalar::zero().lt(&x2));
    assert_eq!(x1, x2);
    let x3 = prover.compute_registration_x("password2".to_string());
    assert!(Scalar::zero().lt(&x3));
    assert_ne!(x1, x3);
}

#[test]
fn compute_registration_x_with_empty_password() {
    let prover = test_prover();
    let x = prover.compute_registration_x("".to_string());
    assert!(Scalar::zero().lt(&x));
}

#[test]
fn compute_registration_y1y2() {
    let prover = test_prover();
    let x = prover.generate_registration_x();
    let (y1, y2) = prover.compute_registration_y1y2(x).unwrap();
    assert!(!y1.is_zero());
    assert!(!y2.is_zero());
    assert_ne!(y1, y2);
}

#[test]
fn generate_challenge_k() {
    let prover = test_prover();
    let k1 = prover.generate_challenge_k();
    assert!(Scalar::zero().lt(&k1));
    let k2 = prover.generate_challenge_k();
    assert!(Scalar::zero().lt(&k2));
    assert_ne!(k1, k2);
}

#[test]
fn compute_challenge_commitment_r1r2() {
    let prover = test_prover();
    let k = prover.generate_challenge_k();
    let (r1, r2) = prover.compute_challenge_commitment_r1r2(k).unwrap();
    assert!(!r1.is_zero());
    assert!(!r2.is_zero());
    assert_ne!(r1, r2);
}

#[test]
fn compute_challenge_response_s() {
    let prover = test_prover();
    let x = prover.generate_registration_x();
    let k = prover.generate_challenge_k();
    let c = prover.generate_challenge_k();
    let s = prover.compute_challenge_response_s(x, k, c).unwrap();
    let q = Scalar::parse(&prover.config.q.to_string()).unwrap();
    assert!(s.lt(&q));
}

#[test]
fn test_generate_challenge_c() {
    let verifier = test_verifier();
    let c = verifier.generate_challenge_c();
    assert!(Scalar::zero().lt(&c));
}

#[test]
fn test_generate_random_scalar() {
    let prover = test_prover();
    let scalar = prover.generate_registration_x();
    assert!(scalar.same(&Scalar::zero()) || Scalar::zero().lt(&scalar));
}

#[test]
fn verify_succeeds_with_given_password() {
    let (prover, verifier) = test_prover_and_verifier();

    let x = prover.compute_registration_x("password".to_string());
    let (y1, y2) = prover.compute_registration_y1y2(x.clone()).unwrap();
    let c = verifier.generate_challenge_c();
    let k = prover.generate_challenge_k();
    let (r1, r2) = prover.compute_challenge_commitment_r1r2(k.clone()).unwrap();
    let s = prover.compute_challenge_response_s(x, k, c.clone()).unwrap();
    let (r1_prime, r2_prime) = verifier.compute_verification_r1r2(y1, y2, c, s).unwrap();
    assert_eq!(r1_prime, r1);
    assert_eq!(r2_prime, r2);
}

#[test]
fn verify_succeeds_with_generated_x() {
    let (prover, verifier) = test_prover_and_verifier();

    let x = prover.generate_registration_x();
    let (y1, y2) = prover.compute_registration_y1y2(x.clone()).unwrap();
    let c = verifier.generate_challenge_c();
    let k = prover.generate_challenge_k();
    let (r1, r2) = prover.compute_challenge_commitment_r1r2(k.clone()).unwrap();
    let s = prover.compute_challenge_response_s(x, k, c.clone()).unwrap();
    let (r1_prime, r2_prime) = verifier.compute_verification_r1r2(y1, y2, c, s).unwrap();
    assert_eq!(r1_prime, r1);
    assert_eq!(r2_prime, r2);
}

#[test]
fn verify_fails_with_incorrect_y1() {
    let (prover, verifier) = test_prover_and_verifier();

    let x = prover.compute_registration_x("password".to_string());
    let (y1, y2) = prover.compute_registration_y1y2(x.clone()).unwrap();
    let bumped = y1.add(&zkauth::digits::Element::one());
    let c = verifier.generate_challenge_c();
    let k = prover.generate_challenge_k();
    let (r1, r2) = prover.compute_challenge_commitment_r1r2(k.clone()).unwrap();
    let s = prover.compute_challenge_response_s(x, k, c.clone()).unwrap();
    let (r1_prime, r2_prime) = verifier.compute_verification_r1r2(bumped, y2, c, s).unwrap();
    assert_ne!(r1_prime, r1);
    assert_eq!(r2_prime, r2);
}

#[test]
fn verify_fails_with_incorrect_y2() {
    let (prover, verifier) = test_prover_and_verifier();

    let x = prover.compute_registration_x("password".to_string());
    let (y1, y2) = prover.compute_registration_y1y2(x.clone()).unwrap();
    let bumped = y2.add(&zkauth::digits::Element::one());
    let c = verifier.generate_challenge_c();
    let k = prover.generate_challenge_k();
    let (r1, r2) = prover.compute_challenge_commitment_r1r2(k.clone()).unwrap();
    let s = prover.compute_challenge_response_s(x, k, c.clone()).unwrap();
    let (r1_prime, r2_prime) = verifier.compute_verification_r1r2(y1, bumped, c, s).unwrap();
    assert_eq!(r1_prime, r1);
    assert_ne!(r2_prime, r2);
}

fn is_prime_u64(n: u64) -> bool {
    if n < 2 {
        return false;
    }
    let mut d = 2u64;
    while d * d <= n {
        if n % d == 0 {
            return false;
        }
        d += 1;
    }
    true
}

fn pow_mod_u64(mut b: u64, mut e: u64, m: u64) -> u64 {
    let mut acc = 1u64 % m;
    b %= m;
    while e > 0 {
        if e & 1 == 1 {
            acc = acc * b % m;
        }
        b = b * b % m;
        e >>= 1;
    }
    acc
}

#[test]
fn generated_parameters_form_a_safe_prime_group() {
    let config = DiscreteLogarithmConfiguration::generate(12).unwrap();
    let p: u64 = config.p.to_string().parse().unwrap();
    let q: u64 = config.q.to_string().parse().unwrap();
    let g: u64 = config.g.to_string().parse().unwrap();
    let h: u64 = config.h.to_string().parse().unwrap();
    assert!(is_prime_u64(p));
    assert!(is_prime_u64(q));
    assert_eq!(p, 2 * q + 1);
    assert!(p >= 2048 && p < 4096);
    assert!(g != h);
    assert!(g < h);
    assert!(1 <= g && g < p);
    assert!(1 <= h && h < p);
    assert_eq!(pow_mod_u64(g, q, p), 1);
    assert_eq!(pow_mod_u64(h, q, p), 1);
}

#[test]
fn generate_from_prime_reuses_the_prime() {
    let config = DiscreteLogarithmConfiguration::generate(10).unwrap();
    let p = Scalar::parse(&config.p.to_string()).unwrap();
    let again = DiscreteLogarithmConfiguration::generate_from_prime(p).unwrap();
    assert_eq!(again.p, config.p);
    assert_eq!(again.q, config.q);
    let g: u64 = again.g.to_string().parse().unwrap();
    let p64: u64 = again.p.to_string().parse().unwrap();
    let q64: u64 = again.q.to_string().parse().unwrap();
    assert_eq!(pow_mod_u64(g, q64, p64), 1);
}

#[test]
fn parameters_succeeds() {
    let params = DiscreteLogarithmConfiguration::generate(16).unwrap();
    assert!(!params.p.is_zero());
    assert_ne!(params.p, params.q);
    assert!(!params.g.is_zero());
    assert_ne!(params.g, params.h);
}
