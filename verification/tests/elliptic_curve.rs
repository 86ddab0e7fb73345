use zkauth::digits::{Element, Scalar};
use zkauth::elliptic_curve::{
    EllipticCurveConfiguration, EllipticCurveProver, EllipticCurveVerifier,
};

fn ec_prover_and_verifier() -> (EllipticCurveProver, EllipticCurveVerifier) {
    let config = EllipticCurveConfiguration::generate().unwrap();
    let prover = EllipticCurveProver::new(config.clone());
    let verifier = EllipticCurveVerifier::new(config);
    (prover, verifier)
}

#[test]
fn generate() {
    let config = EllipticCurveConfiguration::generate().unwrap();
    assert_ne!(config.g, config.h);
    assert!(!config.g.is_zero());
    assert!(!config.h.is_zero());
}

#[test]
fn prover_generate_registration_x() {
    let (prover, _) = ec_prover_and_verifier();
    let x1 = prover.generate_registration_x();
    assert!(Scalar::zero().lt(&x1));
    let x2 = prover.generate_registration_x();
    assert!(Scalar::zero().lt(&x2));
    assert_ne!(x1, x2);
}

#[test]
fn prover_compute_registration_x_with_password() {
    let (prover, _) = ec_prover_and_verifier();
    let x1 = prover.compute_registration_x("password".to_string());
    assert!(Scalar::zero().lt(&x1));
    let x2 = prover.compute_registration_x("password".to_string());
    assert!(Scalar::zero().lt(&x2));
    assert_eq!(x1, x2);
    let x3 = prover.compute_registration_x("password2".to_string());
    assert!(Scalar::zero().lt(&x3));
    assert_ne!(x1, x3);
}

#[test]
fn prover_compute_registration_x_with_empty_password() {
    let (prover, _) = ec_prover_and_verifier();
    let x = prover.compute_registration_x("".to_string());
    assert!(Scalar::zero().lt(&x));
}

#[test]
fn prover_compute_registration_y1y2() {
    let (prover, _) = ec_prover_and_verifier();
    let x = prover.generate_registration_x();
    let (y1, y2) = prover.compute_registration_y1y2(x).unwrap();
    assert!(!y1.is_zero());
    assert!(!y2.is_zero());
    assert_ne!(y1, y2);
}

#[test]
fn prover_generate_challenge_k() {
    let (prover, _) = ec_prover_and_verifier();
    let k1 = prover.generate_challenge_k();
    assert!(Scalar::zero().lt(&k1));
    let k2 = prover.generate_challenge_k();
    assert!(Scalar::zero().lt(&k2));
    assert_ne!(k1, k2);
}

#[test]
fn prover_compute_challenge_commitment_r1r2() {
    let (prover, _) = ec_prover_and_verifier();
    let k = prover.generate_challenge_k();
    let (r1, r2) = prover.compute_challenge_commitment_r1r2(k).unwrap();
    assert!(!r1.is_zero());
    assert!(!r2.is_zero());
    assert_ne!(r1, r2);
}

#[test]
fn prover_compute_challenge_response_s() {
    let (prover, verifier) = ec_prover_and_verifier();
    let x = prover.generate_registration_x();
    let k = prover.generate_challenge_k();
    let c = verifier.generate_challenge_c();
    let s = prover.compute_challenge_response_s(x, k, c).unwrap();
    assert!(Scalar::zero().lt(&s));
}

#[test]
fn verifier_test_generate_challenge_c() {
    let (_, verifier) = ec_prover_and_verifier();
    let c = verifier.generate_challenge_c();
    assert!(Scalar::zero().lt(&c));
}

#[test]
fn ec_response_rejects_oversized_scalars() {
    let (prover, _) = ec_prover_and_verifier();
    let huge = Scalar::parse(
        "7237005577332262213973186563042994240857116359379907606001950938285454250989",
    )
    .unwrap();
    let k = prover.generate_challenge_k();
    let c = prover.generate_challenge_k();
    assert!(prover.compute_challenge_response_s(huge, k, c).is_err());
}

#[test]
fn ec_verify_succeeds_with_given_password() {
    let (prover, verifier) = ec_prover_and_verifier();

    let x = prover.compute_registration_x("password".to_string());
    let (y1, y2) = prover.compute_registration_y1y2(x.clone()).unwrap();
    let c = verifier.generate_challenge_c();
    let k = prover.generate_challenge_k();
    let (r1, r2) = prover.compute_challenge_commitment_r1r2(k.clone()).unwrap();
    let s = prover.compute_challenge_response_s(x, k, c.clone()).unwrap();
    let (r1_prime, r2_prime) = verifier.compute_verification_r1r2(y1, y2, c, s).unwrap();
    assert_eq!(r1_prime, r1);
    assert_eq!(r2_prime, r2);
}

#[test]
fn ec_verify_fails_with_incorrect_y1() {
    let (prover, verifier) = ec_prover_and_verifier();

    let x = prover.compute_registration_x("password".to_string());
    let (_, y2) = prover.compute_registration_y1y2(x.clone()).unwrap();
    let other = prover.compute_registration_x("other".to_string());
    let (wrong_y1, _) = prover.compute_registration_y1y2(other).unwrap();
    let c = verifier.generate_challenge_c();
    let k = prover.generate_challenge_k();
    let (r1, r2) = prover.compute_challenge_commitment_r1r2(k.clone()).unwrap();
    let s = prover.compute_challenge_response_s(x, k, c.clone()).unwrap();
    let (r1_prime, r2_prime) = verifier
        .compute_verification_r1r2(wrong_y1, y2, c, s)
        .unwrap();
    assert_ne!(r1_prime, r1);
    assert_eq!(r2_prime, r2);
}

#[test]
fn try_from_scalar_to_dalek_scalar() {
    // A small scalar converts to the curve's native scalar and back through
    // the arithmetic unchanged: adding zero returns the same value.
    let (prover, _) = ec_prover_and_verifier();
    let x = Scalar::from_u32(123456789);
    let s = prover
        .compute_challenge_response_s(Scalar::zero(), x.clone(), Scalar::zero())
        .unwrap();
    assert_eq!(s, x);
}

#[test]
fn try_from_element_to_ristretto_point() {
    // A generated configuration point decodes as a Ristretto point: the
    // verifier accepts it with canonical scalars.
    let (_, verifier) = ec_prover_and_verifier();
    let y1 = Element::parse(&verifier.config.g.to_string()).unwrap();
    let y2 = Element::parse(&verifier.config.h.to_string()).unwrap();
    let result = verifier.compute_verification_r1r2(y1, y2, Scalar::zero(), Scalar::zero());
    assert!(result.is_ok());
}

#[test]
fn try_from_element_to_ristretto_point_error() {
    // The integer one is not the encoding of a Ristretto point, so the
    // conversion inside verification fails.
    let (_, verifier) = ec_prover_and_verifier();
    let y2 = Element::parse(&verifier.config.h.to_string()).unwrap();
    let result = verifier.compute_verification_r1r2(Element::one(), y2, Scalar::zero(), Scalar::zero());
    assert!(result.is_err());
}

#[test]
fn mod_test_generate_random_scalar() {
    let (prover, _) = ec_prover_and_verifier();
    let scalar = prover.generate_registration_x();
    assert!(scalar.same(&Scalar::zero()) || Scalar::zero().lt(&scalar));
}
