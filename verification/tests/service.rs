use zkauth::config::Configuration;
use zkauth::digits::{Element, Scalar};
use zkauth::discrete_logarithm::{
    DiscreteLogarithmConfiguration, DiscreteLogarithmProver, DiscreteLogarithmVerifier,
};
use zkauth::service::Service;
use zkauth::store::{Challenge, User};
use zkauth::wire::{
    AuthenticationAnswerRequest, AuthenticationChallengeRequest, Code, GetConfigurationRequest,
    RegisterRequest, RegisterResponse,
};

const NOW: u64 = 1000;

fn test_service() -> Service {
    let config = DiscreteLogarithmConfiguration::generate(16).unwrap();
    Service::new(Configuration::DiscreteLogarithm(config))
}

fn register_request(user: &str, y1: &str, y2: &str) -> RegisterRequest {
    RegisterRequest {
        user: user.to_string(),
        y1: y1.to_string(),
        y2: y2.to_string(),
    }
}

fn challenge_request(user: &str, r1: &str, r2: &str) -> AuthenticationChallengeRequest {
    AuthenticationChallengeRequest {
        user: user.to_string(),
        r1: r1.to_string(),
        r2: r2.to_string(),
    }
}

fn answer_request(auth_id: &str, s: &str) -> AuthenticationAnswerRequest {
    AuthenticationAnswerRequest {
        auth_id: auth_id.to_string(),
        s: s.to_string(),
    }
}

#[test]
fn succeeds_with_discrete_logarithm_config() {
    let config = DiscreteLogarithmConfiguration::generate(16).unwrap();
    let p = config.p.to_string();
    let service = Service::new(Configuration::DiscreteLogarithm(config));
    match service.get_configuration(GetConfigurationRequest {}) {
        Configuration::DiscreteLogarithm(c) => assert_eq!(c.p.to_string(), p),
        Configuration::EllipticCurve(_) => panic!("wrong flavor"),
    }
}

#[test]
fn register_succeeds() {
    let mut service = test_service();
    let resp = service
        .register(register_request("peggy", "1", "1"))
        .unwrap();
    assert_eq!(resp, RegisterResponse {});
}

#[test]
fn register_returns_error_when_user_already_registered() {
    let mut service = test_service();
    service.store.insert_user(
        "peggy",
        User {
            y1: Element::one(),
            y2: Element::one(),
        },
    );
    let err = service
        .register(register_request("peggy", "1", "1"))
        .unwrap_err();
    assert_eq!(err.code(), Code::AlreadyExists);
    assert_eq!(err.message(), "User already registered");
}

#[test]
fn register_returns_error_when_user_is_empty() {
    let mut service = test_service();
    let err = service
        .register(register_request("", "1", "1"))
        .unwrap_err();
    assert_eq!(err.code(), Code::InvalidArgument);
    assert_eq!(err.message(), "Invalid user argument");
}

#[test]
fn register_returns_error_when_y1_is_empty() {
    let mut service = test_service();
    let err = service
        .register(register_request("peggy", "", "1"))
        .unwrap_err();
    assert_eq!(err.code(), Code::InvalidArgument);
    assert_eq!(err.message(), "Invalid y1 argument");
}

#[test]
fn register_returns_error_when_y2_is_empty() {
    let mut service = test_service();
    let err = service
        .register(register_request("peggy", "1", ""))
        .unwrap_err();
    assert_eq!(err.code(), Code::InvalidArgument);
    assert_eq!(err.message(), "Invalid y2 argument");
}

#[test]
fn register_returns_error_when_y1_is_not_a_number() {
    let mut service = test_service();
    let err = service
        .register(register_request("peggy", "not-a-number", "1"))
        .unwrap_err();
    assert_eq!(err.code(), Code::InvalidArgument);
    assert_eq!(err.message(), "Invalid y1 argument");
}

#[test]
fn register_returns_error_when_y2_is_not_a_number() {
    let mut service = test_service();
    let err = service
        .register(register_request("peggy", "1", "not-a-number"))
        .unwrap_err();
    assert_eq!(err.code(), Code::InvalidArgument);
    assert_eq!(err.message(), "Invalid y2 argument");
}

#[test]
fn create_authentication_challenge_succeeds() {
    let mut service = test_service();
    service.store.insert_user(
        "peggy",
        User {
            y1: Element::one(),
            y2: Element::one(),
        },
    );
    let resp = service
        .create_authentication_challenge(challenge_request("peggy", "1", "1"), NOW)
        .unwrap();
    assert!(uuid::Uuid::parse_str(&resp.auth_id).is_ok());
    assert!(Scalar::parse(&resp.c).is_ok());
}

#[test]
fn create_returns_not_found_when_unknown_user() {
    let mut service = test_service();
    let err = service
        .create_authentication_challenge(challenge_request("unknown", "1", "1"), NOW)
        .unwrap_err();
    assert_eq!(err.code(), Code::NotFound);
    assert_eq!(err.message(), "User not found");
}

#[test]
fn create_returns_error_when_user_is_empty() {
    let mut service = test_service();
    let err = service
        .create_authentication_challenge(challenge_request("", "1", "1"), NOW)
        .unwrap_err();
    assert_eq!(err.code(), Code::InvalidArgument);
    assert_eq!(err.message(), "Invalid user argument");
}

#[test]
fn create_returns_error_when_r1_is_empty() {
    let mut service = test_service();
    let err = service
        .create_authentication_challenge(challenge_request("peggy", "", "1"), NOW)
        .unwrap_err();
    assert_eq!(err.code(), Code::InvalidArgument);
    assert_eq!(err.message(), "Invalid r1 argument");
}

#[test]
fn create_returns_error_when_r2_is_empty() {
    let mut service = test_service();
    let err = service
        .create_authentication_challenge(challenge_request("peggy", "1", ""), NOW)
        .unwrap_err();
    assert_eq!(err.code(), Code::InvalidArgument);
    assert_eq!(err.message(), "Invalid r2 argument");
}

#[test]
fn create_returns_error_when_r1_is_not_a_number() {
    let mut service = test_service();
    let err = service
        .create_authentication_challenge(challenge_request("peggy", "not-a-number", "1"), NOW)
        .unwrap_err();
    assert_eq!(err.code(), Code::InvalidArgument);
    assert_eq!(err.message(), "Invalid r1 argument");
}

#[test]
fn create_returns_error_when_r2_is_not_a_number() {
    let mut service = test_service();
    let err = service
        .create_authentication_challenge(challenge_request("peggy", "1", "not-a-number"), NOW)
        .unwrap_err();
    assert_eq!(err.code(), Code::InvalidArgument);
    assert_eq!(err.message(), "Invalid r2 argument");
}

#[test]
fn verify_authentication_succeeds() {
    let config = DiscreteLogarithmConfiguration::generate(16).unwrap();
    let prover = DiscreteLogarithmProver::new(config.clone());
    let verifier = DiscreteLogarithmVerifier::new(config.clone());
    let mut service = Service::new(Configuration::DiscreteLogarithm(config));

    let user = "peggy";
    let auth_id = uuid::Uuid::new_v4().to_string();

    let x = prover.generate_registration_x();
    let (y1, y2) = prover.compute_registration_y1y2(x.clone()).unwrap();
    let k = prover.generate_challenge_k();
    let (r1, r2) = prover.compute_challenge_commitment_r1r2(k.clone()).unwrap();
    let c = verifier.generate_challenge_c();
    let s = prover.compute_challenge_response_s(x, k, c.clone()).unwrap();

    service.store.insert_user(user, User { y1, y2 });
    service.store.insert_challenge(
        &auth_id,
        Challenge {
            user: user.to_string(),
            c,
            r1,
            r2,
        },
        NOW,
    );

    let resp = service
        .verify_authentication(answer_request(&auth_id, &s.to_string()), NOW)
        .unwrap();
    assert!(uuid::Uuid::parse_str(&resp.session_id).is_ok());
    let original_session_id = resp.session_id;

    let resp = service
        .verify_authentication(answer_request(&auth_id, &s.to_string()), NOW + 1)
        .unwrap();
    assert_eq!(resp.session_id, original_session_id);
}

#[test]
fn verify_returns_not_found_when_unknown_challenge() {
    let mut service = test_service();
    let err = service
        .verify_authentication(answer_request(&uuid::Uuid::new_v4().to_string(), "1"), NOW)
        .unwrap_err();
    assert_eq!(err.code(), Code::NotFound);
    assert_eq!(err.message(), "Challenge not found");
}

#[test]
fn returns_invalid_argument_when_auth_id_is_not_a_uuid() {
    let mut service = test_service();
    let err = service
        .verify_authentication(answer_request("not-a-uuid", "1"), NOW)
        .unwrap_err();
    assert_eq!(err.code(), Code::InvalidArgument);
    assert_eq!(err.message(), "Invalid auth_id argument");
}

#[test]
fn verify_returns_not_found_when_unknown_user() {
    let mut service = test_service();
    let id = uuid::Uuid::new_v4().to_string();
    service.store.insert_challenge(
        &id,
        Challenge {
            user: "unknown".to_string(),
            c: Scalar::one(),
            r1: Element::one(),
            r2: Element::one(),
        },
        NOW,
    );
    let err = service
        .verify_authentication(answer_request(&id, "1"), NOW)
        .unwrap_err();
    assert_eq!(err.code(), Code::NotFound);
    assert_eq!(err.message(), "User not found");
}

#[test]
fn verify_returns_error_when_auth_id_is_empty() {
    let mut service = test_service();
    let err = service
        .verify_authentication(answer_request("", "1"), NOW)
        .unwrap_err();
    assert_eq!(err.code(), Code::InvalidArgument);
    assert_eq!(err.message(), "Invalid auth_id argument");
}

#[test]
fn verify_returns_error_when_s_is_empty() {
    let mut service = test_service();
    let err = service
        .verify_authentication(answer_request("", ""), NOW)
        .unwrap_err();
    assert_eq!(err.code(), Code::InvalidArgument);
    assert_eq!(err.message(), "Invalid s argument");
}

#[test]
fn verify_returns_error_when_s_is_not_a_number() {
    let mut service = test_service();
    let err = service
        .verify_authentication(answer_request("", "not-a-number"), NOW)
        .unwrap_err();
    assert_eq!(err.code(), Code::InvalidArgument);
    assert_eq!(err.message(), "Invalid s argument");
}

#[test]
fn returns_verification_failed() {
    let mut service = test_service();
    service.store.insert_user(
        "peggy",
        User {
            y1: Element::one(),
            y2: Element::one(),
        },
    );
    let id = uuid::Uuid::new_v4().to_string();
    service.store.insert_challenge(
        &id,
        Challenge {
            user: "peggy".to_string(),
            c: Scalar::one(),
            r1: Element::one(),
            r2: Element::one(),
        },
        NOW,
    );
    let err = service
        .verify_authentication(answer_request(&id, "1"), NOW)
        .unwrap_err();
    assert_eq!(err.code(), Code::FailedPrecondition);
    assert_eq!(err.message(), "Verification failed");
}

#[test]
fn verify_returns_not_found_when_challenge_expired() {
    let mut service = test_service();
    service.store.insert_user(
        "peggy",
        User {
            y1: Element::one(),
            y2: Element::one(),
        },
    );
    let resp = service
        .create_authentication_challenge(challenge_request("peggy", "1", "1"), NOW)
        .unwrap();
    // the challenge lives 300 seconds from insertion
    let err = service
        .verify_authentication(answer_request(&resp.auth_id, "0"), NOW + 300)
        .unwrap_err();
    assert_eq!(err.code(), Code::NotFound);
    assert_eq!(err.message(), "Challenge not found");
}

#[test]
fn register_login_login_yields_same_session() {
    // The end-to-end flow with the trivial pair: y1 = y2 = 1 and r1 = r2 = 1
    // are matched by the response s = 0, and the second login returns the
    // same session.
    let mut service = test_service();
    service.register(register_request("user", "1", "1")).unwrap();

    let challenge = service
        .create_authentication_challenge(challenge_request("user", "1", "1"), NOW)
        .unwrap();
    let first = service
        .verify_authentication(answer_request(&challenge.auth_id, "0"), NOW + 1)
        .unwrap();
    assert!(uuid::Uuid::parse_str(&first.session_id).is_ok());

    let challenge = service
        .create_authentication_challenge(challenge_request("user", "1", "1"), NOW + 2)
        .unwrap();
    let second = service
        .verify_authentication(answer_request(&challenge.auth_id, "0"), NOW + 3)
        .unwrap();
    assert_eq!(second.session_id, first.session_id);
}

#[test]
fn register_login_twice_with_different_users_succeeds() {
    let mut service = test_service();
    for user in ["user1", "user2"] {
        service.register(register_request(user, "1", "1")).unwrap();
        let challenge = service
            .create_authentication_challenge(challenge_request(user, "1", "1"), NOW)
            .unwrap();
        let resp = service
            .verify_authentication(answer_request(&challenge.auth_id, "0"), NOW)
            .unwrap();
        assert!(uuid::Uuid::parse_str(&resp.session_id).is_ok());
    }
}

#[test]
fn verify_authentication_succeeds_with_elliptic_curve_config() {
    let config = zkauth::elliptic_curve::EllipticCurveConfiguration::generate().unwrap();
    let prover = zkauth::elliptic_curve::EllipticCurveProver::new(config.clone());
    let verifier = zkauth::elliptic_curve::EllipticCurveVerifier::new(config.clone());
    let mut service = Service::new(Configuration::EllipticCurve(config));

    let x = prover.compute_registration_x("password".to_string());
    let (y1, y2) = prover.compute_registration_y1y2(x.clone()).unwrap();
    service.store.insert_user("peggy", User { y1, y2 });

    let k = prover.generate_challenge_k();
    let (r1, r2) = prover.compute_challenge_commitment_r1r2(k.clone()).unwrap();
    let c = verifier.generate_challenge_c();
    let s = prover.compute_challenge_response_s(x, k, c.clone()).unwrap();

    let auth_id = uuid::Uuid::new_v4().to_string();
    service.store.insert_challenge(
        &auth_id,
        Challenge {
            user: "peggy".to_string(),
            c,
            r1,
            r2,
        },
        NOW,
    );

    let resp = service
        .verify_authentication(answer_request(&auth_id, &s.to_string()), NOW)
        .unwrap();
    assert!(uuid::Uuid::parse_str(&resp.session_id).is_ok());
}

#[test]
fn verify_returns_internal_when_stored_values_are_not_points() {
    // With the elliptic-curve flavor, a registered pair that does not decode
    // as Ristretto points cannot be verified at all.
    let config = zkauth::elliptic_curve::EllipticCurveConfiguration::generate().unwrap();
    let mut service = Service::new(Configuration::EllipticCurve(config));
    service.store.insert_user(
        "peggy",
        User {
            y1: Element::one(),
            y2: Element::one(),
        },
    );
    let id = uuid::Uuid::new_v4().to_string();
    service.store.insert_challenge(
        &id,
        Challenge {
            user: "peggy".to_string(),
            c: Scalar::one(),
            r1: Element::one(),
            r2: Element::one(),
        },
        NOW,
    );
    let err = service
        .verify_authentication(answer_request(&id, "1"), NOW)
        .unwrap_err();
    assert_eq!(err.code(), Code::Internal);
    assert_eq!(err.message(), "Failed to compute verification r1r2");
}
