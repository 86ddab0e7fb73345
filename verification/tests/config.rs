use zkauth::config::{generate_config, ConfigFlavor, Configuration};

#[test]
fn generate_discrete_logarithm_flavor() {
    let config = generate_config(ConfigFlavor::DiscreteLogarithm, 8).unwrap();
    assert!(matches!(config, Configuration::DiscreteLogarithm(_)));
}

#[test]
fn generate_elliptic_curve_flavor() {
    let config = generate_config(ConfigFlavor::EllipticCurve, 0).unwrap();
    assert!(matches!(config, Configuration::EllipticCurve(_)));
}

#[test]
fn public_parameters_render_the_group() {
    let config = generate_config(ConfigFlavor::DiscreteLogarithm, 8).unwrap();
    match config {
        Configuration::DiscreteLogarithm(c) => {
            let params = c.to_public_parameters();
            assert_eq!(params.p, c.p.to_string());
            assert_eq!(params.q, c.q.to_string());
            assert_eq!(params.g, c.g.to_string());
            assert_eq!(params.h, c.h.to_string());
        }
        Configuration::EllipticCurve(_) => panic!("wrong flavor"),
    }
}

#[test]
fn config_json_round_trip_discrete_logarithm() {
    let config = generate_config(ConfigFlavor::DiscreteLogarithm, 8).unwrap();
    let text = config.to_json();
    let back = Configuration::from_json(&text).unwrap();
    assert!(matches!(back, Configuration::DiscreteLogarithm(_)));
    assert_eq!(back.to_json(), text);
}

#[test]
fn config_json_round_trip_elliptic_curve() {
    let config = generate_config(ConfigFlavor::EllipticCurve, 0).unwrap();
    let text = config.to_json();
    let back = Configuration::from_json(&text).unwrap();
    assert!(matches!(back, Configuration::EllipticCurve(_)));
    assert_eq!(back.to_json(), text);
}

#[test]
fn config_json_parses_known_text() {
    let text = "{\n  \"discreteLogarithm\": {\n    \"p\": \"23\",\n    \"q\": \"11\",\n    \"g\": \"4\",\n    \"h\": \"9\"\n  }\n}";
    let config = Configuration::from_json(text).unwrap();
    match config {
        Configuration::DiscreteLogarithm(c) => {
            assert_eq!(c.p.to_string(), "23");
            assert_eq!(c.q.to_string(), "11");
            assert_eq!(c.g.to_string(), "4");
            assert_eq!(c.h.to_string(), "9");
        }
        Configuration::EllipticCurve(_) => panic!("wrong flavor"),
    }
    assert!(Configuration::from_json("{}").is_err());
    assert!(Configuration::from_json("").is_err());
}

#[test]
fn config_json_is_valid_json() {
    let config = generate_config(ConfigFlavor::DiscreteLogarithm, 8).unwrap();
    let text = config.to_json();
    let value: serde_json::Value = serde_json::from_str(&text).unwrap();
    let obj = value.get("discreteLogarithm").unwrap();
    match &config {
        Configuration::DiscreteLogarithm(c) => {
            assert_eq!(obj.get("p").unwrap().as_str().unwrap(), c.p.to_string());
            assert_eq!(obj.get("q").unwrap().as_str().unwrap(), c.q.to_string());
            assert_eq!(obj.get("g").unwrap().as_str().unwrap(), c.g.to_string());
            assert_eq!(obj.get("h").unwrap().as_str().unwrap(), c.h.to_string());
        }
        Configuration::EllipticCurve(_) => panic!("wrong flavor"),
    }
}

#[test]
fn validate_accepts_generated_configs() {
    let dl = generate_config(ConfigFlavor::DiscreteLogarithm, 8).unwrap();
    assert!(dl.validate());
    let ec = generate_config(ConfigFlavor::EllipticCurve, 0).unwrap();
    assert!(ec.validate());
}

#[test]
fn validate_rejects_broken_configs() {
    // an even modulus
    let text = "{\n  \"discreteLogarithm\": {\n    \"p\": \"4\",\n    \"q\": \"2\",\n    \"g\": \"1\",\n    \"h\": \"2\"\n  }\n}";
    let config = Configuration::from_json(text).unwrap();
    assert!(!config.validate());
    // a wrong subgroup order
    let text = "{\n  \"discreteLogarithm\": {\n    \"p\": \"23\",\n    \"q\": \"7\",\n    \"g\": \"4\",\n    \"h\": \"9\"\n  }\n}";
    let config = Configuration::from_json(text).unwrap();
    assert!(!config.validate());
    // values that are no Ristretto points
    let text = "{\n  \"ellipticCurve\": {\n    \"g\": \"1\",\n    \"h\": \"2\"\n  }\n}";
    let config = Configuration::from_json(text).unwrap();
    assert!(!config.validate());
}

#[test]
fn validate_accepts_round_tripped_config() {
    let config = generate_config(ConfigFlavor::DiscreteLogarithm, 8).unwrap();
    let back = Configuration::from_json(&config.to_json()).unwrap();
    assert!(back.validate());
}
