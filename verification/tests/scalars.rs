use zkauth::digits::{Element, Scalar};

#[test]
fn scalar_parse_round_trip() {
    let s = Scalar::parse("123456789012345678901234567890").unwrap();
    let text = s.to_string();
    assert_eq!(text, "123456789012345678901234567890");
    let back = Scalar::parse(&text).unwrap();
    assert_eq!(back, s);
}

#[test]
fn element_parse_round_trip() {
    let e = Element::parse("98765432109876543210").unwrap();
    let text = e.to_string();
    assert_eq!(text, "98765432109876543210");
    let back = Element::parse(&text).unwrap();
    assert_eq!(back, e);
}

#[test]
fn parse_normalizes_leading_zeros() {
    let a = Scalar::parse("007").unwrap();
    let b = Scalar::parse("7").unwrap();
    assert_eq!(a, b);
    assert_eq!(a.to_string(), "7");
    let z = Scalar::parse("000").unwrap();
    assert_eq!(z.to_string(), "0");
    assert!(z.is_zero());
}

#[test]
fn parse_rejects_non_numbers() {
    assert!(Scalar::parse("").is_err());
    assert!(Scalar::parse("not-a-number").is_err());
    assert!(Scalar::parse("-1").is_err());
    assert!(Scalar::parse("+1").is_err());
    assert!(Scalar::parse("12 3").is_err());
    assert!(Element::parse("").is_err());
    assert!(Element::parse("0x12").is_err());
}

#[test]
fn constants_and_order() {
    assert!(Scalar::zero().is_zero());
    assert!(!Scalar::one().is_zero());
    assert_eq!(Scalar::zero().to_string(), "0");
    assert_eq!(Element::one().to_string(), "1");
    assert_eq!(Scalar::from_u32(4294967295).to_string(), "4294967295");
    let a = Scalar::from_u32(9);
    let b = Scalar::from_u32(10);
    assert!(a.lt(&b));
    assert!(!b.lt(&a));
    assert!(!a.lt(&a));
    let c = Element::parse("100").unwrap();
    let d = Element::parse("99").unwrap();
    assert!(d.lt(&c));
    assert!(c.same(&c));
    assert!(!c.same(&d));
}

#[test]
fn arithmetic_on_values() {
    let a = Scalar::parse("999").unwrap();
    let b = Scalar::one();
    assert_eq!(a.add(&b).to_string(), "1000");
    let c = Scalar::parse("25").unwrap();
    let d = Scalar::parse("4").unwrap();
    assert_eq!(c.mul(&d).to_string(), "100");
    let e = Element::parse("18446744073709551615").unwrap();
    assert_eq!(e.add(&Element::one()).to_string(), "18446744073709551616");
    assert_eq!(e.mul(&Element::zero()).to_string(), "0");
}
