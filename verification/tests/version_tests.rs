use fml::constraint::{CompareOp, VersionConstraint};
use fml::version::{ParseError, Version};

#[test]
fn version_parse_reads_three_parts() {
    assert_eq!(Version::parse("1.2.3"), Ok(Version::new(1, 2, 3)));
    assert_eq!(Version::parse("0.17.05"), Ok(Version::new(0, 17, 5)));
    assert_eq!(Version::parse("10.0.18446744073709551615"), Ok(Version::new(10, 0, 18446744073709551615)));
}

#[test]
fn version_parse_defaults_missing_parts_to_zero() {
    assert_eq!(Version::parse(""), Ok(Version::new(0, 0, 0)));
    assert_eq!(Version::parse("2"), Ok(Version::new(2, 0, 0)));
    assert_eq!(Version::parse("1.1"), Ok(Version::new(1, 1, 0)));
    assert_eq!(Version::parse("1."), Ok(Version::new(1, 0, 0)));
    assert_eq!(Version::parse("1..3"), Ok(Version::new(1, 0, 3)));
    assert_eq!(Version::parse(".."), Ok(Version::new(0, 0, 0)));
}

#[test]
fn version_parse_defaults_non_numeric_parts_to_zero() {
    assert_eq!(Version::parse("a.b.c"), Ok(Version::new(0, 0, 0)));
    assert_eq!(Version::parse("1.x.3"), Ok(Version::new(1, 0, 3)));
    assert_eq!(Version::parse("1.2.3-beta"), Ok(Version::new(1, 2, 0)));
    assert_eq!(Version::parse(" 1.2.3"), Ok(Version::new(0, 2, 3)));
    assert_eq!(Version::parse("-1.2.3"), Ok(Version::new(0, 2, 3)));
}

#[test]
fn version_parse_errors() {
    assert_eq!(Version::parse("1.2.3.4"), Err(ParseError::TooManyComponents));
    assert_eq!(Version::parse("1.2.3."), Err(ParseError::TooManyComponents));
    assert_eq!(Version::parse("18446744073709551616.0.0"), Err(ParseError::ComponentTooLarge));
    assert_eq!(Version::parse("1.2.99999999999999999999999"), Err(ParseError::ComponentTooLarge));
    assert_eq!(Version::parse("99999999999999999999999.2.3.4"), Err(ParseError::TooManyComponents));
}

#[test]
fn version_order_goes_by_major_then_minor_then_patch() {
    let v = Version::new(1, 2, 3);
    assert!(v.lt(&Version::new(2, 0, 0)));
    assert!(v.lt(&Version::new(1, 3, 0)));
    assert!(v.lt(&Version::new(1, 2, 4)));
    assert!(!v.lt(&Version::new(1, 2, 3)));
    assert!(!v.lt(&Version::new(1, 2, 2)));
    assert!(!v.lt(&Version::new(0, 9, 9)));
    assert!(v.le(&Version::new(1, 2, 3)));
    assert!(v.le(&Version::new(1, 10, 0)));
    assert!(!v.le(&Version::new(1, 1, 9)));
    assert_eq!(v, Version::new(1, 2, 3));
    assert_ne!(v, Version::new(1, 2, 4));
}

#[test]
fn version_text() {
    assert_eq!(Version::new(1, 2, 3).to_text(), "1.2.3");
    assert_eq!(Version::new(0, 0, 0).to_text(), "0.0.0");
    assert_eq!(Version::new(10, 200, 18446744073709551615).to_text(), "10.200.18446744073709551615");
}

#[test]
fn wildcard_matches_everything() {
    assert!(VersionConstraint::Any.matches(&Version::new(0, 0, 0)));
    assert!(VersionConstraint::Any.matches(&Version::new(u64::MAX, u64::MAX, u64::MAX)));
}

#[test]
fn each_operator_compares_as_it_says() {
    let bound = Version::new(1, 5, 0);
    let below = Version::new(1, 4, 9);
    let above = Version::new(1, 5, 1);
    let cases = [
        (CompareOp::Greater, false, false, true),
        (CompareOp::GreaterEq, false, true, true),
        (CompareOp::Less, true, false, false),
        (CompareOp::LessEq, true, true, false),
        (CompareOp::Exact, false, true, false),
    ];
    for (op, on_below, on_bound, on_above) in cases {
        let c = VersionConstraint::Bound { op, version: bound };
        assert_eq!(c.matches(&below), on_below, "{:?} below", op);
        assert_eq!(c.matches(&bound), on_bound, "{:?} at", op);
        assert_eq!(c.matches(&above), on_above, "{:?} above", op);
    }
}

#[test]
fn comparison_is_by_number_not_by_text() {
    let c = VersionConstraint::Bound { op: CompareOp::Greater, version: Version::new(0, 9, 0) };
    assert!(c.matches(&Version::new(0, 10, 0)));
    let c = VersionConstraint::Bound { op: CompareOp::Less, version: Version::new(2, 0, 0) };
    assert!(!c.matches(&Version::new(10, 0, 0)));
}

#[test]
fn constraint_text() {
    assert_eq!(VersionConstraint::Any.to_text(), "*");
    let c = VersionConstraint::Bound { op: CompareOp::GreaterEq, version: Version::new(2, 0, 1) };
    assert_eq!(c.to_text(), ">=2.0.1");
    assert_eq!(CompareOp::Less.symbol(), "<");
    assert_eq!(CompareOp::LessEq.symbol(), "<=");
    assert_eq!(CompareOp::Greater.symbol(), ">");
    assert_eq!(CompareOp::Exact.symbol(), "=");
}
