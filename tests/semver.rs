use grace::error::GraceError;
use grace::semver::{Compatibility, SemanticVersion};

#[test]
pub fn same_version_equals() {
    let v1 = SemanticVersion::new(1, 0, 4);
    let v2 = SemanticVersion::new(1, 0, 4);

    assert!(v1.match_to(&v2) == Compatibility::Exact)
}

#[test]
pub fn partial_compat() {
    let v1 = SemanticVersion::new(1, 0, 4);
    let v2 = SemanticVersion::new(1, 0, 0);

    assert!(v1.match_to(&v2) == Compatibility::Partial)
}

#[test]
pub fn breaking_change() {
    let v1 = SemanticVersion::new(2, 0, 4);
    let v2 = SemanticVersion::new(1, 0, 0);

    assert!(v1.match_to(&v2) == Compatibility::Breaking)
}

#[test]
pub fn minor_compat() {
    let v1 = SemanticVersion::new(2, 2, 4);
    let v2 = SemanticVersion::new(2, 1, 0);

    assert!(v1.match_to(&v2) == Compatibility::Compatible)
}

#[test]
pub fn same_version_are_eq() {
    let v1 = SemanticVersion::new(2, 2, 4);
    let v2 = SemanticVersion::new(2, 2, 4);
    assert!(v1 == v2);
}

#[test]
pub fn larger_version_is_ge() {
    let v1 = SemanticVersion::new(2, 4, 4);
    let v2 = SemanticVersion::new(2, 2, 4);
    assert!(v1 > v2);
}

#[test]
pub fn smaller_version_is_le() {
    let v1 = SemanticVersion::new(1, 4, 4);
    let v2 = SemanticVersion::new(2, 2, 4);
    assert!(v1 < v2);
}

#[test]
fn classification_is_symmetric() {
    let pairs = [
        (SemanticVersion::new(1, 0, 4), SemanticVersion::new(1, 0, 0)),
        (SemanticVersion::new(2, 0, 4), SemanticVersion::new(1, 0, 0)),
        (SemanticVersion::new(2, 2, 4), SemanticVersion::new(2, 1, 0)),
        (SemanticVersion::new(3, 3, 3), SemanticVersion::new(3, 3, 3)),
    ];
    for (a, b) in pairs.iter() {
        assert_eq!(a.match_to(b), b.match_to(a));
    }
}

#[test]
fn a_version_matches_itself_exactly() {
    let v = SemanticVersion::new(7, 0, 65535);
    assert_eq!(v.match_to(&v), Compatibility::Exact);
}

#[test]
fn minor_change_with_same_patch_is_compatible() {
    let a = SemanticVersion::new(1, 1, 0);
    let b = SemanticVersion::new(1, 0, 0);
    assert_eq!(a.match_to(&b), Compatibility::Compatible);
}

#[test]
fn order_is_lexicographic() {
    assert!(SemanticVersion::new(1, 9, 9) < SemanticVersion::new(2, 0, 0));
    assert!(SemanticVersion::new(1, 2, 9) < SemanticVersion::new(1, 3, 0));
    assert!(SemanticVersion::new(1, 2, 3) < SemanticVersion::new(1, 2, 4));
    assert!(!(SemanticVersion::new(1, 2, 3) < SemanticVersion::new(1, 2, 3)));
    assert_eq!(
        SemanticVersion::new(1, 2, 3).partial_cmp(&SemanticVersion::new(1, 2, 3)),
        Some(std::cmp::Ordering::Equal)
    );
}

#[test]
fn parses_three_numbers() {
    let v = SemanticVersion::from_string("1.0.4".to_string()).unwrap();
    assert_eq!(v, SemanticVersion::new(1, 0, 4));
    let w = SemanticVersion::from_string("12.345.65535".to_string()).unwrap();
    assert_eq!(w, SemanticVersion::new(12, 345, 65535));
    let z = SemanticVersion::from_string("007.0.10".to_string()).unwrap();
    assert_eq!(z, SemanticVersion::new(7, 0, 10));
}

#[test]
fn malformed_version_is_rejected() {
    assert!(matches!(
        SemanticVersion::from_string("1.a.0".to_string()),
        Err(GraceError::MalformedVersion)
    ));
}

#[test]
fn version_needs_exactly_three_fields() {
    for s in ["", "1", "1.0", "1.0.0.0", "1..0", ".1.0", "1.0.", "1.0.0-beta", " 1.0.0"] {
        assert!(
            matches!(SemanticVersion::from_string(s.to_string()), Err(GraceError::MalformedVersion)),
            "{s}"
        );
    }
}

#[test]
fn version_fields_must_fit() {
    assert!(matches!(
        SemanticVersion::from_string("65536.0.0".to_string()),
        Err(GraceError::MalformedVersion)
    ));
    assert!(matches!(
        SemanticVersion::from_string("0.0.99999999999".to_string()),
        Err(GraceError::MalformedVersion)
    ));
}
