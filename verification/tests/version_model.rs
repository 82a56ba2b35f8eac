//! The version model: parsing, printing and ordering.

use std::cmp::Ordering;

use jpre::java_version::{JavaVersion, NewScheme, OldScheme, PreRelease};

fn assert_round_trip(v: &str, expected: JavaVersion) {
    let jv = JavaVersion::parse(v.as_bytes()).unwrap();
    assert_eq!(expected, jv);
    assert_eq!(v.as_bytes().to_vec(), jv.to_bytes());
}

#[test]
fn test_old_scheme() {
    assert_round_trip(
        "1.8.0",
        JavaVersion::OldScheme(OldScheme {
            minor: 8,
            patch: 0,
            update: 0,
            build: None,
        }),
    );
    assert_round_trip(
        "1.8.0-b01",
        JavaVersion::OldScheme(OldScheme {
            minor: 8,
            patch: 0,
            update: 0,
            build: Some(1),
        }),
    );
    assert_round_trip(
        "1.8.0_22",
        JavaVersion::OldScheme(OldScheme {
            minor: 8,
            patch: 0,
            update: 22,
            build: None,
        }),
    );
    assert_round_trip(
        "1.8.0_292-b01",
        JavaVersion::OldScheme(OldScheme {
            minor: 8,
            patch: 0,
            update: 292,
            build: Some(1),
        }),
    );
    assert_round_trip(
        "1.8.0_292-b10",
        JavaVersion::OldScheme(OldScheme {
            minor: 8,
            patch: 0,
            update: 292,
            build: Some(10),
        }),
    );
    assert_round_trip(
        "1.8.5-b100",
        JavaVersion::OldScheme(OldScheme {
            minor: 8,
            patch: 5,
            update: 0,
            build: Some(100),
        }),
    );
    assert_round_trip(
        "1.8.0_2-b100",
        JavaVersion::OldScheme(OldScheme {
            minor: 8,
            patch: 0,
            update: 2,
            build: Some(100),
        }),
    );
}

#[test]
fn test_new_scheme() {
    assert_round_trip(
        "9",
        JavaVersion::NewScheme(NewScheme {
            feature: 9,
            interim: 0,
            update: 0,
            patch: 0,
            trailing: vec![],
            pre_release: PreRelease::Ga,
            build: None,
            opt: None,
        }),
    );
    assert_round_trip(
        "9.1",
        JavaVersion::NewScheme(NewScheme {
            feature: 9,
            interim: 1,
            update: 0,
            patch: 0,
            trailing: vec![],
            pre_release: PreRelease::Ga,
            build: None,
            opt: None,
        }),
    );
    assert_round_trip(
        "9.0.1",
        JavaVersion::NewScheme(NewScheme {
            feature: 9,
            interim: 0,
            update: 1,
            patch: 0,
            trailing: vec![],
            pre_release: PreRelease::Ga,
            build: None,
            opt: None,
        }),
    );
    assert_round_trip(
        "9.1.0.4",
        JavaVersion::NewScheme(NewScheme {
            feature: 9,
            interim: 1,
            update: 0,
            patch: 4,
            trailing: vec![],
            pre_release: PreRelease::Ga,
            build: None,
            opt: None,
        }),
    );
    assert_round_trip(
        "9.0.0.0.5",
        JavaVersion::NewScheme(NewScheme {
            feature: 9,
            interim: 0,
            update: 0,
            patch: 0,
            trailing: vec![5],
            pre_release: PreRelease::Ga,
            build: None,
            opt: None,
        }),
    );
    assert_round_trip(
        "9.1.4-ea",
        JavaVersion::NewScheme(NewScheme {
            feature: 9,
            interim: 1,
            update: 4,
            patch: 0,
            trailing: vec![],
            pre_release: PreRelease::Other(b"ea".to_vec()),
            build: None,
            opt: None,
        }),
    );
    assert_round_trip(
        "9-ea+19",
        JavaVersion::NewScheme(NewScheme {
            feature: 9,
            interim: 0,
            update: 0,
            patch: 0,
            trailing: vec![],
            pre_release: PreRelease::Other(b"ea".to_vec()),
            build: Some(19),
            opt: None,
        }),
    );
}

fn assert_compare_both_ways(a: &str, b: &str, expected: Ordering) {
    let a = JavaVersion::parse(a.as_bytes()).unwrap();
    let b = JavaVersion::parse(b.as_bytes()).unwrap();
    assert_eq!(expected, a.compare(&b));
    assert_eq!(expected.reverse(), b.compare(&a));
}

#[test]
fn test_compare() {
    assert_compare_both_ways("1.7.0", "1.8.0", Ordering::Less);
    assert_compare_both_ways("1.8.0", "1.8.0", Ordering::Equal);
    assert_compare_both_ways("1.8.0", "1.8.1", Ordering::Less);
    assert_compare_both_ways("1.8.0", "9", Ordering::Less);
    assert_compare_both_ways("9", "9", Ordering::Equal);
    assert_compare_both_ways("9", "9.1", Ordering::Less);
    assert_compare_both_ways("9-ea", "9", Ordering::Less);
    assert_compare_both_ways("9-ea", "9-ea", Ordering::Equal);
    assert_compare_both_ways("9-ea", "9-ea+1", Ordering::Less);
    assert_compare_both_ways("9", "10", Ordering::Less);
}

#[test]
fn compare_patch_level() {
    // A higher update orders above a lower one.
    assert_compare_both_ways("17.0.1", "17.0.2", Ordering::Less);
}

#[test]
fn compare_ignores_opt() {
    let a = JavaVersion::parse(b"17+35-LTS").unwrap();
    let b = JavaVersion::parse(b"17+35-other").unwrap();
    assert_eq!(Ordering::Equal, a.compare(&b));
}

#[test]
fn compare_pre_release_ordering() {
    // Other < Numeric < no pre-release at all.
    assert_compare_both_ways("9-ea", "9-1", Ordering::Less);
    assert_compare_both_ways("9-1", "9", Ordering::Less);
    assert_compare_both_ways("9-1", "9-2", Ordering::Less);
}

#[test]
fn compare_scheme_ordering() {
    // Any legacy version sorts below any current-scheme version, whatever
    // the numeric fields.
    assert_compare_both_ways("1.4294967295.0_99", "2", Ordering::Less);
    assert_compare_both_ways("1.0.0", "2", Ordering::Less);
}

#[test]
fn parse_opt_forms() {
    assert_round_trip(
        "9+-opt",
        JavaVersion::NewScheme(NewScheme {
            feature: 9,
            interim: 0,
            update: 0,
            patch: 0,
            trailing: vec![],
            pre_release: PreRelease::Ga,
            build: None,
            opt: Some(b"opt".to_vec()),
        }),
    );
    assert_round_trip(
        "11-ea+10-opt",
        JavaVersion::NewScheme(NewScheme {
            feature: 11,
            interim: 0,
            update: 0,
            patch: 0,
            trailing: vec![],
            pre_release: PreRelease::Other(b"ea".to_vec()),
            build: Some(10),
            opt: Some(b"opt".to_vec()),
        }),
    );
    assert_round_trip(
        "11-ea-opt",
        JavaVersion::NewScheme(NewScheme {
            feature: 11,
            interim: 0,
            update: 0,
            patch: 0,
            trailing: vec![],
            pre_release: PreRelease::Other(b"ea".to_vec()),
            build: None,
            opt: Some(b"opt".to_vec()),
        }),
    );
    assert_round_trip(
        "11+10-opt",
        JavaVersion::NewScheme(NewScheme {
            feature: 11,
            interim: 0,
            update: 0,
            patch: 0,
            trailing: vec![],
            pre_release: PreRelease::Ga,
            build: Some(10),
            opt: Some(b"opt".to_vec()),
        }),
    );
}

#[test]
fn parse_numeric_pre_release() {
    assert_round_trip(
        "9-1",
        JavaVersion::NewScheme(NewScheme {
            feature: 9,
            interim: 0,
            update: 0,
            patch: 0,
            trailing: vec![],
            pre_release: PreRelease::Numeric(1),
            build: None,
            opt: None,
        }),
    );
    // A leading zero keeps the token a tag, not a number.
    assert_round_trip(
        "9-01",
        JavaVersion::NewScheme(NewScheme {
            feature: 9,
            interim: 0,
            update: 0,
            patch: 0,
            trailing: vec![],
            pre_release: PreRelease::Other(b"01".to_vec()),
            build: None,
            opt: None,
        }),
    );
}

#[test]
fn parse_rejections() {
    // The legacy scheme wants exactly minor and patch.
    assert!(JavaVersion::parse(b"1.8").is_err());
    assert!(JavaVersion::parse(b"1.8.0.5").is_err());
    assert!(JavaVersion::parse(b"1").is_err());
    // A current-scheme feature must be numeric without a leading zero.
    assert!(JavaVersion::parse(b"abc").is_err());
    assert!(JavaVersion::parse(b"07").is_err());
    assert!(JavaVersion::parse(b"0").is_err());
    assert!(JavaVersion::parse(b"").is_err());
    // The last dot segment must not be a literal zero.
    assert!(JavaVersion::parse(b"9.0").is_err());
    assert!(JavaVersion::parse(b"9.1.0").is_err());
    // Extra data must open with a plus or a dash.
    assert!(JavaVersion::parse(b"9_1").is_err());
    // A legacy build token must start with the build letter.
    assert!(JavaVersion::parse(b"1.8.0-01").is_err());
    // A numeric segment beyond the integer range is rejected.
    assert!(JavaVersion::parse(b"4294967296").is_err());
    assert_round_trip(
        "4294967295",
        JavaVersion::NewScheme(NewScheme {
            feature: 4294967295,
            interim: 0,
            update: 0,
            patch: 0,
            trailing: vec![],
            pre_release: PreRelease::Ga,
            build: None,
            opt: None,
        }),
    );
}
