//! Version keys, configuration rules, and the smaller text helpers.

use std::cmp::Ordering;

use jpre::config::{default_distribution, effective_setting, JpreConfig};
use jpre::context_id::{get_context_id, get_context_path};
use jpre::error::JpreError;
use jpre::java_version::key::VersionKey;
use jpre::java_version::{JavaVersion, PreRelease};
use jpre::text::SplittingExt;

#[test]
fn key_round_trip() {
    let k = VersionKey::parse(b"17").unwrap();
    assert_eq!(17, k.major);
    assert_eq!(PreRelease::Ga, k.pre_release);
    assert_eq!(b"17".to_vec(), k.to_bytes());

    let k = VersionKey::parse(b"21-ea").unwrap();
    assert_eq!(21, k.major);
    assert_eq!(PreRelease::Other(b"ea".to_vec()), k.pre_release);
    assert_eq!(b"21-ea".to_vec(), k.to_bytes());

    let k = VersionKey::parse(b"9-2").unwrap();
    assert_eq!(PreRelease::Numeric(2), k.pre_release);
    assert_eq!(b"9-2".to_vec(), k.to_bytes());
}

#[test]
fn key_rejections() {
    assert!(VersionKey::parse(b"").is_err());
    assert!(VersionKey::parse(b"seventeen").is_err());
    assert!(VersionKey::parse(b"-ea").is_err());
}

#[test]
fn key_of_version() {
    let v = JavaVersion::parse(b"1.8.0_292-b01").unwrap();
    let k = VersionKey::from_version(&v);
    assert_eq!(8, k.major);
    assert_eq!(PreRelease::Ga, k.pre_release);

    let v = JavaVersion::parse(b"17.0.2-ea").unwrap();
    let k = VersionKey::from_version(&v);
    assert_eq!(17, k.major);
    assert_eq!(PreRelease::Other(b"ea".to_vec()), k.pre_release);
}

#[test]
fn key_compare() {
    let a = VersionKey::parse(b"11").unwrap();
    let b = VersionKey::parse(b"17").unwrap();
    assert_eq!(Ordering::Less, a.compare(&b));
    let ea = VersionKey::parse(b"17-ea").unwrap();
    assert_eq!(Ordering::Less, ea.compare(&b));
    assert_eq!(Ordering::Equal, b.compare(&b));
}

#[test]
fn config_migration() {
    let config = JpreConfig {
        default_jdk: None,
        distribution: Some(b"zulu".to_vec()),
        distributions: vec![b"temurin".to_vec(), b"liberica".to_vec()],
        forced_architecture: None,
        forced_os: None,
        forced_libc: b"glibc".to_vec(),
    };
    let migrated = config.migrate_legacy();
    assert_eq!(None, migrated.distribution);
    assert_eq!(vec![b"zulu".to_vec()], migrated.distributions);

    let untouched = JpreConfig {
        default_jdk: None,
        distribution: None,
        distributions: vec![b"temurin".to_vec()],
        forced_architecture: None,
        forced_os: None,
        forced_libc: b"glibc".to_vec(),
    };
    let migrated = untouched.migrate_legacy();
    assert_eq!(vec![b"temurin".to_vec()], migrated.distributions);
}

#[test]
fn config_validation() {
    let empty = JpreConfig {
        default_jdk: None,
        distribution: None,
        distributions: vec![],
        forced_architecture: None,
        forced_os: None,
        forced_libc: b"glibc".to_vec(),
    };
    assert_eq!(Err(JpreError::UserError), empty.validate().map(|_| ()));

    let ok = JpreConfig {
        default_jdk: None,
        distribution: None,
        distributions: default_distribution(),
        forced_architecture: None,
        forced_os: None,
        forced_libc: b"glibc".to_vec(),
    };
    assert!(ok.validate().is_ok());
}

#[test]
fn config_defaults_and_forcing() {
    assert_eq!(vec![b"temurin".to_vec()], default_distribution());
    assert_eq!(
        b"aarch64".to_vec(),
        effective_setting(&Some(b"aarch64".to_vec()), b"x64"),
    );
    assert_eq!(b"x64".to_vec(), effective_setting(&None, b"x64"));
}

#[test]
fn context_identifier() {
    assert_eq!(b"shell-a".to_vec(), get_context_id(Some(b"shell-a".to_vec()), 421));
    assert_eq!(b"421".to_vec(), get_context_id(None, 421));
}

#[test]
fn context_path_layout() {
    assert_eq!(
        b"/home/u/state/java-home-by-pid/421".to_vec(),
        get_context_path(b"/home/u/state", b"421"),
    );
}

#[test]
fn split_optional_behavior() {
    let (a, b) = b"ea+19".as_slice().split_optional(b'+');
    assert_eq!(b"ea".to_vec(), a);
    assert_eq!(Some(b"19".to_vec()), b);

    let (a, b) = b"ea".as_slice().split_optional(b'+');
    assert_eq!(b"ea".to_vec(), a);
    assert_eq!(None, b);

    // The split is at the first occurrence.
    let (a, b) = b"a-b-c".as_slice().split_optional(b'-');
    assert_eq!(b"a".to_vec(), a);
    assert_eq!(Some(b"b-c".to_vec()), b);
}

#[test]
fn key_sorting() {
    let keys = vec![
        VersionKey::parse(b"21").unwrap(),
        VersionKey::parse(b"8").unwrap(),
        VersionKey::parse(b"17-ea").unwrap(),
        VersionKey::parse(b"17").unwrap(),
    ];
    let sorted = jpre::java_version::key::sort_keys(keys);
    let names: Vec<Vec<u8>> = sorted.iter().map(|k| k.to_bytes()).collect();
    assert_eq!(
        vec![b"8".to_vec(), b"17-ea".to_vec(), b"17".to_vec(), b"21".to_vec()],
        names,
    );
}
